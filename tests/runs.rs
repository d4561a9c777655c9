use fhcleanup::grouping::DirectoryGroups;
use fhcleanup::policy::{
    default_holding_dir, normalize_dir, resolve_directory, resolve_group, Action, Settings,
};
use fhcleanup::tally::{tally, ActionKind, RunCounters};
use fhcleanup::walk::{child_dir, classify_entry, EntryKind, EntryStep};

fn settings(purge: bool, keep_names: bool) -> Settings {
    Settings { recursive: false, purge, keep_names, holding_dir: default_holding_dir() }
}

/// Plans one directory: `files` are the names found there.
fn plan(dir: &str, files: &[&str], settings: &Settings) -> Vec<Action> {
    let mut groups = DirectoryGroups::new(String::from(dir));
    for f in files {
        groups.add_file(f).ok().expect("valid date");
    }
    let mut exists = Vec::new();
    for i in 0..groups.groups.len() {
        let name = &groups.groups[i].canonical_name;
        exists.push(files.iter().any(|f| *f == name.as_str()));
    }
    resolve_directory(&groups, &exists, settings)
}

fn all_succeed(actions: &Vec<Action>) -> RunCounters {
    tally(actions, &vec![true; actions.len()])
}

const FIRST: &str = "report (2023_01_01 10_00_00 UTC).txt";
const SECOND: &str = "report (2023_01_02 10_00_00 UTC).txt";

#[test]
fn scenario_newest_renamed_older_moved() {
    let actions = plan("", &[FIRST, SECOND], &settings(false, false));
    let c = all_succeed(&actions);
    assert_eq!((c.renamed, c.moved, c.deleted), (1, 1, 0));
    assert!(actions.iter().any(|a| matches!(a, Action::Rename { source, target }
        if source == &format!("./{}", SECOND) && target == "./report.txt")));
    assert!(actions.iter().any(|a| matches!(a, Action::Move { source, target_dir, target }
        if source == &format!("./{}", FIRST) && target_dir == "./fhcleanup_to_del/"
            && target == &format!("./fhcleanup_to_del/{}", FIRST))));
}

#[test]
fn scenario_existing_canonical_moves_both() {
    let actions = plan("", &[FIRST, SECOND, "report.txt"], &settings(false, false));
    let c = all_succeed(&actions);
    assert_eq!((c.renamed, c.moved, c.deleted), (0, 2, 0));
}

#[test]
fn scenario_purge_deletes() {
    let actions = plan("", &[FIRST, SECOND], &settings(true, false));
    let c = all_succeed(&actions);
    assert_eq!((c.renamed, c.moved, c.deleted), (1, 0, 1));
    assert!(actions.iter().any(|a| matches!(a, Action::Delete { source }
        if source == &format!("./{}", FIRST))));
}

#[test]
fn scenario_keep_names_moves_all() {
    let actions = plan("", &[SECOND, FIRST], &settings(false, true));
    let c = all_succeed(&actions);
    assert_eq!((c.renamed, c.moved, c.deleted), (0, 2, 0));
}

#[test]
fn scenario_subdirectory_ignored_without_recursion() {
    assert_eq!(classify_entry(EntryKind::Directory, false), EntryStep::Ignore);
    assert_eq!(classify_entry(EntryKind::Directory, true), EntryStep::Descend);
    assert_eq!(classify_entry(EntryKind::File, false), EntryStep::Examine);
    // the root alone is planned: the pair in `sub/` is never read
    let actions = plan("", &[FIRST, SECOND], &settings(false, false));
    let c = all_succeed(&actions);
    assert_eq!((c.renamed, c.moved, c.deleted), (1, 1, 0));
}

#[test]
fn subdirectory_paths_are_kept_under_holding_dir() {
    let sub = child_dir(&String::new(), "sub");
    assert_eq!(sub, "sub/");
    let actions = plan(&sub, &[FIRST, SECOND], &settings(false, false));
    assert!(actions.iter().any(|a| matches!(a, Action::Move { source, target_dir, target }
        if source == &format!("./sub/{}", FIRST) && target_dir == "./fhcleanup_to_del/sub/"
            && target == &format!("./fhcleanup_to_del/sub/{}", FIRST))));
    assert!(actions.iter().any(|a| matches!(a, Action::Rename { target, .. }
        if target == "./sub/report.txt")));
    assert_eq!(child_dir(&sub, "deeper"), "sub/deeper/");
}

#[test]
fn single_revision_is_renamed_in_place() {
    let actions = plan("", &[FIRST], &settings(false, false));
    assert_eq!(actions.len(), 1);
    assert!(matches!(&actions[0], Action::Rename { target, .. } if target == "./report.txt"));
}

#[test]
fn single_revision_with_existing_canonical_is_disposed() {
    let actions = plan("", &[FIRST, "report.txt"], &settings(true, false));
    assert_eq!(actions.len(), 1);
    assert_eq!(actions[0].kind(), ActionKind::Delete);
}

#[test]
fn newest_of_many_is_renamed() {
    let names = [
        "d (2023_03_01 00_00_00 UTC).txt",
        "d (2024_01_01 00_00_00 UTC).txt",
        "d (2023_12_31 23_59_59 UTC).txt",
        "d (2022_01_01 00_00_00 UTC).txt",
    ];
    let actions = plan("", &names, &settings(true, false));
    let renamed: Vec<&Action> = actions.iter().filter(|a| a.kind() == ActionKind::Rename).collect();
    assert_eq!(renamed.len(), 1);
    assert!(matches!(renamed[0], Action::Rename { source, .. }
        if source == "./d (2024_01_01 00_00_00 UTC).txt"));
    assert_eq!(actions.iter().filter(|a| a.kind() == ActionKind::Delete).count(), 3);
}

#[test]
fn equal_timestamps_keep_the_one_found_last() {
    let names = ["a (2023_01_01 10_00_00 UTC).txt", " a(2023_01_01 10_00_00 UTC).txt"];
    let mut groups = DirectoryGroups::new(String::new());
    for n in names {
        assert_eq!(groups.add_file(n).ok(), Some(true));
    }
    assert_eq!(groups.groups.len(), 1);
    let actions = resolve_group(&groups.groups[0], false, &settings(false, false));
    assert!(matches!(&actions[1], Action::Rename { source, .. }
        if source == "./ a(2023_01_01 10_00_00 UTC).txt"));
    assert_eq!(actions[0].kind(), ActionKind::Move);
}

#[test]
fn groups_are_keyed_by_canonical_name() {
    let mut groups = DirectoryGroups::new(String::new());
    assert_eq!(groups.add_file("a (2023_01_01 10_00_00 UTC).txt").ok(), Some(true));
    assert_eq!(groups.add_file("b (2023_01_01 10_00_00 UTC).txt").ok(), Some(true));
    assert_eq!(groups.add_file("a (2023_01_02 10_00_00 UTC).txt").ok(), Some(true));
    assert_eq!(groups.add_file("plain.txt").ok(), Some(false));
    assert!(groups.add_file("a (2023_02_30 10_00_00 UTC).txt").is_err());
    assert_eq!(groups.groups.len(), 2);
    assert_eq!(groups.groups[0].canonical_name, "a.txt");
    assert_eq!(groups.groups[0].records.len(), 2);
    assert_eq!(groups.groups[1].canonical_name, "b.txt");
    assert_eq!(groups.canonical_location(1), "./b.txt");
}

#[test]
fn failed_action_counts_nothing_for_others() {
    let names = [FIRST, SECOND, "other (2023_01_01 10_00_00 UTC).txt"];
    let actions = plan("", &names, &settings(false, false));
    let all = all_succeed(&actions);
    assert_eq!((all.renamed, all.moved, all.deleted), (2, 1, 0));
    let mut ok = vec![true; actions.len()];
    let failed = actions.iter().position(|a| a.kind() == ActionKind::Move).unwrap();
    ok[failed] = false;
    let some = tally(&actions, &ok);
    assert_eq!((some.renamed, some.moved, some.deleted), (2, 0, 0));
}

#[test]
fn counters_record_and_merge() {
    let mut c = RunCounters::new();
    let del = Action::Delete { source: String::from("./x") };
    c.record(&del, true);
    c.record(&del, false);
    assert_eq!((c.renamed, c.moved, c.deleted), (0, 0, 1));
    let mut total = RunCounters { moved: 2, deleted: 0, renamed: 5 };
    total.merge(&c);
    assert_eq!((total.renamed, total.moved, total.deleted), (5, 2, 1));
}

#[test]
fn holding_dir_gets_trailing_separator() {
    assert_eq!(normalize_dir(String::from("trash")), "trash/");
    assert_eq!(normalize_dir(String::from("trash/")), "trash/");
    assert_eq!(normalize_dir(String::new()), "/");
    assert_eq!(default_holding_dir(), "./fhcleanup_to_del/");
}

#[test]
fn failed_action_needs_no_headroom() {
    let mut c = RunCounters { moved: usize::MAX, deleted: 0, renamed: 0 };
    let mv = Action::Move {
        source: String::from("./a"),
        target_dir: String::from("./t/"),
        target: String::from("./t/a"),
    };
    c.record(&mv, false);
    assert_eq!((c.renamed, c.moved, c.deleted), (0, usize::MAX, 0));
}
