use vstd::prelude::*;
use crate::stamp::{Timestamp, calendar_valid, date_shape, date_stamp, parses_as_naive_datetime, read_date};

verus! {

/// Length of a marker `(YYYY_MM_DD HH_MM_SS UTC).`, the dot that follows it included.
pub const MARKER_LEN: usize = 26;

pub open spec fn is_digit(c: char) -> bool {
    '0' <= c && c <= '9'
}

/// What the character at offset `k` of a marker must be.
pub open spec fn marker_char_ok(k: int, c: char) -> bool {
    if k == 0 {
        c == '('
    } else if k == 5 || k == 8 || k == 14 || k == 17 {
        c == '_'
    } else if k == 11 || k == 20 {
        c == ' '
    } else if k == 21 {
        c == 'U'
    } else if k == 22 {
        c == 'T'
    } else if k == 23 {
        c == 'C'
    } else if k == 24 {
        c == ')'
    } else if k == 25 {
        c == '.'
    } else {
        is_digit(c)
    }
}

/// A marker starts at position `i` of `s`.
pub open spec fn marker_at(s: Seq<char>, i: int) -> bool {
    0 <= i && i + MARKER_LEN <= s.len() && forall|k: int|
        0 <= k < MARKER_LEN ==> marker_char_ok(k, #[trigger] s[i + k])
}

pub open spec fn has_marker(s: Seq<char>) -> bool {
    exists|i: int| marker_at(s, i)
}

/// The first marker that starts at `i` or later.
pub open spec fn find_from(s: Seq<char>, i: int) -> Option<int>
    decreases s.len() - i,
{
    if i < 0 || i + MARKER_LEN > s.len() {
        None
    } else if marker_at(s, i) {
        Some(i)
    } else {
        find_from(s, i + 1)
    }
}

/// The last marker that starts before `n`.
pub open spec fn find_back(s: Seq<char>, n: int) -> Option<int>
    decreases n,
{
    if n <= 0 {
        None
    } else if marker_at(s, n - 1) {
        Some(n - 1)
    } else {
        find_back(s, n - 1)
    }
}

pub open spec fn last_marker(s: Seq<char>) -> Option<int> {
    find_back(s, s.len() as int)
}


/// Whether `c` is white space in the sense of Unicode's `White_Space` property.
pub open spec fn white_space(c: char) -> bool {
    ('\u{9}' <= c && c <= '\u{d}') || c == ' ' || c == '\u{85}' || c == '\u{a0}' || c == '\u{1680}'
        || ('\u{2000}' <= c && c <= '\u{200a}') || c == '\u{2028}' || c == '\u{2029}'
        || c == '\u{202f}' || c == '\u{205f}' || c == '\u{3000}'
}

/// First position from `lo` on, before `hi`, that does not hold white space.
pub open spec fn lead(s: Seq<char>, lo: int, hi: int) -> int
    decreases hi - lo,
{
    if lo < hi && white_space(s[lo]) {
        lead(s, lo + 1, hi)
    } else {
        lo
    }
}

/// End of `s[lo..hi]` once trailing white space is cut off.
pub open spec fn trail(s: Seq<char>, lo: int, hi: int) -> int
    decreases hi - lo,
{
    if lo < hi && white_space(s[hi - 1]) {
        trail(s, lo, hi - 1)
    } else {
        hi
    }
}

/// `s[lo..hi]` without its surrounding white space.
pub open spec fn trimmed(s: Seq<char>, lo: int, hi: int) -> Seq<char> {
    s.subrange(lead(s, lo, hi), trail(s, lead(s, lo, hi), hi))
}

/// The canonical form of `s[i..]`: each fragment before a marker, trimmed, then
/// a dot and the text after the last marker.
pub open spec fn canon_from(s: Seq<char>, i: int) -> Seq<char>
    decreases s.len() - i,
{
    match find_from(s, i) {
        Some(j) => if 0 <= i <= j && j + MARKER_LEN <= s.len() {
            trimmed(s, i, j) + canon_from(s, j + MARKER_LEN)
        } else {
            Seq::empty()
        },
        None => seq!['.'] + s.subrange(i, s.len() as int),
    }
}

/// The name with every marker taken out (meaningful where it has one).
pub open spec fn canonical_name(s: Seq<char>) -> Seq<char> {
    canon_from(s, 0)
}

/// A name is left as it is unless it carries a marker.
pub open spec fn canonicalize(s: Seq<char>) -> Seq<char> {
    if has_marker(s) {
        canonical_name(s)
    } else {
        s
    }
}

pub proof fn lemma_find_from(s: Seq<char>, i: int)
    requires
        0 <= i,
    ensures
        match find_from(s, i) {
            Some(j) => i <= j && marker_at(s, j) && forall|k: int| i <= k < j ==> !marker_at(s, k),
            None => forall|k: int| i <= k ==> !marker_at(s, k),
        },
    decreases s.len() - i,
{
    if i + MARKER_LEN > s.len() {
    } else if marker_at(s, i) {
    } else {
        lemma_find_from(s, i + 1);
    }
}

pub proof fn lemma_find_back(s: Seq<char>, n: int)
    ensures
        match find_back(s, n) {
            Some(j) => 0 <= j < n && marker_at(s, j) && forall|k: int| j < k < n ==> !marker_at(s, k),
            None => forall|k: int| k < n ==> !marker_at(s, k),
        },
    decreases n,
{
    if n <= 0 {
    } else if marker_at(s, n - 1) {
    } else {
        lemma_find_back(s, n - 1);
    }
}

/// A name carries a marker exactly when a last one can be found.
pub proof fn lemma_last_marker(s: Seq<char>)
    ensures
        has_marker(s) <==> last_marker(s) is Some,
        match last_marker(s) {
            Some(j) => marker_at(s, j),
            None => true,
        },
{
    lemma_find_back(s, s.len() as int);
    if has_marker(s) {
        let k = choose|k: int| marker_at(s, k);
        assert(k < s.len());
    }
}

proof fn lemma_trim_bounds(s: Seq<char>, lo: int, hi: int)
    requires
        lo <= hi,
    ensures
        lo <= lead(s, lo, hi) <= hi,
        lo <= trail(s, lo, hi) <= hi,
    decreases hi - lo,
{
    if lo < hi {
        lemma_trim_bounds(s, lo + 1, hi);
        lemma_trim_bounds(s, lo, hi - 1);
    }
}

/// Length bounds of `canon_from`: at most one more than the text it reads, and
/// a marker at `i` or later costs at least twenty-five characters.
proof fn lemma_canon_len(s: Seq<char>, i: int)
    requires
        0 <= i <= s.len(),
    ensures
        canon_from(s, i).len() <= s.len() - i + 1,
        find_from(s, i) is Some ==> canon_from(s, i).len() <= s.len() - i - 25,
    decreases s.len() - i,
{
    lemma_find_from(s, i);
    match find_from(s, i) {
        Some(j) => {
            lemma_trim_bounds(s, i, j);
            lemma_trim_bounds(s, lead(s, i, j), j);
            lemma_canon_len(s, j + MARKER_LEN);
        },
        None => {},
    }
}

/// A name without a marker is left untouched.
pub proof fn law_unmarked_name_unchanged(s: Seq<char>)
    requires
        !has_marker(s),
    ensures
        canonicalize(s) == s,
{
}

/// Canonicalizing a second time changes nothing exactly when the first result
/// carries no marker; a result with a marker would lose it and shrink.
pub proof fn law_canonicalize_idempotent(s: Seq<char>)
    ensures
        canonicalize(canonicalize(s)) == canonicalize(s) <==> !has_marker(canonicalize(s)),
{
    let c = canonicalize(s);
    if has_marker(c) {
        let k = choose|k: int| marker_at(c, k);
        lemma_find_from(c, 0);
        lemma_canon_len(c, 0);
        assert(canonicalize(c).len() < c.len());
    }
}

/// Relies on `char::is_whitespace`: Unicode's `White_Space` property of `c`, the
/// twenty-five code points that `white_space` lists.
#[verifier::external_body]
fn is_white_space(c: char) -> (r: bool)
    ensures
        r == white_space(c),
{
    c.is_whitespace()
}

/// Whether `c` may stand at offset `k` of a marker.
pub fn marker_char_matches(k: usize, c: char) -> (r: bool)
    requires
        k < MARKER_LEN,
    ensures
        r == marker_char_ok(k as int, c),
{
    if k == 0 {
        c == '('
    } else if k == 5 || k == 8 || k == 14 || k == 17 {
        c == '_'
    } else if k == 11 || k == 20 {
        c == ' '
    } else if k == 21 {
        c == 'U'
    } else if k == 22 {
        c == 'T'
    } else if k == 23 {
        c == 'C'
    } else if k == 24 {
        c == ')'
    } else if k == 25 {
        c == '.'
    } else {
        '0' <= c && c <= '9'
    }
}

/// Whether a marker starts at position `i` of `s`.
pub fn marker_starts_at(s: &Vec<char>, i: usize) -> (r: bool)
    ensures
        r == marker_at(s@, i as int),
{
    if i > s.len() || s.len() - i < MARKER_LEN {
        return false;
    }
    let mut k: usize = 0;
    while k < MARKER_LEN
        invariant
            k <= MARKER_LEN,
            i + MARKER_LEN <= s.len(),
            forall|m: int| 0 <= m < k ==> marker_char_ok(m, #[trigger] s@[i + m]),
        decreases MARKER_LEN - k,
    {
        if !marker_char_matches(k, s[i + k]) {
            return false;
        }
        k += 1;
    }
    true
}

/// The first marker of `s` that starts at `i` or later.
pub fn find_marker_from(s: &Vec<char>, i: usize) -> (r: Option<usize>)
    ensures
        match r {
            Some(j) => find_from(s@, i as int) == Some(j as int),
            None => find_from(s@, i as int) is None,
        },
{
    let mut k: usize = i;
    while k <= s.len() && s.len() - k >= MARKER_LEN
        invariant
            i <= k,
            find_from(s@, k as int) == find_from(s@, i as int),
        decreases s.len() - k,
    {
        if marker_starts_at(s, k) {
            return Some(k);
        }
        k += 1;
    }
    None
}

/// The last marker of `s`.
pub fn find_last_marker(s: &Vec<char>) -> (r: Option<usize>)
    ensures
        match r {
            Some(j) => last_marker(s@) == Some(j as int),
            None => last_marker(s@) is None,
        },
{
    let mut n: usize = s.len();
    while n > 0
        invariant
            n <= s.len(),
            find_back(s@, n as int) == last_marker(s@),
        decreases n,
    {
        if marker_starts_at(s, n - 1) {
            return Some(n - 1);
        }
        n -= 1;
    }
    None
}

/// The characters of `s`, one by one.
pub fn chars_of(s: &str) -> (r: Vec<char>)
    ensures
        r@ == s@,
{
    let n = s.unicode_len();
    let mut r: Vec<char> = Vec::new();
    let mut i: usize = 0;
    while i < n
        invariant
            n == s@.len(),
            i <= n,
            r@ == s@.subrange(0, i as int),
        decreases n - i,
    {
        r.push(s.get_char(i));
        i += 1;
        assert(r@ =~= s@.subrange(0, i as int));
    }
    assert(r@ =~= s@);
    r
}

/// Bounds of `s[lo..hi]` without its surrounding white space.
fn trim_bounds(s: &Vec<char>, lo: usize, hi: usize) -> (r: (usize, usize))
    requires
        lo <= hi <= s.len(),
    ensures
        r.0 as int == lead(s@, lo as int, hi as int),
        r.1 as int == trail(s@, r.0 as int, hi as int),
        lo <= r.0 <= r.1 <= hi,
{
    let mut a: usize = lo;
    while a < hi && is_white_space(s[a])
        invariant
            lo <= a <= hi <= s.len(),
            lead(s@, a as int, hi as int) == lead(s@, lo as int, hi as int),
        decreases hi - a,
    {
        a += 1;
    }
    let mut b: usize = hi;
    while b > a && is_white_space(s[b - 1])
        invariant
            lo <= a <= b <= hi <= s.len(),
            trail(s@, a as int, b as int) == trail(s@, a as int, hi as int),
        decreases b - a,
    {
        b -= 1;
    }
    (a, b)
}

/// The canonical form of `name`, whose characters are `s`.
fn canonical_of(name: &str, s: &Vec<char>) -> (r: String)
    requires
        s@ == name@,
    ensures
        r@ == canonical_name(name@),
{
    let mut out = String::new();
    let mut i: usize = 0;
    loop
        invariant
            s@ == name@,
            i <= s.len(),
            out@ + canon_from(s@, i as int) == canon_from(s@, 0),
        decreases s.len() - i,
    {
        match find_marker_from(s, i) {
            Some(j) => {
                proof {
                    lemma_find_from(s@, i as int);
                }
                let (a, b) = trim_bounds(s, i, j);
                let piece = name.substring_char(a, b);
                let ghost prev = out@;
                out.append(piece);
                assert(canon_from(s@, i as int) == trimmed(s@, i as int, j as int) + canon_from(
                    s@,
                    j + MARKER_LEN,
                ));
                assert(out@ + canon_from(s@, j + MARKER_LEN) =~= prev + canon_from(s@, i as int));
                i = j + MARKER_LEN;
            },
            None => {
                let ghost prev = out@;
                proof {
                    reveal_strlit(".");
                }
                out.append(".");
                let rest = name.substring_char(i, s.len());
                out.append(rest);
                assert(out@ =~= prev + canon_from(s@, i as int));
                return out;
            },
        }
    }
}

/// The date text of the marker that starts at `j`.
pub open spec fn date_at(s: Seq<char>, j: int) -> Seq<char> {
    s.subrange(j + 1, j + 20)
}

/// The date text of the last marker of `s`.
pub open spec fn marker_date(s: Seq<char>) -> Seq<char> {
    match last_marker(s) {
        Some(j) => date_at(s, j),
        None => Seq::empty(),
    }
}

/// The timestamp of the last marker of `s`.
pub open spec fn marker_stamp(s: Seq<char>) -> Timestamp {
    date_stamp(marker_date(s))
}

/// A file name with a marker, read.
pub struct MarkedName {
    /// The timestamp of the last marker.
    pub timestamp: Timestamp,
    /// The name with every marker taken out.
    pub canonical_name: String,
}

/// The digits of a marker do not form a valid date and time.
pub struct InvalidStamp {
    pub date: String,
}

proof fn lemma_marker_date_shape(s: Seq<char>, j: int)
    requires
        marker_at(s, j),
    ensures
        date_shape(date_at(s, j)),
{
    let d = date_at(s, j);
    assert forall|k: int| 0 <= k < 19 implies marker_char_ok(k + 1, #[trigger] d[k]) by {
        assert(d[k] == s[j + (k + 1)]);
    }
}

/// Reads a file name: `Ok(None)` for a name without a marker, which is left
/// alone; otherwise the timestamp of its last marker and its canonical name, or
/// `InvalidStamp` where that timestamp is no valid date and time.
pub fn extract(name: &str) -> (r: Result<Option<MarkedName>, InvalidStamp>)
    ensures
        match r {
            Ok(None) => !has_marker(name@),
            Ok(Some(m)) => has_marker(name@) && calendar_valid(marker_stamp(name@))
                && m.timestamp == marker_stamp(name@) && m.timestamp.digit_bounded()
                && m.canonical_name@ == canonical_name(name@),
            Err(e) => has_marker(name@) && !calendar_valid(marker_stamp(name@)) && e.date@
                == marker_date(name@),
        },
{
    let s = chars_of(name);
    proof {
        lemma_last_marker(s@);
    }
    match find_last_marker(&s) {
        None => Ok(None),
        Some(j) => {
            proof {
                assert(marker_at(s@, j as int));
                assert(j + MARKER_LEN <= s.len());
                lemma_marker_date_shape(s@, j as int);
            }
            let date = name.substring_char(j + 1, j + 20);
            let t = read_date(&s, j + 1);
            if parses_as_naive_datetime(date) {
                let canonical_name = canonical_of(name, &s);
                Ok(Some(MarkedName { timestamp: t, canonical_name }))
            } else {
                Err(InvalidStamp { date: String::from_str(date) })
            }
        },
    }
}

} // verus!
