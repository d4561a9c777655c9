use vstd::prelude::*;
use crate::name::marker_char_ok;

verus! {

/// A naive timestamp with second precision, as written in a file name marker.
#[derive(Clone, Copy, Debug, PartialEq, Eq, Structural)]
pub struct Timestamp {
    pub year: u32,
    pub month: u32,
    pub day: u32,
    pub hour: u32,
    pub minute: u32,
    pub second: u32,
}

impl Timestamp {
    /// Fields as written in a marker: four digits of year, two of each other field.
    pub open spec fn digit_bounded(self) -> bool {
        self.year <= 9999 && self.month <= 99 && self.day <= 99 && self.hour <= 99
            && self.minute <= 99 && self.second <= 99
    }

    /// The chronological order of two timestamps is the order of this number.
    pub open spec fn order_key(self) -> int {
        ((((self.year as int * 100 + self.month) * 100 + self.day) * 100 + self.hour) * 100
            + self.minute) * 100 + self.second
    }

    /// Executable form of `order_key`.
    pub fn key(&self) -> (r: u64)
        requires
            self.digit_bounded(),
        ensures
            r as int == self.order_key(),
    {
        ((((self.year as u64 * 100 + self.month as u64) * 100 + self.day as u64) * 100
            + self.hour as u64) * 100 + self.minute as u64) * 100 + self.second as u64
    }
}

pub open spec fn is_leap_year(y: int) -> bool {
    y % 4 == 0 && (y % 100 != 0 || y % 400 == 0)
}

pub open spec fn days_in_month(y: int, m: int) -> int {
    if m == 2 {
        if is_leap_year(y) { 29 } else { 28 }
    } else if m == 4 || m == 6 || m == 9 || m == 11 {
        30
    } else {
        31
    }
}

/// A date of the proleptic Gregorian calendar and a time of day; a second of 60
/// stands for a leap second.
pub open spec fn calendar_valid(t: Timestamp) -> bool {
    1 <= t.month <= 12 && 1 <= t.day <= days_in_month(t.year as int, t.month as int)
        && t.hour <= 23 && t.minute <= 59 && t.second <= 60
}


pub open spec fn digit_value(c: char) -> int {
    c as int - '0' as int
}

/// Text of the form `YYYY_MM_DD HH_MM_SS`, as it stands inside a marker.
pub open spec fn date_shape(d: Seq<char>) -> bool {
    d.len() == 19 && forall|k: int| 0 <= k < 19 ==> marker_char_ok(k + 1, #[trigger] d[k])
}

pub open spec fn two_digits(d: Seq<char>, k: int) -> int {
    10 * digit_value(d[k]) + digit_value(d[k + 1])
}

/// The timestamp that date text of `date_shape` spells out.
pub open spec fn date_stamp(d: Seq<char>) -> Timestamp {
    Timestamp {
        year: (100 * two_digits(d, 0) + two_digits(d, 2)) as u32,
        month: two_digits(d, 5) as u32,
        day: two_digits(d, 8) as u32,
        hour: two_digits(d, 11) as u32,
        minute: two_digits(d, 14) as u32,
        second: two_digits(d, 17) as u32,
    }
}

/// Relies on chrono's `NaiveDateTime::parse_from_str` with the format
/// `%Y_%m_%d %H_%M_%S`: on text of that shape it succeeds exactly when the
/// fields form a valid calendar date and time of day (`calendar_valid`).
#[verifier::external_body]
pub(crate) fn parses_as_naive_datetime(date: &str) -> (r: bool)
    requires
        date_shape(date@),
    ensures
        r == calendar_valid(date_stamp(date@)),
{
    chrono::NaiveDateTime::parse_from_str(date, "%Y_%m_%d %H_%M_%S").is_ok()
}

fn two_digits_at(s: &Vec<char>, start: usize, k: usize) -> (r: u32)
    requires
        k + 1 < 19,
        start + 19 <= s.len(),
        date_shape(s@.subrange(start as int, start + 19)),
        k != 4 && k != 7 && k != 10 && k != 13 && k != 16,
        k + 1 != 4 && k + 1 != 7 && k + 1 != 10 && k + 1 != 13 && k + 1 != 16,
    ensures
        r as int == two_digits(s@.subrange(start as int, start + 19), k as int),
        r <= 99,
{
    let ghost d = s@.subrange(start as int, start + 19);
    assert(marker_char_ok(k + 1, d[k as int]));
    assert(marker_char_ok(k + 2, d[k + 1]));
    let hi = s[start + k] as u32 - '0' as u32;
    let lo = s[start + k + 1] as u32 - '0' as u32;
    10 * hi + lo
}

/// The timestamp written in `s[start..start + 19]`.
pub fn read_date(s: &Vec<char>, start: usize) -> (t: Timestamp)
    requires
        start + 19 <= s.len(),
        date_shape(s@.subrange(start as int, start + 19)),
    ensures
        t == date_stamp(s@.subrange(start as int, start + 19)),
        t.digit_bounded(),
{
    Timestamp {
        year: 100 * two_digits_at(s, start, 0) + two_digits_at(s, start, 2),
        month: two_digits_at(s, start, 5),
        day: two_digits_at(s, start, 8),
        hour: two_digits_at(s, start, 11),
        minute: two_digits_at(s, start, 14),
        second: two_digits_at(s, start, 17),
    }
}

} // verus!
