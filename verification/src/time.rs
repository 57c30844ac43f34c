//! A plain civil date-time model: all timestamps in the pipeline are
//! timezone-naive local times, so a date plus a time of day is all the
//! reconciliation logic ever reads.

use vstd::prelude::*;
use vstd::string::StrSliceExecFns;
use vstd::string::StringExecFns;

use crate::strutil::spec_digit_char;

verus! {

#[derive(Clone, Copy, PartialEq, Eq, Structural, Debug)]
pub struct TimeOfDay {
    pub hour: u8,
    pub minute: u8,
    pub second: u8,
}

#[derive(Clone, Copy, PartialEq, Eq, Structural, Debug)]
pub struct Date {
    pub year: u16,
    pub month: u8,
    pub day: u8,
}

#[derive(Clone, Copy, PartialEq, Eq, Structural, Debug)]
pub struct DateTime {
    pub date: Date,
    pub time: TimeOfDay,
}

impl TimeOfDay {
    pub open spec fn wf(self) -> bool {
        self.hour < 24 && self.minute < 60 && self.second < 60
    }
}

pub open spec fn spec_is_leap_year(y: int) -> bool {
    y % 4 == 0 && (y % 100 != 0 || y % 400 == 0)
}

pub open spec fn spec_days_in_month(y: int, m: int) -> int {
    if m == 2 {
        if spec_is_leap_year(y) {
            29
        } else {
            28
        }
    } else if m == 4 || m == 6 || m == 9 || m == 11 {
        30
    } else {
        31
    }
}

pub fn days_in_month(y: u16, m: u8) -> (r: u8)
    ensures
        r as int == spec_days_in_month(y as int, m as int),
{
    if m == 2 {
        if y % 4 == 0 && (y % 100 != 0 || y % 400 == 0) {
            29
        } else {
            28
        }
    } else if m == 4 || m == 6 || m == 9 || m == 11 {
        30
    } else {
        31
    }
}

impl Date {
    pub open spec fn wf(self) -> bool {
        &&& self.year <= 9999
        &&& 1 <= self.month <= 12
        &&& 1 <= self.day <= spec_days_in_month(self.year as int, self.month as int)
    }
}

impl DateTime {
    pub open spec fn wf(self) -> bool {
        self.date.wf() && self.time.wf()
    }

    /// Replaces only the time-of-day component, preserving the calendar date.
    pub fn with_time(self, time: TimeOfDay) -> (r: DateTime)
        ensures
            r == (DateTime { date: self.date, time }),
    {
        DateTime { date: self.date, time }
    }
}

/// Lexicographic order on civil date-times: by year, month, day, then time of
/// day. On well-formed values this is the chronological order.
pub open spec fn spec_dt_le(a: DateTime, b: DateTime) -> bool {
    if a.date.year != b.date.year {
        a.date.year < b.date.year
    } else if a.date.month != b.date.month {
        a.date.month < b.date.month
    } else if a.date.day != b.date.day {
        a.date.day < b.date.day
    } else if a.time.hour != b.time.hour {
        a.time.hour < b.time.hour
    } else if a.time.minute != b.time.minute {
        a.time.minute < b.time.minute
    } else {
        a.time.second <= b.time.second
    }
}

pub proof fn lemma_dt_le_total(a: DateTime, b: DateTime)
    ensures
        spec_dt_le(a, b) || spec_dt_le(b, a),
        spec_dt_le(a, b) && spec_dt_le(b, a) ==> a == b,
{
}

pub fn datetime_le(a: &DateTime, b: &DateTime) -> (r: bool)
    ensures
        r == spec_dt_le(*a, *b),
{
    if a.date.year != b.date.year {
        a.date.year < b.date.year
    } else if a.date.month != b.date.month {
        a.date.month < b.date.month
    } else if a.date.day != b.date.day {
        a.date.day < b.date.day
    } else if a.time.hour != b.time.hour {
        a.time.hour < b.time.hour
    } else if a.time.minute != b.time.minute {
        a.time.minute < b.time.minute
    } else {
        a.time.second <= b.time.second
    }
}

pub open spec fn spec_is_digit(c: char) -> bool {
    48 <= c as u32 <= 57
}

pub open spec fn spec_digit_val(c: char) -> int {
    c as u32 - 48
}

/// The number read from two decimal digit characters at `i`.
pub open spec fn spec_two_digits(s: Seq<char>, i: int) -> int {
    spec_digit_val(s[i]) * 10 + spec_digit_val(s[i + 1])
}

pub open spec fn spec_four_digits(s: Seq<char>, i: int) -> int {
    spec_two_digits(s, i) * 100 + spec_two_digits(s, i + 2)
}

fn digit_val(c: char) -> (r: Option<u8>)
    ensures
        r is Some <==> spec_is_digit(c),
        r is Some ==> r->0 as int == spec_digit_val(c) && r->0 < 10,
{
    let v = c as u32;
    if 48 <= v && v <= 57 {
        Some((v - 48) as u8)
    } else {
        None
    }
}

fn two_digits(s: &str, i: usize) -> (r: Option<u8>)
    requires
        i + 2 <= s@.len(),
        i + 2 <= usize::MAX,
    ensures
        r is Some <==> spec_is_digit(s@[i as int]) && spec_is_digit(s@[i + 1]),
        r is Some ==> r->0 as int == spec_two_digits(s@, i as int) && r->0 <= 99,
{
    let hi = digit_val(s.get_char(i));
    let lo = digit_val(s.get_char(i + 1));
    match (hi, lo) {
        (Some(h), Some(l)) => Some(h * 10 + l),
        _ => None,
    }
}

/// The fixed `YYYY-MM-DDTHH:MM:SS` layout: digits in the component
/// positions, the separators in theirs.
pub open spec fn spec_datetime_shape(s: Seq<char>) -> bool {
    &&& spec_is_digit(s[0])
    &&& spec_is_digit(s[1])
    &&& spec_is_digit(s[2])
    &&& spec_is_digit(s[3])
    &&& s[4] == '-'
    &&& spec_is_digit(s[5])
    &&& spec_is_digit(s[6])
    &&& s[7] == '-'
    &&& spec_is_digit(s[8])
    &&& spec_is_digit(s[9])
    &&& s[10] == 'T'
    &&& spec_is_digit(s[11])
    &&& spec_is_digit(s[12])
    &&& s[13] == ':'
    &&& spec_is_digit(s[14])
    &&& spec_is_digit(s[15])
    &&& s[16] == ':'
    &&& spec_is_digit(s[17])
    &&& spec_is_digit(s[18])
}

/// A valid trailing timezone suffix: none, `Z`, or `+HH:MM` / `-HH:MM`.
pub open spec fn spec_offset_shape(s: Seq<char>) -> bool {
    if s.len() == 19 {
        true
    } else if s.len() == 20 {
        s[19] == 'Z'
    } else if s.len() == 25 {
        &&& (s[19] == '+' || s[19] == '-')
        &&& spec_is_digit(s[20])
        &&& spec_is_digit(s[21])
        &&& s[22] == ':'
        &&& spec_is_digit(s[23])
        &&& spec_is_digit(s[24])
        &&& spec_two_digits(s, 20) < 24
        &&& spec_two_digits(s, 23) < 60
    } else {
        false
    }
}

/// The date-time denoted by an ISO-8601 timestamp `YYYY-MM-DDTHH:MM:SS`,
/// optionally followed by `Z` or a `+HH:MM` / `-HH:MM` offset. All timestamps
/// are interpreted in one fixed civil timezone, so the local clock reading is
/// taken as it stands and the offset only has to be well-formed. `None` for
/// any other shape, or when a component is out of range.
pub open spec fn spec_parse_datetime(s: Seq<char>) -> Option<DateTime> {
    if s.len() >= 19 && spec_datetime_shape(s) && spec_offset_shape(s) {
        let dt = DateTime {
            date: Date {
                year: spec_four_digits(s, 0) as u16,
                month: spec_two_digits(s, 5) as u8,
                day: spec_two_digits(s, 8) as u8,
            },
            time: TimeOfDay {
                hour: spec_two_digits(s, 11) as u8,
                minute: spec_two_digits(s, 14) as u8,
                second: spec_two_digits(s, 17) as u8,
            },
        };
        if dt.wf() {
            Some(dt)
        } else {
            None
        }
    } else {
        None
    }
}

pub fn parse_datetime(s: &str) -> (r: Option<DateTime>)
    ensures
        r == spec_parse_datetime(s@),
        r is Some ==> r->0.wf(),
{
    let len = s.unicode_len();
    if len < 19 {
        return None;
    }
    if !(len == 19 || len == 20 || len == 25) {
        return None;
    }
    if len == 20 && s.get_char(19) != 'Z' {
        return None;
    }
    if len == 25 {
        let sign = s.get_char(19);
        if sign != '+' && sign != '-' {
            return None;
        }
        if s.get_char(22) != ':' {
            return None;
        }
        let oh = two_digits(s, 20);
        let om = two_digits(s, 23);
        match (oh, om) {
            (Some(h), Some(m)) => {
                if h >= 24 || m >= 60 {
                    return None;
                }
            },
            _ => {
                return None;
            },
        }
    }
    if s.get_char(4) != '-' || s.get_char(7) != '-' || s.get_char(10) != 'T' || s.get_char(13)
        != ':' || s.get_char(16) != ':' {
        return None;
    }
    let y_hi = two_digits(s, 0);
    let y_lo = two_digits(s, 2);
    let mo = two_digits(s, 5);
    let d = two_digits(s, 8);
    let h = two_digits(s, 11);
    let mi = two_digits(s, 14);
    let sec = two_digits(s, 17);
    match (y_hi, y_lo, mo, d, h, mi, sec) {
        (Some(yh), Some(yl), Some(mo), Some(d), Some(h), Some(mi), Some(sec)) => {
            let year: u16 = yh as u16 * 100 + yl as u16;
            let dt = DateTime {
                date: Date { year, month: mo, day: d },
                time: TimeOfDay { hour: h, minute: mi, second: sec },
            };
            if 1 <= mo && mo <= 12 && 1 <= d && d <= days_in_month(year, mo) && h < 24 && mi < 60
                && sec < 60 {
                Some(dt)
            } else {
                None
            }
        },
        _ => None,
    }
}

/// The time of day denoted by `HH:MM` or `HH:MM:SS`, with components in
/// range; `None` for any other shape.
pub open spec fn spec_parse_time(s: Seq<char>) -> Option<TimeOfDay> {
    if (s.len() == 5 || s.len() == 8) && spec_is_digit(s[0]) && spec_is_digit(s[1]) && s[2] == ':'
        && spec_is_digit(s[3]) && spec_is_digit(s[4]) && (s.len() == 5 || (s[5] == ':'
        && spec_is_digit(s[6]) && spec_is_digit(s[7]))) {
        let t = TimeOfDay {
            hour: spec_two_digits(s, 0) as u8,
            minute: spec_two_digits(s, 3) as u8,
            second: if s.len() == 8 {
                spec_two_digits(s, 6) as u8
            } else {
                0
            },
        };
        if t.wf() {
            Some(t)
        } else {
            None
        }
    } else {
        None
    }
}

pub fn parse_time(s: &str) -> (r: Option<TimeOfDay>)
    ensures
        r == spec_parse_time(s@),
        r is Some ==> r->0.wf(),
{
    let len = s.unicode_len();
    if len != 5 && len != 8 {
        return None;
    }
    if s.get_char(2) != ':' {
        return None;
    }
    let h = two_digits(s, 0);
    let mi = two_digits(s, 3);
    let sec: Option<u8> = if len == 8 {
        if s.get_char(5) != ':' {
            return None;
        }
        two_digits(s, 6)
    } else {
        Some(0)
    };
    match (h, mi, sec) {
        (Some(h), Some(mi), Some(sec)) => {
            let t = TimeOfDay { hour: h, minute: mi, second: sec };
            if h < 24 && mi < 60 && sec < 60 {
                Some(t)
            } else {
                None
            }
        },
        _ => None,
    }
}

/// The two decimal digits of `n` (taken modulo 100).
pub open spec fn spec_two_digit_chars(n: int) -> Seq<char> {
    seq![spec_digit_char((n / 10 % 10) as nat), spec_digit_char((n % 10) as nat)]
}

pub open spec fn spec_four_digit_chars(n: int) -> Seq<char> {
    spec_two_digit_chars(n / 100 % 100) + spec_two_digit_chars(n % 100)
}

/// The compact rendering `YYYYMMDDTHHMMSS` of a date-time; on a well-formed
/// value every component is shown in full.
pub open spec fn spec_datetime_compact(dt: DateTime) -> Seq<char> {
    spec_four_digit_chars(dt.date.year as int) + spec_two_digit_chars(dt.date.month as int % 100)
        + spec_two_digit_chars(dt.date.day as int % 100) + seq!['T'] + spec_two_digit_chars(
        dt.time.hour as int % 100,
    ) + spec_two_digit_chars(dt.time.minute as int % 100) + spec_two_digit_chars(
        dt.time.second as int % 100,
    )
}

fn push_two_digits(out: &mut String, n: u8)
    requires
        n < 100,
    ensures
        final(out)@ == old(out)@ + spec_two_digit_chars(n as int),
{
    let digits = crate::strutil::u64_to_string(n as u64);
    if n < 10 {
        out.append("0");
        proof {
            reveal_strlit("0");
        }
    }
    out.append(digits.as_str());
    proof {
        if n < 10 {
            assert(out@ =~= old(out)@ + spec_two_digit_chars(n as int));
        } else {
            assert(crate::strutil::spec_nat_digits((n / 10) as nat) =~= seq![
                spec_digit_char((n as int / 10) as nat),
            ]);
            assert(crate::strutil::spec_nat_digits(n as nat) =~= spec_two_digit_chars(n as int));
            assert(out@ =~= old(out)@ + spec_two_digit_chars(n as int));
        }
    }
}

pub fn push_datetime_compact(out: &mut String, dt: &DateTime)
    ensures
        final(out)@ == old(out)@ + spec_datetime_compact(*dt),
{
    push_two_digits(out, ((dt.date.year / 100) % 100) as u8);
    push_two_digits(out, (dt.date.year % 100) as u8);
    push_two_digits(out, dt.date.month % 100);
    push_two_digits(out, dt.date.day % 100);
    out.append("T");
    proof {
        reveal_strlit("T");
    }
    push_two_digits(out, dt.time.hour % 100);
    push_two_digits(out, dt.time.minute % 100);
    push_two_digits(out, dt.time.second % 100);
    proof {
        assert(out@ =~= old(out)@ + spec_datetime_compact(*dt));
    }
}

} // verus!
