//! Timestamps: the civil date-time model, RFC 3339 text, and conversion to
//! the process's local zone.

use vstd::prelude::*;

use crate::text::{digit_char, digit_str, digit_val, is_digit_char, lemma_digit_char_val};
use chrono::{Datelike, TimeZone, Timelike};
use vstd::arithmetic::div_mod::{
    lemma_div_denominator, lemma_fundamental_div_mod, lemma_fundamental_div_mod_converse,
};

verus! {

/// A civil date-time with a UTC offset, as RFC 3339 writes it.
#[derive(Debug, Clone, Copy, PartialEq, Eq, Structural)]
pub struct Timestamp {
    pub year: u32,
    pub month: u32,
    pub day: u32,
    pub hour: u32,
    pub minute: u32,
    pub second: u32,
    /// Offset of the civil fields from UTC, in minutes east.
    pub offset_minutes: i32,
}

pub open spec fn is_leap_year(y: int) -> bool {
    (y % 4 == 0 && y % 100 != 0) || y % 400 == 0
}

pub open spec fn spec_days_in_month(y: int, m: int) -> int {
    if m == 2 {
        if is_leap_year(y) {
            29
        } else {
            28
        }
    } else if m == 4 || m == 6 || m == 9 || m == 11 {
        30
    } else {
        31
    }
}

impl Timestamp {
    /// A well-formed timestamp: a real calendar date, a time of day, and an
    /// offset below one day, all within what four-digit years can write.
    pub open spec fn wf(self) -> bool {
        &&& self.year <= 9999
        &&& 1 <= self.month <= 12
        &&& 1 <= self.day <= spec_days_in_month(self.year as int, self.month as int)
        &&& self.hour <= 23
        &&& self.minute <= 59
        &&& self.second <= 59
        &&& -1439 <= self.offset_minutes <= 1439
    }

    /// Decide whether the timestamp is well-formed.
    pub fn check_wf(&self) -> (r: bool)
        ensures
            r == self.wf(),
    {
        if !(1 <= self.month && self.month <= 12) {
            return false;
        }
        self.year <= 9999 && 1 <= self.day && self.day <= days_in_month(self.year, self.month)
            && self.hour <= 23 && self.minute <= 59 && self.second <= 59
            && -1439 <= self.offset_minutes && self.offset_minutes <= 1439
    }
}

/// Seconds since 1970-01-01T00:00:00Z of the instant that the civil fields
/// denote, on the proleptic Gregorian calendar.
pub open spec fn epoch_of_parts(y: int, m: int, d: int, hh: int, mi: int, ss: int, off_secs: int) -> int {
    let yy = if m <= 2 {
        y - 1
    } else {
        y
    };
    let era = yy / 400;
    let yoe = yy - era * 400;
    let mp = if m > 2 {
        m - 3
    } else {
        m + 9
    };
    let doy = (153 * mp + 2) / 5 + d - 1;
    let doe = yoe * 365 + yoe / 4 - yoe / 100 + doy;
    let days = era * 146097 + doe - 719468;
    days * 86400 + hh * 3600 + mi * 60 + ss - off_secs
}

/// The instant a timestamp denotes, in seconds since the epoch.
pub open spec fn epoch_of(t: Timestamp) -> int {
    epoch_of_parts(
        t.year as int,
        t.month as int,
        t.day as int,
        t.hour as int,
        t.minute as int,
        t.second as int,
        t.offset_minutes as int * 60,
    )
}

/// Days of the month, on the proleptic Gregorian calendar.
pub fn days_in_month(y: u32, m: u32) -> (r: u32)
    requires
        1 <= m <= 12,
    ensures
        r == spec_days_in_month(y as int, m as int),
{
    if m == 2 {
        if (y % 4 == 0 && y % 100 != 0) || y % 400 == 0 {
            29
        } else {
            28
        }
    } else if m == 4 || m == 6 || m == 9 || m == 11 {
        30
    } else {
        31
    }
}

/// How many decimal digits stand at position `i` and after it.
pub open spec fn frac_digits(s: Seq<char>, i: int) -> int
    decreases s.len() - i,
{
    if i < 0 || i >= s.len() || !is_digit_char(s[i]) {
        0
    } else {
        1 + frac_digits(s, i + 1)
    }
}

/// A run of exactly `c` digits starts at position `i`.
pub proof fn lemma_frac_count(s: Seq<char>, i: int, c: int)
    requires
        0 <= i,
        0 <= c,
        i + c <= s.len(),
        forall|j: int| i <= j < i + c ==> is_digit_char(s[j]),
        i + c == s.len() || !is_digit_char(s[i + c]),
    ensures
        frac_digits(s, i) == c,
    decreases c,
{
    if c > 0 {
        lemma_frac_count(s, i + 1, c - 1);
    }
}

pub open spec fn dig2(s: Seq<char>, i: int) -> bool {
    is_digit_char(s[i]) && is_digit_char(s[i + 1])
}

pub open spec fn two_val(s: Seq<char>, i: int) -> int {
    10 * digit_val(s[i]) + digit_val(s[i + 1])
}

/// What parsing the text as an RFC 3339 date-time yields: `YYYY-MM-DDTHH:MM:SS`,
/// an optional fraction (read and discarded), then `Z` or a signed `HH:MM`
/// offset; `None` on any other shape, on a field out of range, or on a day
/// that the month does not have.  A leap second (second `60`) folds to the
/// last ordinary second of its minute.
pub open spec fn spec_parse_rfc3339(s: Seq<char>) -> Option<Timestamp> {
    if s.len() < 20 {
        None
    } else if !(is_digit_char(s[0]) && is_digit_char(s[1]) && is_digit_char(s[2])
        && is_digit_char(s[3]) && s[4] == '-' && dig2(s, 5) && s[7] == '-' && dig2(s, 8) && (s[10]
        == 'T' || s[10] == 't') && dig2(s, 11) && s[13] == ':' && dig2(s, 14) && s[16] == ':'
        && dig2(s, 17)) {
        None
    } else if s[19] == '.' && frac_digits(s, 20) == 0 {
        None
    } else {
        let p = if s[19] == '.' {
            20 + frac_digits(s, 20)
        } else {
            19
        };
        let year = 1000 * digit_val(s[0]) + 100 * digit_val(s[1]) + 10 * digit_val(s[2])
            + digit_val(s[3]);
        let month = two_val(s, 5);
        let day = two_val(s, 8);
        let hour = two_val(s, 11);
        let minute = two_val(s, 14);
        let second = if two_val(s, 17) == 60 {
            59
        } else {
            two_val(s, 17)
        };
        if !(1 <= month <= 12 && 1 <= day <= spec_days_in_month(year, month) && hour <= 23
            && minute <= 59 && second <= 59) {
            None
        } else if p + 1 == s.len() && (s[p] == 'Z' || s[p] == 'z') {
            Some(
                Timestamp {
                    year: year as u32,
                    month: month as u32,
                    day: day as u32,
                    hour: hour as u32,
                    minute: minute as u32,
                    second: second as u32,
                    offset_minutes: 0,
                },
            )
        } else if p + 6 == s.len() && (s[p] == '+' || s[p] == '-') && dig2(s, p + 1) && s[p + 3]
            == ':' && dig2(s, p + 4) && two_val(s, p + 1) <= 23 && two_val(s, p + 4) <= 59 {
            Some(
                Timestamp {
                    year: year as u32,
                    month: month as u32,
                    day: day as u32,
                    hour: hour as u32,
                    minute: minute as u32,
                    second: second as u32,
                    offset_minutes: (if s[p] == '-' {
                        -(two_val(s, p + 1) * 60 + two_val(s, p + 4))
                    } else {
                        two_val(s, p + 1) * 60 + two_val(s, p + 4)
                    }) as i32,
                },
            )
        } else {
            None
        }
    }
}

/// Every timestamp the parser accepts is well-formed.
pub proof fn lemma_parse_rfc3339_wf(s: Seq<char>)
    ensures
        spec_parse_rfc3339(s) matches Some(t) ==> t.wf(),
{
}

/// The digit value at position `i`, or `None` where no digit stands.
fn digit_at(s: &str, i: usize) -> (r: Option<u32>)
    requires
        i < s@.len(),
    ensures
        r matches Some(d) ==> is_digit_char(s@[i as int]) && d == digit_val(s@[i as int]) && d <= 9,
        r is None ==> !is_digit_char(s@[i as int]),
{
    let c = s.get_char(i);
    let u = c as u32;
    if 48 <= u && u <= 57 {
        Some(u - 48)
    } else {
        None
    }
}

/// The value of the two digits at positions `i` and `i + 1`, if digits they are.
fn two_at(s: &str, i: usize) -> (r: Option<u32>)
    requires
        i + 2 <= s@.len(),
        s@.len() <= usize::MAX,
    ensures
        r matches Some(v) ==> dig2(s@, i as int) && v == two_val(s@, i as int) && v <= 99,
        r is None ==> !dig2(s@, i as int),
{
    match (digit_at(s, i), digit_at(s, i + 1)) {
        (Some(a), Some(b)) => Some(10 * a + b),
        _ => None,
    }
}

/// Whether a decimal digit stands at position `j`.
pub(crate) fn digit_at_is_some(s: &str, j: usize) -> (r: bool)
    requires
        j < s@.len(),
    ensures
        r == is_digit_char(s@[j as int]),
{
    let c = s.get_char(j);
    let u = c as u32;
    48 <= u && u <= 57
}

/// Parse the text as an RFC 3339 date-time.
pub fn parse_rfc3339(s: &str) -> (r: Option<Timestamp>)
    ensures
        r == spec_parse_rfc3339(s@),
{
    let n = s.unicode_len();
    if n < 20 {
        return None;
    }
    let year = match (digit_at(s, 0), digit_at(s, 1), digit_at(s, 2), digit_at(s, 3)) {
        (Some(a), Some(b), Some(c), Some(d)) => 1000 * a + 100 * b + 10 * c + d,
        _ => {
            return None;
        },
    };
    if s.get_char(4) != '-' || s.get_char(7) != '-' {
        return None;
    }
    let t10 = s.get_char(10);
    if t10 != 'T' && t10 != 't' {
        return None;
    }
    if s.get_char(13) != ':' || s.get_char(16) != ':' {
        return None;
    }
    let (month, day, hour, minute, second) = match (
        two_at(s, 5),
        two_at(s, 8),
        two_at(s, 11),
        two_at(s, 14),
        two_at(s, 17),
    ) {
        (Some(mo), Some(d), Some(h), Some(mi), Some(se)) => (mo, d, h, mi, se),
        _ => {
            return None;
        },
    };
    let second = if second == 60 {
        59
    } else {
        second
    };
    let mut p: usize = 19;
    if s.get_char(19) == '.' {
        let mut j: usize = 20;
        while j < n && digit_at_is_some(s, j)
            invariant
                20 <= j <= n,
                n == s@.len(),
                frac_digits(s@, 20) == (j - 20) + frac_digits(s@, j as int),
            decreases n - j,
        {
            j = j + 1;
        }
        if j == 20 {
            return None;
        }
        p = j;
    }
    if !(1 <= month && month <= 12 && 1 <= day && day <= days_in_month(year, month) && hour <= 23
        && minute <= 59 && second <= 59) {
        return None;
    }
    let base = Timestamp { year, month, day, hour, minute, second, offset_minutes: 0 };
    let rem = n - p;
    if rem == 1 {
        let zc = s.get_char(p);
        if zc == 'Z' || zc == 'z' {
            return Some(base);
        }
        return None;
    }
    if rem == 6 {
        let sign = s.get_char(p);
        if sign != '+' && sign != '-' {
            return None;
        }
        if s.get_char(p + 3) != ':' {
            return None;
        }
        let (oh, om) = match (two_at(s, p + 1), two_at(s, p + 4)) {
            (Some(a), Some(b)) => (a, b),
            _ => {
                return None;
            },
        };
        if oh > 23 || om > 59 {
            return None;
        }
        let mins = (oh * 60 + om) as i32;
        let off: i32 = if sign == '-' {
            -mins
        } else {
            mins
        };
        return Some(
            Timestamp {
                year: base.year,
                month: base.month,
                day: base.day,
                hour: base.hour,
                minute: base.minute,
                second: base.second,
                offset_minutes: off,
            },
        );
    }
    None
}

/// The civil fields chrono reports for an instant in the local zone.
#[derive(Debug, Clone, Copy)]
pub struct RawLocal {
    pub year: i32,
    pub month: u32,
    pub day: u32,
    pub hour: u32,
    pub minute: u32,
    pub second: u32,
    pub offset_seconds: i32,
}

/// Relies on chrono: `FixedOffset::east_opt`, `NaiveDate::from_ymd_opt`,
/// `NaiveTime::from_hms_opt` and `TimeZone::from_local_datetime` rebuild the
/// timestamp (they accept every well-formed one), and
/// `DateTime::with_timezone(&Local)` re-expresses the same instant in the
/// process's local zone, whose offset stays below one day; the `Datelike` and
/// `Timelike` accessors return a real calendar date and a time of day.
#[verifier::external_body]
fn chrono_local_parts(t: &Timestamp) -> (r: RawLocal)
    requires
        t.wf(),
    ensures
        1 <= r.month <= 12,
        1 <= r.day <= 31,
        r.hour <= 23,
        r.minute <= 59,
        r.second <= 59,
        -86399 <= r.offset_seconds <= 86399,
        epoch_of_parts(
            r.year as int,
            r.month as int,
            r.day as int,
            r.hour as int,
            r.minute as int,
            r.second as int,
            r.offset_seconds as int,
        ) == epoch_of(*t),
{
    let off = chrono::FixedOffset::east_opt(t.offset_minutes * 60).unwrap();
    let nd = chrono::NaiveDate::from_ymd_opt(t.year as i32, t.month, t.day).unwrap();
    let nt = chrono::NaiveTime::from_hms_opt(t.hour, t.minute, t.second).unwrap();
    let dt = off.from_local_datetime(&chrono::NaiveDateTime::new(nd, nt)).unwrap();
    let loc = dt.with_timezone(&chrono::Local);
    RawLocal {
        year: loc.year(),
        month: loc.month(),
        day: loc.day(),
        hour: loc.hour(),
        minute: loc.minute(),
        second: loc.second(),
        offset_seconds: loc.offset().local_minus_utc(),
    }
}

/// The timestamp a set of local civil fields yields: the fields themselves,
/// with the offset in minutes, where they fit the timestamp's form (a
/// four-digit year, an offset of whole minutes, a day the month has); the
/// fallback timestamp unchanged otherwise.
pub open spec fn spec_local_form(t: Timestamp, raw: RawLocal) -> Timestamp {
    if 0 <= raw.year && raw.year <= 9999 && raw.offset_seconds as int % 60 == 0 && raw.day as int
        <= spec_days_in_month(raw.year as int, raw.month as int) {
        Timestamp {
            year: raw.year as u32,
            month: raw.month,
            day: raw.day,
            hour: raw.hour,
            minute: raw.minute,
            second: raw.second,
            offset_minutes: (raw.offset_seconds as int / 60) as i32,
        }
    } else {
        t
    }
}

/// Build the timestamp that the local civil fields denote, or keep the
/// fallback where they do not fit the timestamp's form.
pub fn local_form(t: &Timestamp, raw: RawLocal) -> (r: Timestamp)
    ensures
        r == spec_local_form(*t, raw),
{
    if 0 <= raw.year && raw.year <= 9999 {
        let off: i64 = raw.offset_seconds as i64;
        let neg = off < 0;
        let mag: u32 = if neg {
            (-off) as u32
        } else {
            off as u32
        };
        let q: u32 = mag / 60;
        let rm: u32 = mag % 60;
        proof {
            lemma_fundamental_div_mod(mag as int, 60);
        }
        if rm == 0 {
            proof {
                if neg {
                    lemma_fundamental_div_mod_converse(
                        raw.offset_seconds as int,
                        60,
                        -(q as int),
                        0,
                    );
                } else {
                    lemma_fundamental_div_mod_converse(raw.offset_seconds as int, 60, q as int, 0);
                }
            }
            let off_min: i32 = if neg {
                -(q as i32)
            } else {
                q as i32
            };
            let dim: u32 = if 1 <= raw.month && raw.month <= 12 {
                days_in_month(raw.year as u32, raw.month)
            } else {
                31
            };
            if raw.day <= dim {
                return Timestamp {
                    year: raw.year as u32,
                    month: raw.month,
                    day: raw.day,
                    hour: raw.hour,
                    minute: raw.minute,
                    second: raw.second,
                    offset_minutes: off_min,
                };
            }
        } else {
            proof {
                if neg {
                    lemma_fundamental_div_mod_converse(
                        raw.offset_seconds as int,
                        60,
                        -(q as int) - 1,
                        60 - rm as int,
                    );
                } else {
                    lemma_fundamental_div_mod_converse(
                        raw.offset_seconds as int,
                        60,
                        q as int,
                        rm as int,
                    );
                }
            }
        }
    }
    *t
}

/// The timestamp re-expressed in the process's local zone: the same instant,
/// with the local offset.  Where the local form cannot be written as a
/// well-formed timestamp (a year outside four digits, or an offset not whole
/// minutes), the timestamp is returned unchanged.
pub fn localize(t: &Timestamp) -> (r: Timestamp)
    requires
        t.wf(),
    ensures
        r.wf(),
        epoch_of(r) == epoch_of(*t),
{
    let raw = chrono_local_parts(t);
    let r = local_form(t, raw);
    proof {
        let off = raw.offset_seconds as int;
        if 0 <= raw.year && raw.year <= 9999 && off % 60 == 0 && raw.day as int
            <= spec_days_in_month(raw.year as int, raw.month as int) {
            lemma_fundamental_div_mod(off, 60);
            assert((off / 60) * 60 == off);
            assert(epoch_of(r) == epoch_of(*t));
        }
    }
    r
}

/// The two decimal digits of a value below one hundred.
pub open spec fn two_digits(v: int) -> Seq<char> {
    seq![digit_char(v / 10), digit_char(v % 10)]
}

/// The magnitude of the timestamp's offset, in minutes.
pub open spec fn abs_offset(t: Timestamp) -> int {
    if t.offset_minutes < 0 {
        -(t.offset_minutes as int)
    } else {
        t.offset_minutes as int
    }
}

/// The RFC 3339 text of a timestamp: `YYYY-MM-DDTHH:MM:SS` and the signed
/// `HH:MM` offset, with no fraction and a `+` sign for a zero offset.
pub open spec fn spec_render_rfc3339(t: Timestamp) -> Seq<char> {
    let y = t.year as int;
    let a = abs_offset(t);
    seq![
        digit_char(y / 1000 % 10),
        digit_char(y / 100 % 10),
        digit_char(y / 10 % 10),
        digit_char(y % 10),
        '-',
        digit_char(t.month as int / 10),
        digit_char(t.month as int % 10),
        '-',
        digit_char(t.day as int / 10),
        digit_char(t.day as int % 10),
        'T',
        digit_char(t.hour as int / 10),
        digit_char(t.hour as int % 10),
        ':',
        digit_char(t.minute as int / 10),
        digit_char(t.minute as int % 10),
        ':',
        digit_char(t.second as int / 10),
        digit_char(t.second as int % 10),
        (if t.offset_minutes < 0 {
            '-'
        } else {
            '+'
        }),
        digit_char(a / 60 / 10),
        digit_char(a / 60 % 10),
        ':',
        digit_char(a % 60 / 10),
        digit_char(a % 60 % 10),
    ]
}

/// Append the two decimal digits of `v` to the text.
fn push_two(out: &mut String, v: u32)
    requires
        v <= 99,
    ensures
        final(out)@ == old(out)@ + two_digits(v as int),
{
    out.append(digit_str(v / 10));
    out.append(digit_str(v % 10));
    proof {
        assert(final(out)@ =~= old(out)@ + two_digits(v as int));
    }
}

/// Write the timestamp as RFC 3339 text.
pub fn render_rfc3339(t: &Timestamp) -> (r: String)
    requires
        t.wf(),
    ensures
        r@ == spec_render_rfc3339(*t),
{
    proof {
        reveal_strlit("-");
        reveal_strlit("+");
        reveal_strlit("T");
        reveal_strlit(":");
    }
    let mut out = String::new();
    let y = t.year;
    out.append(digit_str(y / 1000 % 10));
    out.append(digit_str(y / 100 % 10));
    out.append(digit_str(y / 10 % 10));
    out.append(digit_str(y % 10));
    out.append("-");
    push_two(&mut out, t.month);
    out.append("-");
    push_two(&mut out, t.day);
    out.append("T");
    push_two(&mut out, t.hour);
    out.append(":");
    push_two(&mut out, t.minute);
    out.append(":");
    push_two(&mut out, t.second);
    if t.offset_minutes < 0 {
        out.append("-");
    } else {
        out.append("+");
    }
    let a: u32 = if t.offset_minutes < 0 {
        (-(t.offset_minutes)) as u32
    } else {
        t.offset_minutes as u32
    };
    assert(a / 60 <= 23 && a % 60 <= 59) by {
        lemma_fundamental_div_mod(a as int, 60);
    };
    push_two(&mut out, a / 60);
    out.append(":");
    push_two(&mut out, a % 60);
    proof {
        assert(out@ =~= spec_render_rfc3339(*t));
    }
    out
}


/// Rendering a well-formed timestamp and parsing the text back yields the
/// same timestamp, offset included.
#[verifier::rlimit(60)]
pub proof fn lemma_rfc3339_round_trip(t: Timestamp)
    requires
        t.wf(),
    ensures
        spec_parse_rfc3339(spec_render_rfc3339(t)) == Some(t),
{
    let s = spec_render_rfc3339(t);
    let y = t.year as int;
    let a = abs_offset(t);
    assert forall|d: int| 0 <= d <= 9 implies is_digit_char(digit_char(d)) && digit_val(
        digit_char(d),
    ) == d by {
        lemma_digit_char_val(d);
    }
    assert(s.len() == 25);
    assert(s[0] == digit_char(y / 1000 % 10));
    assert(s[1] == digit_char(y / 100 % 10));
    assert(s[2] == digit_char(y / 10 % 10));
    assert(s[3] == digit_char(y % 10));
    assert(s[4] == '-');
    assert(s[5] == digit_char(t.month as int / 10));
    assert(s[6] == digit_char(t.month as int % 10));
    assert(s[7] == '-');
    assert(s[8] == digit_char(t.day as int / 10));
    assert(s[9] == digit_char(t.day as int % 10));
    assert(s[10] == 'T');
    assert(s[11] == digit_char(t.hour as int / 10));
    assert(s[12] == digit_char(t.hour as int % 10));
    assert(s[13] == ':');
    assert(s[14] == digit_char(t.minute as int / 10));
    assert(s[15] == digit_char(t.minute as int % 10));
    assert(s[16] == ':');
    assert(s[17] == digit_char(t.second as int / 10));
    assert(s[18] == digit_char(t.second as int % 10));
    assert(s[19] == (if t.offset_minutes < 0 {
        '-'
    } else {
        '+'
    }));
    assert(s[20] == digit_char(a / 60 / 10));
    assert(s[21] == digit_char(a / 60 % 10));
    assert(s[22] == ':');
    assert(s[23] == digit_char(a % 60 / 10));
    assert(s[24] == digit_char(a % 60 % 10));
    lemma_two_val_round(t.month as int);
    lemma_two_val_round(t.day as int);
    lemma_two_val_round(t.hour as int);
    lemma_two_val_round(t.minute as int);
    lemma_two_val_round(t.second as int);
    lemma_fundamental_div_mod(a, 60);
    lemma_two_val_round(a / 60);
    lemma_two_val_round(a % 60);
    lemma_four_val_round(y);
    assert(two_val(s, 5) == t.month as int);
    assert(two_val(s, 8) == t.day as int);
    assert(two_val(s, 11) == t.hour as int);
    assert(two_val(s, 14) == t.minute as int);
    assert(two_val(s, 17) == t.second as int);
    assert(two_val(s, 20) == a / 60);
    assert(two_val(s, 23) == a % 60);
    assert(1000 * digit_val(s[0]) + 100 * digit_val(s[1]) + 10 * digit_val(s[2]) + digit_val(
        s[3],
    ) == y);
    assert(s[19] != '.');
    assert(two_val(s, 20) * 60 + two_val(s, 23) == a);
    if t.offset_minutes < 0 {
        assert(spec_parse_rfc3339(s) == Some(t));
    } else {
        assert(spec_parse_rfc3339(s) == Some(t));
    }
}

proof fn lemma_two_val_round(v: int)
    requires
        0 <= v <= 99,
    ensures
        10 * (v / 10) + v % 10 == v,
        v / 10 <= 9,
        v % 10 <= 9,
        v % 10 >= 0,
{
    lemma_fundamental_div_mod(v, 10);
}

proof fn lemma_four_val_round(y: int)
    requires
        0 <= y <= 9999,
    ensures
        1000 * (y / 1000 % 10) + 100 * (y / 100 % 10) + 10 * (y / 10 % 10) + y % 10 == y,
        y / 1000 % 10 <= 9,
        y / 100 % 10 <= 9,
        y / 10 % 10 <= 9,
        y % 10 <= 9,
{
    lemma_fundamental_div_mod(y, 10);
    lemma_fundamental_div_mod(y / 10, 10);
    lemma_fundamental_div_mod(y / 100, 10);
    lemma_fundamental_div_mod(y / 1000, 10);
    lemma_div_denominator(y, 10, 10);
    lemma_div_denominator(y, 100, 10);
    lemma_fundamental_div_mod(y / 10 / 10, 10);
    assert(y / 100 == y / 10 / 10);
    assert(y / 1000 == y / 100 / 10);
    assert(y / 1000 <= 9) by {
        lemma_div_denominator(y, 1000, 1);
    };
    assert(y / 1000 % 10 == y / 1000);
}

} // verus!
