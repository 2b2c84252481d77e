//! Dates as plain values: parsing through chrono behind trusted wrappers,
//! with the calendar arithmetic and formatting verified.
//!
//! A parsed date is carried as its local calendar day (year, month, day)
//! together with its UTC timestamp in seconds; ages are whole-day
//! differences of timestamps and report keys are formatted from the
//! calendar day.

use vstd::prelude::*;

use crate::text::from_chars;
use crate::text::spec_dec;

verus! {

/// A parsed record date: the calendar date in the timestamp's own offset,
/// and the corresponding UTC timestamp in seconds.
#[derive(Clone, Copy, Debug, PartialEq, Eq, Structural)]
pub struct DateParts {
    pub year: i32,
    pub month: u8,
    pub day: u8,
    pub ts_secs: i64,
}

/// A date within the range chrono's calendar types can represent.
pub open spec fn date_parts_valid(year: int, month: int, day: int, ts: int) -> bool {
    &&& -300000 < year < 300000
    &&& 1 <= month <= 12
    &&& 1 <= day <= 31
    &&& -20_000_000_000_000 < ts < 20_000_000_000_000
}

impl DateParts {
    pub open spec fn valid(self) -> bool {
        date_parts_valid(self.year as int, self.month as int, self.day as int, self.ts_secs as int)
    }
}

/// What `DateTime::parse_from_rfc3339` yields of a string: the local
/// calendar date `(year, month, day)` and the UTC timestamp in seconds, or
/// nothing when the string is not a valid RFC 3339 timestamp. A function of
/// the characters alone.
pub uninterp spec fn rfc3339_of(s: Seq<char>) -> Option<(int, int, int, int)>;

/// What `NaiveDate::parse_from_str` yields of a string under a format: the
/// calendar date `(year, month, day)`, or nothing when the string does not
/// match the format. A function of the two arguments alone.
pub uninterp spec fn date_fmt_of(s: Seq<char>, fmt: Seq<char>) -> Option<(int, int, int)>;

/// Relies on `chrono::DateTime::parse_from_rfc3339`: a successful parse is
/// a calendar date within chrono's documented range; the date is read in
/// the parsed offset and the timestamp in UTC.
#[verifier::external_body]
fn parse_rfc3339(s: &str) -> (r: Option<DateParts>)
    ensures
        match r {
            Some(d) => {
                &&& rfc3339_of(s@) == Some(
                    (d.year as int, d.month as int, d.day as int, d.ts_secs as int),
                )
                &&& d.valid()
            },
            None => rfc3339_of(s@) is None,
        },
{
    match chrono::DateTime::parse_from_rfc3339(s) {
        Ok(dt) => {
            Some(DateParts {
                year: chrono::Datelike::year(&dt),
                month: chrono::Datelike::month(&dt) as u8,
                day: chrono::Datelike::day(&dt) as u8,
                ts_secs: dt.timestamp(),
            })
        },
        Err(_) => None,
    }
}

/// Relies on `chrono::NaiveDate::parse_from_str`: a successful parse is a
/// calendar date within chrono's documented range.
#[verifier::external_body]
fn parse_date_with_format(s: &str, fmt: &str) -> (r: Option<(i32, u8, u8)>)
    ensures
        match r {
            Some(d) => {
                &&& date_fmt_of(s@, fmt@) == Some((d.0 as int, d.1 as int, d.2 as int))
                &&& -300000 < d.0 < 300000
                &&& 1 <= d.1 <= 12
                &&& 1 <= d.2 <= 31
            },
            None => date_fmt_of(s@, fmt@) is None,
        },
{
    match chrono::NaiveDate::parse_from_str(s, fmt) {
        Ok(date) => Some((
            chrono::Datelike::year(&date),
            chrono::Datelike::month(&date) as u8,
            chrono::Datelike::day(&date) as u8,
        )),
        Err(_) => None,
    }
}

/// Relies on `chrono::Utc::now`: the current UTC timestamp in seconds. The
/// value depends on the clock; only chrono's representable range is
/// promised.
#[verifier::external_body]
pub fn now_timestamp_secs() -> (r: i64)
    ensures
        -20_000_000_000_000 < r < 20_000_000_000_000,
{
    chrono::Utc::now().timestamp()
}

/// Days from 1970-01-01 to the given proleptic Gregorian date, computed
/// over a year shifted into the positive range so that every division is on
/// nonnegative numbers.
pub open spec fn spec_epoch_days(y: int, m: int, d: int) -> int {
    let yp = (if m <= 2 {
        y - 1
    } else {
        y
    }) + 400000;
    let era = yp / 400;
    let yoe = yp - era * 400;
    let mp = if m > 2 {
        m - 3
    } else {
        m + 9
    };
    let doy = (153 * mp + 2) / 5 + d - 1;
    let doe = yoe * 365 + yoe / 4 - yoe / 100 + doy;
    era * 146097 + doe - 146097000 - 719468
}

/// Days from 1970-01-01 to the given date.
pub fn epoch_days(y: i32, m: u8, d: u8) -> (r: i64)
    requires
        -300000 < y < 300000,
        1 <= m <= 12,
        1 <= d <= 31,
    ensures
        r == spec_epoch_days(y as int, m as int, d as int),
{
    let base: i64 = if m <= 2 {
        (y as i64) - 1
    } else {
        y as i64
    };
    let yp: u64 = (base + 400000) as u64;
    let era: u64 = yp / 400;
    let yoe: u64 = yp - era * 400;
    let mp: u64 = if m > 2 {
        (m as u64) - 3
    } else {
        (m as u64) + 9
    };
    let doy: u64 = (153 * mp + 2) / 5 + (d as u64) - 1;
    let doe: u64 = yoe * 365 + yoe / 4 - yoe / 100 + doy;
    ((era * 146097 + doe) as i64) - 146097000 - 719468
}

/// Tries the strict timestamp-with-timezone form first, then each fallback
/// date format in order; a date-only match is taken at midnight, UTC offset
/// zero.
pub open spec fn spec_parse_date(s: Seq<char>) -> Option<DateParts> {
    if s.len() == 0 {
        None
    } else if rfc3339_of(s) is Some {
        let (y, m, d, ts) = rfc3339_of(s)->Some_0;
        Some(DateParts { year: y as i32, month: m as u8, day: d as u8, ts_secs: ts as i64 })
    } else if date_fmt_of(s, "%Y-%m-%d"@) is Some {
        spec_from_ymd(date_fmt_of(s, "%Y-%m-%d"@)->Some_0)
    } else if date_fmt_of(s, "%Y-%m-%d %H:%M:%S"@) is Some {
        spec_from_ymd(date_fmt_of(s, "%Y-%m-%d %H:%M:%S"@)->Some_0)
    } else if date_fmt_of(s, "%d/%m/%Y"@) is Some {
        spec_from_ymd(date_fmt_of(s, "%d/%m/%Y"@)->Some_0)
    } else if date_fmt_of(s, "%m/%d/%Y"@) is Some {
        spec_from_ymd(date_fmt_of(s, "%m/%d/%Y"@)->Some_0)
    } else {
        None
    }
}

/// A date-only parse result as a `DateParts` at midnight UTC.
pub open spec fn spec_from_ymd(ymd: (int, int, int)) -> Option<DateParts> {
    Some(
        DateParts {
            year: ymd.0 as i32,
            month: ymd.1 as u8,
            day: ymd.2 as u8,
            ts_secs: (spec_epoch_days(ymd.0, ymd.1, ymd.2) * 86400) as i64,
        },
    )
}

/// Builds the midnight-UTC `DateParts` for a date-only parse result.
fn from_ymd(ymd: (i32, u8, u8)) -> (r: DateParts)
    requires
        -300000 < ymd.0 < 300000,
        1 <= ymd.1 <= 12,
        1 <= ymd.2 <= 31,
    ensures
        Some(r) == spec_from_ymd((ymd.0 as int, ymd.1 as int, ymd.2 as int)),
        r.valid(),
{
    let days: i64 = epoch_days(ymd.0, ymd.1, ymd.2);
    DateParts { year: ymd.0, month: ymd.1, day: ymd.2, ts_secs: days * 86400 }
}

/// Parses a record's date string: the strict timestamp form first, then the
/// fixed list of fallback formats; `None` when nothing matches or the
/// string is empty.
pub fn parse_date(date_str: &str) -> (r: Option<DateParts>)
    ensures
        r == spec_parse_date(date_str@),
        r matches Some(d) ==> d.valid(),
{
    if date_str.is_empty() {
        return None;
    }
    if let Some(d) = parse_rfc3339(date_str) {
        return Some(d);
    }
    if let Some(ymd) = parse_date_with_format(date_str, "%Y-%m-%d") {
        return Some(from_ymd(ymd));
    }
    if let Some(ymd) = parse_date_with_format(date_str, "%Y-%m-%d %H:%M:%S") {
        return Some(from_ymd(ymd));
    }
    if let Some(ymd) = parse_date_with_format(date_str, "%d/%m/%Y") {
        return Some(from_ymd(ymd));
    }
    if let Some(ymd) = parse_date_with_format(date_str, "%m/%d/%Y") {
        return Some(from_ymd(ymd));
    }
    None
}

/// A number zero-padded to two digits, as a month or day is formatted.
pub open spec fn spec_pad2(n: nat) -> Seq<char> {
    if n < 10 {
        seq!['0'] + spec_dec(n)
    } else {
        spec_dec(n)
    }
}

/// A year zero-padded to four digits, with a leading minus sign for
/// negative years.
pub open spec fn spec_year4(y: int) -> Seq<char> {
    let a = if y < 0 {
        (-y) as nat
    } else {
        y as nat
    };
    let digits = if a < 10 {
        seq!['0', '0', '0'] + spec_dec(a)
    } else if a < 100 {
        seq!['0', '0'] + spec_dec(a)
    } else if a < 1000 {
        seq!['0'] + spec_dec(a)
    } else {
        spec_dec(a)
    };
    if y < 0 {
        seq!['-'] + digits
    } else {
        digits
    }
}

/// The month key of a date: `YYYY-MM`.
pub open spec fn spec_month_key(year: int, month: int) -> Seq<char> {
    spec_year4(year) + seq!['-'] + spec_pad2(month as nat)
}

/// The day form of a date: `YYYY-MM-DD`.
pub open spec fn spec_day_key(year: int, month: int, day: int) -> Seq<char> {
    spec_month_key(year, month) + seq!['-'] + spec_pad2(day as nat)
}

fn push_dec_u64(out: &mut Vec<char>, n: u64)
    ensures
        final(out)@ == old(out)@ + spec_dec(n as nat),
{
    let s: Vec<char> = crate::text::dec_chars_u64(n);
    let mut k: usize = 0;
    let m: usize = s.len();
    proof {
        assert(out@ =~= old(out)@ + s@.subrange(0, 0));
    }
    while k < m
        invariant
            k <= m == s@.len(),
            s@ == spec_dec(n as nat),
            out@ == old(out)@ + s@.subrange(0, k as int),
        decreases m - k,
    {
        out.push(s[k]);
        k += 1;
        proof {
            assert(out@ =~= old(out)@ + s@.subrange(0, k as int));
        }
    }
    proof {
        assert(out@ =~= old(out)@ + s@);
    }
}

fn push_pad2(out: &mut Vec<char>, n: u8)
    ensures
        final(out)@ == old(out)@ + spec_pad2(n as nat),
{
    if n < 10 {
        out.push('0');
        proof {
            assert(out@ =~= old(out)@ + seq!['0']);
        }
    }
    push_dec_u64(out, n as u64);
    proof {
        if n < 10 {
            assert(out@ =~= old(out)@ + (seq!['0'] + spec_dec(n as nat)));
        }
    }
}

fn push_year4(out: &mut Vec<char>, y: i32)
    requires
        -300000 < y < 300000,
    ensures
        final(out)@ == old(out)@ + spec_year4(y as int),
{
    let ghost entry = out@;
    if y < 0 {
        out.push('-');
        proof {
            assert(out@ =~= entry + seq!['-']);
        }
    }
    let a: u64 = if y < 0 {
        (-(y as i64)) as u64
    } else {
        y as u64
    };
    let ghost mid = out@;
    if a < 10 {
        out.push('0');
        out.push('0');
        out.push('0');
        proof {
            assert(out@ =~= mid + seq!['0', '0', '0']);
        }
    } else if a < 100 {
        out.push('0');
        out.push('0');
        proof {
            assert(out@ =~= mid + seq!['0', '0']);
        }
    } else if a < 1000 {
        out.push('0');
        proof {
            assert(out@ =~= mid + seq!['0']);
        }
    }
    push_dec_u64(out, a);
    proof {
        assert(out@ =~= entry + spec_year4(y as int));
    }
}

/// The `YYYY-MM` month key of a date, as the monthly buckets use it.
pub fn month_key(d: &DateParts) -> (r: String)
    requires
        d.valid(),
    ensures
        r@ == spec_month_key(d.year as int, d.month as int),
{
    let mut out: Vec<char> = Vec::new();
    push_year4(&mut out, d.year);
    out.push('-');
    push_pad2(&mut out, d.month);
    proof {
        assert(out@ =~= spec_month_key(d.year as int, d.month as int));
    }
    from_chars(&out)
}

/// The `YYYY-MM-DD` form of a date, as record summaries show it.
pub fn day_key(d: &DateParts) -> (r: String)
    requires
        d.valid(),
    ensures
        r@ == spec_day_key(d.year as int, d.month as int, d.day as int),
{
    let mut out: Vec<char> = Vec::new();
    push_year4(&mut out, d.year);
    out.push('-');
    push_pad2(&mut out, d.month);
    out.push('-');
    push_pad2(&mut out, d.day);
    proof {
        assert(out@ =~= spec_day_key(d.year as int, d.month as int, d.day as int));
    }
    from_chars(&out)
}

} // verus!
