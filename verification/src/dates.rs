//! Dates of the Gregorian calendar, counted in days and milliseconds since the
//! first of January 1970.

use crate::text::{chars_of, dec, dec_padded, decimal, decimal_padded, trim, trimmed};
use vstd::prelude::*;

verus! {

/// The milliseconds of a day.
pub const DAY: u64 = 86_400_000;

/// Whether a year has a 29th of February.
pub open spec fn is_leap(y: int) -> bool {
    y % 4 == 0 && (y % 100 != 0 || y % 400 == 0)
}

pub open spec fn month_length(y: int, m: int) -> int {
    if m == 2 {
        if is_leap(y) {
            29
        } else {
            28
        }
    } else if m == 4 || m == 6 || m == 9 || m == 11 {
        30
    } else {
        31
    }
}

/// The days from the first of January 1970 to the first of January of a year.
pub open spec fn days_before_year(y: int) -> int {
    365 * (y - 1970) + (y - 1) / 4 - (y - 1) / 100 + (y - 1) / 400 - 477
}

/// The days from the first of January to the first of a month.
pub open spec fn days_before_month(y: int, m: int) -> int
    decreases m,
{
    if m <= 1 {
        0
    } else {
        days_before_month(y, m - 1) + month_length(y, m - 1)
    }
}

/// The days from the first of January 1970 to a date.
pub open spec fn days_to(y: int, m: int, d: int) -> int {
    days_before_year(y) + days_before_month(y, m) + d - 1
}

pub open spec fn is_date(y: int, m: int, d: int) -> bool {
    1 <= m <= 12 && 1 <= d <= month_length(y, m)
}

/// The same count, in years that begin in March.
pub open spec fn march_days(y: int, m: int, d: int) -> int {
    let yy = if m <= 2 {
        y - 1
    } else {
        y
    };
    let mp = if m <= 2 {
        m + 9
    } else {
        m - 3
    };
    let era = yy / 400;
    let yoe = yy - era * 400;
    era * 146097 + yoe * 365 + yoe / 4 - yoe / 100 + (153 * mp + 2) / 5 + d - 1 - 719468
}

/// The days before a month, without counting.
proof fn lemma_month_table(y: int, m: int)
    requires
        1 <= m <= 12,
    ensures
        days_before_month(y, m) == if m <= 2 {
            31 * (m - 1)
        } else {
            (153 * (m - 3) + 2) / 5 + 59 + (if is_leap(y) {
                1int
            } else {
                0
            })
        },
    decreases m,
{
    if m > 1 {
        lemma_month_table(y, m - 1);
    }
}

proof fn lemma_era(yy: int)
    ensures
        yy / 400 * 146097 + (yy - yy / 400 * 400) * 365 + (yy - yy / 400 * 400) / 4 - (yy - yy / 400
            * 400) / 100 == yy * 365 + yy / 4 - yy / 100 + yy / 400,
{
}

proof fn lemma_march_days(y: int, m: int, d: int)
    requires
        1 <= m <= 12,
    ensures
        march_days(y, m, d) == days_to(y, m, d),
{
    lemma_month_table(y, m);
    if m <= 2 {
        lemma_era(y - 1);
    } else {
        lemma_era(y);
        assert(y / 4 - y / 100 + y / 400 == (y - 1) / 4 - (y - 1) / 100 + (y - 1) / 400 + (
        if is_leap(y) {
            1int
        } else {
            0
        }));
    }
}

proof fn lemma_year_of_era(doe: int)
    requires
        0 <= doe <= 146096,
    ensures
        ({
            let yoe = (doe - doe / 1460 + doe / 36524 - doe / 146096) / 365;
            let doy = doe - (365 * yoe + yoe / 4 - yoe / 100);
            &&& 0 <= yoe <= 399
            &&& 0 <= doy <= 365
            &&& doy == 365 ==> is_leap(yoe + 1)
        }),
{
}

/// The date of a day.
pub fn civil_from_days(days: u64) -> (r: (u64, u64, u64))
    requires
        days <= u64::MAX / 2,
    ensures
        is_date(r.0 as int, r.1 as int, r.2 as int),
        days_to(r.0 as int, r.1 as int, r.2 as int) == days,
        1970 <= r.0,
{
    let z: u64 = days + 719_468;
    let era: u64 = z / 146_097;
    let doe: u64 = z % 146_097;
    proof {
        lemma_year_of_era(doe as int);
    }
    let yoe: u64 = (doe - doe / 1460 + doe / 36_524 - doe / 146_096) / 365;
    let y: u64 = yoe + era * 400;
    let doy: u64 = doe - (365 * yoe + yoe / 4 - yoe / 100);
    proof {
        lemma_day_of_year(era as int, yoe as int, doy as int);
    }
    let mp: u64 = (5 * doy + 2) / 153;
    let d: u64 = doy - (153 * mp + 2) / 5 + 1;
    let mo: u64 = if mp < 10 {
        mp + 3
    } else {
        mp - 9
    };
    let year: u64 = if mo <= 2 {
        y + 1
    } else {
        y
    };
    proof {
        if year < 1970 {
            lemma_before_1970(year as int, mo as int, d as int);
        }
    }
    (year, mo, d)
}

proof fn lemma_day_of_year(era: int, yoe: int, doy: int)
    requires
        0 <= yoe <= 399,
        0 <= doy <= 365,
        doy == 365 ==> is_leap(yoe + 1),
        0 <= era,
    ensures
        ({
            let mp = (5 * doy + 2) / 153;
            let d = doy - (153 * mp + 2) / 5 + 1;
            let mo = if mp < 10 {
                mp + 3
            } else {
                mp - 9
            };
            let y = yoe + era * 400;
            let year = if mo <= 2 {
                y + 1
            } else {
                y
            };
            &&& 0 <= mp <= 11
            &&& (153 * mp + 2) / 5 <= doy
            &&& is_date(year, mo, d)
            &&& days_to(year, mo, d) == era * 146_097 + 365 * yoe + yoe / 4 - yoe / 100 + doy
                - 719_468
        }),
{
    let mp = (5 * doy + 2) / 153;
    let d = doy - (153 * mp + 2) / 5 + 1;
    let mo = if mp < 10 {
        mp + 3
    } else {
        mp - 9
    };
    let y = yoe + era * 400;
    let year = if mo <= 2 {
        y + 1
    } else {
        y
    };
    assert(y / 400 == era);
    assert(is_leap(y + 1) == is_leap(yoe + 1)) by {
        assert((y + 1) % 400 == (yoe + 1) % 400);
        assert((y + 1) % 100 == (yoe + 1) % 100);
        assert((y + 1) % 4 == (yoe + 1) % 4);
    }
    lemma_march_days(year, mo, d);
}

proof fn lemma_before_1970(y: int, m: int, d: int)
    requires
        y < 1970,
        is_date(y, m, d),
    ensures
        days_to(y, m, d) < 0,
{
    lemma_month_table(y, m);
}

/// A year in at least four digits.
pub open spec fn year_text(y: nat) -> Seq<char> {
    if y < 10_000 {
        dec_padded(y, 4)
    } else {
        dec(y)
    }
}

fn year_string(y: u64) -> (r: String)
    ensures
        r@ == year_text(y as nat),
{
    if y < 10_000 {
        decimal_padded(y, 4)
    } else {
        decimal(y)
    }
}

/// A date, as a year, a month and a day.
pub open spec fn date_text(y: nat, m: nat, d: nat) -> Seq<char> {
    year_text(y) + "-"@ + dec_padded(m, 2) + "-"@ + dec_padded(d, 2)
}

/// The date of a point in time: the one whose day holds it.
pub open spec fn civil(days: int) -> (int, int, int) {
    choose|c: (int, int, int)|
        is_date(c.0, c.1, c.2) && 0 <= c.0 && #[trigger] days_to(c.0, c.1, c.2) == days
}

/// Different dates are different days.
pub proof fn law_dates_are_distinct(y1: int, m1: int, d1: int, y2: int, m2: int, d2: int)
    requires
        is_date(y1, m1, d1),
        is_date(y2, m2, d2),
        days_to(y1, m1, d1) == days_to(y2, m2, d2),
    ensures
        y1 == y2,
        m1 == m2,
        d1 == d2,
{
    lemma_month_table(y1, m1);
    lemma_month_table(y2, m2);
    if y1 < y2 {
        lemma_year_steps(y1, y2);
        lemma_within_year(y1, m1, d1);
    } else if y2 < y1 {
        lemma_year_steps(y2, y1);
        lemma_within_year(y2, m2, d2);
    } else if m1 < m2 {
        lemma_month_steps(y1, m1, m2);
    } else if m2 < m1 {
        lemma_month_steps(y1, m2, m1);
    }
}

proof fn lemma_within_year(y: int, m: int, d: int)
    requires
        is_date(y, m, d),
    ensures
        days_before_month(y, m) + d - 1 < 365 + (if is_leap(y) {
            1int
        } else {
            0
        }),
{
    lemma_month_table(y, m);
}

proof fn lemma_month_steps(y: int, a: int, b: int)
    requires
        1 <= a < b <= 12,
    ensures
        days_before_month(y, a) + month_length(y, a) <= days_before_month(y, b),
    decreases b - a,
{
    if a + 1 < b {
        lemma_month_steps(y, a, b - 1);
    }
}

proof fn lemma_year_steps(a: int, b: int)
    requires
        a < b,
    ensures
        days_before_year(a) + 365 + (if is_leap(a) {
            1int
        } else {
            0
        }) <= days_before_year(b),
{
    assert(days_before_year(a + 1) == days_before_year(a) + 365 + (if is_leap(a) {
        1int
    } else {
        0
    }));
    assert(days_before_year(a + 1) <= days_before_year(b));
}

fn civil_of(days: u64) -> (r: (u64, u64, u64))
    requires
        days <= u64::MAX / 2,
    ensures
        civil(days as int) == (r.0 as int, r.1 as int, r.2 as int),
        is_date(r.0 as int, r.1 as int, r.2 as int),
        days_to(r.0 as int, r.1 as int, r.2 as int) == days,
        1970 <= r.0,
{
    let r = civil_from_days(days);
    proof {
        let w = (r.0 as int, r.1 as int, r.2 as int);
        assert(days_to(w.0, w.1, w.2) == days);
        let c = civil(days as int);
        law_dates_are_distinct(c.0, c.1, c.2, w.0, w.1, w.2);
    }
    r
}

/// The date of a point in time, as text.
pub open spec fn date_of(millis: u64) -> Seq<char> {
    let c = civil((millis / DAY) as int);
    date_text(c.0 as nat, c.1 as nat, c.2 as nat)
}

fn date_string(y: u64, m: u64, d: u64) -> (r: String)
    ensures
        r@ == date_text(y as nat, m as nat, d as nat),
{
    let mut out = year_string(y);
    out.append("-");
    out.append(decimal_padded(m, 2).as_str());
    out.append("-");
    out.append(decimal_padded(d, 2).as_str());
    out
}

/// The date of a point in time, as `2024-01-31`.
pub fn date_only(millis: u64) -> (r: String)
    ensures
        r@ == date_of(millis),
{
    let (y, m, d) = civil_of(millis / DAY);
    date_string(y, m, d)
}

/// A point in time, as `2024-01-31T23:59:59.999Z`.
pub open spec fn moment_of(millis: u64) -> Seq<char> {
    let s = (millis / 1000 % 86_400) as nat;
    date_of(millis) + "T"@ + dec_padded(s / 3600, 2) + ":"@ + dec_padded(s % 3600 / 60, 2) + ":"@
        + dec_padded(s % 60, 2) + "."@ + dec_padded((millis % 1000) as nat, 3) + "Z"@
}

/// A point in time, as `2024-01-31T23:59:59.999Z`.
pub fn iso8601(millis: u64) -> (r: String)
    ensures
        r@ == moment_of(millis),
{
    let s: u64 = millis / 1000 % 86_400;
    let mut out = date_only(millis);
    out.append("T");
    out.append(decimal_padded(s / 3600, 2).as_str());
    out.append(":");
    out.append(decimal_padded(s % 3600 / 60, 2).as_str());
    out.append(":");
    out.append(decimal_padded(s % 60, 2).as_str());
    out.append(".");
    out.append(decimal_padded(millis % 1000, 3).as_str());
    out.append("Z");
    out
}

/// The value of a decimal digit.
pub open spec fn digit_value(c: char) -> Option<int> {
    if '0' <= c <= '9' {
        Some(c as int - '0' as int)
    } else {
        None
    }
}

/// The number that two characters write: two digits, or a plus and a digit.
pub open spec fn two_digits(a: char, b: char) -> Option<int> {
    match digit_value(b) {
        None => None,
        Some(y) => if a == '+' {
            Some(y)
        } else {
            match digit_value(a) {
                Some(x) => Some(10 * x + y),
                None => None,
            }
        },
    }
}

/// The number that four digits write.
pub open spec fn four_digits(s: Seq<char>) -> Option<int> {
    match (digit_value(s[0]), digit_value(s[1]), digit_value(s[2]), digit_value(s[3])) {
        (Some(a), Some(b), Some(c), Some(d)) => Some(1000 * a + 100 * b + 10 * c + d),
        _ => None,
    }
}

/// The milliseconds at which a written date begins. What follows the date is
/// not looked at, and a day that its month does not have counts on from it.
pub open spec fn date_start(t: Seq<char>) -> Option<u64> {
    let s = trimmed(t);
    if s.len() < 10 || s[4] != '-' || s[7] != '-' {
        None
    } else {
        match (four_digits(s), two_digits(s[5], s[6]), two_digits(s[8], s[9])) {
            (Some(y), Some(m), Some(d)) => if 1970 <= y && 1 <= m <= 12 && 1 <= d <= 31 {
                Some((days_to(y, m, d) * DAY) as u64)
            } else {
                None
            },
            _ => None,
        }
    }
}

fn value_of(c: char) -> (r: Option<u64>)
    ensures
        match r {
            Some(v) => digit_value(c) == Some(v as int) && v <= 9,
            None => digit_value(c) is None,
        },
{
    let u: u32 = c as u32;
    if u >= 48 && u <= 57 {
        Some((u - 48) as u64)
    } else {
        None
    }
}

fn two_digit_value(a: char, b: char) -> (r: Option<u64>)
    ensures
        match r {
            Some(v) => two_digits(a, b) == Some(v as int) && v <= 99,
            None => two_digits(a, b) is None,
        },
{
    match value_of(b) {
        None => None,
        Some(y) => if a == '+' {
            Some(y)
        } else {
            match value_of(a) {
                Some(x) => Some(10 * x + y),
                None => None,
            }
        },
    }
}

/// The milliseconds at which a written date begins.
pub fn parse_iso_date(s: &str) -> (r: Option<u64>)
    ensures
        r == date_start(s@),
{
    let t = trim(s);
    let c = chars_of(t.as_str());
    if c.len() < 10 || c[4] != '-' || c[7] != '-' {
        return None;
    }
    let year: u64 = match (value_of(c[0]), value_of(c[1]), value_of(c[2]), value_of(c[3])) {
        (Some(a), Some(b), Some(x), Some(d)) => 1000 * a + 100 * b + 10 * x + d,
        _ => return None,
    };
    let month: u64 = match two_digit_value(c[5], c[6]) {
        Some(m) => m,
        None => return None,
    };
    let day: u64 = match two_digit_value(c[8], c[9]) {
        Some(d) => d,
        None => return None,
    };
    if month < 1 || month > 12 || day < 1 || day > 31 || year < 1970 {
        return None;
    }
    let y: u64 = if month <= 2 {
        year - 1
    } else {
        year
    };
    let m: u64 = if month <= 2 {
        month + 9
    } else {
        month - 3
    };
    let era: u64 = y / 400;
    let yoe: u64 = y - era * 400;
    let doy: u64 = (153 * m + 2) / 5 + day - 1;
    let doe: u64 = yoe * 365 + yoe / 4 - yoe / 100 + doy;
    proof {
        lemma_march_days(year as int, month as int, day as int);
        lemma_from_1970(year as int, month as int, day as int);
    }
    let days: u64 = era * 146097 + doe - 719468;
    Some(days * DAY)
}

proof fn lemma_from_1970(y: int, m: int, d: int)
    requires
        1970 <= y <= 9999,
        1 <= m <= 12,
        1 <= d <= 31,
    ensures
        0 <= days_to(y, m, d) <= 3_000_000,
{
    lemma_month_table(y, m);
}

/// The date of a point in time, read back, is the start of its day: in every
/// year that has four digits.
pub proof fn law_date_reads_back(millis: u64)
    requires
        civil((millis / DAY) as int).0 <= 9999,
    ensures
        date_start(date_of(millis)) == Some((millis - millis % DAY) as u64),
{
    lemma_has_date((millis / DAY) as int);
    let c = civil((millis / DAY) as int);
    let (y, m, d) = (c.0, c.1, c.2);
    if y < 1970 {
        lemma_before_1970(y, m, d);
    }
    lemma_date_text(y as nat, m as nat, d as nat);
}

proof fn lemma_has_date(days: int)
    requires
        0 <= days,
    ensures
        ({
            let c = civil(days);
            is_date(c.0, c.1, c.2) && 0 <= c.0 && days_to(c.0, c.1, c.2) == days
        }),
{
    let z = days + 719_468;
    let era = z / 146_097;
    let doe = z % 146_097;
    lemma_year_of_era(doe);
    let yoe = (doe - doe / 1460 + doe / 36_524 - doe / 146_096) / 365;
    let doy = doe - (365 * yoe + yoe / 4 - yoe / 100);
    lemma_day_of_year(era, yoe, doy);
    let mp = (5 * doy + 2) / 153;
    let d = doy - (153 * mp + 2) / 5 + 1;
    let mo = if mp < 10 {
        mp + 3
    } else {
        mp - 9
    };
    let y = yoe + era * 400;
    let year = if mo <= 2 {
        y + 1
    } else {
        y
    };
    let w = (year, mo, d);
    assert(is_date(w.0, w.1, w.2) && 0 <= w.0 && days_to(w.0, w.1, w.2) == days);
}

proof fn lemma_date_text(y: nat, m: nat, d: nat)
    requires
        1970 <= y <= 9999,
        1 <= m <= 12,
        1 <= d <= 31,
    ensures
        date_start(date_text(y, m, d)) == Some((days_to(y as int, m as int, d as int) * DAY) as u64),
{
    reveal_strlit("-");
    reveal_with_fuel(dec_padded, 5);
    let t = date_text(y, m, d);
    assert(t.len() == 10);
    lemma_digit(y / 10 / 10 / 10 % 10);
    lemma_digit(y / 10 / 10 % 10);
    lemma_digit(y / 10 % 10);
    lemma_digit(y % 10);
    lemma_digit(m / 10 % 10);
    lemma_digit(m % 10);
    lemma_digit(d / 10 % 10);
    lemma_digit(d % 10);
    assert(trimmed(t) =~= t) by {
        reveal_with_fuel(crate::text::trim_start, 2);
        reveal_with_fuel(crate::text::trim_end, 2);
    }
}

proof fn lemma_digit(n: nat)
    requires
        n < 10,
    ensures
        digit_value(crate::text::digit(n)) == Some(n as int),
        !crate::text::white(crate::text::digit(n)),
        crate::text::digit(n) != '+',
{
}

} // verus!
