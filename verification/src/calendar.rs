//! The proleptic Gregorian calendar and UTC timestamps.

use crate::text;
use vstd::prelude::*;

verus! {

/// A leap year: every fourth, except every hundredth, except every
/// four-hundredth.
pub open spec fn is_leap(year: int) -> bool {
    year % 4 == 0 && (year % 100 != 0 || year % 400 == 0)
}

/// The number of days of a month.
pub open spec fn days_in_month(year: int, month: int) -> int {
    if month == 2 {
        if is_leap(year) {
            29
        } else {
            28
        }
    } else if month == 4 || month == 6 || month == 9 || month == 11 {
        30
    } else {
        31
    }
}

/// The number of days from 1 January of year 1 to 1 January of `year`.
pub open spec fn days_before_year(year: int) -> int {
    let y = year - 1;
    365 * y + y / 4 - y / 100 + y / 400
}

/// The number of days from 1 January to the first of `month`.
pub open spec fn days_before_month(year: int, month: int) -> int
    decreases month,
{
    if month <= 1 {
        0
    } else {
        days_before_month(year, month - 1) + days_in_month(year, month - 1)
    }
}

/// A date of the calendar.
pub struct Date {
    pub year: int,
    pub month: int,
    pub day: int,
}

impl Date {
    /// Whether the calendar has this date.
    pub open spec fn valid(self) -> bool {
        1 <= self.month <= 12 && 1 <= self.day <= days_in_month(self.year, self.month)
    }

    /// The number of days from 1 January 1970 to this date.
    pub open spec fn day_number(self) -> int {
        days_before_year(self.year) + days_before_month(self.year, self.month) + self.day - 1
            - days_before_year(1970)
    }
}

/// The date that is `days` days after 1 January 1970.
pub open spec fn date_of(days: int) -> Date {
    choose|d: Date| d.valid() && d.day_number() == days
}

/// A year has 365 days, a leap year one more.
pub proof fn year_length(year: int)
    ensures
        days_before_year(year + 1) - days_before_year(year) == (if is_leap(year) {
            366int
        } else {
            365int
        }),
        days_before_month(year, 12) + days_in_month(year, 12) == (if is_leap(year) {
            366int
        } else {
            365int
        }),
{
    reveal_with_fuel(days_before_month, 13);
    let y = year - 1;
    assert(year / 4 - y / 4 == (if year % 4 == 0 {
        1int
    } else {
        0int
    }));
    assert(year / 100 - y / 100 == (if year % 100 == 0 {
        1int
    } else {
        0int
    }));
    assert(year / 400 - y / 400 == (if year % 400 == 0 {
        1int
    } else {
        0int
    }));
}

proof fn lemma_years_grow(a: int, b: int)
    requires
        a <= b,
    ensures
        days_before_year(b) - days_before_year(a) >= 365 * (b - a),
    decreases b - a,
{
    if a < b {
        lemma_years_grow(a, b - 1);
        year_length(b - 1);
    }
}

proof fn lemma_months(year: int, month: int)
    requires
        1 <= month <= 12,
    ensures
        0 <= days_before_month(year, month),
        days_before_month(year, month) + days_in_month(year, month) <= (if is_leap(year) {
            366int
        } else {
            365int
        }),
{
    reveal_with_fuel(days_before_month, 13);
}

proof fn lemma_month_order(year: int, a: int, b: int)
    requires
        1 <= a < b <= 12,
    ensures
        days_before_month(year, a) + days_in_month(year, a) <= days_before_month(year, b),
    decreases b - a,
{
    if a + 1 < b {
        lemma_month_order(year, a, b - 1);
    }
}

/// A day number belongs to one date only.
pub proof fn dates_are_unique(a: Date, b: Date)
    requires
        a.valid(),
        b.valid(),
        a.day_number() == b.day_number(),
    ensures
        a == b,
{
    lemma_months(a.year, a.month);
    lemma_months(b.year, b.month);
    year_length(a.year);
    year_length(b.year);
    if a.year < b.year {
        lemma_years_grow(a.year + 1, b.year);
    } else if b.year < a.year {
        lemma_years_grow(b.year + 1, a.year);
    } else if a.month < b.month {
        lemma_month_order(a.year, a.month, b.month);
    } else if b.month < a.month {
        lemma_month_order(a.year, b.month, a.month);
    }
}

/// The day of the year, counted from 1 March, on which the month that is
/// `m` months after March begins.
spec fn march_days(m: int) -> int {
    (153 * m + 2) / 5
}

/// The number of days from 1 March of year 0 to 1 March of `year`.
spec fn days_before_march(year: int) -> int {
    365 * year + year / 4 - year / 100 + year / 400
}

proof fn lemma_march(year: int, m: int, day: int)
    requires
        0 <= m <= 11,
    ensures
        ({
            let month = if m < 10 {
                m + 3
            } else {
                m - 9
            };
            let y = if m < 10 {
                year
            } else {
                year + 1
            };
            Date { year: y, month, day }.day_number() == days_before_march(year) + march_days(m)
                + day - 1 - 719468
        }),
{
    reveal_with_fuel(days_before_month, 13);
    year_length(year);
    assert(days_before_year(1970) == 719162) by {
        assert(1969int / 4 == 492);
        assert(1969int / 100 == 19);
        assert(1969int / 400 == 4);
    }
}

proof fn lemma_march_month(year: int, m: int)
    requires
        0 <= m <= 11,
    ensures
        ({
            let month = if m < 10 {
                m + 3
            } else {
                m - 9
            };
            let y = if m < 10 {
                year
            } else {
                year + 1
            };
            days_in_month(y, month) == (if m == 11 {
                if is_leap(year + 1) {
                    29int
                } else {
                    28int
                }
            } else {
                march_days(m + 1) - march_days(m)
            })
        }),
{
}

/// Splits a day of a 400-year era, counted from 1 March, into the year of the
/// era and the day of that year.
proof fn lemma_year_of_era(doe: int)
    requires
        0 <= doe < 146097,
    ensures
        ({
            let yoe = (doe - doe / 1460 + doe / 36524 - doe / 146096) / 365;
            let doy = doe - (365 * yoe + yoe / 4 - yoe / 100);
            &&& 0 <= yoe < 400
            &&& 0 <= doy <= 365
            &&& doy == 365 ==> is_leap(yoe + 1)
        }),
{
    let c = if doe == 146096 {
        3
    } else {
        doe / 36524
    };
    let r = doe - 36524 * c;
    assert(0 <= c <= 3);
    assert(0 <= r <= 36524);
    assert(r == 36524 ==> c == 3);
}

/// The month of a year that begins in March: the month whose first day is at
/// most `doy` days after 1 March, and the day of that month.
proof fn lemma_month_of_year(doy: int)
    requires
        0 <= doy <= 365,
    ensures
        ({
            let m = (5 * doy + 2) / 153;
            &&& 0 <= m <= 11
            &&& march_days(m) <= doy
            &&& m < 11 ==> doy < march_days(m + 1)
            &&& m == 11 ==> doy - march_days(m) <= 28
            &&& doy < 365 && m == 11 ==> doy - march_days(m) <= 27
        }),
{
}

/// Years of an era and eras add up.
proof fn lemma_era(era: int, yoe: int)
    requires
        0 <= yoe < 400,
    ensures
        days_before_march(yoe + era * 400) == 146097 * era + 365 * yoe + yoe / 4 - yoe / 100,
        is_leap(yoe + era * 400 + 1) == is_leap(yoe + 1),
{
    let y = yoe + era * 400;
    assert(y / 4 == yoe / 4 + 100 * era);
    assert(y / 100 == yoe / 100 + 4 * era);
    assert(y / 400 == era);
    assert((y + 1) % 4 == (yoe + 1) % 4);
    assert((y + 1) % 100 == (yoe + 1) % 100);
    assert((y + 1) % 400 == (yoe + 1) % 400);
}

proof fn lemma_civil(era: int, yoe: int, doy: int)
    requires
        0 <= yoe < 400,
        0 <= doy <= 365,
        doy == 365 ==> is_leap(yoe + 1),
    ensures
        ({
            let y = yoe + era * 400;
            let mp = (5 * doy + 2) / 153;
            let month = if mp < 10 {
                mp + 3
            } else {
                mp - 9
            };
            let year = if month <= 2 {
                y + 1
            } else {
                y
            };
            let date = Date { year, month, day: doy - march_days(mp) + 1 };
            &&& date.valid()
            &&& date.day_number() == 146097 * era + 365 * yoe + yoe / 4 - yoe / 100 + doy - 719468
            &&& date == date_of(date.day_number())
        }),
{
    let y = yoe + era * 400;
    let mp = (5 * doy + 2) / 153;
    let month = if mp < 10 {
        mp + 3
    } else {
        mp - 9
    };
    let year = if month <= 2 {
        y + 1
    } else {
        y
    };
    let date = Date { year, month, day: doy - march_days(mp) + 1 };
    lemma_month_of_year(doy);
    lemma_era(era, yoe);
    lemma_march(y, mp, date.day);
    lemma_march_month(y, mp);
    assert(date.valid());
    let chosen = date_of(date.day_number());
    assert(chosen.valid() && chosen.day_number() == date.day_number());
    dates_are_unique(date, chosen);
}

/// Converts days since the Unix epoch to a civil (year, month, day).
pub fn civil_from_days(days: i64) -> (r: (i64, u32, u32))
    requires
        days <= i64::MAX - 719_468,
    ensures
        ({
            let date = Date { year: r.0 as int, month: r.1 as int, day: r.2 as int };
            &&& date.valid()
            &&& date.day_number() == days
            &&& date == date_of(days as int)
        }),
{
    let z: i64 = days + 719_468;
    let era: i64 = if z >= 0 {
        z / 146_097
    } else {
        -((146_096 - z) / 146_097)
    };
    assert(0 <= z - era * 146097 < 146097);
    let doe: u64 = (z - era * 146_097) as u64;
    proof {
        lemma_year_of_era(doe as int);
    }
    let yoe: u64 = (doe - doe / 1460 + doe / 36_524 - doe / 146_096) / 365;
    let y: i64 = yoe as i64 + era * 400;
    let doy: u64 = doe - (365 * yoe + yoe / 4 - yoe / 100);
    proof {
        lemma_month_of_year(doy as int);
        lemma_civil(era as int, yoe as int, doy as int);
    }
    let mp: u64 = (5 * doy + 2) / 153;
    let d: u64 = doy - (153 * mp + 2) / 5 + 1;
    let m: u64 = if mp < 10 {
        mp + 3
    } else {
        mp - 9
    };
    (if m <= 2 {
        y + 1
    } else {
        y
    }, m as u32, d as u32)
}

// ---------------------------------------------------------------------------
// Timestamps
// ---------------------------------------------------------------------------
/// The decimal rendering of `n`, filled up with zeros to `width` digits.
pub open spec fn padded(n: nat, width: nat) -> Seq<char>
    decreases width,
{
    if text::decimal(n).len() >= width {
        text::decimal(n)
    } else {
        seq!['0'] + padded(n, (width - 1) as nat)
    }
}

/// The UTC timestamp `YYYYMMDD-HH:MM:SS` of an instant, given in seconds since
/// the Unix epoch.
pub open spec fn timestamp(seconds: nat) -> Seq<char> {
    let date = date_of((seconds / 86400) as int);
    let of_day = seconds % 86400;
    padded(date.year as nat, 4) + padded(date.month as nat, 2) + padded(date.day as nat, 2) + seq![
        '-',
    ] + padded(of_day / 3600, 2) + seq![':'] + padded((of_day % 3600) / 60, 2) + seq![':']
        + padded(of_day % 60, 2)
}

fn push_padded(out: &mut String, n: u64, width: usize)
    ensures
        final(out)@ == old(out)@ + padded(n as nat, width as nat),
{
    let number: String = text::decimal_text(n);
    let digits: Vec<char> = text::chars_of(number.as_str());
    let mut left: usize = width;
    let ghost before = out@;
    while left > digits.len()
        invariant
            digits@ == text::decimal(n as nat),
            left <= width,
            before + padded(n as nat, width as nat) == out@ + padded(n as nat, left as nat),
        decreases left,
    {
        let ghost at = out@;
        out.push('0');
        left = left - 1;
        assert(out@ + padded(n as nat, left as nat) =~= at + padded(n as nat, (left + 1) as nat));
    }
    out.append(number.as_str());
}

/// The UTC timestamp of an instant, given in seconds since the Unix epoch.
pub fn timestamp_text(seconds: u64) -> (r: String)
    ensures
        r@ == timestamp(seconds as nat),
{
    let days: u64 = seconds / 86_400;
    let of_day: u64 = seconds % 86_400;
    let (year, month, day): (i64, u32, u32) = civil_from_days(days as i64);
    proof {
        lemma_after_epoch(Date { year: year as int, month: month as int, day: day as int });
    }
    let mut out: String = String::new();
    push_padded(&mut out, year as u64, 4);
    push_padded(&mut out, month as u64, 2);
    push_padded(&mut out, day as u64, 2);
    out.push('-');
    push_padded(&mut out, of_day / 3600, 2);
    out.push(':');
    push_padded(&mut out, (of_day % 3600) / 60, 2);
    out.push(':');
    push_padded(&mut out, of_day % 60, 2);
    assert(out@ =~= timestamp(seconds as nat));
    out
}

proof fn lemma_after_epoch(date: Date)
    requires
        date.valid(),
        date.day_number() >= 0,
    ensures
        date.year >= 1970,
{
    lemma_months(date.year, date.month);
    year_length(date.year);
    if date.year < 1970 {
        lemma_years_grow(date.year + 1, 1970);
    }
}

// ---------------------------------------------------------------------------
// Laws
// ---------------------------------------------------------------------------
/// Thirty days have April, June, September and November, February has 28 and in
/// leap years 29, all the rest have 31. A year that four divides is a leap year,
/// unless a hundred divides it and four hundred does not.
pub proof fn months_have_their_days(year: int, month: int)
    requires
        1 <= month <= 12,
    ensures
        month == 4 || month == 6 || month == 9 || month == 11 ==> days_in_month(year, month) == 30,
        month == 2 && is_leap(year) ==> days_in_month(year, month) == 29,
        month == 2 && !is_leap(year) ==> days_in_month(year, month) == 28,
        month != 2 && month != 4 && month != 6 && month != 9 && month != 11 ==> days_in_month(
            year,
            month,
        ) == 31,
        year % 400 == 0 ==> is_leap(year),
        year % 100 == 0 && year % 400 != 0 ==> !is_leap(year),
        year % 4 == 0 && year % 100 != 0 ==> is_leap(year),
        year % 4 != 0 ==> !is_leap(year),
{
}

/// Days are counted from 1 January 1970, one after the other: the next day of a
/// month, the first of the next month behind the last day of one, and 1 January
/// behind 31 December.
pub proof fn days_follow_one_another(year: int, month: int, day: int)
    requires
        (Date { year, month, day }).valid(),
    ensures
        (Date { year: 1970, month: 1, day: 1 }).day_number() == 0,
        (Date { year, month, day: day + 1 }).day_number() == (Date { year, month, day }).day_number()
            + 1,
        day == days_in_month(year, month) && month < 12 ==> (Date {
            year,
            month: month + 1,
            day: 1,
        }).day_number() == (Date { year, month, day }).day_number() + 1,
        day == 31 && month == 12 ==> (Date { year: year + 1, month: 1, day: 1 }).day_number() == (
        Date { year, month, day }).day_number() + 1,
{
    year_length(year);
    reveal_with_fuel(days_before_month, 2);
    if month == 12 {
        assert(days_in_month(year, 12) == 31);
    }
}

/// A padded number reads as the number, and is at least as long as asked for, no
/// longer than it must be.
pub proof fn padding_keeps_the_number(n: nat, width: nat)
    ensures
        text::all_digits(padded(n, width)),
        text::digits_value(padded(n, width)) == n,
        text::decimal(n).len() <= width ==> padded(n, width).len() == width,
        text::decimal(n).len() > width ==> padded(n, width) == text::decimal(n),
    decreases width,
{
    text::lemma_decimal_value(n);
    if text::decimal(n).len() < width {
        let rest = padded(n, (width - 1) as nat);
        padding_keeps_the_number(n, (width - 1) as nat);
        let all = seq!['0'] + rest;
        assert(text::all_digits(all)) by {
            assert forall|i: int| 0 <= i < all.len() implies text::is_digit(#[trigger] all[i]) by {
                if i > 0 {
                    assert(text::is_digit(rest[i - 1]));
                }
            }
        }
        lemma_zero_in_front(rest);
    }
}

/// A zero in front changes no number.
proof fn lemma_zero_in_front(s: Seq<char>)
    ensures
        text::digits_value(seq!['0'] + s) == text::digits_value(s),
    decreases s.len(),
{
    let all = seq!['0'] + s;
    reveal_with_fuel(text::digits_value, 2);
    if s.len() > 0 {
        lemma_zero_in_front(s.drop_last());
        assert(all.drop_last() =~= seq!['0'] + s.drop_last());
        assert(all.last() == s.last());
    } else {
        assert(all.drop_last() =~= Seq::<char>::empty());
    }
}

/// A timestamp shows the date and the time of day of its instant: eight digits
/// for year, month and day, then hours, minutes and seconds of two digits each,
/// which add up to the instant again. (From the year 10000 on the year takes more
/// digits.)
pub proof fn timestamps_tell_the_instant(seconds: nat, date: Date)
    requires
        date.valid(),
        date.day_number() == seconds / 86400,
        date.year <= 9999,
    ensures
        ({
            let t = timestamp(seconds);
            let hours = text::digits_value(t.subrange(9, 11));
            let minutes = text::digits_value(t.subrange(12, 14));
            let of_minute = text::digits_value(t.subrange(15, 17));
            &&& t.len() == 17
            &&& text::digits_value(t.subrange(0, 4)) == date.year
            &&& text::digits_value(t.subrange(4, 6)) == date.month
            &&& text::digits_value(t.subrange(6, 8)) == date.day
            &&& t[8] == '-'
            &&& t[11] == ':'
            &&& t[14] == ':'
            &&& hours < 24
            &&& minutes < 60
            &&& of_minute < 60
            &&& date.day_number() * 86400 + hours * 3600 + minutes * 60 + of_minute == seconds
        }),
{
    let days = (seconds / 86400) as int;
    let of_day = seconds % 86400;
    let chosen = date_of(days);
    assert(date.valid() && date.day_number() == days);
    assert(chosen.valid() && chosen.day_number() == days);
    dates_are_unique(date, chosen);
    lemma_after_epoch(date);
    let y = padded(date.year as nat, 4);
    let m = padded(date.month as nat, 2);
    let d = padded(date.day as nat, 2);
    let h = padded(of_day / 3600, 2);
    let n = padded((of_day % 3600) / 60, 2);
    let s = padded(of_day % 60, 2);
    lemma_four_digits(date.year as nat);
    text::decimals_have_no_leading_zero(date.month as nat);
    text::decimals_have_no_leading_zero(date.day as nat);
    text::decimals_have_no_leading_zero(of_day / 3600);
    text::decimals_have_no_leading_zero((of_day % 3600) / 60);
    text::decimals_have_no_leading_zero(of_day % 60);
    padding_keeps_the_number(date.year as nat, 4);
    padding_keeps_the_number(date.month as nat, 2);
    padding_keeps_the_number(date.day as nat, 2);
    padding_keeps_the_number(of_day / 3600, 2);
    padding_keeps_the_number((of_day % 3600) / 60, 2);
    padding_keeps_the_number(of_day % 60, 2);
    assert(days_in_month(date.year, date.month) <= 31);
    let t = timestamp(seconds);
    assert(t.len() == 17);
    assert(t.subrange(0, 4) =~= y);
    assert(t.subrange(4, 6) =~= m);
    assert(t.subrange(6, 8) =~= d);
    assert(t.subrange(9, 11) =~= h);
    assert(t.subrange(12, 14) =~= n);
    assert(t.subrange(15, 17) =~= s);
}

/// A year before 10000 has at most four digits.
proof fn lemma_four_digits(n: nat)
    requires
        n <= 9999,
    ensures
        text::decimal(n).len() <= 4,
{
    text::decimals_have_no_leading_zero(n);
    text::decimals_have_no_leading_zero(n / 10);
    text::decimals_have_no_leading_zero(n / 10 / 10);
}

} // verus!
