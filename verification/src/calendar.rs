//! Dates of the proleptic Gregorian calendar and their ISO 8601 text.

use vstd::prelude::*;

use crate::text;
use crate::text::{push_signed_zero_padded, push_zero_padded};

verus! {

/// Whether `y` is a leap year: every fourth year, except centuries that
/// are not a multiple of 400.
pub open spec fn is_leap(y: int) -> bool {
    y % 4 == 0 && (y % 100 != 0 || y % 400 == 0)
}

/// The number of days of year `y`.
pub open spec fn days_in_year(y: int) -> int {
    if is_leap(y) { 366 } else { 365 }
}

/// The number of days of month `m` (1 is January) of year `y`.
pub open spec fn days_in_month(y: int, m: int) -> int {
    if m == 2 {
        if is_leap(y) { 29 } else { 28 }
    } else if m == 4 || m == 6 || m == 9 || m == 11 {
        30
    } else {
        31
    }
}

/// The number of days from 1970-01-01 to the first day of year `y`.
pub open spec fn days_before_year(y: int) -> int
    decreases if y >= 1970 { y - 1970 } else { 1970 - y },
{
    if y == 1970 {
        0
    } else if y > 1970 {
        days_before_year(y - 1) + days_in_year(y - 1)
    } else {
        days_before_year(y + 1) - days_in_year(y)
    }
}

/// The number of days of year `y` that come before month `m`.
pub open spec fn days_before_month(y: int, m: int) -> int
    decreases m,
{
    if m <= 1 {
        0
    } else {
        days_before_month(y, m - 1) + days_in_month(y, m - 1)
    }
}

/// Whether year `y` has a month `m` with a day `d`.
pub open spec fn is_date(y: int, m: int, d: int) -> bool {
    1 <= m <= 12 && 1 <= d <= days_in_month(y, m)
}

/// The number of days from 1970-01-01 to the given date.
pub open spec fn day_number(y: int, m: int, d: int) -> int {
    days_before_year(y) + days_before_month(y, m) + d - 1
}

/// The date (year, month, day) that lies `days` days after 1970-01-01.
pub open spec fn civil_date(days: int) -> (int, int, int) {
    choose|y: int, m: int, d: int| #[trigger] is_date(y, m, d) && day_number(y, m, d) == days
}

/// The number of leap years in 1..=n, extended to all integers.
spec fn leaps(n: int) -> int {
    n / 4 - n / 100 + n / 400
}

proof fn lemma_leaps_step(y: int)
    ensures
        leaps(y) - leaps(y - 1) == (if is_leap(y) { 1int } else { 0int }),
{
}

proof fn lemma_days_before_year(y: int)
    ensures
        days_before_year(y) == 365 * (y - 1970) + leaps(y - 1) - leaps(1969),
    decreases if y >= 1970 { y - 1970 } else { 1970 - y },
{
    if y > 1970 {
        lemma_days_before_year(y - 1);
        lemma_leaps_step(y - 1);
    } else if y < 1970 {
        lemma_days_before_year(y + 1);
        lemma_leaps_step(y);
    }
}

proof fn lemma_months(y: int)
    ensures
        days_before_month(y, 1) == 0,
        days_before_month(y, 2) == 31,
        days_before_month(y, 3) == days_in_year(y) - 306,
        days_before_month(y, 4) == days_in_year(y) - 275,
        days_before_month(y, 5) == days_in_year(y) - 245,
        days_before_month(y, 6) == days_in_year(y) - 214,
        days_before_month(y, 7) == days_in_year(y) - 184,
        days_before_month(y, 8) == days_in_year(y) - 153,
        days_before_month(y, 9) == days_in_year(y) - 122,
        days_before_month(y, 10) == days_in_year(y) - 92,
        days_before_month(y, 11) == days_in_year(y) - 61,
        days_before_month(y, 12) == days_in_year(y) - 31,
{
    reveal_with_fuel(days_before_month, 13);
}

/// The year within an era of 400 years that starts in March, `doe` days after
/// its first day.
#[verifier::rlimit(60)]
proof fn lemma_year_of_era(doe: int, yoe: int)
    requires
        0 <= doe < 146_097,
        yoe == (doe - doe / 1460 + doe / 36_524 - doe / 146_096) / 365,
    ensures
        0 <= yoe <= 399,
        0 <= doe - (365 * yoe + yoe / 4 - yoe / 100) <= 365,
        doe - (365 * yoe + yoe / 4 - yoe / 100) == 365 ==> is_leap(yoe + 1),
{
}

proof fn lemma_era_shift(yoe: int, era: int)
    requires
        0 <= yoe <= 399,
    ensures
        leaps(yoe + 400 * era) == yoe / 4 - yoe / 100 + 97 * era,
        is_leap(yoe + 400 * era) == is_leap(yoe),
        is_leap(yoe + 400 * era + 1) == is_leap(yoe + 1),
{
    let y = yoe + 400 * era;
    assert(y / 4 == yoe / 4 + 100 * era);
    assert(y / 100 == yoe / 100 + 4 * era);
    assert(y / 400 == era);
}

/// The first of March of year `yoe + 400 * era`.
proof fn lemma_first_of_march(yoe: int, era: int)
    requires
        0 <= yoe <= 399,
    ensures
        day_number(yoe + 400 * era, 3, 1) == 146_097 * era + 365 * yoe + yoe / 4 - yoe / 100
            - 719_468,
        days_before_year(yoe + 400 * era + 1) == day_number(yoe + 400 * era, 3, 1) + 306,
{
    let y = yoe + 400 * era;
    lemma_days_before_year(y);
    lemma_months(y);
    lemma_leaps_step(y);
    lemma_era_shift(yoe, era);
    assert(leaps(1969) == 477);
}

/// The month and the day within a year that starts in March, `doy` days
/// after its first day.
proof fn lemma_month_of_year(y: int, doy: int, mp: int, m: int, d: int)
    requires
        0 <= doy <= 365,
        doy == 365 ==> is_leap(y + 1),
        mp == (5 * doy + 2) / 153,
        m == (if mp < 10 { mp + 3 } else { mp - 9 }),
        d == doy - (153 * mp + 2) / 5 + 1,
    ensures
        0 <= mp <= 11,
        mp < 10 ==> is_date(y, m, d) && days_before_month(y, m) + d - 1 == days_before_month(y, 3)
            + doy,
        mp >= 10 ==> m <= 2 && is_date(y + 1, m, d) && days_before_month(y + 1, m) + d - 1 == doy
            - 306,
{
    lemma_months(y);
    lemma_months(y + 1);
}

/// The date that the era arithmetic yields is the one it should be.
proof fn lemma_date_of_era(
    era: int,
    doe: int,
    yoe: int,
    doy: int,
    mp: int,
    y: int,
    m: int,
    d: int,
)
    requires
        0 <= doe < 146_097,
        yoe == (doe - doe / 1460 + doe / 36_524 - doe / 146_096) / 365,
        doy == doe - (365 * yoe + yoe / 4 - yoe / 100),
        mp == (5 * doy + 2) / 153,
        d == doy - (153 * mp + 2) / 5 + 1,
        m == (if mp < 10 { mp + 3 } else { mp - 9 }),
        y == yoe + era * 400 + (if m <= 2 { 1int } else { 0int }),
    ensures
        is_date(y, m, d),
        day_number(y, m, d) == 146_097 * era + doe - 719_468,
{
    let march_year = yoe + 400 * era;
    lemma_year_of_era(doe, yoe);
    lemma_era_shift(yoe, era);
    lemma_first_of_march(yoe, era);
    lemma_month_of_year(march_year, doy, mp, m, d);
}

/// A later year starts later.
proof fn lemma_years_grow(y1: int, y2: int)
    requires
        y1 <= y2,
    ensures
        days_before_year(y1) + 365 * (y2 - y1) <= days_before_year(y2),
        y1 < y2 ==> days_before_year(y1) + days_in_year(y1) <= days_before_year(y2),
    decreases y2 - y1,
{
    if y1 < y2 {
        lemma_years_grow(y1 + 1, y2);
        lemma_days_before_year(y1);
        lemma_days_before_year(y1 + 1);
        lemma_leaps_step(y1);
    }
}

/// A date lies within its year.
proof fn lemma_date_in_year(y: int, m: int, d: int)
    requires
        is_date(y, m, d),
    ensures
        days_before_year(y) <= day_number(y, m, d) < days_before_year(y) + days_in_year(y),
{
    lemma_months(y);
}

/// No two dates are the same number of days after 1970-01-01.
pub proof fn law_dates_are_distinct(y1: int, m1: int, d1: int, y2: int, m2: int, d2: int)
    requires
        is_date(y1, m1, d1),
        is_date(y2, m2, d2),
        day_number(y1, m1, d1) == day_number(y2, m2, d2),
    ensures
        y1 == y2,
        m1 == m2,
        d1 == d2,
{
    lemma_date_in_year(y1, m1, d1);
    lemma_date_in_year(y2, m2, d2);
    if y1 < y2 {
        lemma_years_grow(y1, y2);
    }
    if y2 < y1 {
        lemma_years_grow(y2, y1);
    }
    lemma_months(y1);
}

/// Every number of days after (or, where negative, before) 1970-01-01
/// leads to a date, and to that one only.
pub proof fn law_every_day_has_its_date(days: int)
    ensures
        ({
            let (y, m, d) = civil_date(days);
            is_date(y, m, d) && day_number(y, m, d) == days
        }),
        forall|y: int, m: int, d: int| #[trigger]
            is_date(y, m, d) && day_number(y, m, d) == days ==> civil_date(days) == (y, m, d),
{
    let z = days + 719_468;
    let era = z / 146_097;
    let doe = z % 146_097;
    let yoe = (doe - doe / 1460 + doe / 36_524 - doe / 146_096) / 365;
    let doy = doe - (365 * yoe + yoe / 4 - yoe / 100);
    let mp = (5 * doy + 2) / 153;
    let d = doy - (153 * mp + 2) / 5 + 1;
    let m = if mp < 10 { mp + 3 } else { mp - 9 };
    let y = yoe + era * 400 + (if m <= 2 { 1int } else { 0int });
    lemma_date_of_era(era, doe, yoe, doy, mp, y, m, d);
    let (cy, cm, cd) = civil_date(days);
    assert(is_date(cy, cm, cd) && day_number(cy, cm, cd) == days);
    assert forall|y: int, m: int, d: int| #[trigger]
        is_date(y, m, d) && day_number(y, m, d) == days implies civil_date(days) == (y, m, d) by {
        law_dates_are_distinct(y, m, d, cy, cm, cd);
    }
}

/// The date of a day number is the date that the number was taken from.
pub proof fn law_date_of_day_number(y: int, m: int, d: int)
    requires
        is_date(y, m, d),
    ensures
        civil_date(day_number(y, m, d)) == (y, m, d),
{
    law_every_day_has_its_date(day_number(y, m, d));
}

/// The date (year, month, day) that lies `days` days after 1970-01-01.
/// A year that an `i32` cannot hold is cut to its low 32 bits.
#[verifier::rlimit(60)]
pub fn civil_from_days(days: i64) -> (r: (i32, u32, u32))
    requires
        days + 719_468 <= i64::MAX,
    ensures
        r.0 == civil_date(days as int).0 as i32,
        r.1 == civil_date(days as int).1,
        r.2 == civil_date(days as int).2,
{
    let z: i64 = days + 719_468;
    let era: i64 = if z >= 0 { z } else { z - 146_096 } / 146_097;
    let doe: u64 = (z - era * 146_097) as u64;
    let yoe: u64 = (doe - doe / 1460 + doe / 36_524 - doe / 146_096) / 365;
    let y: i64 = yoe as i64 + era * 400;
    proof {
        lemma_year_of_era(doe as int, yoe as int);
    }
    let doy: u64 = doe - (365 * yoe + yoe / 4 - yoe / 100);
    let mp: u64 = (5 * doy + 2) / 153;
    let d: u32 = (doy - (153 * mp + 2) / 5 + 1) as u32;
    let m: u32 = if mp < 10 { mp + 3 } else { mp - 9 } as u32;
    let y: i64 = if m <= 2 { y + 1 } else { y };
    proof {
        lemma_date_of_era(
            era as int,
            doe as int,
            yoe as int,
            doy as int,
            mp as int,
            y as int,
            m as int,
            d as int,
        );
        law_every_day_has_its_date(days as int);
    }
    #[verifier::truncate]
    let short: i32 = y as i32;
    (short, m, d)
}

/// The quotient of `a` and `b` rounded towards zero.
pub open spec fn quotient(a: int, b: int) -> int {
    if a >= 0 { a / b } else { -((-a) / b) }
}

/// `secs` seconds after 1970-01-01T00:00:00Z as an ISO 8601 date and time of
/// day. The top half of the range of `u64` stands for the negative numbers
/// of seconds, and what is then left of a day is taken modulo 2^32.
pub open spec fn iso_text(secs: u64) -> Seq<char> {
    let total = if secs <= i64::MAX { secs as int } else { secs - 0x1_0000_0000_0000_0000 };
    let days = quotient(total, 86_400);
    let rest = (total - days * 86_400) % 0x1_0000_0000;
    let (y, m, d) = civil_date(days);
    text::signed_zero_padded((y as i32) as int, 4) + seq!['-'] + text::zero_padded(m as nat, 2) + seq!['-']
        + text::zero_padded(d as nat, 2) + seq!['T'] + text::zero_padded((rest / 3600) as nat, 2) + seq![':']
        + text::zero_padded((rest / 60 % 60) as nat, 2) + seq![':'] + text::zero_padded((rest % 60) as nat, 2)
        + seq!['Z']
}

/// Formats `secs` seconds after 1970-01-01T00:00:00Z as in `2024-02-29T12:34:56Z`.
pub fn fmt_iso(secs: u64) -> (s: String)
    ensures
        s@ == iso_text(secs),
{
    #[verifier::truncate]
    let total: i64 = secs as i64;
    assert(secs > i64::MAX ==> total == secs - 0x1_0000_0000_0000_0000) by (bit_vector)
        requires
            total == secs as i64,
    ;
    assert(secs <= i64::MAX ==> total == secs) by (bit_vector)
        requires
            total == secs as i64,
    ;
    let days: i64 = total / 86_400;
    let left: i64 = total % 86_400;
    #[verifier::truncate]
    let rest: u32 = left as u32;
    let (y, m, d) = civil_from_days(days);
    let mut s = String::new();
    push_signed_zero_padded(&mut s, y, 4);
    s.push('-');
    push_zero_padded(&mut s, m as u64, 2);
    s.push('-');
    push_zero_padded(&mut s, d as u64, 2);
    s.push('T');
    push_zero_padded(&mut s, (rest / 3600) as u64, 2);
    s.push(':');
    push_zero_padded(&mut s, (rest / 60 % 60) as u64, 2);
    s.push(':');
    push_zero_padded(&mut s, (rest % 60) as u64, 2);
    s.push('Z');
    assert(days == quotient(total as int, 86_400));
    assert(left == total - days * 86_400);
    assert(rest == left % 0x1_0000_0000) by (bit_vector)
        requires
            rest == left as u32,
            -86_400 < left < 86_400,
    ;
    proof {
        assert(s@ =~= iso_text(secs));
    }
    s
}

/// The day after a date is the next day of the month, else the first of the
/// next month, else the first of the next year; and 1970-01-01 is where the
/// days are counted from.
pub proof fn law_days_follow_each_other(y: int, m: int, d: int)
    requires
        is_date(y, m, d),
    ensures
        is_date(y, m, d + 1) ==> day_number(y, m, d + 1) == day_number(y, m, d) + 1,
        !is_date(y, m, d + 1) && m < 12 ==> day_number(y, m + 1, 1) == day_number(y, m, d) + 1,
        !is_date(y, m, d + 1) && m == 12 ==> day_number(y + 1, 1, 1) == day_number(y, m, d) + 1,
        y == 1970 && m == 1 ==> day_number(y, m, d) == d - 1,
{
    lemma_months(y);
    lemma_months(y + 1);
    lemma_days_before_year(y);
    lemma_days_before_year(y + 1);
    lemma_leaps_step(y);
}

/// Every month has 28 days, all but February have 30, and seven have 31; none
/// has more. (When February has 29, [`law_calendar_repeats`] says.)
pub proof fn law_lengths_of_months(y: int, m: int, d: int)
    ensures
        1 <= m <= 12 && 1 <= d <= 28 ==> is_date(y, m, d),
        is_date(y, m, 30) <==> 1 <= m <= 12 && m != 2,
        is_date(y, m, 31) <==> m == 1 || m == 3 || m == 5 || m == 7 || m == 8 || m == 10 || m == 12,
        is_date(y, m, d) ==> 1 <= m <= 12 && 1 <= d <= 31,
        is_date(y, m, d) && d > 1 ==> is_date(y, m, d - 1),
{
}

proof fn lemma_leaps_repeat(y: int)
    ensures
        is_leap(y + 400) == is_leap(y),
        leaps(y + 400) == leaps(y) + 97,
{
}

proof fn lemma_months_repeat(y: int, m: int)
    ensures
        days_before_month(y + 400, m) == days_before_month(y, m),
        days_in_month(y + 400, m) == days_in_month(y, m),
    decreases m,
{
    lemma_leaps_repeat(y);
    if m > 1 {
        lemma_months_repeat(y, m - 1);
    }
}

/// The calendar repeats itself after 400 years, which are 146097 days. A year
/// has 366 days where it has a 29th of February, and else 365.
pub proof fn law_calendar_repeats(y: int, m: int, d: int)
    ensures
        is_date(y + 400, m, d) == is_date(y, m, d),
        is_date(y, m, d) ==> day_number(y + 400, m, d) == day_number(y, m, d) + 146_097,
        day_number(y + 1, 1, 1) - day_number(y, 1, 1) == (if is_date(y, 2, 29) {
            366int
        } else {
            365int
        }),
        is_date(y, 2, 29) <==> y % 4 == 0 && (y % 100 == 0 ==> y % 400 == 0),
{
    lemma_leaps_repeat(y);
    lemma_leaps_repeat(y - 1);
    lemma_days_before_year(y);
    lemma_days_before_year(y + 1);
    lemma_days_before_year(y + 400);
    lemma_leaps_step(y);
    lemma_months_repeat(y, m);
}

/// The number that stands in `t` from index `from` to before index `to`.
pub open spec fn number_at(t: Seq<char>, from: int, to: int) -> int {
    text::digits_value(t.subrange(from, to)) as int
}

/// The number of digits of the year in `t`, if it has the form of
/// [`is_iso`].
pub open spec fn year_len(t: Seq<char>) -> int {
    t.len() - 16
}

/// Whether `t` has the form `0000-00-00T00:00:00Z`, with any digits, and with
/// more than four of them for the year only where it needs them.
pub open spec fn is_iso(t: Seq<char>) -> bool {
    let n = year_len(t);
    &&& n >= 4
    &&& text::is_digits(t.subrange(0, n))
    &&& n > 4 ==> t[0] != '0'
    &&& t[n] == '-'
    &&& text::is_digits(t.subrange(n + 1, n + 3))
    &&& t[n + 3] == '-'
    &&& text::is_digits(t.subrange(n + 4, n + 6))
    &&& t[n + 6] == 'T'
    &&& text::is_digits(t.subrange(n + 7, n + 9))
    &&& t[n + 9] == ':'
    &&& text::is_digits(t.subrange(n + 10, n + 12))
    &&& t[n + 12] == ':'
    &&& text::is_digits(t.subrange(n + 13, n + 15))
    &&& t[n + 15] == 'Z'
}

/// Whether `t` is the date and the time of day of the moment that lies `secs`
/// seconds after 1970-01-01T00:00:00Z.
pub open spec fn names_moment(t: Seq<char>, secs: int) -> bool {
    let n = year_len(t);
    let y = number_at(t, 0, n);
    let m = number_at(t, n + 1, n + 3);
    let d = number_at(t, n + 4, n + 6);
    let hour = number_at(t, n + 7, n + 9);
    let minute = number_at(t, n + 10, n + 12);
    let second = number_at(t, n + 13, n + 15);
    &&& is_iso(t)
    &&& is_date(y, m, d)
    &&& hour < 24
    &&& minute < 60
    &&& second < 60
    &&& day_number(y, m, d) * 86_400 + hour * 3600 + minute * 60 + second == secs
}

proof fn lemma_year_fits(days: int)
    requires
        0 <= days < 784_351_576_777,
    ensures
        1970 <= civil_date(days).0 <= i32::MAX,
{
    law_every_day_has_its_date(days);
    let (y, m, d) = civil_date(days);
    lemma_date_in_year(y, m, d);
    lemma_days_before_year(1970);
    lemma_days_before_year(2_147_483_648);
    if y >= 2_147_483_648 {
        lemma_years_grow(2_147_483_648, y);
    }
    if y < 1970 {
        lemma_years_grow(y, 1970);
    }
}

/// As long as an `i32` can hold the year, the text of a moment names that very
/// moment: what can be read back from it is the date and the time of day that
/// lie as many seconds after 1970-01-01T00:00:00Z.
pub proof fn law_iso_text_names_the_moment(secs: u64)
    requires
        secs < 67_767_976_233_532_800,
    ensures
        names_moment(iso_text(secs), secs as int),
{
    let total = secs as int;
    let days = quotient(total, 86_400);
    let rest = total - days * 86_400;
    assert(days == total / 86_400);
    assert(0 <= rest < 86_400);
    assert(rest % 0x1_0000_0000 == rest);
    let (y, m, d) = civil_date(days);
    lemma_year_fits(days);
    text::law_decimal_denotes_the_number(y as nat);
    law_every_day_has_its_date(days);
    let ys = text::zero_padded(y as nat, 4);
    let ms = text::zero_padded(m as nat, 2);
    let ds = text::zero_padded(d as nat, 2);
    let hs = text::zero_padded((rest / 3600) as nat, 2);
    let mins = text::zero_padded((rest / 60 % 60) as nat, 2);
    let ss = text::zero_padded((rest % 60) as nat, 2);
    text::law_padding_keeps_the_number(y as nat, 4);
    text::law_padding_keeps_the_number(m as nat, 2);
    text::law_padding_keeps_the_number(d as nat, 2);
    text::law_padding_keeps_the_number((rest / 3600) as nat, 2);
    text::law_padding_keeps_the_number((rest / 60 % 60) as nat, 2);
    text::law_padding_keeps_the_number((rest % 60) as nat, 2);
    text::lemma_short_decimals(m as nat);
    text::lemma_short_decimals(d as nat);
    text::lemma_short_decimals((rest / 3600) as nat);
    text::lemma_short_decimals((rest / 60 % 60) as nat);
    text::lemma_short_decimals((rest % 60) as nat);
    let t = iso_text(secs);
    assert(t == ys + seq!['-'] + ms + seq!['-'] + ds + seq!['T'] + hs + seq![':'] + mins + seq![':']
        + ss + seq!['Z']);
    let n = ys.len() as int;
    assert(t.len() == n + 16);
    assert(n > 4 ==> t[0] == text::decimal(y as nat)[0]);
    assert(t.subrange(0, n) =~= ys);
    assert(t.subrange(n + 1, n + 3) =~= ms);
    assert(t.subrange(n + 4, n + 6) =~= ds);
    assert(t.subrange(n + 7, n + 9) =~= hs);
    assert(t.subrange(n + 10, n + 12) =~= mins);
    assert(t.subrange(n + 13, n + 15) =~= ss);
}

} // verus!
