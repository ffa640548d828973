//! Dates and times: the Gregorian calendar counted in days from 1970-01-01.
use vstd::prelude::*;

use crate::text::{decimal, push_padded};
use crate::text::{concat_assoc, dec, lemma_dec_len, pad_left, ten_to};

verus! {

/// Whether year `y` has a 29th of February.
pub open spec fn leap(y: int) -> bool {
    y % 4 == 0 && (y % 100 != 0 || y % 400 == 0)
}

/// The number of days of a month.
pub open spec fn days_in_month(y: int, m: int) -> int {
    if m == 2 {
        if leap(y) {
            29
        } else {
            28
        }
    } else if m == 4 || m == 6 || m == 9 || m == 11 {
        30
    } else {
        31
    }
}

/// Whether day `d` of month `m` of year `y` exists.
pub open spec fn valid_date(y: int, m: int, d: int) -> bool {
    1 <= m <= 12 && 1 <= d <= days_in_month(y, m)
}

/// Days from 1970-01-01 to the first day of year `y`.
pub open spec fn year_start(y: int) -> int {
    365 * y + (y - 1) / 4 - (y - 1) / 100 + (y - 1) / 400 - 719527
}

/// Days of year `y` before the first day of month `m`.
pub open spec fn month_start(y: int, m: int) -> int
    decreases m,
{
    if m <= 1 {
        0
    } else {
        month_start(y, m - 1) + days_in_month(y, m - 1)
    }
}

/// Days from 1970-01-01 to the given date.
pub open spec fn day_number(y: int, m: int, d: int) -> int {
    year_start(y) + month_start(y, m) + d - 1
}

/// Whether `(y, m, d)` is the date of day `n`.
#[verifier::opaque]
pub open spec fn is_date_of(y: int, m: int, d: int, n: int) -> bool {
    valid_date(y, m, d) && day_number(y, m, d) == n
}

/// A count of days of which the upper half of the range stands for days before
/// 1970, in two's complement.
pub open spec fn signed_days(days: u64) -> int {
    if days < 0x8000_0000_0000_0000 {
        days as int
    } else {
        days - 0x1_0000_0000_0000_0000
    }
}

/// Years follow one another: 1970 starts at day 0, and each next year starts
/// 365 or, after a leap year, 366 days later.
#[verifier::rlimit(40)]
pub proof fn years_follow(y: int)
    ensures
        year_start(1970) == 0,
        year_start(y + 1) == year_start(y) + (if leap(y) { 366int } else { 365int }),
{
    assert(y / 4 == (y - 1) / 4 + (if y % 4 == 0 { 1int } else { 0int }));
    assert(y / 100 == (y - 1) / 100 + (if y % 100 == 0 { 1int } else { 0int }));
    assert(y / 400 == (y - 1) / 400 + (if y % 400 == 0 { 1int } else { 0int }));
    assert(y % 400 == 0 ==> y % 100 == 0);
    assert(y % 100 == 0 ==> y % 4 == 0);
}

/// Twelve months make a year.
pub proof fn months_fill_the_year(y: int)
    ensures
        month_start(y, 13) == (if leap(y) { 366int } else { 365int }),
{
    lemma_month_starts(y);
}

proof fn lemma_month_starts(y: int)
    ensures
        ({
            let l: int = if leap(y) { 1 } else { 0 };
            &&& month_start(y, 1) == 0
            &&& month_start(y, 2) == 31
            &&& month_start(y, 3) == 59 + l
            &&& month_start(y, 4) == 90 + l
            &&& month_start(y, 5) == 120 + l
            &&& month_start(y, 6) == 151 + l
            &&& month_start(y, 7) == 181 + l
            &&& month_start(y, 8) == 212 + l
            &&& month_start(y, 9) == 243 + l
            &&& month_start(y, 10) == 273 + l
            &&& month_start(y, 11) == 304 + l
            &&& month_start(y, 12) == 334 + l
            &&& month_start(y, 13) == 365 + l
        }),
{
    reveal_with_fuel(month_start, 14);
}

/// Year of the 400-year era, counted from March, of day `doe` of that era.
#[verifier::rlimit(40)]
proof fn lemma_year_of_era(doe: int) -> (yoe: int)
    requires
        0 <= doe <= 146096,
    ensures
        yoe == (doe - doe / 1460 + doe / 36524 - doe / 146096) / 365,
        0 <= yoe <= 399,
        ({
            let doy = doe - (365 * yoe + yoe / 4 - yoe / 100);
            0 <= doy <= 365 && (doy == 365 ==> leap(yoe + 1))
        }),
{
    let a = doe / 1460;
    let b = doe / 36524;
    let c = doe / 146096;
    let yoe = (doe - a + b - c) / 365;
    assert(c == 0 || c == 1);
    assert(b == 0 || b == 1 || b == 2 || b == 3 || b == 4);
    yoe
}

proof fn lemma_shift_by_4(x: int, era: int)
    ensures
        (x + era * 400) / 4 == x / 4 + era * 100,
        (x + era * 400) % 4 == x % 4,
{
}

proof fn lemma_shift_by_100(x: int, era: int)
    ensures
        (x + era * 400) / 100 == x / 100 + era * 4,
        (x + era * 400) % 100 == x % 100,
{
}

proof fn lemma_shift_by_400(x: int, era: int)
    ensures
        (x + era * 400) / 400 == x / 400 + era,
        (x + era * 400) % 400 == x % 400,
{
}

/// The calendar repeats after 400 years.
proof fn lemma_eras_repeat(y: int, era: int)
    ensures
        leap(y + era * 400) == leap(y),
        year_start(y + era * 400) == year_start(y) + era * 146097,
{
    lemma_shift_by_4(y, era);
    lemma_shift_by_100(y, era);
    lemma_shift_by_400(y, era);
    lemma_shift_by_4(y - 1, era);
    lemma_shift_by_100(y - 1, era);
    lemma_shift_by_400(y - 1, era);
    let a = (y - 1) / 4;
    let b = (y - 1) / 100;
    let c = (y - 1) / 400;
    assert(y + era * 400 - 1 == y - 1 + era * 400);
    assert(year_start(y + era * 400) == 365 * (y + era * 400) + (a + era * 100) - (b + era * 4) + (c
        + era) - 719527);
    assert(year_start(y) == 365 * y + a - b + c - 719527);
}

/// The first of March of the years of an era.
#[verifier::rlimit(40)]
proof fn lemma_march(yoe: int, era: int)
    requires
        0 <= yoe <= 399,
    ensures
        year_start(yoe + era * 400) + 59 + (if leap(yoe + era * 400) { 1int } else { 0int }) == era
            * 146097 + 365 * yoe + yoe / 4 - yoe / 100 - 719468,
{
    lemma_eras_repeat(yoe, era);
    assert(yoe / 4 == (yoe - 1) / 4 + (if yoe % 4 == 0 { 1int } else { 0int }));
    assert(yoe / 100 == (yoe - 1) / 100 + (if yoe % 100 == 0 { 1int } else { 0int }));
    assert((yoe - 1) / 400 == (if yoe == 0 { -1int } else { 0int }));
    assert(yoe % 400 == yoe);
}

/// The date of day `n`, computed from the 400-year eras that start in March.
#[verifier::rlimit(40)]
proof fn civil(n: int) -> (r: (int, int, int))
    ensures
        ({
            let z = n + 719468;
            let era = z / 146097;
            let doe = z - era * 146097;
            let yoe = (doe - doe / 1460 + doe / 36524 - doe / 146096) / 365;
            let doy = doe - (365 * yoe + yoe / 4 - yoe / 100);
            let mp = (5 * doy + 2) / 153;
            let m = if mp < 10 { mp + 3 } else { mp - 9 };
            let y = yoe + era * 400 + (if m <= 2 { 1int } else { 0int });
            &&& 0 <= doe <= 146096
            &&& 0 <= yoe <= 399
            &&& 0 <= doy <= 365
            &&& 0 <= mp <= 11
            &&& r == (y, m, doy - (153 * mp + 2) / 5 + 1)
        }),
        is_date_of(r.0, r.1, r.2, n),
{
    reveal(is_date_of);
    let z = n + 719468;
    let era = z / 146097;
    let doe = z - era * 146097;
    let yoe = lemma_year_of_era(doe);
    let doy = doe - (365 * yoe + yoe / 4 - yoe / 100);
    let mp = (5 * doy + 2) / 153;
    let m = if mp < 10 { mp + 3 } else { mp - 9 };
    let d = doy - (153 * mp + 2) / 5 + 1;
    let y0 = yoe + era * 400;
    let y = y0 + (if m <= 2 { 1int } else { 0int });
    lemma_month_starts(y);
    lemma_eras_repeat(yoe, era);
    lemma_eras_repeat(yoe + 1, era);
    lemma_march(yoe, era);
    years_follow(y0);
    assert(mp == 0 || mp == 1 || mp == 2 || mp == 3 || mp == 4 || mp == 5 || mp == 6 || mp == 7 || mp
        == 8 || mp == 9 || mp == 10 || mp == 11);
    (y, m, d)
}

/// The date of day `n`.
pub open spec fn date_of(n: int) -> (int, int, int) {
    choose|t: (int, int, int)| is_date_of(t.0, t.1, t.2, n)
}

/// A day has at most one date.
#[verifier::rlimit(40)]
pub proof fn dates_are_unique(y1: int, m1: int, d1: int, y2: int, m2: int, d2: int)
    requires
        valid_date(y1, m1, d1),
        valid_date(y2, m2, d2),
        day_number(y1, m1, d1) == day_number(y2, m2, d2),
    ensures
        y1 == y2,
        m1 == m2,
        d1 == d2,
{
    lemma_month_starts(y1);
    lemma_month_starts(y2);
    assert(year_start(y1) <= day_number(y1, m1, d1) < year_start(y1) + 365 + (if leap(y1) {
        1int
    } else {
        0int
    }));
    assert(year_start(y2) <= day_number(y2, m2, d2) < year_start(y2) + 365 + (if leap(y2) {
        1int
    } else {
        0int
    }));
    years_follow(y1);
    years_follow(y2);
    assert(y1 == y2);
}

/// Every day has a date, and that date counts back to the day.
pub proof fn every_day_has_a_date(n: int)
    ensures
        is_date_of(date_of(n).0, date_of(n).1, date_of(n).2, n),
{
    let r = civil(n);
    assert(is_date_of(r.0, r.1, r.2, n));
}

/// The day of a date has that date.
pub proof fn dates_round_trip(y: int, m: int, d: int)
    requires
        valid_date(y, m, d),
    ensures
        date_of(day_number(y, m, d)) == (y, m, d),
{
    reveal(is_date_of);
    let n = day_number(y, m, d);
    every_day_has_a_date(n);
    let t = date_of(n);
    dates_are_unique(y, m, d, t.0, t.1, t.2);
}

/// Rounds `z / 146_097` down.
fn era_of(z: i64) -> (r: i64)
    ensures
        r == z as int / 146097,
{
    if z >= 0 {
        z / 146_097
    } else {
        -((-(z + 1)) / 146_097) - 1
    }
}

/// The low 32 bits of `y` in two's complement.
fn low_word(y: i64) -> (r: u32)
    ensures
        r == y as int % 0x1_0000_0000,
{
    if y >= 0 {
        (y as u64 % 0x1_0000_0000) as u32
    } else {
        (0xffff_ffff - (-(y + 1)) as u64 % 0x1_0000_0000) as u32
    }
}

/// The year of the era counted from March, the month and the day of the month
/// of a day of an era.
#[verifier::rlimit(40)]
fn date_in_era(doe: u64) -> (r: (u64, u64, u64))
    requires
        doe <= 146096,
    ensures
        ({
            let yoe = (doe - doe / 1460 + doe / 36524 - doe / 146096) / 365;
            let doy = doe - (365 * yoe + yoe / 4 - yoe / 100);
            let mp = (5 * doy + 2) / 153;
            &&& 0 <= yoe <= 399
            &&& 0 <= mp <= 11
            &&& r.0 == yoe
            &&& r.1 == (if mp < 10 { mp + 3 } else { mp - 9 })
            &&& r.2 == doy - (153 * mp + 2) / 5 + 1
            &&& 1 <= r.2 <= 31
        }),
{
    proof {
        let y = lemma_year_of_era(doe as int);
    }
    let yoe: u64 = (doe - doe / 1460 + doe / 36524 - doe / 146_096) / 365;
    let doy: u64 = doe - (365 * yoe + yoe / 4 - yoe / 100);  // day of the year from March
    let mp: u64 = (5 * doy + 2) / 153;  // month from March
    let d: u64 = doy - (153 * mp + 2) / 5 + 1;
    let m: u64 = if mp < 10 {
        mp + 3
    } else {
        mp - 9
    };
    (yoe, m, d)
}

/// The year, month and day of a count of days since 1970-01-01. The year is
/// given modulo 2^32.
#[verifier::rlimit(40)]
pub fn days_to_ymd(days: u64) -> (r: (u32, u32, u32))
    requires
        signed_days(days) + 719468 <= i64::MAX,
    ensures
        r.0 == date_of(signed_days(days)).0 % 0x1_0000_0000,
        r.1 == date_of(signed_days(days)).1,
        r.2 == date_of(signed_days(days)).2,
{
    let n: i64 = if days < 0x8000_0000_0000_0000 {
        days as i64
    } else {
        -((0xffff_ffff_ffff_ffff - days) as i64) - 1
    };
    // The origin moves to 0000-03-01, so that a leap day ends its year.
    let z: i64 = n + 719_468;
    let era: i64 = era_of(z);
    let (yoe, m, d) = date_in_era((z - era * 146_097) as u64);
    let y: i64 = yoe as i64 + era * 400 + (if m <= 2 {
        1
    } else {
        0
    });
    assert(date_of(signed_days(days)) == (y as int, m as int, d as int)) by {
        let t = civil(n as int);
        reveal(is_date_of);
        dates_round_trip(t.0, t.1, t.2);
    }
    (low_word(y), m as u32, d as u32)
}

// ── Timestamps ───────────────────────────────────────────────────────────────

/// A date and a time of day in the form `2026-04-09T12:34:56Z`.
pub open spec fn rfc3339(y: nat, m: nat, d: nat, second_of_day: nat) -> Seq<char> {
    pad_left(dec(y), '0', 4) + "-"@ + pad_left(dec(m), '0', 2) + "-"@ + pad_left(dec(d), '0', 2)
        + "T"@ + pad_left(dec(second_of_day / 3600), '0', 2) + ":"@ + pad_left(
        dec(second_of_day % 3600 / 60),
        '0',
        2,
    ) + ":"@ + pad_left(dec(second_of_day % 60), '0', 2) + "Z"@
}

/// The UTC time `secs` seconds after the start of 1970.
pub open spec fn utc_text(secs: u64) -> Seq<char> {
    let t = date_of((secs / 86400) as int);
    rfc3339((t.0 % 0x1_0000_0000) as nat, t.1 as nat, t.2 as nat, (secs % 86400) as nat)
}

/// Up to the year 9999 a time is written in twenty characters.
pub proof fn timestamps_have_twenty_characters(secs: u64)
    requires
        0 <= date_of((secs / 86400) as int).0 <= 9999,
    ensures
        utc_text(secs).len() == 20,
{
    let t = date_of((secs / 86400) as int);
    every_day_has_a_date((secs / 86400) as int);
    reveal(is_date_of);
    reveal_with_fuel(ten_to, 5);
    let d = (secs % 86400) as nat;
    lemma_dec_len((t.0 % 0x1_0000_0000) as nat, 4);
    lemma_dec_len(t.1 as nat, 2);
    lemma_dec_len(t.2 as nat, 2);
    lemma_dec_len(d / 3600, 2);
    lemma_dec_len(d % 3600 / 60, 2);
    lemma_dec_len(d % 60, 2);
    reveal_strlit("-");
    reveal_strlit("T");
    reveal_strlit(":");
    reveal_strlit("Z");
}

fn push_two(out: &mut String, n: u64)
    ensures
        final(out)@ == old(out)@ + pad_left(dec(n as nat), '0', 2),
{
    let s = decimal(n);
    push_padded(out, &s, '0', 2);
}

/// Appends the UTC time `secs` seconds after the start of 1970.
pub fn write_utc(out: &mut String, secs: u64)
    ensures
        final(out)@ == old(out)@ + utc_text(secs),
{
    let (year, month, day) = days_to_ymd(secs / 86400);
    let rem: u64 = secs % 86400;
    let year_digits = decimal(year as u64);
    push_padded(out, &year_digits, '0', 4);
    out.append("-");
    push_two(out, month as u64);
    out.append("-");
    push_two(out, day as u64);
    out.append("T");
    push_two(out, rem / 3600);
    out.append(":");
    push_two(out, (rem % 3600) / 60);
    out.append(":");
    push_two(out, rem % 60);
    out.append("Z");
    proof {
        broadcast use concat_assoc;

        every_day_has_a_date((secs / 86400) as int);
    }
}

/// Years are leap years by the Gregorian rule, and repeat after four hundred.
pub proof fn leap_years_follow_the_gregorian_rule(y: int)
    ensures
        y % 4 != 0 ==> year_start(y + 1) - year_start(y) == 365,
        y % 4 == 0 && y % 100 != 0 ==> year_start(y + 1) - year_start(y) == 366,
        y % 100 == 0 && y % 400 != 0 ==> year_start(y + 1) - year_start(y) == 365,
        y % 400 == 0 ==> year_start(y + 1) - year_start(y) == 366,
        year_start(y + 400) - year_start(y) == 146097,
{
    years_follow(y);
    assert((y + 399) / 4 == (y - 1) / 4 + 100);
    assert((y + 399) / 100 == (y - 1) / 100 + 4);
    assert((y + 399) / 400 == (y - 1) / 400 + 1);
}

/// A month has 31 days but for February, which has 28 or, in a leap year, 29, and for
/// April, June, September and November, which have 30.
pub proof fn months_have_their_lengths(y: int, m: int)
    requires
        1 <= m <= 12,
    ensures
        m == 1 || m == 3 || m == 5 || m == 7 || m == 8 || m == 10 || m == 12 ==> month_start(y, m + 1)
            - month_start(y, m) == 31,
        m == 4 || m == 6 || m == 9 || m == 11 ==> month_start(y, m + 1) - month_start(y, m) == 30,
        m == 2 ==> month_start(y, m + 1) - month_start(y, m) == year_start(y + 1) - year_start(y)
            - 337,
{
    years_follow(y);
}

proof fn lemma_two_digits(n: nat)
    requires
        n < 100,
    ensures
        pad_left(dec(n), '0', 2).len() == 2,
{
    reveal_with_fuel(ten_to, 5);
    lemma_dec_len(n, 2);
}

proof fn lemma_parts_in_their_places(
    y: Seq<char>,
    m: Seq<char>,
    d: Seq<char>,
    h: Seq<char>,
    mi: Seq<char>,
    s: Seq<char>,
    t: Seq<char>,
)
    requires
        y.len() == 4,
        m.len() == 2,
        d.len() == 2,
        h.len() == 2,
        mi.len() == 2,
        s.len() == 2,
        t == y + "-"@ + m + "-"@ + d + "T"@ + h + ":"@ + mi + ":"@ + s + "Z"@,
    ensures
        t.len() == 20,
        t.subrange(0, 4) == y,
        t.subrange(5, 7) == m,
        t.subrange(8, 10) == d,
        t.subrange(11, 13) == h,
        t.subrange(14, 16) == mi,
        t.subrange(17, 19) == s,
        t[4] == '-' && t[7] == '-' && t[10] == 'T' && t[13] == ':' && t[16] == ':' && t[19] == 'Z',
{
    reveal_strlit("-");
    reveal_strlit("T");
    reveal_strlit(":");
    reveal_strlit("Z");
}

proof fn lemma_scaled_quotient(q: int, r: int, k: int, n: int)
    requires
        k > 0,
        n > 0,
        0 <= r < k * n,
    ensures
        (q * (k * n) + r) / k == q * n + r / k,
        (q * n + r / k) % n == r / k,
        (q * (k * n) + r) % k == r % k,
{
    vstd::arithmetic::div_mod::lemma_fundamental_div_mod(r, k);
    let (c, e) = (r / k, r % k);
    assert(0 <= c < n) by (nonlinear_arith)
        requires
            r == k * c + e,
            0 <= e < k,
            0 <= r < k * n,
            0 < k,
    ;
    assert(q * (k * n) + r == (q * n + c) * k + e) by (nonlinear_arith)
        requires
            r == k * c + e,
    ;
    vstd::arithmetic::div_mod::lemma_fundamental_div_mod_converse(
        q * (k * n) + r,
        k,
        q * n + c,
        e,
    );
    vstd::arithmetic::div_mod::lemma_fundamental_div_mod_converse(q * n + c, n, q, c);
}

proof fn lemma_day_clock(s: int)
    requires
        0 <= s,
    ensures
        s % 86400 / 3600 == s / 3600 % 24,
        s % 86400 % 3600 / 60 == s / 60 % 60,
        s % 86400 % 60 == s % 60,
        0 <= s % 86400 / 3600 < 24,
        0 <= s % 86400 % 3600 / 60 < 60,
        0 <= s % 60 < 60,
{
    let (q, r) = (s / 86400, s % 86400);
    assert(s == q * 86400 + r);
    lemma_scaled_quotient(q, r, 3600, 24);
    lemma_scaled_quotient(q, r, 60, 1440);
    let (h, t) = (r / 3600, r % 3600);
    assert(r == h * 3600 + t);
    lemma_scaled_quotient(h, t, 60, 60);
    assert(s / 60 % 60 == t / 60) by {
        assert(s / 60 == q * 1440 + r / 60);
        assert(s / 60 == (q * 24 + h) * 60 + t / 60);
        vstd::arithmetic::div_mod::lemma_fundamental_div_mod_converse(
            s / 60,
            60,
            q * 24 + h,
            t / 60,
        );
    }
}

/// Up to the year 9999 a timestamp tells its parts in their places: the year, the month
/// and the day of the date that the days since 1970 count up to, and the hours, minutes
/// and seconds of that day.
pub proof fn timestamps_tell_the_time(secs: u64, y: int, m: int, d: int)
    requires
        valid_date(y, m, d),
        0 <= y <= 9999,
        day_number(y, m, d) == secs as int / 86400,
    ensures
        utc_text(secs).len() == 20,
        utc_text(secs).subrange(0, 4) == pad_left(dec(y as nat), '0', 4),
        utc_text(secs).subrange(5, 7) == pad_left(dec(m as nat), '0', 2),
        utc_text(secs).subrange(8, 10) == pad_left(dec(d as nat), '0', 2),
        utc_text(secs).subrange(11, 13) == pad_left(dec((secs as int / 3600 % 24) as nat), '0', 2),
        utc_text(secs).subrange(14, 16) == pad_left(dec((secs as int / 60 % 60) as nat), '0', 2),
        utc_text(secs).subrange(17, 19) == pad_left(dec((secs as int % 60) as nat), '0', 2),
        utc_text(secs)[4] == '-' && utc_text(secs)[7] == '-' && utc_text(secs)[10] == 'T',
        utc_text(secs)[13] == ':' && utc_text(secs)[16] == ':' && utc_text(secs)[19] == 'Z',
{
    dates_round_trip(y, m, d);
    assert(1 <= m < 100 && 1 <= d < 100);
    let r = (secs % 86400) as nat;
    lemma_day_clock(secs as int);
    assert(pad_left(dec(y as nat), '0', 4).len() == 4) by {
        reveal_with_fuel(ten_to, 5);
        lemma_dec_len(y as nat, 4);
    }
    lemma_two_digits(m as nat);
    lemma_two_digits(d as nat);
    lemma_two_digits(r / 3600);
    lemma_two_digits(r % 3600 / 60);
    lemma_two_digits(r % 60);
    assert(utc_text(secs) == rfc3339(y as nat, m as nat, d as nat, r));
    lemma_parts_in_their_places(
        pad_left(dec(y as nat), '0', 4),
        pad_left(dec(m as nat), '0', 2),
        pad_left(dec(d as nat), '0', 2),
        pad_left(dec(r / 3600), '0', 2),
        pad_left(dec(r % 3600 / 60), '0', 2),
        pad_left(dec(r % 60), '0', 2),
        utc_text(secs),
    );
}

} // verus!
