use power_monitor::serialize::{days_to_ymd, secs_shown, utc_now};

/// The day number of a date, by counting whole eras.
fn days_from_civil(y: i64, m: u32, d: u32) -> u64 {
    let y = if m <= 2 { y - 1 } else { y };
    let era = y.div_euclid(400);
    let yoe = (y - era * 400) as u64;
    let m = m as u64;
    let mp = if m > 2 { m - 3 } else { m + 9 };
    let doy = (153 * mp + 2) / 5 + (d - 1) as u64;
    let doe = yoe * 365 + yoe / 4 - yoe / 100 + doy;
    (era * 146_097 + doe as i64 - 719_468) as u64
}

#[test]
fn epoch_is_1970_01_01() {
    assert_eq!(days_to_ymd(0), (1970, 1, 1));
}

#[test]
fn day_1_is_1970_01_02() {
    assert_eq!(days_to_ymd(1), (1970, 1, 2));
}

#[test]
fn year_boundary_1970_1971() {
    assert_eq!(days_to_ymd(365), (1971, 1, 1));
}

#[test]
fn leap_year_1972_has_feb_29() {
    assert_eq!(days_to_ymd(789), (1972, 2, 29));
}

#[test]
fn known_date_2026_04_09() {
    assert_eq!(days_to_ymd(20552), (2026, 4, 9));
}

#[test]
fn landmark_dates_round_trip() {
    for (y, m, d) in [
        (1970, 1, 1),
        (1970, 12, 31),
        (1972, 2, 29),
        (1999, 12, 31),
        (2000, 1, 1),
        (2000, 2, 29),
        (2024, 6, 15),
        (2100, 3, 1),
        (2400, 2, 29),
    ] {
        let days = days_from_civil(y as i64, m, d);
        assert_eq!(
            days_to_ymd(days),
            (y as u32, m, d),
            "round-trip failed for {y}-{m:02}-{d:02}"
        );
    }
}

#[test]
fn leap_century_2000_is_leap() {
    let d = days_from_civil(2000, 2, 29);
    assert_eq!(days_to_ymd(d), (2000, 2, 29));
}

#[test]
fn century_2100_is_not_leap() {
    let feb28 = days_from_civil(2100, 2, 28);
    assert_eq!(days_to_ymd(feb28), (2100, 2, 28));
    assert_eq!(days_to_ymd(feb28 + 1), (2100, 3, 1));
}

#[test]
fn leap_year_2400_is_leap() {
    let d = days_from_civil(2400, 2, 29);
    assert_eq!(days_to_ymd(d), (2400, 2, 29));
}

#[test]
fn utc_now_looks_like_rfc3339() {
    let s = utc_now();
    assert_eq!(s.len(), 20, "expected 20-char timestamp, got: {s}");
    assert!(s.ends_with('Z'));
    assert_eq!(&s[4..5], "-");
    assert_eq!(&s[7..8], "-");
    assert_eq!(&s[10..11], "T");
    assert_eq!(&s[13..14], ":");
    assert_eq!(&s[16..17], ":");
}

#[test]
fn a_clock_before_1970_shows_its_start() {
    assert_eq!(secs_shown(None), 0);
    assert_eq!(secs_shown(Some(0)), 0);
    assert_eq!(secs_shown(Some(1_700_000_000)), 1_700_000_000);
}
