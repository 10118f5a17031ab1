use bomb_ttl::calendar::{civil_from_days, fmt_iso};

#[test]
fn epoch_and_some_dates() {
    assert_eq!(civil_from_days(0), (1970, 1, 1));
    assert_eq!(civil_from_days(-1), (1969, 12, 31));
    assert_eq!(civil_from_days(59), (1970, 3, 1));
    assert_eq!(civil_from_days(11_016), (2000, 2, 29));
    assert_eq!(civil_from_days(19_782), (2024, 2, 29));
    assert_eq!(civil_from_days(-719_468), (0, 3, 1));
    assert_eq!(civil_from_days(-719_469), (0, 2, 29));
    assert_eq!(civil_from_days(-719_529), (-1, 12, 31));
}

fn leap(y: i32) -> bool {
    y % 4 == 0 && (y % 100 != 0 || y % 400 == 0)
}

#[test]
fn days_follow_one_another() {
    let mut last = civil_from_days(-1_000_000);
    for days in -999_999..1_000_000i64 {
        let (y, m, d) = last;
        let len = match m {
            2 => 28 + leap(y) as u32,
            4 | 6 | 9 | 11 => 30,
            _ => 31,
        };
        let next = if d < len {
            (y, m, d + 1)
        } else if m < 12 {
            (y, m + 1, 1)
        } else {
            (y + 1, 1, 1)
        };
        last = civil_from_days(days);
        assert_eq!(last, next);
    }
}

#[test]
fn iso_text_of_ordinary_times() {
    assert_eq!(fmt_iso(0), "1970-01-01T00:00:00Z");
    assert_eq!(fmt_iso(1_709_210_096), "2024-02-29T12:34:56Z");
    assert_eq!(fmt_iso(99_999_999_999), "5138-11-16T09:46:39Z");
    assert_eq!(fmt_iso(253_402_300_799), "9999-12-31T23:59:59Z");
    assert_eq!(fmt_iso(253_402_300_800), "10000-01-01T00:00:00Z");
}

#[test]
fn iso_text_at_the_ends_of_the_range() {
    assert_eq!(fmt_iso(u64::MAX), "1970-01-01T1193046:28:15Z");
    // The last year that an i32 can hold, and the one after it.
    assert_eq!(fmt_iso(67_767_976_233_532_799), "2147483647-12-31T23:59:59Z");
    assert_eq!(fmt_iso(67_767_976_233_532_800), "-2147483648-01-01T00:00:00Z");
    // A negative year keeps its width together with its sign.
    let secs_back = 719_529u64 * 86_400;
    assert_eq!(fmt_iso(0u64.wrapping_sub(secs_back)), "-001-12-31T00:00:00Z");
}
