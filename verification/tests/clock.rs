use chrono::{DateTime, Duration, NaiveDate, TimeZone, Utc};
use dino_park_packs::clock::{to_expiration_ts, DayWindow, Timestamp, MICROS_PER_DAY};

fn stamp(at: DateTime<Utc>) -> Timestamp {
    Timestamp { micros: at.timestamp_micros() }
}

fn at(year: i32, month: u32, day: u32, hour: u32, minute: u32, second: u32) -> DateTime<Utc> {
    Utc.with_ymd_and_hms(year, month, day, hour, minute, second).unwrap()
}

#[test]
fn a_day_has_86400_seconds_of_microseconds() {
    assert_eq!(MICROS_PER_DAY, 86_400 * 1_000_000);
    assert_eq!(MICROS_PER_DAY, Duration::days(1).num_microseconds().unwrap());
}

#[test]
fn plus_days_agrees_with_the_calendar() {
    let now = at(2020, 2, 20, 13, 14, 15);
    let later = stamp(now).plus_days(10);
    assert_eq!(later, stamp(now + Duration::days(10)));
    assert_eq!(later, stamp(at(2020, 3, 1, 13, 14, 15)));
    let earlier = stamp(now).plus_days(-20);
    assert_eq!(earlier, stamp(at(2020, 1, 31, 13, 14, 15)));
    assert_eq!(stamp(now).plus_days(0), stamp(now));
}

#[test]
fn plus_days_saturates_at_the_ends() {
    let late = Timestamp { micros: i64::MAX - 5 };
    assert_eq!(late.plus_days(1), Timestamp { micros: i64::MAX });
    assert_eq!(late.plus_days(i32::MAX), Timestamp { micros: i64::MAX });
    let early = Timestamp { micros: i64::MIN + 5 };
    assert_eq!(early.plus_days(-1), Timestamp { micros: i64::MIN });
    assert_eq!(early.plus_days(i32::MIN), Timestamp { micros: i64::MIN });
    assert_eq!(
        Timestamp { micros: 0 }.plus_days(3),
        Timestamp { micros: 3 * MICROS_PER_DAY }
    );
}

#[test]
fn to_expiration_ts_keeps_none() {
    let now = Timestamp { micros: 1_000 };
    assert_eq!(to_expiration_ts(None, now), None);
    assert_eq!(
        to_expiration_ts(Some(2), now),
        Some(Timestamp { micros: 1_000 + 2 * MICROS_PER_DAY })
    );
}

#[test]
fn days_since_rounds_towards_zero() {
    let now = Timestamp { micros: 10 * MICROS_PER_DAY };
    assert_eq!(now.days_since(Timestamp { micros: 0 }), 10);
    assert_eq!(now.days_since(Timestamp { micros: 1 }), 9);
    assert_eq!(now.days_since(Timestamp { micros: 10 * MICROS_PER_DAY + 1 }), 0);
    assert_eq!(now.days_since(Timestamp { micros: 11 * MICROS_PER_DAY }), -1);
    assert_eq!(now.days_since(Timestamp { micros: 12 * MICROS_PER_DAY - 1 }), -1);
    assert_eq!(now.days_since(now), 0);
}

#[test]
fn days_since_agrees_with_chrono() {
    let now = at(2021, 6, 1, 8, 0, 0);
    let updated = at(2020, 12, 24, 18, 30, 0);
    let expected = now.signed_duration_since(updated).num_days();
    assert_eq!(stamp(now).days_since(stamp(updated)), expected);
    let expected = updated.signed_duration_since(now).num_days();
    assert_eq!(stamp(updated).days_since(stamp(now)), expected);
}

#[test]
fn days_since_at_the_ends_of_the_range() {
    let first = Timestamp { micros: i64::MIN };
    let last = Timestamp { micros: i64::MAX };
    assert_eq!(last.days_since(first), 213_503_982);
    assert_eq!(first.days_since(last), -213_503_982);
}

#[test]
fn comparisons() {
    let a = Timestamp { micros: 5 };
    let b = Timestamp { micros: 6 };
    assert!(a.at_or_before(b));
    assert!(a.at_or_before(a));
    assert!(!b.at_or_before(a));
    assert!(a.before(b));
    assert!(!a.before(a));
}

#[test]
fn window_is_the_calendar_day_in_utc() {
    let now = at(2020, 2, 20, 13, 14, 15);
    let window = DayWindow::after_days(stamp(now), 14);
    let day = NaiveDate::from_ymd_opt(2020, 3, 5).unwrap();
    let lower = day.and_hms_opt(0, 0, 0).unwrap().and_utc();
    let upper = day.and_hms_micro_opt(23, 59, 59, 999_999).unwrap().and_utc();
    assert_eq!(window.lower, lower.timestamp_micros() as i128);
    assert_eq!(window.upper, upper.timestamp_micros() as i128);
    assert!(window.contains(stamp(lower)));
    assert!(window.contains(stamp(upper)));
    assert!(!window.contains(Timestamp { micros: lower.timestamp_micros() - 1 }));
    assert!(!window.contains(Timestamp { micros: upper.timestamp_micros() + 1 }));
    assert!(window.contains(stamp(now + Duration::days(14))));
}

#[test]
fn window_agrees_with_chrono_date_arithmetic() {
    let now = at(2019, 12, 25, 23, 59, 59);
    for days in [0u32, 7, 14, 400] {
        let shifted = now.checked_add_signed(Duration::days(days as i64)).unwrap();
        let lower = shifted.date_naive().and_hms_opt(0, 0, 0).unwrap().and_utc();
        let upper = shifted
            .date_naive()
            .and_hms_nano_opt(23, 59, 59, 999_999_999)
            .unwrap()
            .and_utc();
        let window = DayWindow::after_days(stamp(now), days);
        assert_eq!(window.lower, lower.timestamp_micros() as i128);
        assert_eq!(window.upper, upper.timestamp_micros() as i128);
    }
}

#[test]
fn window_before_the_epoch() {
    let now = Timestamp { micros: -1 };
    let window = DayWindow::after_days(now, 0);
    assert_eq!(window.lower, -(MICROS_PER_DAY as i128));
    assert_eq!(window.upper, -1);
    let window = DayWindow::after_days(Timestamp { micros: -MICROS_PER_DAY }, 0);
    assert_eq!(window.lower, -(MICROS_PER_DAY as i128));
    let window = DayWindow::after_days(Timestamp { micros: 0 }, 0);
    assert_eq!(window.lower, 0);
    assert_eq!(window.upper, MICROS_PER_DAY as i128 - 1);
}

#[test]
fn window_beyond_the_range_holds_nothing() {
    let now = Timestamp { micros: i64::MAX };
    let window = DayWindow::after_days(now, 14);
    assert!(window.lower > i64::MAX as i128);
    assert!(!window.contains(now));
}
