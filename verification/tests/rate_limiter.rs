use xunfollow::rate_limiter::{LimitStatus, RateLimiter};
use xunfollow::settings::Settings;

// 2024-03-07 10:30:15 UTC
const T: i64 = 1_709_807_415;

fn limiter_at(now: i64) -> RateLimiter {
    RateLimiter::new_at(50, 30, 25, 30, 60, now)
}

fn status_name(s: &LimitStatus) -> String {
    match s {
        LimitStatus::Proceed => "proceed".into(),
        LimitStatus::HourlyWait(m) => format!("wait {m}"),
        LimitStatus::SessionBreak => "session".into(),
        LimitStatus::DailyStop => "daily".into(),
    }
}

#[test]
fn fresh_limiter_proceeds() {
    let mut l = limiter_at(T);
    assert_eq!(status_name(&l.check_limits_at(T + 10)), "proceed");
    assert_eq!((l.daily_count, l.hourly_count, l.session_count), (0, 0, 0));
}

#[test]
fn limits_are_checked_daily_then_hourly_then_session() {
    let mut l = limiter_at(T);
    l.session_count = 25;
    assert_eq!(status_name(&l.check_limits_at(T)), "session");
    l.hourly_count = 30;
    // 10:30:15 -> 30 minutes to the next hour
    assert_eq!(status_name(&l.check_limits_at(T)), "wait 30");
    l.daily_count = 50;
    assert_eq!(status_name(&l.check_limits_at(T)), "daily");
}

#[test]
fn hourly_wait_counts_minutes_to_next_hour() {
    let mut l = limiter_at(T - 915); // 10:15:00
    l.hourly_count = 30;
    assert_eq!(status_name(&l.check_limits_at(T - 915)), "wait 45");
    assert_eq!(l.minutes_until_next_hour(T - 1815), 60); // 10:00:00
    assert_eq!(l.minutes_until_next_hour(T - 1815 + 3599), 1); // 10:59:59
}

#[test]
fn new_hour_resets_hourly_count_only() {
    let mut l = limiter_at(T);
    l.daily_count = 10;
    l.hourly_count = 30;
    l.session_count = 5;
    let later = T + 3600;
    assert_eq!(status_name(&l.check_limits_at(later)), "proceed");
    assert_eq!((l.daily_count, l.hourly_count, l.session_count), (10, 0, 5));
    assert_eq!(l.hour_start, later);
}

#[test]
fn new_day_resets_every_count() {
    let mut l = limiter_at(T);
    l.daily_count = 50;
    l.hourly_count = 30;
    l.session_count = 25;
    let tomorrow = T + 86_400;
    assert_eq!(status_name(&l.check_limits_at(tomorrow)), "proceed");
    assert_eq!((l.daily_count, l.hourly_count, l.session_count), (0, 0, 0));
    assert_eq!(l.day_start, tomorrow);
    // Same hour of the day: the hour period is not restarted.
    assert_eq!(l.hour_start, T);
}

#[test]
fn same_hour_other_day_is_new() {
    let l = limiter_at(T);
    assert!(l.is_new_day(T + 86_400));
    assert!(l.is_new_hour(T + 86_400));
    assert!(!l.is_new_hour(T + 60));
    // Midnight UTC starts a new day.
    let before_midnight = 1_709_855_999; // 2024-03-07 23:59:59
    let m = limiter_at(before_midnight);
    assert!(m.is_new_day(before_midnight + 1));
    // Times before 1970 use the calendar too.
    let n = limiter_at(-1);
    assert!(!n.is_new_day(-86_400));
    assert!(n.is_new_day(0));
}

#[test]
fn increment_and_resets() {
    let mut l = limiter_at(T);
    l.increment();
    l.increment();
    assert_eq!((l.daily_count, l.hourly_count, l.session_count), (2, 2, 2));
    l.reset_session();
    assert_eq!((l.daily_count, l.hourly_count, l.session_count), (2, 2, 0));
    l.reset_hourly();
    assert_eq!((l.daily_count, l.hourly_count, l.session_count), (2, 0, 0));
    l.reset_daily();
    assert_eq!((l.daily_count, l.hourly_count, l.session_count), (0, 0, 0));
}

#[test]
fn random_delay_within_bounds() {
    let l = limiter_at(T);
    for _ in 0..200 {
        let d = l.get_random_delay();
        assert!((30..=60).contains(&d));
    }
    let fixed = RateLimiter::new_at(1, 1, 1, 7, 7, T);
    assert_eq!(fixed.get_random_delay(), 7);
}

#[test]
fn stored_rows_roundtrip() {
    let mut l = limiter_at(T);
    l.daily_count = 7;
    l.hourly_count = 3;
    l.session_count = 2;
    l.hour_start = T - 100;
    l.day_start = -5;
    let rows = l.rate_limit_pairs();
    assert_eq!(rows[4], ("day_start".to_string(), "-5".to_string()));
    let mut fresh = RateLimiter::new_at(1, 2, 3, 4, 5, 0);
    fresh.restore_from_rows(&rows);
    assert_eq!((fresh.daily_count, fresh.hourly_count, fresh.session_count), (7, 3, 2));
    assert_eq!((fresh.hour_start, fresh.day_start), (T - 100, -5));
    assert_eq!((fresh.daily_limit, fresh.max_delay), (1, 5));
}

#[test]
fn stored_rows_read_back_in_any_order() {
    let mut l = limiter_at(T);
    l.daily_count = 4;
    l.hourly_count = 2;
    l.session_count = 1;
    l.hour_start = T - 60;
    l.day_start = T - 3600;
    let mut rows = l.rate_limit_pairs();
    rows.rotate_left(2);
    rows.insert(1, ("unrelated".to_string(), "9".to_string()));
    let mut fresh = RateLimiter::new_at(1, 2, 3, 4, 5, 0);
    fresh.restore_from_rows(&rows);
    assert_eq!((fresh.daily_count, fresh.hourly_count, fresh.session_count), (4, 2, 1));
    assert_eq!((fresh.hour_start, fresh.day_start), (T - 60, T - 3600));
}

#[test]
fn unreadable_rows_are_ignored() {
    let rows = vec![
        ("daily_count".to_string(), "x".to_string()),
        ("hour_start".to_string(), "99999999999999999".to_string()),
        ("day_start".to_string(), "not a number".to_string()),
        ("other".to_string(), "1".to_string()),
    ];
    let mut l = limiter_at(T);
    l.daily_count = 9;
    l.restore_from_rows(&rows);
    assert_eq!(l.daily_count, 0);
    assert_eq!((l.hour_start, l.day_start), (T, T));
}

#[test]
fn catching_up_after_restart() {
    let mut l = limiter_at(T);
    l.daily_count = 5;
    l.hourly_count = 5;
    l.catch_up_at(T + 3600);
    assert_eq!((l.daily_count, l.hourly_count), (5, 0));
    l.catch_up_at(T + 2 * 86_400);
    assert_eq!((l.daily_count, l.hourly_count), (0, 0));
}

#[test]
fn loading_uses_settings_limits() {
    let s = Settings { daily_limit: 40, hourly_limit: 20, session_limit: 10, min_delay: 5, max_delay: 9 };
    let l = RateLimiter::load_from_rows(&s, &vec![("session_count".to_string(), "4".to_string())]);
    assert_eq!((l.daily_limit, l.hourly_limit, l.session_limit, l.min_delay, l.max_delay), (40, 20, 10, 5, 9));
    assert_eq!(l.session_count, 4);
    let d = RateLimiter::default();
    assert_eq!((d.daily_limit, d.hourly_limit, d.session_limit, d.min_delay, d.max_delay), (50, 30, 25, 30, 60));
    assert_eq!(d.hour_start, d.day_start);
}

#[test]
fn saved_limiter_loads_back_within_the_hour() {
    let mut l = limiter_at(T);
    l.daily_count = 6;
    l.hourly_count = 5;
    l.session_count = 4;
    let mut rows = l.rate_limit_pairs();
    rows.reverse();
    let s = Settings { daily_limit: 40, hourly_limit: 20, session_limit: 10, min_delay: 5, max_delay: 9 };
    let m = RateLimiter::load_from_rows_at(&s, &rows, T + 600, T + 600);
    assert_eq!((m.daily_count, m.hourly_count, m.session_count), (6, 5, 4));
    assert_eq!((m.hour_start, m.day_start), (T, T));
    assert_eq!((m.daily_limit, m.hourly_limit, m.session_limit, m.min_delay, m.max_delay), (40, 20, 10, 5, 9));
    let later = RateLimiter::load_from_rows_at(&s, &rows, T + 3600, T + 3600);
    assert_eq!((later.daily_count, later.hourly_count, later.hour_start), (6, 0, T + 3600));
}

#[test]
fn period_starts_outside_chronos_range_are_ignored() {
    let rows = vec![
        ("day_start".to_string(), "8210266876799".to_string()),
        ("hour_start".to_string(), "-8334601228800".to_string()),
    ];
    let mut l = RateLimiter::new_at(1, 1, 1, 1, 1, 0);
    l.restore_from_rows(&rows);
    assert_eq!((l.day_start, l.hour_start), (8_210_266_876_799, -8_334_601_228_800));
    let rows = vec![
        ("day_start".to_string(), "8210266876800".to_string()),
        ("hour_start".to_string(), "-8334601228801".to_string()),
    ];
    let mut l = RateLimiter::new_at(1, 1, 1, 1, 1, 0);
    l.restore_from_rows(&rows);
    assert_eq!((l.day_start, l.hour_start), (0, 0));
}
