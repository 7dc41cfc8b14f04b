use xunfollow::settings::{history_csv, settings_from_rows, settings_pairs, validate_settings, HistoryItem, Settings};

fn rows(pairs: &[(&str, &str)]) -> Vec<(String, String)> {
    pairs.iter().map(|(k, v)| (k.to_string(), v.to_string())).collect()
}

fn as_tuple(s: &Settings) -> (u32, u32, u32, u32, u32) {
    (s.daily_limit, s.hourly_limit, s.session_limit, s.min_delay, s.max_delay)
}

#[test]
fn defaults() {
    assert_eq!(as_tuple(&Settings::default()), (50, 30, 25, 30, 60));
    assert_eq!(as_tuple(&settings_from_rows(&vec![])), (50, 30, 25, 30, 60));
}

#[test]
fn rows_override_defaults_and_bad_values_fall_back() {
    let s = settings_from_rows(&rows(&[
        ("daily_limit", "80"),
        ("hourly_limit", "oops"),
        ("session_limit", "+7"),
        ("unknown", "1"),
        ("max_delay", "4294967296"),
        ("min_delay", "5"),
    ]));
    assert_eq!(as_tuple(&s), (80, 30, 7, 5, 60));
}

#[test]
fn validation_errors() {
    let mut s = Settings::default();
    assert!(validate_settings(&s).is_ok());
    s.daily_limit = 101;
    assert_eq!(validate_settings(&s), Err("Daily limit cannot exceed 100".to_string()));
    s.daily_limit = 100;
    s.min_delay = 61;
    assert_eq!(validate_settings(&s), Err("Min delay cannot be greater than max delay".to_string()));
    s.min_delay = 60;
    assert!(validate_settings(&s).is_ok());
}

#[test]
fn settings_roundtrip() {
    let s = Settings { daily_limit: 12, hourly_limit: 0, session_limit: 4000000000, min_delay: 1, max_delay: 2 };
    let back = settings_from_rows(&settings_pairs(&s));
    assert_eq!(as_tuple(&back), as_tuple(&s));
    let p = settings_pairs(&s);
    assert_eq!(p[2], ("session_limit".to_string(), "4000000000".to_string()));
}

#[test]
fn history_export() {
    let items = vec![
        HistoryItem { id: 1, username: "alice".into(), unfollowed_at: "2024-01-01 10:00:00".into(), method: "css".into(), session_id: None },
        HistoryItem { id: 2, username: "bob".into(), unfollowed_at: "2024-01-02 11:00:00".into(), method: "css".into(), session_id: Some("s".into()) },
    ];
    assert_eq!(
        history_csv(&items),
        "username,unfollowed_at,method\nalice,2024-01-01 10:00:00,css\nbob,2024-01-02 11:00:00,css\n"
    );
    assert_eq!(history_csv(&vec![]), "username,unfollowed_at,method\n");
}

#[test]
fn settings_read_back_in_any_order() {
    let s = Settings { daily_limit: 9, hourly_limit: 8, session_limit: 7, min_delay: 6, max_delay: 66 };
    let mut stored = settings_pairs(&s);
    stored.reverse();
    stored.insert(2, ("theme".to_string(), "dark".to_string()));
    assert_eq!(as_tuple(&settings_from_rows(&stored)), as_tuple(&s));
}
