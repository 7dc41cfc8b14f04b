use xunfollow::state::AppState;

#[test]
fn state_roundtrip() {
    let s = AppState { current_position: 42, is_running: true, is_paused: false, last_session_id: "abc".into() };
    let rows = s.state_pairs();
    assert_eq!(rows[1], ("is_running".to_string(), "true".to_string()));
    let back = AppState::from_rows(&rows);
    assert_eq!(back.current_position, 42);
    assert!(back.is_running);
    assert!(!back.is_paused);
    assert_eq!(back.last_session_id, "abc");
}

#[test]
fn state_from_odd_rows() {
    let rows = vec![
        ("current_position".to_string(), "-3".to_string()),
        ("is_paused".to_string(), "TRUE".to_string()),
        ("is_running".to_string(), "true".to_string()),
    ];
    let s = AppState::from_rows(&rows);
    assert_eq!(s.current_position, 0);
    assert!(!s.is_paused);
    assert!(s.is_running);
    assert_eq!(s.last_session_id, "");
}

#[test]
fn state_read_back_in_any_order() {
    let s = AppState { current_position: 7, is_running: false, is_paused: true, last_session_id: "id-1".into() };
    let mut rows = s.state_pairs();
    rows.swap(0, 3);
    rows.swap(1, 2);
    rows.push(("other".to_string(), "x".to_string()));
    let back = AppState::from_rows(&rows);
    assert_eq!(back.current_position, 7);
    assert!(!back.is_running);
    assert!(back.is_paused);
    assert_eq!(back.last_session_id, "id-1");
}
