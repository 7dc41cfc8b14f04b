use xunfollow::utils::{calculate_eta, format_fields, format_timestamp};

#[test]
fn test_calculate_eta() {
    assert_eq!(calculate_eta(0), "0s");
    assert_eq!(calculate_eta(1), "45s");
    assert_eq!(calculate_eta(2), "1m");
    assert_eq!(calculate_eta(80), "1h 0m");
}

#[test]
fn eta_boundaries() {
    // 60 seconds is still shown in seconds, 3600 still in minutes.
    assert_eq!(calculate_eta(1), "45s");
    assert_eq!(calculate_eta(3), "2m");
    assert_eq!(calculate_eta(81), "1h 0m");
    assert_eq!(calculate_eta(200), "2h 30m");
    assert_eq!(calculate_eta(u32::MAX), "53687091h 11m");
}

#[test]
fn formats_fields() {
    assert_eq!(format_fields((2024, 3, 7, 9, 5, 2, 0)), "2024-03-07 09:05:02");
    assert_eq!(format_fields((999, 12, 31, 23, 59, 59, 0)), "0999-12-31 23:59:59");
    assert_eq!(format_fields((12345, 1, 1, 0, 0, 0, 0)), "+12345-01-01 00:00:00");
    assert_eq!(format_fields((-1, 1, 1, 0, 0, 0, 0)), "-0001-01-01 00:00:00");
    assert_eq!(format_fields((2016, 12, 31, 23, 59, 59, 1_500_000_000)), "2016-12-31 23:59:60");
}

#[test]
fn timestamp_has_the_expected_shape() {
    let t = format_timestamp();
    assert_eq!(t.len(), 19);
    assert_eq!(&t[4..5], "-");
    assert_eq!(&t[10..11], " ");
}
