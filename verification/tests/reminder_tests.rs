use priority_notify::api::ApiClient;
use priority_notify::reminder::{
    reminder_interval, reminder_interval_setting, reminder_notification, reminder_period_secs,
    unread_check_url, DEFAULT_REMINDER_MINUTES,
};

#[test]
fn interval_defaults_to_twenty() {
    assert_eq!(DEFAULT_REMINDER_MINUTES, 20);
    assert_eq!(reminder_interval(&None), 20);
    assert_eq!(reminder_interval(&Some("abc".to_string())), 20);
    assert_eq!(reminder_interval(&Some("".to_string())), 20);
    assert_eq!(reminder_interval(&Some("-3".to_string())), 20);
    assert_eq!(reminder_interval(&Some(" 5".to_string())), 20);
    assert_eq!(reminder_interval(&Some("18446744073709551616".to_string())), 20);
}

#[test]
fn interval_parses_like_std() {
    for s in ["0", "5", "+7", "007", "18446744073709551615", "+", "1e3", "12a", "١٢"] {
        let expected = s.parse::<u64>().ok().unwrap_or(20);
        assert_eq!(reminder_interval(&Some(s.to_string())), expected, "input {:?}", s);
    }
}

#[test]
fn interval_setting_roundtrip() {
    for m in [0u64, 1, 9, 10, 20, 99, 100, 12345, u64::MAX] {
        let s = reminder_interval_setting(m);
        assert_eq!(s, m.to_string());
        assert_eq!(reminder_interval(&Some(s)), m);
    }
}

#[test]
fn period_in_seconds() {
    assert_eq!(reminder_period_secs(20), 1200);
    assert_eq!(reminder_period_secs(0), 0);
}

#[test]
fn reminder_texts() {
    assert!(reminder_notification(0).is_none());
    assert!(reminder_notification(-1).is_none());
    let one = reminder_notification(1).unwrap();
    assert_eq!(one.title, "Priority Notify");
    assert_eq!(one.body, "You have 1 unread notification");
    let many = reminder_notification(12).unwrap();
    assert_eq!(many.body, "You have 12 unread notifications");
}

#[test]
fn unread_check_url_asks_for_one_unread() {
    let c = ApiClient::new("http://h/", "t").unwrap();
    assert_eq!(unread_check_url(&c), "http://h/api/notifications/?status=unread&limit=1");
}
