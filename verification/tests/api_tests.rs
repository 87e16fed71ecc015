use priority_notify::api::{join_strings, ApiClient, ApiError};

#[test]
fn new_trims_trailing_slashes() {
    let c = ApiClient::new("https://notify.example.com///", "tok").unwrap();
    assert_eq!(c.base_url(), "https://notify.example.com");
    assert_eq!(c.token(), "tok");
    let d = ApiClient::new("https://notify.example.com", "t").unwrap();
    assert_eq!(d.base_url(), "https://notify.example.com");
    let e = ApiClient::new("///", "t").unwrap();
    assert_eq!(e.base_url(), "");
}

#[test]
fn new_trim_is_idempotent() {
    let c = ApiClient::new("http://h/x//", "t").unwrap();
    let d = ApiClient::new(c.base_url(), "t").unwrap();
    assert_eq!(c.base_url(), d.base_url());
}

#[test]
fn me_and_notification_urls() {
    let c = ApiClient::new("http://h/", "t").unwrap();
    assert_eq!(c.me_url(), "http://h/api/me");
    assert_eq!(c.notification_url("abc-123"), "http://h/api/notifications/abc-123");
}

#[test]
fn list_url_without_params() {
    let c = ApiClient::new("http://h", "t").unwrap();
    assert_eq!(c.list_notifications_url(None, None, None, None, None), "http://h/api/notifications/");
}

#[test]
fn list_url_with_all_params_in_order() {
    let c = ApiClient::new("http://h", "t").unwrap();
    assert_eq!(
        c.list_notifications_url(Some("unread"), Some("high"), Some("2024-01-01"), Some(20), Some(40)),
        "http://h/api/notifications/?status=unread&priority=high&since=2024-01-01&limit=20&offset=40"
    );
}

#[test]
fn list_url_with_some_params() {
    let c = ApiClient::new("http://h", "t").unwrap();
    assert_eq!(c.list_notifications_url(None, Some("low"), None, None, Some(0)), "http://h/api/notifications/?priority=low&offset=0");
    assert_eq!(c.list_notifications_url(None, None, None, Some(-5), None), "http://h/api/notifications/?limit=-5");
    assert_eq!(
        c.list_notifications_url(None, None, None, Some(i64::MIN), Some(i64::MAX)),
        "http://h/api/notifications/?limit=-9223372036854775808&offset=9223372036854775807"
    );
}

#[test]
fn join_strings_separates() {
    let parts = vec!["a".to_string(), "bc".to_string(), "".to_string()];
    assert_eq!(join_strings(&parts, "&"), "a&bc&");
    assert_eq!(join_strings(&vec![], "&"), "");
    assert_eq!(join_strings(&vec!["x".to_string()], ", "), "x");
}

#[test]
fn api_error_messages() {
    assert_eq!(ApiError::Network("timed out".to_string()).message(), "Network error: timed out");
    assert_eq!(
        ApiError::Status { status: "401 Unauthorized".to_string(), body: "bad token".to_string() }.message(),
        "API error 401 Unauthorized: bad token"
    );
    assert_eq!(ApiError::Parse("missing field".to_string()).message(), "Parse error: missing field");
}
