use priority_notify::models::{Notification, Priority, Status};
use priority_notify::sse::{
    event_kind, parse_sse_line, poll_url, record_newest, should_fire_system_notification,
    stream_url, system_notification_content, EventKind, SseAction, SseError, SseParser,
};

fn dispatch(event_type: &str, data: &str) -> SseAction {
    SseAction::Dispatch { event_type: event_type.to_string(), data: data.to_string() }
}

fn same(a: &[SseAction], b: &[SseAction]) -> bool {
    format!("{:?}", a) == format!("{:?}", b)
}

fn notification(priority: Priority, message: Option<&str>, created_at: &str) -> Notification {
    Notification {
        id: "n1".to_string(),
        user_id: "u1".to_string(),
        title: "Disk full".to_string(),
        message: message.map(|m| m.to_string()),
        priority,
        status: Status::Unread,
        source: None,
        created_at: created_at.to_string(),
        read_at: None,
        metadata: None,
    }
}

#[test]
fn parse_sse_line_strips_one_space() {
    assert_eq!(parse_sse_line("data: hello"), Some(("data", "hello")));
    assert_eq!(parse_sse_line("data:hello"), Some(("data", "hello")));
    assert_eq!(parse_sse_line("data:  two"), Some(("data", " two")));
}

#[test]
fn parse_sse_line_splits_at_first_colon() {
    assert_eq!(parse_sse_line("data: {\"a\":1}"), Some(("data", "{\"a\":1}")));
    assert_eq!(parse_sse_line(": comment"), Some(("", "comment")));
    assert_eq!(parse_sse_line("event:"), Some(("event", "")));
}

#[test]
fn parse_sse_line_without_colon() {
    assert_eq!(parse_sse_line("retry"), None);
    assert_eq!(parse_sse_line(""), None);
}

#[test]
fn parse_sse_line_non_ascii() {
    assert_eq!(parse_sse_line("dätä: héllo"), Some(("dätä", "héllo")));
}

#[test]
fn feed_dispatches_complete_event() {
    let mut p = SseParser::new();
    let acts = p.feed("event: notification\ndata: {\"id\":\"1\"}\nid: 7\n\n");
    assert!(same(
        &acts,
        &[dispatch("notification", "{\"id\":\"1\"}"), SseAction::LastEventId("7".to_string())]
    ));
}

#[test]
fn feed_joins_data_lines() {
    let mut p = SseParser::new();
    let acts = p.feed("data: a\ndata: b\ndata:c\n\n");
    assert!(same(&acts, &[dispatch("", "a\nb\nc")]));
}

#[test]
fn feed_handles_crlf() {
    let mut p = SseParser::new();
    let acts = p.feed("event: ping\r\ndata: x\r\r\n\r\n");
    assert!(same(&acts, &[dispatch("ping", "x")]));
}

#[test]
fn feed_keeps_incomplete_line_pending() {
    let mut p = SseParser::new();
    assert!(p.feed("event: status_ch").is_empty());
    assert!(p.feed("ange\ndata: {}").is_empty());
    let acts = p.feed("\n\n");
    assert!(same(&acts, &[dispatch("status_change", "{}")]));
}

#[test]
fn feed_chunking_does_not_matter() {
    let text = "event: notification\ndata: one\n\nid: 3\ndata: two\ndata: three\n\n: keepalive\n\n";
    let mut whole = SseParser::new();
    let all_at_once = whole.feed(text);
    let mut pieces = SseParser::new();
    let mut piecewise = Vec::new();
    for c in text.chars() {
        piecewise.extend(pieces.feed(&c.to_string()));
    }
    assert!(same(&all_at_once, &piecewise));
    assert_eq!(all_at_once.len(), 3);
}

#[test]
fn feed_blank_line_without_fields_dispatches_nothing() {
    let mut p = SseParser::new();
    assert!(p.feed("\n\n: comment\nretry: 100\n\n").is_empty());
}

#[test]
fn feed_id_only_event_remembers_id() {
    let mut p = SseParser::new();
    let acts = p.feed("id: 42\n\n");
    assert!(same(&acts, &[SseAction::LastEventId("42".to_string())]));
}

#[test]
fn feed_later_event_field_overrides() {
    let mut p = SseParser::new();
    let acts = p.feed("event: a\nevent: b\ndata: d\n\n");
    assert!(same(&acts, &[dispatch("b", "d")]));
}

#[test]
fn feed_bytes_decodes_utf8() {
    let mut p = SseParser::new();
    let acts = p.feed_bytes("data: héllo\n\n".as_bytes());
    assert!(same(&acts, &[dispatch("", "héllo")]));
}

#[test]
fn feed_bytes_replaces_invalid_utf8() {
    let mut p = SseParser::new();
    let acts = p.feed_bytes(b"data: a\xffb\n\n");
    assert!(same(&acts, &[dispatch("", "a\u{FFFD}b")]));
}

#[test]
fn stream_url_appends_path() {
    assert_eq!(stream_url("https://host"), "https://host/api/notifications/stream");
}

#[test]
fn poll_url_with_and_without_since() {
    assert_eq!(poll_url("http://h", &None), "http://h/api/notifications/?limit=50");
    assert_eq!(
        poll_url("http://h", &Some("2024-01-01T00:00:00Z".to_string())),
        "http://h/api/notifications/?limit=50&since=2024-01-01T00:00:00Z"
    );
}

#[test]
fn record_newest_takes_first_item() {
    let mut last_seen = Some("old".to_string());
    record_newest(&vec![], &mut last_seen);
    assert_eq!(last_seen, Some("old".to_string()));
    let items = vec![
        notification(Priority::Low, None, "2024-02-02"),
        notification(Priority::Low, None, "2024-01-01"),
    ];
    record_newest(&items, &mut last_seen);
    assert_eq!(last_seen, Some("2024-02-02".to_string()));
}

#[test]
fn event_kinds() {
    assert_eq!(event_kind("notification"), EventKind::Notification);
    assert_eq!(event_kind("status_change"), EventKind::StatusChange);
    assert_eq!(event_kind("ping"), EventKind::Ping);
    assert_eq!(event_kind("Notification"), EventKind::Other);
    assert_eq!(event_kind(""), EventKind::Other);
}

#[test]
fn only_high_and_critical_fire() {
    assert!(!should_fire_system_notification(Priority::Low));
    assert!(!should_fire_system_notification(Priority::Medium));
    assert!(should_fire_system_notification(Priority::High));
    assert!(should_fire_system_notification(Priority::Critical));
}

#[test]
fn system_notification_body() {
    let a = system_notification_content(&notification(Priority::High, Some("90% used"), "t"));
    assert_eq!(a.title, "Disk full");
    assert_eq!(a.body, "90% used");
    let b = system_notification_content(&notification(Priority::High, None, "t"));
    assert_eq!(b.body, "");
}

#[test]
fn sse_error_messages() {
    assert_eq!(SseError::Connect("refused".to_string()).message(), "SSE connect: refused");
    assert_eq!(SseError::Status("500 Internal Server Error".to_string()).message(), "SSE status: 500 Internal Server Error");
    assert_eq!(SseError::Read("reset".to_string()).message(), "SSE read: reset");
    assert_eq!(SseError::Ended.message(), "SSE stream ended");
}

#[test]
fn parsed_line_rebuilds_the_line() {
    for line in ["data: x", "data:x", "id:  7", "a:b:c", ": note", "event:"] {
        let (field, value) = parse_sse_line(line).unwrap();
        assert!(!field.contains(':'));
        let plain = format!("{}:{}", field, value);
        let spaced = format!("{}: {}", field, value);
        assert!(line == plain || line == spaced, "line {:?}", line);
    }
}

#[test]
fn feed_bytes_chunking_at_char_boundaries() {
    let text = "event: notification\ndata: {\"title\":\"Überlauf ✓\"}\n\nid: 9\n\n";
    let mut whole = SseParser::new();
    let all_at_once = whole.feed_bytes(text.as_bytes());
    let mut pieces = SseParser::new();
    let mut piecewise = Vec::new();
    for c in text.chars() {
        let mut buf = [0u8; 4];
        piecewise.extend(pieces.feed_bytes(c.encode_utf8(&mut buf).as_bytes()));
    }
    assert!(same(&all_at_once, &piecewise));
    assert_eq!(all_at_once.len(), 2);
}
