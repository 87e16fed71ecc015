use priority_notify::commands::{setting_from_value, setting_to_value, AppState};
use priority_notify::reminder::{reminder_interval, reminder_interval_setting};

fn configured(url: &str, token: &str) -> AppState {
    let mut s = AppState::new();
    s.base_url = url.to_string();
    s.token = token.to_string();
    s
}

#[test]
fn new_state_is_empty() {
    let s = AppState::new();
    assert_eq!(s.base_url, "");
    assert_eq!(s.token, "");
    assert!(s.sse_handle.is_none());
    assert!(s.reminder_handle.is_none());
}

#[test]
fn api_client_requires_configuration() {
    let s = AppState::new();
    assert_eq!(s.api_client().err(), Some("Not configured. Call configure() first.".to_string()));
    let s = configured("http://h", "");
    assert!(s.api_client().is_err());
    let s = configured("http://h/", "tok");
    let c = s.api_client().unwrap();
    assert_eq!(c.base_url(), "http://h");
    assert_eq!(c.token(), "tok");
}

#[test]
fn apply_saved_settings_needs_both() {
    let mut s = AppState::new();
    assert_eq!(s.apply_saved_settings(Some("u".to_string()), None), None);
    assert_eq!(s.base_url, "");
    assert_eq!(
        s.apply_saved_settings(Some("u".to_string()), Some("t".to_string())),
        Some(("u".to_string(), "t".to_string()))
    );
    assert_eq!(s.base_url, "u");
    assert_eq!(s.token, "t");
}

#[test]
fn prepare_sse_checks_configuration() {
    let mut s = AppState::new();
    let (stopped, r) = s.prepare_sse();
    assert!(stopped.is_none());
    assert_eq!(r, Err("Not configured".to_string()));
    let mut s = configured("http://h/", "t");
    let (stopped, r) = s.prepare_sse();
    assert!(stopped.is_none());
    assert_eq!(r, Ok(("http://h/".to_string(), "t".to_string())));
}

#[test]
fn prepare_reminder_cases() {
    let mut s = configured("http://h", "t");
    assert_eq!(s.prepare_reminder(&None).1, Ok(Some(("http://h".to_string(), "t".to_string(), 20))));
    assert_eq!(s.prepare_reminder(&Some("0".to_string())).1, Ok(None));
    assert_eq!(
        s.prepare_reminder(&Some("45".to_string())).1,
        Ok(Some(("http://h".to_string(), "t".to_string(), 45)))
    );
    let mut u = AppState::new();
    assert_eq!(u.prepare_reminder(&Some("0".to_string())).1, Ok(None));
    assert_eq!(u.prepare_reminder(&None).1, Err("Not configured".to_string()));
}

#[test]
fn prepare_reminder_restart_cases() {
    let mut s = configured("http://h", "t");
    assert_eq!(s.prepare_reminder_restart(0).1, None);
    assert_eq!(s.prepare_reminder_restart(15).1, Some(("http://h".to_string(), "t".to_string())));
    let mut u = AppState::new();
    assert_eq!(u.prepare_reminder_restart(15).1, None);
}

fn runtime() -> tokio::runtime::Runtime {
    tokio::runtime::Builder::new_current_thread().enable_all().build().unwrap()
}

#[test]
fn stopping_hands_back_running_tasks() {
    runtime().block_on(async {
        let mut s = configured("http://h", "t");
        assert!(s.install_sse_handle(tokio::spawn(std::future::pending::<()>())).is_none());
        assert!(s.install_reminder_handle(tokio::spawn(std::future::pending::<()>())).is_none());
        let sse = s.stop_sse_inner();
        assert!(sse.is_some());
        assert!(s.sse_handle.is_none());
        assert!(s.reminder_handle.is_some());
        let reminder = s.stop_reminder_inner();
        assert!(reminder.is_some());
        assert!(s.reminder_handle.is_none());
        // stopping again hands back nothing
        assert!(s.stop_sse_inner().is_none());
        assert!(s.stop_reminder_inner().is_none());
        sse.unwrap().abort();
        reminder.unwrap().abort();
    });
}

#[test]
fn prepare_hands_back_the_running_task() {
    runtime().block_on(async {
        let mut s = configured("http://h", "t");
        s.install_sse_handle(tokio::spawn(std::future::pending::<()>()));
        s.install_reminder_handle(tokio::spawn(std::future::pending::<()>()));
        let (sse, _) = s.prepare_sse();
        assert!(sse.is_some());
        assert!(s.sse_handle.is_none());
        let (reminder, _) = s.prepare_reminder(&Some("0".to_string()));
        assert!(reminder.is_some());
        assert!(s.reminder_handle.is_none());
        s.install_reminder_handle(tokio::spawn(std::future::pending::<()>()));
        let (again, plan) = s.prepare_reminder_restart(0);
        assert!(again.is_some());
        assert!(plan.is_none());
        sse.unwrap().abort();
        reminder.unwrap().abort();
        again.unwrap().abort();
    });
}

#[test]
fn installing_displaces_the_previous_task() {
    runtime().block_on(async {
        let mut s = configured("http://h", "t");
        let (tx, rx) = tokio::sync::oneshot::channel::<()>();
        let first = tokio::spawn(async move {
            let _keep = tx;
            std::future::pending::<()>().await;
        });
        assert!(s.install_sse_handle(first).is_none());
        let displaced = s.install_sse_handle(tokio::spawn(std::future::pending::<()>()));
        assert!(s.sse_handle.is_some());
        displaced.unwrap().abort();
        // the displaced task is dropped once cancelled, which closes the channel
        assert!(rx.await.is_err());
        s.stop_sse_inner().unwrap().abort();
    });
}

#[test]
fn settings_roundtrip_through_json() {
    let v = setting_to_value("https://h");
    assert_eq!(v, serde_json::Value::String("https://h".to_string()));
    assert_eq!(setting_from_value(Some(v)), Some("https://h".to_string()));
    assert_eq!(setting_from_value(None), None);
    assert_eq!(setting_from_value(Some(serde_json::Value::Bool(true))), None);
    assert_eq!(setting_from_value(Some(serde_json::Value::from(20))), None);
}

#[test]
fn saved_interval_is_read_back() {
    for minutes in [0u64, 5, 20, 1440, u64::MAX] {
        let stored = setting_to_value(&reminder_interval_setting(minutes));
        let text = setting_from_value(Some(stored));
        assert_eq!(reminder_interval(&text), minutes);
    }
}

#[test]
fn adopt_configuration_sets_server_and_token() {
    let mut s = AppState::new();
    s.adopt_configuration("https://h/".to_string(), "tok".to_string());
    assert_eq!(s.base_url, "https://h/");
    assert_eq!(s.token, "tok");
    assert!(s.sse_handle.is_none());
    assert!(s.reminder_handle.is_none());
    assert_eq!(s.api_client().unwrap().base_url(), "https://h");
}
