use icecc_mon::model::{MonitorEvent, SchedulerState};
use icecc_mon::text::{decimal_string, text_contains, text_eq};
use icecc_mon::ui::{App, KeyEvent, KeyCode};

fn no_speed(_v: &String) -> u32 {
    0
}

fn max_jobs_after(value: &str) -> u32 {
    let mut state = SchedulerState::new();
    let attrs = vec![
        ("Name".to_string(), "h".to_string()),
        ("MaxJobs".to_string(), "9".to_string()),
        ("MaxJobs".to_string(), value.to_string()),
    ];
    state.apply_event(MonitorEvent::HostStats { host_id: 1, attrs }, 0, &no_speed);
    state.hosts[&1].max_jobs
}

#[test]
fn max_jobs_parsing_follows_from_str() {
    assert_eq!(max_jobs_after("42"), 42);
    assert_eq!(max_jobs_after("+7"), 7);
    assert_eq!(max_jobs_after("007"), 7);
    assert_eq!(max_jobs_after("4294967295"), u32::MAX);
    assert_eq!(max_jobs_after("4294967296"), 0);
    assert_eq!(max_jobs_after(""), 0);
    assert_eq!(max_jobs_after("+"), 0);
    assert_eq!(max_jobs_after("-1"), 0);
    assert_eq!(max_jobs_after(" 1"), 0);
    assert_eq!(max_jobs_after("1.5"), 0);
}

#[test]
fn decimal_text() {
    assert_eq!(decimal_string(0), "0");
    assert_eq!(decimal_string(9), "9");
    assert_eq!(decimal_string(10), "10");
    assert_eq!(decimal_string(u64::MAX), "18446744073709551615");
}

#[test]
fn text_search_and_equality() {
    assert!(text_contains("hello world", "o w"));
    assert!(text_contains("abc", ""));
    assert!(!text_contains("abc", "abcd"));
    assert!(!text_contains("abc", "ac"));
    assert!(text_contains("grüße", "üß"));
    assert!(text_eq("Name", "Name"));
    assert!(!text_eq("Name", "name"));
}

#[test]
fn search_lowercases_beyond_ascii() {
    let mut app = App::new(false);
    app.on_monitor_event(
        MonitorEvent::HostStats { host_id: 4, attrs: vec![("Name".into(), "ÄBC-node".into())] },
        0,
        &no_speed,
    );
    app.on_monitor_event(
        MonitorEvent::HostStats { host_id: 5, attrs: vec![("Name".into(), "abc-node".into())] },
        0,
        &no_speed,
    );
    app.handle_key(KeyEvent { code: KeyCode::Char('/'), shift: false });
    for c in "äB".chars() {
        app.handle_key(KeyEvent { code: KeyCode::Char(c), shift: false });
    }
    assert_eq!(app.visible_host_ids(), vec![4]);
    app.handle_key(KeyEvent { code: KeyCode::Backspace, shift: false });
    app.handle_key(KeyEvent { code: KeyCode::Backspace, shift: false });
    assert_eq!(app.search_query, "");
    assert_eq!(app.visible_host_ids().len(), 2);
}
