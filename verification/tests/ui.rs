use icecc_mon::model::MonitorEvent;
use icecc_mon::ui::{active_host_count, format_log, host_to_table_row, job_bar, App, KeyCode, KeyEvent, ViewMode};
use icecc_mon::model::SortColumn;
use std::collections::HashSet;

fn speed_of(v: &String) -> u32 {
    v.parse::<f64>().unwrap_or(0.0) as u32
}

fn key(code: KeyCode) -> KeyEvent {
    KeyEvent { code, shift: false }
}

fn ch(c: char) -> KeyEvent {
    key(KeyCode::Char(c))
}

fn host(app: &mut App, id: u32, name: &str) {
    app.on_monitor_event(
        MonitorEvent::HostStats { host_id: id, attrs: vec![("Name".to_string(), name.to_string())] },
        0,
        &speed_of,
    );
}

#[test]
fn navigation_stays_in_range() {
    let mut app = App::new(false);
    app.handle_key(ch('j'));
    assert_eq!(app.selected, 0);
    host(&mut app, 1, "a");
    host(&mut app, 2, "b");
    app.handle_key(ch('j'));
    assert_eq!(app.selected, 1);
    app.handle_key(key(KeyCode::Down));
    assert_eq!(app.selected, 1);
    app.handle_key(ch('k'));
    assert_eq!(app.selected, 0);
    app.handle_key(key(KeyCode::Up));
    assert_eq!(app.selected, 0);
    app.handle_key(ch('G'));
    assert_eq!(app.selected, 1);
    app.handle_key(key(KeyCode::Home));
    assert_eq!(app.selected, 0);
}

#[test]
fn sorting_keys() {
    let mut app = App::new(false);
    assert_eq!(app.sort_col, SortColumn::Name);
    app.handle_key(ch('l'));
    assert_eq!(app.sort_col, SortColumn::In);
    app.handle_key(key(KeyCode::BackTab));
    app.handle_key(ch('h'));
    assert_eq!(app.sort_col, SortColumn::Id);
    app.handle_key(ch('r'));
    assert!(app.sort_reverse);
    app.handle_key(ch('r'));
    assert!(!app.sort_reverse);
}

#[test]
fn expanding_hosts() {
    let mut app = App::new(false);
    host(&mut app, 5, "b");
    host(&mut app, 9, "a");
    // Sorted by name: 9 ("a") then 5 ("b").
    app.handle_key(ch(' '));
    assert!(app.expanded.contains(&9));
    app.handle_key(ch(' '));
    assert!(app.expanded.is_empty());
    app.handle_key(ch('a'));
    assert!(app.expand_all);
    app.handle_key(ch(' '));
    app.handle_key(ch('a'));
    assert!(!app.expand_all);
    assert!(app.expanded.is_empty());
}

#[test]
fn search_mode_editing() {
    let mut app = App::new(false);
    app.handle_key(ch('/'));
    assert_eq!(app.view_mode, ViewMode::Search);
    app.handle_key(ch('x'));
    app.handle_key(ch('y'));
    assert_eq!(app.search_query, "xy");
    app.handle_key(key(KeyCode::Backspace));
    assert_eq!(app.search_query, "x");
    app.handle_key(key(KeyCode::Enter));
    assert_eq!(app.view_mode, ViewMode::Table);
    assert_eq!(app.search_query, "x");
    app.handle_key(ch('/'));
    assert_eq!(app.search_query, "");
    app.handle_key(ch('z'));
    app.handle_key(key(KeyCode::Esc));
    assert_eq!(app.view_mode, ViewMode::Table);
    assert_eq!(app.search_query, "");
}

#[test]
fn log_view_keys() {
    let mut app = App::new(false);
    app.handle_key(ch('L'));
    assert_eq!(app.view_mode, ViewMode::Table);
    app.handle_key(KeyEvent { code: KeyCode::Char('L'), shift: true });
    assert_eq!(app.view_mode, ViewMode::Log);
    app.handle_key(ch('j'));
    assert_eq!(app.view_mode, ViewMode::Log);
    app.handle_key(ch('L'));
    assert_eq!(app.view_mode, ViewMode::Table);
}

#[test]
fn log_lines() {
    assert_eq!(
        format_log(&MonitorEvent::Connected { scheduler_name: "10.0.0.1:8765".into(), netname: "ICECREAM".into() }),
        "Connected: scheduler=10.0.0.1:8765 netname=ICECREAM"
    );
    assert_eq!(format_log(&MonitorEvent::Disconnected), "Disconnected");
    assert_eq!(
        format_log(&MonitorEvent::HostStats {
            host_id: 12,
            attrs: vec![("IP".into(), "x".into()), ("Name".into(), "first".into()), ("Name".into(), "second".into())]
        }),
        "HostStats: host=12 name=first"
    );
    assert_eq!(format_log(&MonitorEvent::HostStats { host_id: 0, attrs: vec![] }), "HostStats: host=0 name=?");
    assert_eq!(
        format_log(&MonitorEvent::JobPending { job_id: 4294967295, client_id: 7, filename: "a.c".into() }),
        "JobPending: id=4294967295 client=7 file=a.c"
    );
    assert_eq!(format_log(&MonitorEvent::JobBegin { job_id: 10, host_id: 3 }), "JobBegin: id=10 host=3");
    assert_eq!(
        format_log(&MonitorEvent::LocalJobBegin { job_id: 1, host_id: 2, filename: "m.c".into() }),
        "LocalJobBegin: id=1 host=2 file=m.c"
    );
    assert_eq!(format_log(&MonitorEvent::JobDone { job_id: 100 }), "JobDone: id=100");
}

#[test]
fn log_is_capped() {
    let mut app = App::new(false);
    for i in 0..1005u32 {
        app.on_monitor_event(MonitorEvent::JobDone { job_id: i }, 0, &speed_of);
    }
    assert_eq!(app.log_messages.len(), 1000);
    assert_eq!(app.log_messages.front().unwrap(), "JobDone: id=5");
    assert_eq!(app.log_messages.back().unwrap(), "JobDone: id=1004");
}

#[test]
fn anonymized_names() {
    let plain = App::new(false);
    assert_eq!(plain.anonymize_str("build-01"), "build-01");
    let anon = App::new(true);
    let a = anon.anonymize_str("build-01");
    assert_eq!(a.len(), 9);
    assert!(a.starts_with("host_"));
    assert!(a[5..].chars().all(|c| c.is_ascii_hexdigit() && !c.is_ascii_uppercase()));
    assert_eq!(a, anon.anonymize_str("build-01"));
    assert_ne!(a, "build-01");
}

#[test]
fn search_filters_visible_hosts() {
    let mut app = App::new(false);
    app.on_monitor_event(
        MonitorEvent::HostStats {
            host_id: 1,
            attrs: vec![("Name".into(), "BuildBox".into()), ("IP".into(), "10.0.0.5".into())],
        },
        0,
        &speed_of,
    );
    app.on_monitor_event(
        MonitorEvent::HostStats {
            host_id: 2,
            attrs: vec![("Name".into(), "other".into()), ("Platform".into(), "ARM64".into())],
        },
        0,
        &speed_of,
    );
    assert_eq!(app.visible_host_ids(), vec![1, 2]);
    app.handle_key(ch('/'));
    for c in "BOX".chars() {
        app.handle_key(ch(c));
    }
    assert_eq!(app.visible_host_ids(), vec![1]);
    app.handle_key(key(KeyCode::Esc));
    app.handle_key(ch('/'));
    for c in "arm".chars() {
        app.handle_key(ch(c));
    }
    assert_eq!(app.visible_host_ids(), vec![2]);
    app.handle_key(key(KeyCode::Esc));
    app.handle_key(ch('/'));
    for c in "0.5".chars() {
        app.handle_key(ch(c));
    }
    assert_eq!(app.visible_host_ids(), vec![1]);
}

#[test]
fn job_bars() {
    assert_eq!(job_bar(0, 4), format!("[{}]", " ".repeat(20)));
    assert_eq!(job_bar(2, 4), format!("[{}{}]", "━".repeat(10), " ".repeat(10)));
    assert_eq!(job_bar(9, 4), format!("[{}]", "━".repeat(20)));
    assert_eq!(job_bar(3, 0), format!("[{}]", " ".repeat(20)));
    assert_eq!(job_bar(1, 3), format!("[{}{}]", "━".repeat(6), " ".repeat(14)));
}

#[test]
fn table_rows_count_expanded_details() {
    let mut app = App::new(false);
    app.on_monitor_event(
        MonitorEvent::HostStats {
            host_id: 1,
            attrs: vec![("Name".into(), "a".into()), ("MaxJobs".into(), "2".into())],
        },
        0,
        &speed_of,
    );
    host(&mut app, 2, "b");
    app.on_monitor_event(MonitorEvent::LocalJobBegin { job_id: 7, host_id: 1, filename: "x.c".into() }, 0, &speed_of);
    let ids = vec![1u32, 2];
    let mut expanded = HashSet::new();
    assert_eq!(host_to_table_row(&ids, 1, &expanded, false, &app.state), 1);
    expanded.insert(1);
    // Host 1: its row, one running job, two attributes.
    assert_eq!(host_to_table_row(&ids, 1, &expanded, false, &app.state), 4);
    assert_eq!(host_to_table_row(&ids, 2, &HashSet::new(), true, &app.state), 6);
    assert_eq!(host_to_table_row(&ids, 9, &HashSet::new(), false, &app.state), 2);
    assert_eq!(active_host_count(&app.state), 1);
}

#[test]
fn selection_is_clamped_to_visible_rows() {
    let mut app = App::new(false);
    host(&mut app, 1, "a");
    host(&mut app, 2, "b");
    app.selected = 5;
    let visible = app.visible_host_ids();
    assert_eq!(app.select_row(&visible), Some(1));
    assert_eq!(app.selected, 1);
    assert_eq!(app.select_row(&[]), None);
    assert_eq!(app.selected, 1);
}
