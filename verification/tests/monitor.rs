use icecc_mon::messages::{Language, Message};
use icecc_mon::model::MonitorEvent;
use icecc_mon::monitor::{monitor_step, parse_stats, MonitorStep};

#[test]
fn test_parse_stats() {
    let s = "Name:myhost\nMaxJobs:4\nSpeed:100\nIP:10.0.0.1\n";
    let m = parse_stats(s);
    assert_eq!(m.get("Name").unwrap(), "myhost");
    assert_eq!(m.get("MaxJobs").unwrap(), "4");
    assert_eq!(m.get("Speed").unwrap(), "100");
    assert_eq!(m.get("IP").unwrap(), "10.0.0.1");
}

#[test]
fn test_parse_stats_empty() {
    let m = parse_stats("");
    assert!(m.is_empty());
}

#[test]
fn parse_stats_line_rules() {
    // CRLF endings, a line without a colon, a later duplicate, a value with colons.
    let m = parse_stats("A:1\r\nnocolon\nB:x:y\nA:2\nC:last\r");
    assert_eq!(m.len(), 3);
    assert_eq!(m.get("A").unwrap(), "2");
    assert_eq!(m.get("B").unwrap(), "x:y");
    assert_eq!(m.get("C").unwrap(), "last\r");
    assert!(m.get("nocolon").is_none());
    let pairs = m.into_pairs();
    let keys: Vec<&str> = pairs.iter().map(|(k, _)| k.as_str()).collect();
    assert_eq!(keys, vec!["A", "B", "C"]);
}

#[test]
fn stats_message_becomes_host_stats() {
    let step = monitor_step(Message::MonStats { host_id: 4, statmsg: "Name:h\nMaxJobs:2\n".into() });
    match step {
        MonitorStep::Emit(MonitorEvent::HostStats { host_id, attrs }) => {
            assert_eq!(host_id, 4);
            assert_eq!(attrs, vec![("Name".to_string(), "h".to_string()), ("MaxJobs".to_string(), "2".to_string())]);
        }
        other => panic!("unexpected step {:?}", other),
    }
}

#[test]
fn job_messages_become_job_events() {
    match monitor_step(Message::MonGetCs { filename: "a.c".into(), lang: Language::C, job_id: 3, client_id: 9 }) {
        MonitorStep::Emit(MonitorEvent::JobPending { job_id: 3, client_id: 9, filename }) => assert_eq!(filename, "a.c"),
        other => panic!("unexpected step {:?}", other),
    }
    assert!(matches!(
        monitor_step(Message::JobLocalDone { job_id: 5 }),
        MonitorStep::Emit(MonitorEvent::JobDone { job_id: 5 })
    ));
    assert!(matches!(
        monitor_step(Message::MonJobBegin { job_id: 1, start_time: 0, host_id: 2 }),
        MonitorStep::Emit(MonitorEvent::JobBegin { job_id: 1, host_id: 2 })
    ));
    assert!(matches!(monitor_step(Message::End), MonitorStep::Stop));
    assert!(matches!(monitor_step(Message::Ping), MonitorStep::Ignore));
}
