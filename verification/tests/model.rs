use icecc_mon::model::{JobState, MonitorEvent, SchedulerState, SortColumn};

fn make_attrs(pairs: &[(&str, &str)]) -> Vec<(String, String)> {
    pairs.iter().map(|(k, v)| (k.to_string(), v.to_string())).collect()
}

fn speed_of(v: &String) -> u32 {
    v.parse::<f64>().unwrap_or(0.0) as u32
}

#[test]
fn test_apply_host_stats() {
    let mut state = SchedulerState::new();
    let attrs = make_attrs(&[("Name", "host1"), ("MaxJobs", "4"), ("Speed", "100")]);

    state.apply_event(MonitorEvent::HostStats { host_id: 1, attrs }, 0, &speed_of);

    assert_eq!(state.hosts.len(), 1);
    assert_eq!(state.hosts[&1].name, "host1");
    assert_eq!(state.hosts[&1].max_jobs, 4);
}

#[test]
fn test_host_removed_when_no_name() {
    let mut state = SchedulerState::new();
    let attrs = make_attrs(&[("Name", "host1")]);
    state.apply_event(MonitorEvent::HostStats { host_id: 1, attrs }, 0, &speed_of);
    assert_eq!(state.hosts.len(), 1);

    // No Name → remove
    state.apply_event(MonitorEvent::HostStats { host_id: 1, attrs: Vec::new() }, 0, &speed_of);
    assert_eq!(state.hosts.len(), 0);
}

#[test]
fn test_job_lifecycle() {
    let mut state = SchedulerState::new();
    // Add host
    let attrs = make_attrs(&[("Name", "h1")]);
    state.apply_event(MonitorEvent::HostStats { host_id: 1, attrs }, 0, &speed_of);

    // Pending
    state.apply_event(
        MonitorEvent::JobPending { job_id: 10, client_id: 1, filename: "test.c".into() },
        0,
        &speed_of,
    );
    assert_eq!(state.pending_job_count(), 1);

    // Begin
    state.apply_event(MonitorEvent::JobBegin { job_id: 10, host_id: 1 }, 0, &speed_of);
    assert_eq!(state.pending_job_count(), 0);
    assert_eq!(state.active_job_count(), 1);

    // Done
    state.apply_event(MonitorEvent::JobDone { job_id: 10 }, 0, &speed_of);
    assert_eq!(state.active_job_count(), 0);
}

#[test]
fn test_local_job() {
    let mut state = SchedulerState::new();
    let attrs = make_attrs(&[("Name", "h1")]);
    state.apply_event(MonitorEvent::HostStats { host_id: 1, attrs }, 0, &speed_of);

    state.apply_event(
        MonitorEvent::LocalJobBegin { job_id: 20, host_id: 1, filename: "main.c".into() },
        0,
        &speed_of,
    );
    assert_eq!(state.local_job_count(), 1);
    assert_eq!(state.hosts[&1].total_local, 1);
    assert_eq!(state.total_local, 1);
}

#[test]
fn test_disconnect_clears_state() {
    let mut state = SchedulerState::new();
    let attrs = make_attrs(&[("Name", "h1")]);
    state.apply_event(MonitorEvent::HostStats { host_id: 1, attrs }, 0, &speed_of);
    state.apply_event(MonitorEvent::Disconnected, 0, &speed_of);
    assert!(state.hosts.is_empty());
    assert!(!state.connected);
}

#[test]
fn test_sort_columns() {
    assert_eq!(SortColumn::Id.next(), SortColumn::Name);
    assert_eq!(SortColumn::Speed.next(), SortColumn::Id);
    assert_eq!(SortColumn::Id.prev(), SortColumn::Speed);
}

#[test]
fn host_attrs_update_fields() {
    let mut state = SchedulerState::new();
    let attrs = make_attrs(&[
        ("Name", "alpha"),
        ("MaxJobs", "+8"),
        ("Speed", "155.9"),
        ("Platform", "x86_64"),
        ("NoRemote", "1"),
        ("IP", "10.0.0.7"),
        ("Other", "x"),
    ]);
    state.apply_event(MonitorEvent::HostStats { host_id: 3, attrs }, 0, &speed_of);
    let h = &state.hosts[&3];
    assert_eq!(h.id, 3);
    assert_eq!(h.name, "alpha");
    assert_eq!(h.max_jobs, 8);
    assert_eq!(h.speed, 155);
    assert_eq!(h.platform, "x86_64");
    assert!(h.no_remote);
    assert_eq!(h.ip, "10.0.0.7");
    assert_eq!(h.attrs.len(), 7);
}

#[test]
fn bad_max_jobs_reads_as_zero_and_later_values_win() {
    let mut state = SchedulerState::new();
    let attrs = make_attrs(&[("Name", "a"), ("MaxJobs", "4"), ("MaxJobs", "-1"), ("Name", "b")]);
    state.apply_event(MonitorEvent::HostStats { host_id: 1, attrs }, 0, &speed_of);
    assert_eq!(state.hosts[&1].max_jobs, 0);
    assert_eq!(state.hosts[&1].name, "b");
}

#[test]
fn stats_update_keeps_counters_and_color() {
    let mut state = SchedulerState::new();
    state.apply_event(MonitorEvent::HostStats { host_id: 1, attrs: make_attrs(&[("Name", "a")]) }, 0, &speed_of);
    state.apply_event(MonitorEvent::HostStats { host_id: 2, attrs: make_attrs(&[("Name", "b")]) }, 0, &speed_of);
    assert_eq!(state.hosts[&1].color_idx, 0);
    assert_eq!(state.hosts[&2].color_idx, 1);
    state.apply_event(
        MonitorEvent::LocalJobBegin { job_id: 5, host_id: 2, filename: "x.c".into() },
        0,
        &speed_of,
    );
    state.apply_event(MonitorEvent::HostStats { host_id: 2, attrs: make_attrs(&[("Name", "c")]) }, 0, &speed_of);
    assert_eq!(state.hosts[&2].color_idx, 1);
    assert_eq!(state.hosts[&2].total_local, 1);
    assert_eq!(state.hosts[&2].name, "c");
    assert_eq!(state.next_color, 2);
}

#[test]
fn job_begin_counts_in_and_out() {
    let mut state = SchedulerState::new();
    state.apply_event(MonitorEvent::HostStats { host_id: 1, attrs: make_attrs(&[("Name", "a")]) }, 0, &speed_of);
    state.apply_event(MonitorEvent::HostStats { host_id: 2, attrs: make_attrs(&[("Name", "b")]) }, 0, &speed_of);
    state.apply_event(MonitorEvent::JobPending { job_id: 7, client_id: 1, filename: "f.c".into() }, 5, &speed_of);
    state.apply_event(MonitorEvent::JobBegin { job_id: 7, host_id: 2 }, 9, &speed_of);
    assert_eq!(state.hosts[&2].total_in, 1);
    assert_eq!(state.hosts[&1].total_out, 1);
    assert_eq!(state.total_remote, 1);
    let job = &state.jobs[&7];
    assert_eq!(job.host_id, 2);
    assert_eq!(job.state, JobState::RemoteActive);
    assert_eq!(job.start_time, 9);
    assert_eq!(state.active_jobs_on_host(2), vec![7]);
    assert!(state.active_jobs_on_host(1).is_empty());
}

#[test]
fn job_begin_for_unknown_job_changes_nothing() {
    let mut state = SchedulerState::new();
    state.apply_event(MonitorEvent::HostStats { host_id: 1, attrs: make_attrs(&[("Name", "a")]) }, 0, &speed_of);
    state.apply_event(MonitorEvent::JobBegin { job_id: 99, host_id: 1 }, 0, &speed_of);
    assert_eq!(state.total_remote, 0);
    assert_eq!(state.hosts[&1].total_in, 0);
    assert!(state.jobs.is_empty());
}

#[test]
fn connected_sets_names() {
    let mut state = SchedulerState::new();
    state.apply_event(
        MonitorEvent::Connected { scheduler_name: "10.0.0.1:8765".into(), netname: "ICECREAM".into() },
        0,
        &speed_of,
    );
    assert!(state.connected);
    assert_eq!(state.scheduler_name, "10.0.0.1:8765");
    assert_eq!(state.netname, "ICECREAM");
}

#[test]
fn pending_jobs_from_client_lists_pending_only() {
    let mut state = SchedulerState::new();
    state.apply_event(MonitorEvent::JobPending { job_id: 1, client_id: 4, filename: "a".into() }, 0, &speed_of);
    state.apply_event(MonitorEvent::JobPending { job_id: 2, client_id: 4, filename: "b".into() }, 0, &speed_of);
    state.apply_event(MonitorEvent::JobPending { job_id: 3, client_id: 5, filename: "c".into() }, 0, &speed_of);
    state.apply_event(MonitorEvent::JobBegin { job_id: 2, host_id: 9 }, 0, &speed_of);
    assert_eq!(state.pending_jobs_from_client(4), vec![1]);
    assert_eq!(state.pending_job_count(), 2);
}

#[test]
fn sorted_host_ids_orders_by_column() {
    let mut state = SchedulerState::new();
    state.apply_event(
        MonitorEvent::HostStats { host_id: 1, attrs: make_attrs(&[("Name", "zeta"), ("MaxJobs", "2")]) },
        0,
        &speed_of,
    );
    state.apply_event(
        MonitorEvent::HostStats { host_id: 2, attrs: make_attrs(&[("Name", "alpha"), ("MaxJobs", "8")]) },
        0,
        &speed_of,
    );
    state.apply_event(
        MonitorEvent::HostStats { host_id: 3, attrs: make_attrs(&[("Name", "mid"), ("MaxJobs", "4")]) },
        0,
        &speed_of,
    );
    assert_eq!(state.sorted_host_ids(SortColumn::Name, false), vec![2, 3, 1]);
    assert_eq!(state.sorted_host_ids(SortColumn::Name, true), vec![1, 3, 2]);
    assert_eq!(state.sorted_host_ids(SortColumn::Id, false), vec![1, 2, 3]);
    assert_eq!(state.sorted_host_ids(SortColumn::MaxJobs, true), vec![2, 3, 1]);
    state.apply_event(MonitorEvent::LocalJobBegin { job_id: 1, host_id: 1, filename: "a".into() }, 0, &speed_of);
    state.apply_event(MonitorEvent::LocalJobBegin { job_id: 2, host_id: 1, filename: "b".into() }, 0, &speed_of);
    state.apply_event(MonitorEvent::LocalJobBegin { job_id: 3, host_id: 3, filename: "c".into() }, 0, &speed_of);
    assert_eq!(state.sorted_host_ids(SortColumn::Current, true), vec![1, 3, 2]);
}

#[test]
fn sort_column_headers_and_cycle() {
    let all = SortColumn::all();
    let headers: Vec<&str> = all.iter().map(|c| c.header()).collect();
    assert_eq!(headers, vec!["ID", "NAME", "IN", "CUR", "MAX", "OUT", "LOCAL", "SPEED"]);
    for c in all {
        assert_eq!(c.next().prev(), c);
        assert_eq!(c.prev().next(), c);
    }
}

#[test]
fn default_state_is_empty_and_disconnected() {
    let state = SchedulerState::default();
    assert!(state.hosts.is_empty());
    assert!(state.jobs.is_empty());
    assert!(!state.connected);
    assert_eq!(state.total_remote, 0);
    assert_eq!(state.total_local, 0);
    assert_eq!(state.next_color, 0);
    assert_eq!(state.scheduler_name, "");
}
