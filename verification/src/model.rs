//! Data model: hosts, jobs and the scheduler state the monitor keeps.
use crate::text::{parse_u32, spec_parse_u32, text_eq};
use vstd::utf8::encode_utf8;
use std::collections::HashMap;
use vstd::prelude::*;

verus! {

use vstd::std_specs::iter::IteratorSpec;

broadcast use vstd::std_specs::hash::group_hash_axioms;

/// Where a job stands.
#[derive(Debug, Clone, Copy, PartialEq, Eq, Structural)]
pub enum JobState {
    Pending,
    RemoteActive,
    LocalActive,
}

/// A compile job the scheduler reported.
#[derive(Debug, Clone)]
pub struct Job {
    pub client_id: u32,
    pub host_id: u32,
    pub filename: String,
    pub state: JobState,
    /// When the job was last (re)started, on the caller's clock.
    pub start_time: u64,
}

/// Which jobs a query selects.
#[derive(Debug, Clone, Copy, PartialEq, Eq, Structural)]
pub enum JobFilter {
    /// Running (remotely or locally) on the given host.
    ActiveOn(u32),
    /// Waiting for a compile server, requested by the given client.
    PendingFrom(u32),
    /// Not pending.
    Active,
    /// Pending.
    Pending,
    /// Running locally.
    Local,
}

impl JobFilter {
    /// Whether the filter selects `job`.
    pub open spec fn selects(self, job: Job) -> bool {
        match self {
            JobFilter::ActiveOn(h) => job.host_id == h && (job.state == JobState::RemoteActive
                || job.state == JobState::LocalActive),
            JobFilter::PendingFrom(c) => job.client_id == c && job.state == JobState::Pending,
            JobFilter::Active => job.state != JobState::Pending,
            JobFilter::Pending => job.state == JobState::Pending,
            JobFilter::Local => job.state == JobState::LocalActive,
        }
    }

    fn test(&self, job: &Job) -> (r: bool)
        ensures
            r == self.selects(*job),
    {
        match self {
            JobFilter::ActiveOn(h) => job.host_id == *h && (job.state == JobState::RemoteActive
                || job.state == JobState::LocalActive),
            JobFilter::PendingFrom(c) => job.client_id == *c && job.state == JobState::Pending,
            JobFilter::Active => job.state != JobState::Pending,
            JobFilter::Pending => job.state == JobState::Pending,
            JobFilter::Local => job.state == JobState::LocalActive,
        }
    }
}

/// The IDs of the jobs in `jobs` that `filter` selects.
pub open spec fn selected_jobs(jobs: Map<u32, Job>, filter: JobFilter) -> Set<u32> {
    jobs.dom().filter(|id: u32| filter.selects(jobs[id]))
}

/// The keys among the first `n` entries of `entries` whose job `filter`
/// selects.
pub open spec fn seen_keys(entries: Seq<(&u32, &Job)>, n: int, filter: JobFilter) -> Set<u32> {
    Set::new(
        |id: u32|
            exists|i: int| 0 <= i < n && #[trigger] entries[i] == (&id, entries[i].1) && filter.selects(*entries[i].1),
    )
}

/// The IDs of the jobs in `jobs` that `filter` selects, each once, in no
/// particular order.
pub fn job_ids_where(jobs: &HashMap<u32, Job>, filter: JobFilter) -> (ids: Vec<u32>)
    ensures
        ids@.no_duplicates(),
        ids@.to_set() == selected_jobs(jobs@, filter),
{
    let ghost entries = vstd::std_specs::hash::spec_hash_map_iter(jobs).remaining();
    let mut ids: Vec<u32> = Vec::new();
    for kv in it: jobs.iter()
        invariant
            it.seq() == entries,
            entries == vstd::std_specs::hash::spec_hash_map_iter(jobs).remaining(),
            entries.no_duplicates(),
            ids@.no_duplicates(),
            ids@.to_set() == seen_keys(entries, it.index(), filter),
    {
        let ghost i = it.index();
        let (k, v) = kv;
        assert(entries[i] == (k, v));
        assert(jobs@.contains_key(*k) && jobs@[*k] == *v);
        let ghost before = ids@;
        if filter.test(v) {
            proof {
                if before.contains(*k) {
                    assert(seen_keys(entries, i, filter).contains(*k));
                    let j = choose|j: int| 0 <= j < i && #[trigger] entries[j] == (k, entries[j].1) && filter.selects(*entries[j].1);
                    assert(jobs@.contains_key(*entries[j].0) && jobs@[*entries[j].0] == *entries[j].1);
                    assert(entries[j] == entries[i]);
                    assert(false);
                }
            }
            ids.push(*k);
            proof {
                assert(ids@ == before.push(*k));
                assert forall|x: u32| ids@.contains(x) <==> (before.contains(x) || x == *k) by {
                    if ids@.contains(x) && x != *k {
                        let j = choose|j: int| 0 <= j < ids@.len() && ids@[j] == x;
                        assert(before[j] == x);
                    }
                    if x == *k {
                        assert(ids@[before.len() as int] == x);
                    }
                    if before.contains(x) {
                        let j = choose|j: int| 0 <= j < before.len() && before[j] == x;
                        assert(ids@[j] == x);
                    }
                }
                assert(ids@.to_set() =~= seen_keys(entries, i, filter).insert(*k));
                assert forall|id: u32| seen_keys(entries, i + 1, filter).contains(id) <==> seen_keys(entries, i, filter).insert(*k).contains(id) by {
                    if seen_keys(entries, i + 1, filter).contains(id) && id != *k {
                        let j = choose|j: int| 0 <= j < i + 1 && #[trigger] entries[j] == (&id, entries[j].1) && filter.selects(*entries[j].1);
                        assert(j != i);
                    }
                }
                assert(seen_keys(entries, i + 1, filter) =~= seen_keys(entries, i, filter).insert(*k));
            }
        } else {
            proof {
                assert forall|id: u32| seen_keys(entries, i + 1, filter).contains(id) <==> seen_keys(entries, i, filter).contains(id) by {
                    if seen_keys(entries, i + 1, filter).contains(id) {
                        let j = choose|j: int| 0 <= j < i + 1 && #[trigger] entries[j] == (&id, entries[j].1) && filter.selects(*entries[j].1);
                        assert(j != i);
                    }
                }
                assert(seen_keys(entries, i + 1, filter) =~= seen_keys(entries, i, filter));
            }
        }
    }
    proof {
        assert forall|id: u32| selected_jobs(jobs@, filter).contains(id) <==> seen_keys(entries, entries.len() as int, filter).contains(id) by {
            if selected_jobs(jobs@, filter).contains(id) {
                assert(jobs@.contains_key(id));
                assert(entries.contains((&id, &jobs@[id])));
                let j = choose|j: int| 0 <= j < entries.len() && entries[j] == (&id, &jobs@[id]);
                assert(entries[j] == (&id, entries[j].1));
            }
            if seen_keys(entries, entries.len() as int, filter).contains(id) {
                let j = choose|j: int| 0 <= j < entries.len() && #[trigger] entries[j] == (&id, entries[j].1) && filter.selects(*entries[j].1);
                assert(jobs@.contains_key(*entries[j].0) && jobs@[*entries[j].0] == *entries[j].1);
            }
        }
        assert(selected_jobs(jobs@, filter) =~= seen_keys(entries, entries.len() as int, filter));
    }
    ids
}

/// A compile host as the scheduler describes it.
#[derive(Debug, Clone)]
pub struct Host {
    pub id: u32,
    pub name: String,
    pub max_jobs: u32,
    pub speed: u32,
    pub platform: String,
    pub no_remote: bool,
    pub ip: String,
    pub attrs: Vec<(String, String)>,
    pub total_in: u32,
    pub total_out: u32,
    pub total_local: u32,
    pub color_idx: u8,
}

/// The value of the last attribute named `key`, if any.
pub open spec fn attr_value(attrs: Seq<(String, String)>, key: Seq<char>) -> Option<String>
    decreases attrs.len(),
{
    if attrs.len() == 0 {
        None
    } else if attrs.last().0@ == key {
        Some(attrs.last().1)
    } else {
        attr_value(attrs.drop_last(), key)
    }
}

proof fn lemma_attr_value_step(attrs: Seq<(String, String)>, i: int, key: Seq<char>)
    requires
        0 <= i < attrs.len(),
    ensures
        attr_value(attrs.subrange(0, i + 1), key) == if attrs[i].0@ == key {
            Some(attrs[i].1)
        } else {
            attr_value(attrs.subrange(0, i), key)
        },
{
    assert(attrs.subrange(0, i + 1).drop_last() =~= attrs.subrange(0, i));
}

/// Whether some attribute is named `key`.
pub open spec fn has_attr(attrs: Seq<(String, String)>, key: Seq<char>) -> bool {
    exists|i: int| 0 <= i < attrs.len() && #[trigger] attrs[i].0@ == key
}

/// A string field after the attributes: the last value given for `key`, or
/// the old one.
pub open spec fn text_attr(old: String, attrs: Seq<(String, String)>, key: Seq<char>) -> String {
    match attr_value(attrs, key) {
        Some(v) => v,
        None => old,
    }
}

/// The job limit after the attributes: the last `MaxJobs` value read as a
/// decimal number (0 when it is not one), or the old limit.
pub open spec fn max_jobs_attr(old: u32, attrs: Seq<(String, String)>) -> u32 {
    match attr_value(attrs, "MaxJobs"@) {
        Some(v) => match spec_parse_u32(v@) {
            Some(n) => n,
            None => 0,
        },
        None => old,
    }
}

/// The remote-jobs flag after the attributes: whether the last `NoRemote`
/// value is `true` or `1`, or the old flag.
pub open spec fn no_remote_attr(old: bool, attrs: Seq<(String, String)>) -> bool {
    match attr_value(attrs, "NoRemote"@) {
        Some(v) => v@ == "true"@ || v@ == "1"@,
        None => old,
    }
}

/// The speed after the attributes: what `speed_of` gives for the last
/// `Speed` value, or the old speed.
pub open spec fn speed_attr<F: Fn(&String) -> u32>(
    old: u32,
    new: u32,
    attrs: Seq<(String, String)>,
    speed_of: F,
) -> bool {
    match attr_value(attrs, "Speed"@) {
        Some(v) => speed_of.ensures((&v,), new),
        None => new == old,
    }
}

/// `new` is `old` with the attributes `attrs` applied.
pub open spec fn attrs_applied<F: Fn(&String) -> u32>(
    old: Host,
    new: Host,
    attrs: Seq<(String, String)>,
    speed_of: F,
) -> bool {
    &&& new.name == text_attr(old.name, attrs, "Name"@)
    &&& new.max_jobs == max_jobs_attr(old.max_jobs, attrs)
    &&& speed_attr(old.speed, new.speed, attrs, speed_of)
    &&& new.platform == text_attr(old.platform, attrs, "Platform"@)
    &&& new.no_remote == no_remote_attr(old.no_remote, attrs)
    &&& new.ip == text_attr(old.ip, attrs, "IP"@)
    &&& new.attrs@ == attrs
    &&& new.id == old.id
    &&& new.total_in == old.total_in
    &&& new.total_out == old.total_out
    &&& new.total_local == old.total_local
    &&& new.color_idx == old.color_idx
}

/// A freshly seen host: no attributes, no counts.
pub open spec fn fresh_host(id: u32, color_idx: u8, new: Host) -> bool {
    &&& new.id == id
    &&& new.name@ == Seq::<char>::empty()
    &&& new.max_jobs == 0
    &&& new.speed == 0
    &&& new.platform@ == Seq::<char>::empty()
    &&& !new.no_remote
    &&& new.ip@ == Seq::<char>::empty()
    &&& new.attrs@ == Seq::<(String, String)>::empty()
    &&& new.total_in == 0
    &&& new.total_out == 0
    &&& new.total_local == 0
    &&& new.color_idx == color_idx
}

impl Host {
    pub fn new(id: u32, color_idx: u8) -> (h: Self)
        ensures
            fresh_host(id, color_idx, h),
    {
        Self {
            id,
            name: String::new(),
            max_jobs: 0,
            speed: 0,
            platform: String::new(),
            no_remote: false,
            ip: String::new(),
            attrs: Vec::new(),
            total_in: 0,
            total_out: 0,
            total_local: 0,
            color_idx,
        }
    }

    /// Applies the attributes of a stats report in order (later values of a
    /// key win) and keeps the list. `speed_of` reads a `Speed` value.
    pub fn update_attrs<F: Fn(&String) -> u32>(
        &mut self,
        attrs: Vec<(String, String)>,
        speed_of: &F,
    )
        requires
            forall|v: &String| #[trigger] speed_of.requires((v,)),
        ensures
            attrs_applied(*old(self), *final(self), attrs@, *speed_of),
    {
        let ghost old_host = *self;
        let mut i: usize = 0;
        while i < attrs.len()
            invariant
                i <= attrs@.len(),
                forall|v: &String| #[trigger] speed_of.requires((v,)),
                self.name == text_attr(old_host.name, attrs@.subrange(0, i as int), "Name"@),
                self.max_jobs == max_jobs_attr(old_host.max_jobs, attrs@.subrange(0, i as int)),
                speed_attr(old_host.speed, self.speed, attrs@.subrange(0, i as int), *speed_of),
                self.platform == text_attr(old_host.platform, attrs@.subrange(0, i as int), "Platform"@),
                self.no_remote == no_remote_attr(old_host.no_remote, attrs@.subrange(0, i as int)),
                self.ip == text_attr(old_host.ip, attrs@.subrange(0, i as int), "IP"@),
                self.attrs == old_host.attrs,
                self.id == old_host.id,
                self.total_in == old_host.total_in,
                self.total_out == old_host.total_out,
                self.total_local == old_host.total_local,
                self.color_idx == old_host.color_idx,
            decreases attrs@.len() - i,
        {
            let ghost done = attrs@.subrange(0, i as int);
            let ghost next = attrs@.subrange(0, i + 1);
            assert(next.drop_last() =~= done);
            assert(next.last() == attrs@[i as int]);
            let k = attrs[i].0.as_str();
            let v = &attrs[i].1;
            proof {
                lemma_attr_value_step(attrs@, i as int, "Name"@);
                lemma_attr_value_step(attrs@, i as int, "MaxJobs"@);
                lemma_attr_value_step(attrs@, i as int, "Speed"@);
                lemma_attr_value_step(attrs@, i as int, "Platform"@);
                lemma_attr_value_step(attrs@, i as int, "NoRemote"@);
                lemma_attr_value_step(attrs@, i as int, "IP"@);
                reveal_strlit("Name");
                reveal_strlit("MaxJobs");
                reveal_strlit("Speed");
                reveal_strlit("Platform");
                reveal_strlit("NoRemote");
                reveal_strlit("IP");
                assert("MaxJobs"@.len() == 7 && "Name"@.len() == 4 && "IP"@.len() == 2);
                assert("Speed"@.len() == 5 && "Platform"@.len() == 8 && "NoRemote"@.len() == 8);
                assert("Platform"@[0] != "NoRemote"@[0]);
            }
            if text_eq(k, "Name") {
                self.name = v.clone();
            } else if text_eq(k, "MaxJobs") {
                self.max_jobs = match parse_u32(v.as_str()) {
                    Some(n) => n,
                    None => 0,
                };
            } else if text_eq(k, "Speed") {
                self.speed = speed_of(v);
            } else if text_eq(k, "Platform") {
                self.platform = v.clone();
            } else if text_eq(k, "NoRemote") {
                let t = v.as_str();
                self.no_remote = text_eq(t, "true") || text_eq(t, "1");
            } else if text_eq(k, "IP") {
                self.ip = v.clone();
            }
            i = i + 1;
        }
        assert(attrs@.subrange(0, attrs@.len() as int) =~= attrs@);
        self.attrs = attrs;
    }
}

/// Event sent from the monitor task to the interface.
#[derive(Debug, Clone)]
pub enum MonitorEvent {
    Connected { scheduler_name: String, netname: String },
    Disconnected,
    HostStats { host_id: u32, attrs: Vec<(String, String)> },
    JobPending { job_id: u32, client_id: u32, filename: String },
    JobBegin { job_id: u32, host_id: u32 },
    LocalJobBegin { job_id: u32, host_id: u32, filename: String },
    JobDone { job_id: u32 },
}

/// Aggregate state of the scheduler.
#[derive(Debug)]
pub struct SchedulerState {
    pub hosts: HashMap<u32, Host>,
    pub jobs: HashMap<u32, Job>,
    pub scheduler_name: String,
    pub netname: String,
    pub connected: bool,
    pub total_remote: u64,
    pub total_local: u64,
    /// The color the next newly seen host gets.
    pub next_color: u8,
}

/// `x + 1`, wrapping to 0 past `u32::MAX`.
pub open spec fn inc32(x: u32) -> u32 {
    if x == u32::MAX {
        0
    } else {
        (x + 1) as u32
    }
}

/// `x + 1`, wrapping to 0 past `u64::MAX`.
pub open spec fn inc64(x: u64) -> u64 {
    if x == u64::MAX {
        0
    } else {
        (x + 1) as u64
    }
}

/// `x + 1`, wrapping to 0 past `u8::MAX`.
pub open spec fn inc8(x: u8) -> u8 {
    if x == u8::MAX {
        0
    } else {
        (x + 1) as u8
    }
}

/// Which per-host counter an event bumps.
pub enum Counter {
    In,
    Out,
    Local,
}

/// `h` with one of its counters bumped.
pub open spec fn bumped_host(h: Host, c: Counter) -> Host {
    match c {
        Counter::In => Host { total_in: inc32(h.total_in), ..h },
        Counter::Out => Host { total_out: inc32(h.total_out), ..h },
        Counter::Local => Host { total_local: inc32(h.total_local), ..h },
    }
}

/// `hosts` with a counter of host `id` bumped, if that host is known.
pub open spec fn bump(hosts: Map<u32, Host>, id: u32, c: Counter) -> Map<u32, Host> {
    if hosts.contains_key(id) {
        hosts.insert(id, bumped_host(hosts[id], c))
    } else {
        hosts
    }
}

/// The host record a stats report leaves for `host_id`: the known host, or a
/// fresh one with color `color`, with the attributes applied.
pub open spec fn host_after_stats<F: Fn(&String) -> u32>(
    old_hosts: Map<u32, Host>,
    host_id: u32,
    color: u8,
    attrs: Seq<(String, String)>,
    speed_of: F,
    new_host: Host,
) -> bool {
    if old_hosts.contains_key(host_id) {
        attrs_applied(old_hosts[host_id], new_host, attrs, speed_of)
    } else {
        exists|h: Host| fresh_host(host_id, color, h) && attrs_applied(h, new_host, attrs, speed_of)
    }
}

impl SchedulerState {
    /// Whether `new` differs from `old` only in the tables and counters.
    pub open spec fn same_session(old: SchedulerState, new: SchedulerState) -> bool {
        &&& new.scheduler_name == old.scheduler_name
        &&& new.netname == old.netname
        &&& new.connected == old.connected
    }

    /// The state `event` leads to from `old` at time `now`, where `speed_of`
    /// reads a host's `Speed` attribute.
    pub open spec fn event_applied<F: Fn(&String) -> u32>(
        old: SchedulerState,
        new: SchedulerState,
        event: MonitorEvent,
        now: u64,
        speed_of: F,
    ) -> bool {
        match event {
            MonitorEvent::Connected { scheduler_name, netname } => {
                &&& new.scheduler_name == scheduler_name
                &&& new.netname == netname
                &&& new.connected
                &&& new.hosts@ == old.hosts@
                &&& new.jobs@ == old.jobs@
                &&& new.total_remote == old.total_remote
                &&& new.total_local == old.total_local
                &&& new.next_color == old.next_color
            },
            MonitorEvent::Disconnected => {
                &&& new.scheduler_name == old.scheduler_name
                &&& new.netname == old.netname
                &&& !new.connected
                &&& new.hosts@ == Map::<u32, Host>::empty()
                &&& new.jobs@ == Map::<u32, Job>::empty()
                &&& new.total_remote == old.total_remote
                &&& new.total_local == old.total_local
                &&& new.next_color == old.next_color
            },
            MonitorEvent::HostStats { host_id, attrs } => {
                &&& Self::same_session(old, new)
                &&& new.jobs@ == old.jobs@
                &&& new.total_remote == old.total_remote
                &&& new.total_local == old.total_local
                &&& if !has_attr(attrs@, "Name"@) {
                    &&& new.hosts@ == old.hosts@.remove(host_id)
                    &&& new.next_color == old.next_color
                } else {
                    &&& new.hosts@.contains_key(host_id)
                    &&& new.hosts@ == old.hosts@.insert(host_id, new.hosts@[host_id])
                    &&& host_after_stats(
                        old.hosts@,
                        host_id,
                        old.next_color,
                        attrs@,
                        speed_of,
                        new.hosts@[host_id],
                    )
                    &&& new.next_color == if old.hosts@.contains_key(host_id) {
                        old.next_color
                    } else {
                        inc8(old.next_color)
                    }
                }
            },
            MonitorEvent::JobPending { job_id, client_id, filename } => {
                &&& Self::same_session(old, new)
                &&& new.jobs@ == old.jobs@.insert(
                    job_id,
                    Job { client_id, host_id: 0, filename, state: JobState::Pending, start_time: now },
                )
                &&& new.hosts@ == old.hosts@
                &&& new.total_remote == old.total_remote
                &&& new.total_local == old.total_local
                &&& new.next_color == old.next_color
            },
            MonitorEvent::JobBegin { job_id, host_id } => {
                &&& Self::same_session(old, new)
                &&& new.total_local == old.total_local
                &&& new.next_color == old.next_color
                &&& if old.jobs@.contains_key(job_id) {
                    let job = old.jobs@[job_id];
                    &&& new.jobs@ == old.jobs@.insert(
                        job_id,
                        Job { host_id, state: JobState::RemoteActive, start_time: now, ..job },
                    )
                    &&& new.hosts@ == bump(
                        bump(old.hosts@, host_id, Counter::In),
                        job.client_id,
                        Counter::Out,
                    )
                    &&& new.total_remote == inc64(old.total_remote)
                } else {
                    &&& new.jobs@ == old.jobs@
                    &&& new.hosts@ == old.hosts@
                    &&& new.total_remote == old.total_remote
                }
            },
            MonitorEvent::LocalJobBegin { job_id, host_id, filename } => {
                &&& Self::same_session(old, new)
                &&& new.jobs@ == old.jobs@.insert(
                    job_id,
                    Job {
                        client_id: host_id,
                        host_id,
                        filename,
                        state: JobState::LocalActive,
                        start_time: now,
                    },
                )
                &&& new.hosts@ == bump(old.hosts@, host_id, Counter::Local)
                &&& new.total_remote == old.total_remote
                &&& new.total_local == inc64(old.total_local)
                &&& new.next_color == old.next_color
            },
            MonitorEvent::JobDone { job_id } => {
                &&& Self::same_session(old, new)
                &&& new.jobs@ == old.jobs@.remove(job_id)
                &&& new.hosts@ == old.hosts@
                &&& new.total_remote == old.total_remote
                &&& new.total_local == old.total_local
                &&& new.next_color == old.next_color
            },
        }
    }

    pub fn new() -> (s: Self)
        ensures
            s.hosts@ == Map::<u32, Host>::empty(),
            s.jobs@ == Map::<u32, Job>::empty(),
            s.scheduler_name@ == Seq::<char>::empty(),
            s.netname@ == Seq::<char>::empty(),
            !s.connected,
            s.total_remote == 0,
            s.total_local == 0,
            s.next_color == 0,
    {
        Self {
            hosts: HashMap::new(),
            jobs: HashMap::new(),
            scheduler_name: String::new(),
            netname: String::new(),
            connected: false,
            total_remote: 0,
            total_local: 0,
            next_color: 0,
        }
    }

    }

impl Default for SchedulerState {
    /// The same as [`SchedulerState::new`].
    fn default() -> (s: Self)
        ensures
            s.hosts@ == Map::<u32, Host>::empty(),
            s.jobs@ == Map::<u32, Job>::empty(),
            s.scheduler_name@ == Seq::<char>::empty(),
            s.netname@ == Seq::<char>::empty(),
            !s.connected,
            s.total_remote == 0,
            s.total_local == 0,
            s.next_color == 0,
    {
        Self::new()
    }
}

impl SchedulerState {
    /// Bumps a counter of host `id`, if that host is known.
    fn bump_host(&mut self, id: u32, c: Counter)
        ensures
            final(self).hosts@ == bump(old(self).hosts@, id, c),
            final(self).jobs@ == old(self).jobs@,
            final(self).scheduler_name == old(self).scheduler_name,
            final(self).netname == old(self).netname,
            final(self).connected == old(self).connected,
            final(self).total_remote == old(self).total_remote,
            final(self).total_local == old(self).total_local,
            final(self).next_color == old(self).next_color,
    {
        if let Some(mut h) = self.hosts.remove(&id) {
            match c {
                Counter::In => h.total_in = wrapping_inc32(h.total_in),
                Counter::Out => h.total_out = wrapping_inc32(h.total_out),
                Counter::Local => h.total_local = wrapping_inc32(h.total_local),
            }
            self.hosts.insert(id, h);
            assert(self.hosts@ =~= bump(old(self).hosts@, id, c));
        } else {
            assert(self.hosts@ =~= old(self).hosts@);
        }
    }

    /// Applies one monitor event. `now` is the time on the caller's clock;
    /// `speed_of` reads a host's `Speed` attribute.
    pub fn apply_event<F: Fn(&String) -> u32>(&mut self, event: MonitorEvent, now: u64, speed_of: &F)
        requires
            forall|v: &String| #[trigger] speed_of.requires((v,)),
        ensures
            Self::event_applied(*old(self), *final(self), event, now, *speed_of),
    {
        match event {
            MonitorEvent::Connected { scheduler_name, netname } => {
                self.scheduler_name = scheduler_name;
                self.netname = netname;
                self.connected = true;
            },
            MonitorEvent::Disconnected => {
                self.connected = false;
                self.hosts.clear();
                self.jobs.clear();
            },
            MonitorEvent::HostStats { host_id, attrs } => {
                // No Name: the host is dead, remove it.
                if !has_name_attr(&attrs) {
                    self.hosts.remove(&host_id);
                    return;
                }
                let color = self.next_color;
                let mut host = match self.hosts.remove(&host_id) {
                    Some(h) => h,
                    None => {
                        self.next_color = wrapping_inc8(self.next_color);
                        Host::new(host_id, color)
                    },
                };
                let ghost base = host;
                host.update_attrs(attrs, speed_of);
                self.hosts.insert(host_id, host);
                proof {
                    if !old(self).hosts@.contains_key(host_id) {
                        assert(fresh_host(host_id, color, base));
                    }
                    assert(self.hosts@ =~= old(self).hosts@.insert(host_id, self.hosts@[host_id]));
                }
            },
            MonitorEvent::JobPending { job_id, client_id, filename } => {
                self.jobs.insert(
                    job_id,
                    Job { client_id, host_id: 0, filename, state: JobState::Pending, start_time: now },
                );
            },
            MonitorEvent::JobBegin { job_id, host_id } => {
                if let Some(mut job) = self.jobs.remove(&job_id) {
                    job.host_id = host_id;
                    job.state = JobState::RemoteActive;
                    job.start_time = now;
                    let client_id = job.client_id;
                    self.jobs.insert(job_id, job);
                    assert(self.jobs@ =~= old(self).jobs@.insert(
                        job_id,
                        Job { host_id, state: JobState::RemoteActive, start_time: now, ..old(self).jobs@[job_id] },
                    ));
                    self.bump_host(host_id, Counter::In);
                    self.bump_host(client_id, Counter::Out);
                    self.total_remote = wrapping_inc64(self.total_remote);
                } else {
                    assert(self.jobs@ =~= old(self).jobs@);
                }
            },
            MonitorEvent::LocalJobBegin { job_id, host_id, filename } => {
                self.jobs.insert(
                    job_id,
                    Job {
                        client_id: host_id,
                        host_id,
                        filename,
                        state: JobState::LocalActive,
                        start_time: now,
                    },
                );
                self.bump_host(host_id, Counter::Local);
                self.total_local = wrapping_inc64(self.total_local);
            },
            MonitorEvent::JobDone { job_id } => {
                self.jobs.remove(&job_id);
            },
        }
    }

    /// Active jobs on a given host (executing there), each once.
    pub fn active_jobs_on_host(&self, host_id: u32) -> (ids: Vec<u32>)
        ensures
            ids@.no_duplicates(),
            ids@.to_set() == selected_jobs(self.jobs@, JobFilter::ActiveOn(host_id)),
    {
        job_ids_where(&self.jobs, JobFilter::ActiveOn(host_id))
    }

    /// Pending jobs from a given client, each once.
    pub fn pending_jobs_from_client(&self, client_id: u32) -> (ids: Vec<u32>)
        ensures
            ids@.no_duplicates(),
            ids@.to_set() == selected_jobs(self.jobs@, JobFilter::PendingFrom(client_id)),
    {
        job_ids_where(&self.jobs, JobFilter::PendingFrom(client_id))
    }

    /// Total active (non-pending) job count.
    pub fn active_job_count(&self) -> (n: usize)
        ensures
            n == selected_jobs(self.jobs@, JobFilter::Active).len(),
    {
        count_jobs(&self.jobs, JobFilter::Active)
    }

    /// Total pending job count.
    pub fn pending_job_count(&self) -> (n: usize)
        ensures
            n == selected_jobs(self.jobs@, JobFilter::Pending).len(),
    {
        count_jobs(&self.jobs, JobFilter::Pending)
    }

    /// Total local active job count.
    pub fn local_job_count(&self) -> (n: usize)
        ensures
            n == selected_jobs(self.jobs@, JobFilter::Local).len(),
    {
        count_jobs(&self.jobs, JobFilter::Local)
    }
}

/// The keys of `m`, each once, in no particular order.
pub fn map_keys<V>(m: &HashMap<u32, V>) -> (ids: Vec<u32>)
    ensures
        ids@.no_duplicates(),
        ids@.to_set() == m@.dom(),
{
    let ghost keys = vstd::std_specs::hash::spec_keys_iter(m).remaining();
    let mut ids: Vec<u32> = Vec::new();
    for k in it: m.keys()
        invariant
            it.seq() == keys,
            keys == vstd::std_specs::hash::spec_keys_iter(m).remaining(),
            ids@.len() == it.index(),
            forall|i: int| 0 <= i < it.index() ==> ids@[i] == *keys[i],
    {
        ids.push(*k);
    }
    assert(ids@ =~= keys.unref());
    ids
}

/// How many jobs in `jobs` `filter` selects.
pub fn count_jobs(jobs: &HashMap<u32, Job>, filter: JobFilter) -> (n: usize)
    ensures
        n == selected_jobs(jobs@, filter).len(),
{
    let ids = job_ids_where(jobs, filter);
    proof {
        ids@.unique_seq_to_set();
    }
    ids.len()
}

/// Whether some attribute is named `Name`.
fn has_name_attr(attrs: &Vec<(String, String)>) -> (r: bool)
    ensures
        r == has_attr(attrs@, "Name"@),
{
    let mut i: usize = 0;
    while i < attrs.len()
        invariant
            i <= attrs@.len(),
            forall|j: int| 0 <= j < i ==> attrs@[j].0@ != "Name"@,
        decreases attrs@.len() - i,
    {
        if text_eq(attrs[i].0.as_str(), "Name") {
            return true;
        }
        i = i + 1;
    }
    false
}

fn wrapping_inc32(x: u32) -> (r: u32)
    ensures
        r == inc32(x),
{
    if x == u32::MAX {
        0
    } else {
        x + 1
    }
}

fn wrapping_inc64(x: u64) -> (r: u64)
    ensures
        r == inc64(x),
{
    if x == u64::MAX {
        0
    } else {
        x + 1
    }
}

fn wrapping_inc8(x: u8) -> (r: u8)
    ensures
        r == inc8(x),
{
    if x == u8::MAX {
        0
    } else {
        x + 1
    }
}

/// A column the host table can be sorted by.
#[derive(Debug, Clone, Copy, PartialEq, Eq, Structural)]
pub enum SortColumn {
    Id,
    Name,
    In,
    Current,
    MaxJobs,
    Out,
    Local,
    Speed,
}

/// Number of sort columns.
pub const SORT_COLUMN_COUNT: usize = 8;

impl SortColumn {
    /// The column's place in the table, from 0.
    pub open spec fn ordinal(self) -> int {
        match self {
            SortColumn::Id => 0,
            SortColumn::Name => 1,
            SortColumn::In => 2,
            SortColumn::Current => 3,
            SortColumn::MaxJobs => 4,
            SortColumn::Out => 5,
            SortColumn::Local => 6,
            SortColumn::Speed => 7,
        }
    }

    /// The column at place `i` (taken modulo the column count).
    pub open spec fn at(i: int) -> SortColumn {
        let k = i % 8;
        if k == 0 {
            SortColumn::Id
        } else if k == 1 {
            SortColumn::Name
        } else if k == 2 {
            SortColumn::In
        } else if k == 3 {
            SortColumn::Current
        } else if k == 4 {
            SortColumn::MaxJobs
        } else if k == 5 {
            SortColumn::Out
        } else if k == 6 {
            SortColumn::Local
        } else {
            SortColumn::Speed
        }
    }

    /// The column heading.
    pub open spec fn spec_header(self) -> Seq<char> {
        match self {
            SortColumn::Id => "ID"@,
            SortColumn::Name => "NAME"@,
            SortColumn::In => "IN"@,
            SortColumn::Current => "CUR"@,
            SortColumn::MaxJobs => "MAX"@,
            SortColumn::Out => "OUT"@,
            SortColumn::Local => "LOCAL"@,
            SortColumn::Speed => "SPEED"@,
        }
    }

    /// All columns in table order.
    pub fn all() -> (cols: Vec<SortColumn>)
        ensures
            cols@.len() == SORT_COLUMN_COUNT,
            forall|i: int| 0 <= i < SORT_COLUMN_COUNT ==> #[trigger] cols@[i] == Self::at(i),
    {
        let cols = vec![
            SortColumn::Id,
            SortColumn::Name,
            SortColumn::In,
            SortColumn::Current,
            SortColumn::MaxJobs,
            SortColumn::Out,
            SortColumn::Local,
            SortColumn::Speed,
        ];
        assert forall|i: int| 0 <= i < SORT_COLUMN_COUNT implies #[trigger] cols@[i] == Self::at(i) by {
            assert(i % 8 == i);
        }
        cols
    }

    pub fn header(&self) -> (h: &'static str)
        ensures
            h@ == self.spec_header(),
    {
        match self {
            SortColumn::Id => "ID",
            SortColumn::Name => "NAME",
            SortColumn::In => "IN",
            SortColumn::Current => "CUR",
            SortColumn::MaxJobs => "MAX",
            SortColumn::Out => "OUT",
            SortColumn::Local => "LOCAL",
            SortColumn::Speed => "SPEED",
        }
    }

    /// The column after this one, wrapping from the last to the first.
    pub fn next(&self) -> (c: SortColumn)
        ensures
            c == Self::at(self.ordinal() + 1),
    {
        match self {
            SortColumn::Id => SortColumn::Name,
            SortColumn::Name => SortColumn::In,
            SortColumn::In => SortColumn::Current,
            SortColumn::Current => SortColumn::MaxJobs,
            SortColumn::MaxJobs => SortColumn::Out,
            SortColumn::Out => SortColumn::Local,
            SortColumn::Local => SortColumn::Speed,
            SortColumn::Speed => SortColumn::Id,
        }
    }

    /// The column before this one, wrapping from the first to the last.
    pub fn prev(&self) -> (c: SortColumn)
        ensures
            c == Self::at(self.ordinal() + SORT_COLUMN_COUNT - 1),
    {
        match self {
            SortColumn::Id => SortColumn::Speed,
            SortColumn::Name => SortColumn::Id,
            SortColumn::In => SortColumn::Name,
            SortColumn::Current => SortColumn::In,
            SortColumn::MaxJobs => SortColumn::Current,
            SortColumn::Out => SortColumn::MaxJobs,
            SortColumn::Local => SortColumn::Out,
            SortColumn::Speed => SortColumn::Local,
        }
    }
}

/// Stepping to the next column and back, or back and then forward, returns
/// to the same column; stepping forward once per column goes round to the
/// start.
pub proof fn lemma_sort_column_cycle(c: SortColumn)
    ensures
        SortColumn::at(SortColumn::at(c.ordinal() + 1).ordinal() + SORT_COLUMN_COUNT - 1) == c,
        SortColumn::at(SortColumn::at(c.ordinal() + SORT_COLUMN_COUNT - 1).ordinal() + 1) == c,
        SortColumn::at(c.ordinal() + SORT_COLUMN_COUNT) == c,
        SortColumn::at(c.ordinal()) == c,
{
}

/// Byte strings in lexicographic order (a prefix comes first), the order of
/// `str`.
pub open spec fn bytes_le(a: Seq<u8>, b: Seq<u8>) -> bool
    decreases a.len(),
{
    if a.len() == 0 {
        true
    } else if b.len() == 0 {
        false
    } else if a[0] != b[0] {
        a[0] < b[0]
    } else {
        bytes_le(a.drop_first(), b.drop_first())
    }
}

proof fn lemma_bytes_le_total(a: Seq<u8>, b: Seq<u8>)
    ensures
        bytes_le(a, b) || bytes_le(b, a),
    decreases a.len(),
{
    if a.len() > 0 && b.len() > 0 && a[0] == b[0] {
        lemma_bytes_le_total(a.drop_first(), b.drop_first());
    }
}

proof fn lemma_bytes_le_trans(a: Seq<u8>, b: Seq<u8>, c: Seq<u8>)
    requires
        bytes_le(a, b),
        bytes_le(b, c),
    ensures
        bytes_le(a, c),
    decreases a.len(),
{
    if a.len() > 0 && b.len() > 0 && c.len() > 0 && a[0] == b[0] && b[0] == c[0] {
        lemma_bytes_le_trans(a.drop_first(), b.drop_first(), c.drop_first());
    }
}

/// The key a host is sorted by in a column: a number, then (for names) the
/// UTF-8 bytes.
pub open spec fn sort_key(state: SchedulerState, col: SortColumn, id: u32) -> (int, Seq<u8>) {
    let h = state.hosts@[id];
    match col {
        SortColumn::Id => (h.id as int, Seq::empty()),
        SortColumn::Name => (0, encode_utf8(h.name@)),
        SortColumn::In => (h.total_in as int, Seq::empty()),
        SortColumn::Current => (
            selected_jobs(state.jobs@, JobFilter::ActiveOn(id)).len() as int,
            Seq::empty(),
        ),
        SortColumn::MaxJobs => (h.max_jobs as int, Seq::empty()),
        SortColumn::Out => (h.total_out as int, Seq::empty()),
        SortColumn::Local => (h.total_local as int, Seq::empty()),
        SortColumn::Speed => (h.speed as int, Seq::empty()),
    }
}

/// Keys in ascending order: by number, then by bytes.
pub open spec fn key_le(a: (int, Seq<u8>), b: (int, Seq<u8>)) -> bool {
    a.0 < b.0 || (a.0 == b.0 && bytes_le(a.1, b.1))
}

/// Whether `a` may stand before `b`: ascending, or descending when
/// `reverse`.
pub open spec fn key_ordered(a: (int, Seq<u8>), b: (int, Seq<u8>), reverse: bool) -> bool {
    if reverse {
        key_le(b, a)
    } else {
        key_le(a, b)
    }
}

proof fn lemma_key_ordered_total(a: (int, Seq<u8>), b: (int, Seq<u8>), reverse: bool)
    ensures
        key_ordered(a, b, reverse) || key_ordered(b, a, reverse),
{
    lemma_bytes_le_total(a.1, b.1);
}

proof fn lemma_key_ordered_trans(
    a: (int, Seq<u8>),
    b: (int, Seq<u8>),
    c: (int, Seq<u8>),
    reverse: bool,
)
    requires
        key_ordered(a, b, reverse),
        key_ordered(b, c, reverse),
    ensures
        key_ordered(a, c, reverse),
{
    if reverse {
        if c.0 == b.0 && b.0 == a.0 {
            lemma_bytes_le_trans(c.1, b.1, a.1);
        }
    } else {
        if c.0 == b.0 && b.0 == a.0 {
            lemma_bytes_le_trans(a.1, b.1, c.1);
        }
    }
}

/// Whether `ids` lists every known host once, in the order of column
/// `col` (descending when `reverse`).
pub open spec fn is_host_listing(state: SchedulerState, col: SortColumn, reverse: bool, ids: Seq<u32>) -> bool {
    &&& ids.no_duplicates()
    &&& ids.to_set() == state.hosts@.dom()
    &&& forall|i: int, j: int|
        0 <= i < j < ids.len() ==> key_ordered(
            sort_key(state, col, #[trigger] ids[i]),
            sort_key(state, col, #[trigger] ids[j]),
            reverse,
        )
}

/// A listing of the hosts has one entry per host.
pub proof fn lemma_host_listing_len(state: SchedulerState, col: SortColumn, reverse: bool, ids: Seq<u32>)
    requires
        is_host_listing(state, col, reverse, ids),
    ensures
        ids.len() == state.hosts@.dom().len(),
{
    ids.unique_seq_to_set();
}

/// A sort key computed for a host.
struct SortKey {
    num: u64,
    text: Vec<u8>,
}

impl SortKey {
    spec fn key(&self) -> (int, Seq<u8>) {
        (self.num as int, self.text@)
    }
}

fn bytes_le_exec(a: &[u8], b: &[u8]) -> (r: bool)
    ensures
        r == bytes_le(a@, b@),
{
    let mut i: usize = 0;
    assert(a@.subrange(0, a@.len() as int) =~= a@);
    assert(b@.subrange(0, b@.len() as int) =~= b@);
    while i < a.len() && i < b.len()
        invariant
            i <= a@.len(),
            i <= b@.len(),
            a@.subrange(0, i as int) == b@.subrange(0, i as int),
            bytes_le(a@, b@) == bytes_le(a@.subrange(i as int, a@.len() as int), b@.subrange(i as int, b@.len() as int)),
        decreases a@.len() - i,
    {
        let ghost ra = a@.subrange(i as int, a@.len() as int);
        let ghost rb = b@.subrange(i as int, b@.len() as int);
        if a[i] != b[i] {
            assert(ra[0] == a@[i as int] && rb[0] == b@[i as int]);
            return a[i] < b[i];
        }
        assert(ra.drop_first() =~= a@.subrange(i + 1, a@.len() as int));
        assert(rb.drop_first() =~= b@.subrange(i + 1, b@.len() as int));
        assert(a@.subrange(0, i + 1) =~= a@.subrange(0, i as int).push(a@[i as int]));
        assert(b@.subrange(0, i + 1) =~= b@.subrange(0, i as int).push(b@[i as int]));
        i = i + 1;
    }
    assert(a@.subrange(i as int, a@.len() as int).len() == a@.len() - i);
    i == a.len()
}

fn key_ordered_exec(a: &SortKey, b: &SortKey, reverse: bool) -> (r: bool)
    ensures
        r == key_ordered(a.key(), b.key(), reverse),
{
    if reverse {
        b.num < a.num || (b.num == a.num && bytes_le_exec(b.text.as_slice(), a.text.as_slice()))
    } else {
        a.num < b.num || (a.num == b.num && bytes_le_exec(a.text.as_slice(), b.text.as_slice()))
    }
}

/// Copies a byte slice into a vector.
fn bytes_to_vec(bytes: &[u8]) -> (v: Vec<u8>)
    ensures
        v@ == bytes@,
{
    let mut v: Vec<u8> = Vec::new();
    let mut i: usize = 0;
    while i < bytes.len()
        invariant
            i <= bytes@.len(),
            v@ == bytes@.subrange(0, i as int),
        decreases bytes@.len() - i,
    {
        v.push(bytes[i]);
        i = i + 1;
        assert(bytes@.subrange(0, i as int) == bytes@.subrange(0, i - 1) + seq![bytes@[i - 1]]);
    }
    assert(bytes@.subrange(0, bytes@.len() as int) == bytes@);
    v
}

impl SchedulerState {
    fn sort_key_of(&self, col: SortColumn, id: u32) -> (k: SortKey)
        requires
            self.hosts@.contains_key(id),
        ensures
            k.key() == sort_key(*self, col, id),
    {
        let h = self.hosts.get(&id).unwrap();
        match col {
            SortColumn::Id => SortKey { num: h.id as u64, text: Vec::new() },
            SortColumn::Name => SortKey { num: 0, text: bytes_to_vec(h.name.as_str().as_bytes()) },
            SortColumn::In => SortKey { num: h.total_in as u64, text: Vec::new() },
            SortColumn::Current => SortKey {
                num: count_jobs(&self.jobs, JobFilter::ActiveOn(id)) as u64,
                text: Vec::new(),
            },
            SortColumn::MaxJobs => SortKey { num: h.max_jobs as u64, text: Vec::new() },
            SortColumn::Out => SortKey { num: h.total_out as u64, text: Vec::new() },
            SortColumn::Local => SortKey { num: h.total_local as u64, text: Vec::new() },
            SortColumn::Speed => SortKey { num: h.speed as u64, text: Vec::new() },
        }
    }

    /// Sorted host IDs for display: every known host once, in ascending order
    /// of the column (descending when `reverse`). Hosts with equal keys come
    /// in no particular order.
    pub fn sorted_host_ids(&self, sort_col: SortColumn, reverse: bool) -> (ids: Vec<u32>)
        ensures
            is_host_listing(*self, sort_col, reverse, ids@),
    {
        let keys_of = map_keys(&self.hosts);
        let n = keys_of.len();
        let mut keys: Vec<SortKey> = Vec::new();
        let mut k: usize = 0;
        while k < n
            invariant
                n == keys_of@.len(),
                k <= n,
                keys@.len() == k,
                keys_of@.to_set() == self.hosts@.dom(),
                forall|j: int| 0 <= j < k ==> #[trigger] keys@[j].key() == sort_key(*self, sort_col, keys_of@[j]),
            decreases n - k,
        {
            assert(keys_of@.to_set().contains(keys_of@[k as int]));
            keys.push(self.sort_key_of(sort_col, keys_of[k]));
            k = k + 1;
        }
        // Insertion sort of the positions 0..n by key.
        let mut order: Vec<usize> = Vec::new();
        let mut i: usize = 0;
        while i < n
            invariant
                n == keys_of@.len(),
                n == keys@.len(),
                i <= n,
                order@.len() == i,
                order@.no_duplicates(),
                forall|p: int| 0 <= p < i ==> #[trigger] order@[p] < i,
                forall|q: usize| q < i ==> #[trigger] order@.contains(q),
                forall|p: int, q: int|
                    0 <= p < q < order@.len() ==> key_ordered(
                        keys@[#[trigger] order@[p] as int].key(),
                        keys@[#[trigger] order@[q] as int].key(),
                        reverse,
                    ),
            decreases n - i,
        {
            let mut p: usize = 0;
            while p < order.len() && key_ordered_exec(&keys[order[p]], &keys[i], reverse)
                invariant
                    n == keys@.len(),
                    i < n,
                    p <= order@.len(),
                    forall|q: int| 0 <= q < order@.len() ==> #[trigger] order@[q] < i,
                    forall|q: int| 0 <= q < p ==> key_ordered(keys@[#[trigger] order@[q] as int].key(), keys@[i as int].key(), reverse),
                decreases order@.len() - p,
            {
                p = p + 1;
            }
            let ghost before = order@;
            proof {
                if p < before.len() {
                    lemma_key_ordered_total(keys@[before[p as int] as int].key(), keys@[i as int].key(), reverse);
                    assert forall|q: int| p <= q < before.len() implies key_ordered(
                        keys@[i as int].key(),
                        keys@[#[trigger] before[q] as int].key(),
                        reverse,
                    ) by {
                        if q > p {
                            lemma_key_ordered_trans(
                                keys@[i as int].key(),
                                keys@[before[p as int] as int].key(),
                                keys@[before[q] as int].key(),
                                reverse,
                            );
                        }
                    }
                }
            }
            order.insert(p, i);
            proof {
                assert(order@ == before.insert(p as int, i));
                assert forall|q: usize| q < i + 1 implies #[trigger] order@.contains(q) by {
                    if q == i {
                        assert(order@[p as int] == i);
                    } else {
                        assert(before.contains(q));
                        let t = choose|t: int| 0 <= t < before.len() && before[t] == q;
                        if t < p {
                            assert(order@[t] == q);
                        } else {
                            assert(order@[t + 1] == q);
                        }
                    }
                }
                assert forall|a: int, b: int| 0 <= a < b < order@.len() implies order@[a] != order@[b] by {
                    if a < p && b > p {
                        assert(order@[b] == before[b - 1]);
                    }
                }
                assert forall|a: int, b: int|
                    0 <= a < b < order@.len() implies key_ordered(
                        keys@[#[trigger] order@[a] as int].key(),
                        keys@[#[trigger] order@[b] as int].key(),
                        reverse,
                    ) by {
                    if b < p {
                    } else if b == p {
                    } else if a < p {
                        assert(order@[b] == before[b - 1]);
                        if p < before.len() {
                            lemma_key_ordered_trans(
                                keys@[before[a] as int].key(),
                                keys@[i as int].key(),
                                keys@[before[b - 1] as int].key(),
                                reverse,
                            );
                        }
                    } else if a == p {
                        assert(order@[b] == before[b - 1]);
                    } else {
                        assert(order@[a] == before[a - 1]);
                        assert(order@[b] == before[b - 1]);
                    }
                }
            }
            i = i + 1;
        }
        let mut ids: Vec<u32> = Vec::new();
        let mut j: usize = 0;
        while j < n
            invariant
                n == keys_of@.len(),
                n == keys@.len(),
                order@.len() == n,
                j <= n,
                ids@.len() == j,
                forall|p: int| 0 <= p < n ==> #[trigger] order@[p] < n,
                forall|q: usize| q < n ==> #[trigger] order@.contains(q),
                forall|p: int| 0 <= p < j ==> #[trigger] ids@[p] == keys_of@[order@[p] as int],
            decreases n - j,
        {
            ids.push(keys_of[order[j]]);
            j = j + 1;
        }
        proof {
            // `order` lists each position once, so `ids` lists each key once.
            assert forall|a: int, b: int| 0 <= a < b < ids@.len() implies ids@[a] != ids@[b] by {
                assert(order@[a] != order@[b]);
            }
            assert forall|x: u32| ids@.contains(x) <==> keys_of@.contains(x) by {
                if keys_of@.contains(x) {
                    let p = choose|p: int| 0 <= p < n && keys_of@[p] == x;
                    assert(order@.contains(p as usize));
                    let q = choose|q: int| 0 <= q < n && order@[q] == p as usize;
                    assert(ids@[q] == x);
                }
            }
            assert(ids@.to_set() =~= keys_of@.to_set());
        }
        ids
    }
}

/// Adding or replacing job `id` adds it to the selection when the new job
/// is selected, and takes it out otherwise.
pub proof fn lemma_selected_insert(jobs: Map<u32, Job>, id: u32, job: Job, filter: JobFilter)
    ensures
        selected_jobs(jobs.insert(id, job), filter) == if filter.selects(job) {
            selected_jobs(jobs, filter).insert(id)
        } else {
            selected_jobs(jobs, filter).remove(id)
        },
{
    assert(selected_jobs(jobs.insert(id, job), filter) =~= if filter.selects(job) {
        selected_jobs(jobs, filter).insert(id)
    } else {
        selected_jobs(jobs, filter).remove(id)
    });
}

/// Removing job `id` takes it out of every selection.
pub proof fn lemma_selected_remove(jobs: Map<u32, Job>, id: u32, filter: JobFilter)
    ensures
        selected_jobs(jobs.remove(id), filter) == selected_jobs(jobs, filter).remove(id),
{
    assert(selected_jobs(jobs.remove(id), filter) =~= selected_jobs(jobs, filter).remove(id));
}

proof fn lemma_selected_finite(jobs: Map<u32, Job>, filter: JobFilter)
    requires
        jobs.dom().finite(),
    ensures
        selected_jobs(jobs, filter).finite(),
{
    assert(selected_jobs(jobs, filter).subset_of(jobs.dom()));
    vstd::set_lib::lemma_len_subset(selected_jobs(jobs, filter), jobs.dom());
}

/// A job that a filter selects counts once.
proof fn lemma_count_insert(jobs: Map<u32, Job>, id: u32, job: Job, filter: JobFilter)
    requires
        jobs.dom().finite(),
    ensures
        selected_jobs(jobs.insert(id, job), filter).len() == selected_jobs(jobs, filter).len()
            + (if filter.selects(job) { 1int } else { 0int }) - (if jobs.contains_key(id)
            && filter.selects(jobs[id]) { 1int } else { 0int }),
{
    lemma_selected_insert(jobs, id, job, filter);
    lemma_selected_finite(jobs, filter);
}

/// A job that is not yet known and is reported pending makes one more
/// pending job and leaves the running ones as they were.
pub proof fn lemma_job_pending_counts<F: Fn(&String) -> u32>(
    old: SchedulerState,
    new: SchedulerState,
    job_id: u32,
    client_id: u32,
    filename: String,
    now: u64,
    speed_of: F,
)
    requires
        SchedulerState::event_applied(
            old,
            new,
            MonitorEvent::JobPending { job_id, client_id, filename },
            now,
            speed_of,
        ),
        !old.jobs@.contains_key(job_id),
    ensures
        selected_jobs(new.jobs@, JobFilter::Pending).len() == selected_jobs(old.jobs@, JobFilter::Pending).len() + 1,
        selected_jobs(new.jobs@, JobFilter::Active).len() == selected_jobs(old.jobs@, JobFilter::Active).len(),
{
    let job = Job { client_id, host_id: 0, filename, state: JobState::Pending, start_time: now };
    lemma_count_insert(old.jobs@, job_id, job, JobFilter::Pending);
    lemma_count_insert(old.jobs@, job_id, job, JobFilter::Active);
}

/// A pending job that begins on a compile host stops being pending and
/// starts running there: one pending job less, one running job more, one
/// more on that host.
pub proof fn lemma_job_begin_counts<F: Fn(&String) -> u32>(
    old: SchedulerState,
    new: SchedulerState,
    job_id: u32,
    host_id: u32,
    now: u64,
    speed_of: F,
)
    requires
        SchedulerState::event_applied(old, new, MonitorEvent::JobBegin { job_id, host_id }, now, speed_of),
        old.jobs@.contains_key(job_id),
        old.jobs@[job_id].state == JobState::Pending,
    ensures
        selected_jobs(new.jobs@, JobFilter::Pending).len() + 1 == selected_jobs(old.jobs@, JobFilter::Pending).len(),
        selected_jobs(new.jobs@, JobFilter::Active).len() == selected_jobs(old.jobs@, JobFilter::Active).len() + 1,
        selected_jobs(new.jobs@, JobFilter::ActiveOn(host_id)).len() == selected_jobs(old.jobs@, JobFilter::ActiveOn(host_id)).len() + 1,
        new.total_remote == inc64(old.total_remote),
{
    let job = old.jobs@[job_id];
    let started = Job { host_id, state: JobState::RemoteActive, start_time: now, ..job };
    lemma_count_insert(old.jobs@, job_id, started, JobFilter::Pending);
    lemma_count_insert(old.jobs@, job_id, started, JobFilter::Active);
    lemma_count_insert(old.jobs@, job_id, started, JobFilter::ActiveOn(host_id));
}

/// A local job that is not yet known makes one more running and one more
/// local job, and counts once more in the local total.
pub proof fn lemma_local_job_counts<F: Fn(&String) -> u32>(
    old: SchedulerState,
    new: SchedulerState,
    job_id: u32,
    host_id: u32,
    filename: String,
    now: u64,
    speed_of: F,
)
    requires
        SchedulerState::event_applied(
            old,
            new,
            MonitorEvent::LocalJobBegin { job_id, host_id, filename },
            now,
            speed_of,
        ),
        !old.jobs@.contains_key(job_id),
    ensures
        selected_jobs(new.jobs@, JobFilter::Local).len() == selected_jobs(old.jobs@, JobFilter::Local).len() + 1,
        selected_jobs(new.jobs@, JobFilter::Active).len() == selected_jobs(old.jobs@, JobFilter::Active).len() + 1,
        selected_jobs(new.jobs@, JobFilter::ActiveOn(host_id)).len() == selected_jobs(old.jobs@, JobFilter::ActiveOn(host_id)).len() + 1,
        new.total_local == inc64(old.total_local),
{
    let job = Job { client_id: host_id, host_id, filename, state: JobState::LocalActive, start_time: now };
    lemma_count_insert(old.jobs@, job_id, job, JobFilter::Local);
    lemma_count_insert(old.jobs@, job_id, job, JobFilter::Active);
    lemma_count_insert(old.jobs@, job_id, job, JobFilter::ActiveOn(host_id));
}

/// A finished job leaves every selection; in particular a running job makes
/// one running job less.
pub proof fn lemma_job_done_counts<F: Fn(&String) -> u32>(
    old: SchedulerState,
    new: SchedulerState,
    job_id: u32,
    filter: JobFilter,
    now: u64,
    speed_of: F,
)
    requires
        SchedulerState::event_applied(old, new, MonitorEvent::JobDone { job_id }, now, speed_of),
    ensures
        !new.jobs@.contains_key(job_id),
        selected_jobs(new.jobs@, filter).len() == selected_jobs(old.jobs@, filter).len() - (
        if old.jobs@.contains_key(job_id) && filter.selects(old.jobs@[job_id]) {
            1int
        } else {
            0int
        }),
{
    lemma_selected_remove(old.jobs@, job_id, filter);
    lemma_selected_finite(old.jobs@, filter);
}

/// Every host record is filed under its own ID.
pub open spec fn hosts_keyed_by_id(state: SchedulerState) -> bool {
    forall|k: u32| #[trigger] state.hosts@.contains_key(k) ==> state.hosts@[k].id == k
}

/// Every event keeps each host filed under its own ID.
pub proof fn lemma_event_keeps_hosts_keyed<F: Fn(&String) -> u32>(
    old: SchedulerState,
    new: SchedulerState,
    event: MonitorEvent,
    now: u64,
    speed_of: F,
)
    requires
        SchedulerState::event_applied(old, new, event, now, speed_of),
        hosts_keyed_by_id(old),
    ensures
        hosts_keyed_by_id(new),
{
    match event {
        MonitorEvent::HostStats { host_id, attrs } => {
            if has_attr(attrs@, "Name"@) && !old.hosts@.contains_key(host_id) {
                let h = choose|h: Host| fresh_host(host_id, old.next_color, h) && attrs_applied(h, new.hosts@[host_id], attrs@, speed_of);
            }
        },
        _ => {},
    }
}


/// A disconnect forgets every host and every job: afterwards no job counts
/// under any filter, no host is listed, and the monitor is marked
/// disconnected. The session names and the running totals stay.
pub proof fn lemma_disconnect_forgets_all<F: Fn(&String) -> u32>(
    old: SchedulerState,
    new: SchedulerState,
    now: u64,
    speed_of: F,
)
    requires
        SchedulerState::event_applied(old, new, MonitorEvent::Disconnected, now, speed_of),
    ensures
        !new.connected,
        forall|id: u32| !new.jobs@.contains_key(id),
        forall|id: u32| !new.hosts@.contains_key(id),
        new.jobs@.dom().len() == 0,
        new.hosts@.dom().len() == 0,
        forall|f: JobFilter| #[trigger] selected_jobs(new.jobs@, f).len() == 0,
        new.total_remote == old.total_remote,
        new.total_local == old.total_local,
{
    assert(new.jobs@.dom() =~= Set::<u32>::empty());
    assert(new.hosts@.dom() =~= Set::<u32>::empty());
    assert forall|f: JobFilter| #[trigger] selected_jobs(new.jobs@, f).len() == 0 by {
        assert(selected_jobs(new.jobs@, f) =~= Set::<u32>::empty());
    }
}

/// What each filter selects, by the jobs' states: pending jobs, running
/// (remote or local) jobs, local jobs only, jobs running on a host, and
/// pending jobs of a client. Every job is either pending or running, and
/// the local jobs are among the running ones.
pub proof fn lemma_filters_by_state(jobs: Map<u32, Job>)
    requires
        jobs.dom().finite(),
    ensures
        forall|id: u32| #[trigger] selected_jobs(jobs, JobFilter::Pending).contains(id) <==> (
        jobs.contains_key(id) && jobs[id].state == JobState::Pending),
        forall|id: u32| #[trigger] selected_jobs(jobs, JobFilter::Active).contains(id) <==> (
        jobs.contains_key(id) && (jobs[id].state == JobState::RemoteActive || jobs[id].state
            == JobState::LocalActive)),
        forall|id: u32| #[trigger] selected_jobs(jobs, JobFilter::Local).contains(id) <==> (
        jobs.contains_key(id) && jobs[id].state == JobState::LocalActive),
        forall|id: u32, h: u32| #[trigger] selected_jobs(jobs, JobFilter::ActiveOn(h)).contains(id) <==> (
        jobs.contains_key(id) && jobs[id].host_id == h && jobs[id].state != JobState::Pending),
        forall|id: u32, c: u32| #[trigger] selected_jobs(jobs, JobFilter::PendingFrom(c)).contains(id)
            <==> (jobs.contains_key(id) && jobs[id].client_id == c && jobs[id].state
            == JobState::Pending),
        selected_jobs(jobs, JobFilter::Pending).len() + selected_jobs(jobs, JobFilter::Active).len()
            == jobs.dom().len(),
        selected_jobs(jobs, JobFilter::Local).subset_of(selected_jobs(jobs, JobFilter::Active)),
        selected_jobs(jobs, JobFilter::Local).len() <= selected_jobs(jobs, JobFilter::Active).len(),
{
    let p = selected_jobs(jobs, JobFilter::Pending);
    let a = selected_jobs(jobs, JobFilter::Active);
    let l = selected_jobs(jobs, JobFilter::Local);
    lemma_selected_finite(jobs, JobFilter::Pending);
    lemma_selected_finite(jobs, JobFilter::Active);
    assert(p.disjoint(a));
    assert(p.union(a) =~= jobs.dom());
    vstd::set_lib::lemma_set_disjoint_lens(p, a);
    assert(l.subset_of(a));
    vstd::set_lib::lemma_len_subset(l, a);
}

/// A pending job that begins on a compile host is not a local job: the
/// local jobs stay as they were.
pub proof fn lemma_job_begin_keeps_local<F: Fn(&String) -> u32>(
    old: SchedulerState,
    new: SchedulerState,
    job_id: u32,
    host_id: u32,
    now: u64,
    speed_of: F,
)
    requires
        SchedulerState::event_applied(old, new, MonitorEvent::JobBegin { job_id, host_id }, now, speed_of),
        old.jobs@.contains_key(job_id),
        old.jobs@[job_id].state == JobState::Pending,
    ensures
        selected_jobs(new.jobs@, JobFilter::Local) == selected_jobs(old.jobs@, JobFilter::Local),
        new.jobs@[job_id].state == JobState::RemoteActive,
        new.jobs@[job_id].host_id == host_id,
        new.jobs@[job_id].client_id == old.jobs@[job_id].client_id,
        new.jobs@[job_id].filename == old.jobs@[job_id].filename,
{
    assert(selected_jobs(new.jobs@, JobFilter::Local) =~= selected_jobs(old.jobs@, JobFilter::Local));
}

/// In a listing of the hosts, each column orders the hosts by its own
/// field: ID, name (by UTF-8 bytes), jobs taken in, jobs running there, job
/// limit, jobs sent out, local jobs, speed; ascending, or descending when
/// `reverse`.
pub proof fn lemma_listing_follows_column(
    state: SchedulerState,
    col: SortColumn,
    reverse: bool,
    ids: Seq<u32>,
    i: int,
    j: int,
)
    requires
        is_host_listing(state, col, reverse, ids),
        0 <= i < j < ids.len(),
    ensures
        ({
            let (x, y) = if reverse { (ids[j], ids[i]) } else { (ids[i], ids[j]) };
            let a = state.hosts@[x];
            let b = state.hosts@[y];
            match col {
                SortColumn::Id => a.id <= b.id,
                SortColumn::Name => bytes_le(encode_utf8(a.name@), encode_utf8(b.name@)),
                SortColumn::In => a.total_in <= b.total_in,
                SortColumn::Current => selected_jobs(state.jobs@, JobFilter::ActiveOn(x)).len()
                    <= selected_jobs(state.jobs@, JobFilter::ActiveOn(y)).len(),
                SortColumn::MaxJobs => a.max_jobs <= b.max_jobs,
                SortColumn::Out => a.total_out <= b.total_out,
                SortColumn::Local => a.total_local <= b.total_local,
                SortColumn::Speed => a.speed <= b.speed,
            }
        }),
{
    assert(key_ordered(sort_key(state, col, ids[i]), sort_key(state, col, ids[j]), reverse));
}

/// The byte order of names: the empty name comes first, a name comes no
/// later than itself, and the first differing byte decides.
pub proof fn lemma_bytes_le_basics(a: Seq<u8>, b: Seq<u8>)
    ensures
        bytes_le(Seq::empty(), b),
        bytes_le(a, a),
        a.len() > 0 && b.len() > 0 && a[0] < b[0] ==> bytes_le(a, b) && !bytes_le(b, a),
        a.len() > 0 ==> !bytes_le(a, Seq::empty()),
    decreases a.len(),
{
    if a.len() > 0 {
        lemma_bytes_le_basics(a.drop_first(), b);
    }
}


/// The value `attr_value` finds is that of the last attribute named `key`;
/// it finds none exactly when no attribute has that name.
pub proof fn lemma_attr_value_last(attrs: Seq<(String, String)>, key: Seq<char>)
    ensures
        attr_value(attrs, key) is None <==> (forall|i: int| 0 <= i < attrs.len() ==> #[trigger] attrs[i].0@ != key),
        attr_value(attrs, key) matches Some(v) ==> exists|i: int|
            0 <= i < attrs.len() && #[trigger] attrs[i].0@ == key && attrs[i].1 == v && (forall|j: int|
                i < j < attrs.len() ==> #[trigger] attrs[j].0@ != key),
    decreases attrs.len(),
{
    if attrs.len() > 0 {
        let f = attrs.drop_last();
        let n = attrs.len() - 1;
        lemma_attr_value_last(f, key);
        assert forall|i: int| 0 <= i < f.len() implies #[trigger] f[i] == attrs[i] by {}
        if attrs[n].0@ == key {
            assert(attrs[n].0@ == key && attrs[n].1 == attrs.last().1);
        } else {
            if attr_value(f, key) is None {
                assert forall|i: int| 0 <= i < attrs.len() implies #[trigger] attrs[i].0@ != key by {
                    if i < n {
                        assert(f[i] == attrs[i]);
                    }
                }
            } else {
                let v = attr_value(f, key)->Some_0;
                let i = choose|i: int|
                    0 <= i < f.len() && #[trigger] f[i].0@ == key && f[i].1 == v && (forall|j: int|
                        i < j < f.len() ==> #[trigger] f[j].0@ != key);
                assert(attrs[i] == f[i]);
                assert forall|j: int| i < j < attrs.len() implies #[trigger] attrs[j].0@ != key by {
                    if j < n {
                        assert(f[j] == attrs[j]);
                    }
                }
                assert(attrs[i].0@ == key);
            }
        }
    }
}

/// What each event does, read off the resulting state.
///
/// - `Connected` marks the monitor connected and records the names.
/// - A stats report without a `Name` drops the host; one with a `Name`
///   keeps or adds the host, named by the last `Name` given, with the
///   report's attributes; a known host keeps its counts and color, a new
///   one starts at zero counts with the next color.
/// - `JobPending` files the job as pending, from its client, on no host
///   yet, started now.
/// - `JobBegin` of a known job moves it to the given host as a remote job,
///   started now, and counts it in at that host, out at its client, and in
///   the remote total; of an unknown job it changes nothing.
/// - `LocalJobBegin` files the job as running locally on its own host and
///   counts it in that host's and the overall local totals.
/// - `JobDone` forgets the job.
///
/// Jobs and hosts the event does not name stay as they were.
pub proof fn lemma_event_effects<F: Fn(&String) -> u32>(
    old: SchedulerState,
    new: SchedulerState,
    event: MonitorEvent,
    now: u64,
    speed_of: F,
)
    requires
        SchedulerState::event_applied(old, new, event, now, speed_of),
    ensures
        match event {
            MonitorEvent::Connected { scheduler_name, netname } => {
                &&& new.connected
                &&& new.scheduler_name == scheduler_name
                &&& new.netname == netname
                &&& new.jobs@ == old.jobs@
                &&& new.hosts@ == old.hosts@
            },
            MonitorEvent::Disconnected => !new.connected && new.jobs@.dom().len() == 0
                && new.hosts@.dom().len() == 0,
            MonitorEvent::HostStats { host_id, attrs } => {
                &&& new.jobs@ == old.jobs@
                &&& new.connected == old.connected
                &&& forall|k: u32|
                    k != host_id ==> (#[trigger] new.hosts@.contains_key(k) == old.hosts@.contains_key(k)
                        && (old.hosts@.contains_key(k) ==> new.hosts@[k] == old.hosts@[k]))
                &&& (forall|i: int| 0 <= i < attrs@.len() ==> #[trigger] attrs@[i].0@ != "Name"@)
                    ==> !new.hosts@.contains_key(host_id)
                &&& (exists|i: int| 0 <= i < attrs@.len() && #[trigger] attrs@[i].0@ == "Name"@) ==> {
                    let h = new.hosts@[host_id];
                    &&& new.hosts@.contains_key(host_id)
                    &&& h.attrs@ == attrs@
                    &&& exists|i: int|
                        0 <= i < attrs@.len() && #[trigger] attrs@[i].0@ == "Name"@ && h.name
                            == attrs@[i].1 && (forall|j: int|
                            i < j < attrs@.len() ==> #[trigger] attrs@[j].0@ != "Name"@)
                    &&& old.hosts@.contains_key(host_id) ==> {
                        &&& h.total_in == old.hosts@[host_id].total_in
                        &&& h.total_out == old.hosts@[host_id].total_out
                        &&& h.total_local == old.hosts@[host_id].total_local
                        &&& h.color_idx == old.hosts@[host_id].color_idx
                        &&& h.id == old.hosts@[host_id].id
                        &&& new.next_color == old.next_color
                    }
                    &&& !old.hosts@.contains_key(host_id) ==> {
                        &&& h.total_in == 0 && h.total_out == 0 && h.total_local == 0
                        &&& h.color_idx == old.next_color
                        &&& h.id == host_id
                        &&& old.next_color < 255 ==> new.next_color == old.next_color + 1
                    }
                }
            },
            MonitorEvent::JobPending { job_id, client_id, filename } => {
                let j = new.jobs@[job_id];
                &&& new.jobs@.contains_key(job_id)
                &&& j.state == JobState::Pending
                &&& j.client_id == client_id
                &&& j.host_id == 0
                &&& j.filename == filename
                &&& j.start_time == now
                &&& forall|k: u32|
                    k != job_id ==> (#[trigger] new.jobs@.contains_key(k) == old.jobs@.contains_key(k)
                        && (old.jobs@.contains_key(k) ==> new.jobs@[k] == old.jobs@[k]))
                &&& new.hosts@ == old.hosts@
            },
            MonitorEvent::JobBegin { job_id, host_id } => if old.jobs@.contains_key(job_id) {
                let j = new.jobs@[job_id];
                let o = old.jobs@[job_id];
                let client = o.client_id;
                &&& new.jobs@.contains_key(job_id)
                &&& j.state == JobState::RemoteActive
                &&& j.host_id == host_id
                &&& j.client_id == o.client_id
                &&& j.filename == o.filename
                &&& j.start_time == now
                &&& forall|k: u32|
                    k != job_id ==> (#[trigger] new.jobs@.contains_key(k) == old.jobs@.contains_key(k)
                        && (old.jobs@.contains_key(k) ==> new.jobs@[k] == old.jobs@[k]))
                &&& old.total_remote < u64::MAX ==> new.total_remote == old.total_remote + 1
                &&& forall|k: u32| #[trigger] new.hosts@.contains_key(k) == old.hosts@.contains_key(k)
                &&& old.hosts@.contains_key(host_id) && old.hosts@[host_id].total_in < u32::MAX
                    ==> new.hosts@[host_id].total_in == old.hosts@[host_id].total_in + 1
                &&& old.hosts@.contains_key(client) && old.hosts@[client].total_out < u32::MAX
                    ==> new.hosts@[client].total_out == old.hosts@[client].total_out + 1
                &&& forall|k: u32|
                    k != host_id && k != client && #[trigger] old.hosts@.contains_key(k) ==> new.hosts@[k]
                        == old.hosts@[k]
            } else {
                new.jobs@ == old.jobs@ && new.hosts@ == old.hosts@ && new.total_remote
                    == old.total_remote
            },
            MonitorEvent::LocalJobBegin { job_id, host_id, filename } => {
                let j = new.jobs@[job_id];
                &&& new.jobs@.contains_key(job_id)
                &&& j.state == JobState::LocalActive
                &&& j.host_id == host_id
                &&& j.client_id == host_id
                &&& j.filename == filename
                &&& j.start_time == now
                &&& forall|k: u32|
                    k != job_id ==> (#[trigger] new.jobs@.contains_key(k) == old.jobs@.contains_key(k)
                        && (old.jobs@.contains_key(k) ==> new.jobs@[k] == old.jobs@[k]))
                &&& old.total_local < u64::MAX ==> new.total_local == old.total_local + 1
                &&& new.total_remote == old.total_remote
                &&& forall|k: u32| #[trigger] new.hosts@.contains_key(k) == old.hosts@.contains_key(k)
                &&& old.hosts@.contains_key(host_id) && old.hosts@[host_id].total_local < u32::MAX
                    ==> new.hosts@[host_id].total_local == old.hosts@[host_id].total_local + 1
                &&& forall|k: u32|
                    k != host_id && #[trigger] old.hosts@.contains_key(k) ==> new.hosts@[k] == old.hosts@[k]
            },
            MonitorEvent::JobDone { job_id } => {
                &&& !new.jobs@.contains_key(job_id)
                &&& forall|k: u32|
                    k != job_id ==> (#[trigger] new.jobs@.contains_key(k) == old.jobs@.contains_key(k)
                        && (old.jobs@.contains_key(k) ==> new.jobs@[k] == old.jobs@[k]))
                &&& new.hosts@ == old.hosts@
            },
        },
{
    match event {
        MonitorEvent::Disconnected => {
            lemma_disconnect_forgets_all(old, new, now, speed_of);
        },
        MonitorEvent::HostStats { host_id, attrs } => {
            lemma_attr_value_last(attrs@, "Name"@);
            if has_attr(attrs@, "Name"@) {
                if !old.hosts@.contains_key(host_id) {
                    let b = choose|b: Host|
                        fresh_host(host_id, old.next_color, b) && attrs_applied(
                            b,
                            new.hosts@[host_id],
                            attrs@,
                            speed_of,
                        );
                }
            }
        },
        _ => {},
    }
}

} // verus!
