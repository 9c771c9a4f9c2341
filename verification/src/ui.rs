//! The terminal interface's state and its decisions: key handling, which
//! hosts the table shows, where the selection stands, and the text the
//! table and the log display. Drawing stays with the caller.
use crate::model::{
    count_jobs, is_host_listing, key_ordered, selected_jobs, sort_key, JobFilter, MonitorEvent,
    SchedulerState, SortColumn,
};
use crate::model::{map_keys, Host};
use crate::text::{
    append_str, contains_text, decimal, decimal_string, hex4, lowercase_of, pop_char, push_char,
    push_hex4, text_contains, text_eq, to_lowercase,
};
use std::hash::{Hash, Hasher};
use std::collections::hash_map::DefaultHasher;
use std::collections::{HashSet, VecDeque};
use vstd::prelude::*;
use vstd::std_specs::hash::DefaultHasherAdditionalSpecFns;

verus! {

broadcast use vstd::std_specs::hash::group_hash_axioms;

/// App view mode.
#[derive(Debug, Clone, Copy, PartialEq, Eq, Structural)]
pub enum ViewMode {
    Table,
    Search,
    Log,
}

/// A key, as far as the interface tells keys apart.
#[derive(Debug, Clone, Copy, PartialEq, Eq, Structural)]
pub enum KeyCode {
    Char(char),
    Up,
    Down,
    Left,
    Right,
    Tab,
    BackTab,
    Home,
    End,
    Esc,
    Enter,
    Backspace,
    Other,
}

/// A key press: the key and whether Shift was held.
#[derive(Debug, Clone, Copy, PartialEq, Eq, Structural)]
pub struct KeyEvent {
    pub code: KeyCode,
    pub shift: bool,
}

/// How many log lines the interface keeps.
pub const MAX_LOG_LINES: usize = 1000;

/// Application state for the interface.
pub struct App {
    pub state: SchedulerState,
    pub sort_col: SortColumn,
    pub sort_reverse: bool,
    pub selected: usize,
    pub expanded: HashSet<u32>,
    pub expand_all: bool,
    pub anonymize: bool,
    pub view_mode: ViewMode,
    pub search_query: String,
    pub log_messages: VecDeque<String>,
}

/// `s` with `id` added when absent, removed when present.
pub open spec fn toggled(s: Set<u32>, id: u32) -> Set<u32> {
    if s.contains(id) {
        s.remove(id)
    } else {
        s.insert(id)
    }
}

/// Whether `key` is the character `c`.
pub open spec fn is_char(key: KeyEvent, c: char) -> bool {
    key.code == KeyCode::Char(c)
}

/// The number of known hosts.
pub open spec fn known_hosts(app: App) -> nat {
    app.state.hosts@.dom().len()
}

/// The smaller of two numbers.
pub open spec fn min_int(a: int, b: int) -> int {
    if a < b {
        a
    } else {
        b
    }
}

/// What a key does in the host table.
pub open spec fn table_key_handled(old: App, new: App, key: KeyEvent) -> bool {
    let n = known_hosts(old);
    if (is_char(key, 'j') || key.code == KeyCode::Down) && n > 0 {
        new == App { selected: min_int(old.selected + 1, n - 1) as usize, ..old }
    } else if (is_char(key, 'k') || key.code == KeyCode::Up) && old.selected > 0 {
        new == App { selected: (old.selected - 1) as usize, ..old }
    } else if is_char(key, 'l') || key.code == KeyCode::Right || key.code == KeyCode::Tab {
        new == App { sort_col: SortColumn::at(old.sort_col.ordinal() + 1), ..old }
    } else if is_char(key, 'h') || key.code == KeyCode::Left || key.code == KeyCode::BackTab {
        new == App { sort_col: SortColumn::at(old.sort_col.ordinal() + 7), ..old }
    } else if is_char(key, 'r') {
        new == App { sort_reverse: !old.sort_reverse, ..old }
    } else if is_char(key, ' ') {
        &&& new == App { expanded: new.expanded, ..old }
        &&& exists|ids: Seq<u32>|
            #[trigger] is_host_listing(old.state, old.sort_col, old.sort_reverse, ids) && new.expanded@
                == if old.selected < ids.len() {
                toggled(old.expanded@, ids[old.selected as int])
            } else {
                old.expanded@
            }
    } else if is_char(key, 'a') {
        &&& new == App { expanded: new.expanded, expand_all: !old.expand_all, ..old }
        &&& new.expanded@ == if old.expand_all {
            Set::<u32>::empty()
        } else {
            old.expanded@
        }
    } else if is_char(key, '/') {
        &&& new == App { view_mode: ViewMode::Search, search_query: new.search_query, ..old }
        &&& new.search_query@ == Seq::<char>::empty()
    } else if is_char(key, 'L') && key.shift {
        new == App { view_mode: ViewMode::Log, ..old }
    } else if key.code == KeyCode::Home || is_char(key, 'g') {
        new == App { selected: 0, ..old }
    } else if (key.code == KeyCode::End || is_char(key, 'G')) && n > 0 {
        new == App { selected: (n - 1) as usize, ..old }
    } else {
        new == old
    }
}

/// What a key does while a search is typed.
pub open spec fn search_key_handled(old: App, new: App, key: KeyEvent) -> bool {
    match key.code {
        KeyCode::Esc => {
            &&& new == App { view_mode: ViewMode::Table, search_query: new.search_query, ..old }
            &&& new.search_query@ == Seq::<char>::empty()
        },
        KeyCode::Enter => new == App { view_mode: ViewMode::Table, ..old },
        KeyCode::Backspace => {
            &&& new == App { search_query: new.search_query, ..old }
            &&& new.search_query@ == if old.search_query@.len() > 0 {
                old.search_query@.drop_last()
            } else {
                old.search_query@
            }
        },
        KeyCode::Char(c) => {
            &&& new == App { search_query: new.search_query, ..old }
            &&& new.search_query@ == old.search_query@.push(c)
        },
        _ => new == old,
    }
}

/// What a key does in the log view.
pub open spec fn log_key_handled(old: App, new: App, key: KeyEvent) -> bool {
    if key.code == KeyCode::Esc || is_char(key, 'L') {
        new == App { view_mode: ViewMode::Table, ..old }
    } else {
        new == old
    }
}

/// What a key does in the current view mode.
pub open spec fn key_handled(old: App, new: App, key: KeyEvent) -> bool {
    match old.view_mode {
        ViewMode::Search => search_key_handled(old, new, key),
        ViewMode::Log => log_key_handled(old, new, key),
        ViewMode::Table => table_key_handled(old, new, key),
    }
}

/// The log after `line` is added: the oldest line goes once there are more
/// than [`MAX_LOG_LINES`].
pub open spec fn log_after(log: Seq<String>, line: String) -> Seq<String> {
    let l = log.push(line);
    if l.len() > MAX_LOG_LINES {
        l.drop_first()
    } else {
        l
    }
}

impl App {
    pub fn new(anonymize: bool) -> (app: Self)
        ensures
            app.state.hosts@ == Map::<u32, crate::model::Host>::empty(),
            app.state.jobs@ == Map::<u32, crate::model::Job>::empty(),
            !app.state.connected,
            app.sort_col == SortColumn::Name,
            !app.sort_reverse,
            app.selected == 0,
            app.expanded@ == Set::<u32>::empty(),
            !app.expand_all,
            app.anonymize == anonymize,
            app.view_mode == ViewMode::Table,
            app.search_query@ == Seq::<char>::empty(),
            app.log_messages@ == Seq::<String>::empty(),
    {
        Self {
            state: SchedulerState::new(),
            sort_col: SortColumn::Name,
            sort_reverse: false,
            selected: 0,
            expanded: HashSet::new(),
            expand_all: false,
            anonymize,
            view_mode: ViewMode::Table,
            search_query: String::new(),
            log_messages: VecDeque::new(),
        }
    }

    /// Handles a key press in the current view mode.
    pub fn handle_key(&mut self, key: KeyEvent)
        ensures
            key_handled(*old(self), *final(self), key),
    {
        match self.view_mode {
            ViewMode::Search => self.handle_search_key(key),
            ViewMode::Log => self.handle_log_key(key),
            ViewMode::Table => self.handle_table_key(key),
        }
    }

    fn handle_table_key(&mut self, key: KeyEvent)
        ensures
            table_key_handled(*old(self), *final(self), key),
    {
        let host_count = self.state.hosts.len();
        assert(host_count == known_hosts(*old(self)));
        let code = key.code;
        if (code == KeyCode::Char('j') || code == KeyCode::Down) && host_count > 0 {
            self.select_down(host_count);
        } else if (code == KeyCode::Char('k') || code == KeyCode::Up) && self.selected > 0 {
            self.selected = self.selected - 1;
        } else if code == KeyCode::Char('l') || code == KeyCode::Right || code == KeyCode::Tab {
            self.sort_col = self.sort_col.next();
        } else if code == KeyCode::Char('h') || code == KeyCode::Left || code == KeyCode::BackTab {
            self.sort_col = self.sort_col.prev();
        } else if code == KeyCode::Char('r') {
            self.sort_reverse = !self.sort_reverse;
        } else if code == KeyCode::Char(' ') {
            let ids = self.state.sorted_host_ids(self.sort_col, self.sort_reverse);
            if self.selected < ids.len() {
                let id = ids[self.selected];
                if !self.expanded.remove(&id) {
                    self.expanded.insert(id);
                }
                assert(self.expanded@ =~= toggled(old(self).expanded@, ids@[old(self).selected as int]));
            }
            assert(is_host_listing(old(self).state, old(self).sort_col, old(self).sort_reverse, ids@));
        } else if code == KeyCode::Char('a') {
            self.expand_all = !self.expand_all;
            if !self.expand_all {
                self.expanded.clear();
            }
        } else if code == KeyCode::Char('/') {
            self.view_mode = ViewMode::Search;
            self.search_query = String::new();
        } else if code == KeyCode::Char('L') && key.shift {
            self.view_mode = ViewMode::Log;
        } else if code == KeyCode::Home || code == KeyCode::Char('g') {
            self.selected = 0;
        } else if (code == KeyCode::End || code == KeyCode::Char('G')) && host_count > 0 {
            self.selected = host_count - 1;
        }
    }

    /// Moves the selection down one row, staying on the last of `host_count`.
    fn select_down(&mut self, host_count: usize)
        requires
            host_count > 0,
        ensures
            *final(self) == (App {
                selected: min_int(old(self).selected + 1, host_count - 1) as usize,
                ..*old(self)
            }),
    {
        self.selected = if self.selected < host_count - 1 {
            self.selected + 1
        } else {
            host_count - 1
        };
    }

    fn handle_search_key(&mut self, key: KeyEvent)
        ensures
            search_key_handled(*old(self), *final(self), key),
    {
        match key.code {
            KeyCode::Esc => {
                self.view_mode = ViewMode::Table;
                self.search_query = String::new();
            },
            KeyCode::Enter => {
                self.view_mode = ViewMode::Table;
            },
            KeyCode::Backspace => {
                pop_char(&mut self.search_query);
            },
            KeyCode::Char(c) => {
                push_char(&mut self.search_query, c);
            },
            _ => {},
        }
    }

    fn handle_log_key(&mut self, key: KeyEvent)
        ensures
            log_key_handled(*old(self), *final(self), key),
    {
        match key.code {
            KeyCode::Esc | KeyCode::Char('L') => {
                self.view_mode = ViewMode::Table;
            },
            _ => {},
        }
    }

    /// Adds a line to the log, dropping the oldest past [`MAX_LOG_LINES`].
    pub fn push_log(&mut self, line: String)
        ensures
            final(self).log_messages@ == log_after(old(self).log_messages@, line),
            *final(self) == (App { log_messages: final(self).log_messages, ..*old(self) }),
    {
        self.log_messages.push_back(line);
        if self.log_messages.len() > MAX_LOG_LINES {
            self.log_messages.pop_front();
        }
    }
}

/// The value of the first attribute named `key`, if any.
pub open spec fn first_attr(attrs: Seq<(String, String)>, key: Seq<char>) -> Option<String>
    decreases attrs.len(),
{
    if attrs.len() == 0 {
        None
    } else if attrs[0].0@ == key {
        Some(attrs[0].1)
    } else {
        first_attr(attrs.drop_first(), key)
    }
}

/// The log line for a monitor event.
pub open spec fn log_line(event: MonitorEvent) -> Seq<char> {
    match event {
        MonitorEvent::Connected { scheduler_name, netname } => "Connected: scheduler="@
            + scheduler_name@ + " netname="@ + netname@,
        MonitorEvent::Disconnected => "Disconnected"@,
        MonitorEvent::HostStats { host_id, attrs } => "HostStats: host="@ + decimal(host_id as nat)
            + " name="@ + match first_attr(attrs@, "Name"@) {
            Some(v) => v@,
            None => "?"@,
        },
        MonitorEvent::JobPending { job_id, client_id, filename } => "JobPending: id="@ + decimal(
            job_id as nat,
        ) + " client="@ + decimal(client_id as nat) + " file="@ + filename@,
        MonitorEvent::JobBegin { job_id, host_id } => "JobBegin: id="@ + decimal(job_id as nat)
            + " host="@ + decimal(host_id as nat),
        MonitorEvent::LocalJobBegin { job_id, host_id, filename } => "LocalJobBegin: id="@
            + decimal(job_id as nat) + " host="@ + decimal(host_id as nat) + " file="@ + filename@,
        MonitorEvent::JobDone { job_id } => "JobDone: id="@ + decimal(job_id as nat),
    }
}

/// The value of the first attribute named `Name`, if any.
fn first_name_attr(attrs: &Vec<(String, String)>) -> (r: Option<&String>)
    ensures
        match first_attr(attrs@, "Name"@) {
            Some(v) => r matches Some(x) && *x == v,
            None => r is None,
        },
{
    let mut i: usize = 0;
    assert(attrs@.skip(0) =~= attrs@);
    while i < attrs.len()
        invariant
            i <= attrs@.len(),
            first_attr(attrs@, "Name"@) == first_attr(attrs@.skip(i as int), "Name"@),
        decreases attrs@.len() - i,
    {
        let ghost rest = attrs@.skip(i as int);
        assert(rest[0] == attrs@[i as int]);
        assert(rest.drop_first() =~= attrs@.skip(i + 1));
        if text_eq(attrs[i].0.as_str(), "Name") {
            return Some(&attrs[i].1);
        }
        i = i + 1;
    }
    None
}

/// Appends the decimal text of `n`.
fn push_decimal(s: &mut String, n: u32)
    ensures
        final(s)@ == old(s)@ + decimal(n as nat),
{
    let d = decimal_string(n as u64);
    append_str(s, d.as_str());
}

/// The log line for a monitor event.
pub fn format_log(event: &MonitorEvent) -> (line: String)
    ensures
        line@ == log_line(*event),
{
    let mut s = String::new();
    match event {
        MonitorEvent::Connected { scheduler_name, netname } => {
            append_str(&mut s, "Connected: scheduler=");
            append_str(&mut s, scheduler_name.as_str());
            append_str(&mut s, " netname=");
            append_str(&mut s, netname.as_str());
        },
        MonitorEvent::Disconnected => {
            append_str(&mut s, "Disconnected");
        },
        MonitorEvent::HostStats { host_id, attrs } => {
            append_str(&mut s, "HostStats: host=");
            push_decimal(&mut s, *host_id);
            append_str(&mut s, " name=");
            match first_name_attr(attrs) {
                Some(v) => append_str(&mut s, v.as_str()),
                None => append_str(&mut s, "?"),
            }
        },
        MonitorEvent::JobPending { job_id, client_id, filename } => {
            append_str(&mut s, "JobPending: id=");
            push_decimal(&mut s, *job_id);
            append_str(&mut s, " client=");
            push_decimal(&mut s, *client_id);
            append_str(&mut s, " file=");
            append_str(&mut s, filename.as_str());
        },
        MonitorEvent::JobBegin { job_id, host_id } => {
            append_str(&mut s, "JobBegin: id=");
            push_decimal(&mut s, *job_id);
            append_str(&mut s, " host=");
            push_decimal(&mut s, *host_id);
        },
        MonitorEvent::LocalJobBegin { job_id, host_id, filename } => {
            append_str(&mut s, "LocalJobBegin: id=");
            push_decimal(&mut s, *job_id);
            append_str(&mut s, " host=");
            push_decimal(&mut s, *host_id);
            append_str(&mut s, " file=");
            append_str(&mut s, filename.as_str());
        },
        MonitorEvent::JobDone { job_id } => {
            append_str(&mut s, "JobDone: id=");
            push_decimal(&mut s, *job_id);
        },
    }
    proof {
        reveal_strlit("");
    }
    assert(s@ =~= log_line(*event));
    s
}

/// What `<str as Hash>::hash` writes into a hasher for the text `s`.
pub uninterp spec fn str_hash_writes(s: Seq<char>) -> Seq<Seq<u8>>;

/// Calls `<str as Hash>::hash` on a `DefaultHasher`: the writes it makes
/// depend on the text alone and are added after the earlier ones.
#[verifier::external_body]
fn hash_str(s: &str, hasher: &mut DefaultHasher)
    ensures
        final(hasher)@ == old(hasher)@ + str_hash_writes(s@),
{
    s.hash(hasher)
}

/// The hash of `s` under a fresh `DefaultHasher`.
pub open spec fn text_hash(s: Seq<char>) -> u64 {
    DefaultHasher::spec_finish(Seq::<Seq<u8>>::empty() + str_hash_writes(s))
}

/// The text shown for a host or file name: the name itself, or with
/// anonymizing on, `host_` and four hex digits of its hash.
pub open spec fn shown_name(anonymize: bool, s: Seq<char>) -> Seq<char> {
    if anonymize {
        "host_"@ + hex4((text_hash(s) & 0xffffu64) as nat)
    } else {
        s
    }
}

/// The hosts a search query `q` (already lowercased) keeps: those whose
/// lowercased name or platform, or whose address, contains it.
pub open spec fn host_matches(h: Host, q: Seq<char>) -> bool {
    contains_text(lowercase_of(h.name@), q) || contains_text(h.ip@, q) || contains_text(
        lowercase_of(h.platform@),
        q,
    )
}

/// The IDs among `ids` of known hosts that match `q`, in order.
pub open spec fn matching_hosts(hosts: Map<u32, Host>, q: Seq<char>, ids: Seq<u32>) -> Seq<u32>
    decreases ids.len(),
{
    if ids.len() == 0 {
        Seq::empty()
    } else {
        let before = matching_hosts(hosts, q, ids.drop_last());
        let id = ids.last();
        if hosts.contains_key(id) && host_matches(hosts[id], q) {
            before.push(id)
        } else {
            before
        }
    }
}

/// The table rows a host takes: its own, plus (when expanded) one per job
/// running there and one per attribute.
pub open spec fn host_rows(state: SchedulerState, expanded: Set<u32>, expand_all: bool, id: u32) -> int {
    1 + if (expand_all || expanded.contains(id)) && state.hosts@.contains_key(id) {
        (selected_jobs(state.jobs@, JobFilter::ActiveOn(id)).len() + state.hosts@[id].attrs@.len()) as int
    } else {
        0
    }
}

/// The table rows the first `k` hosts of `ids` take.
pub open spec fn rows_before(
    state: SchedulerState,
    expanded: Set<u32>,
    expand_all: bool,
    ids: Seq<u32>,
    k: int,
) -> int
    decreases k,
{
    if k <= 0 {
        0
    } else {
        rows_before(state, expanded, expand_all, ids, k - 1) + host_rows(
            state,
            expanded,
            expand_all,
            ids[k - 1],
        )
    }
}

/// Compute the table row of the host at `host_index` in `host_ids`,
/// counting the detail rows of expanded hosts before it (at most
/// `usize::MAX`).
pub fn host_to_table_row(
    host_ids: &[u32],
    host_index: usize,
    expanded: &HashSet<u32>,
    expand_all: bool,
    state: &SchedulerState,
) -> (row: usize)
    ensures
        row == min_int(
            rows_before(*state, expanded@, expand_all, host_ids@, min_int(host_index as int, host_ids@.len() as int)),
            usize::MAX as int,
        ),
{
    let mut row: usize = 0;
    let mut i: usize = 0;
    while i < host_ids.len() && i < host_index
        invariant
            i <= host_ids@.len(),
            i <= host_index,
            row == min_int(rows_before(*state, expanded@, expand_all, host_ids@, i as int), usize::MAX as int),
        decreases host_ids@.len() - i,
    {
        let id = host_ids[i];
        let mut extra: usize = 0;
        if expand_all || expanded.contains(&id) {
            if let Some(host) = state.hosts.get(&id) {
                let jobs = count_jobs(&state.jobs, JobFilter::ActiveOn(id));
                extra = jobs.saturating_add(host.attrs.len());
            }
        }
        row = row.saturating_add(1).saturating_add(extra);
        proof {
            assert(rows_before(*state, expanded@, expand_all, host_ids@, i + 1) == rows_before(
                *state,
                expanded@,
                expand_all,
                host_ids@,
                i as int,
            ) + host_rows(*state, expanded@, expand_all, host_ids@[i as int]));
        }
        i = i + 1;
    }
    row
}

/// The number of characters of a job bar's filling: running jobs over the
/// limit, scaled to the bar's 20 characters (none without a limit).
pub open spec fn bar_fill(cur: nat, max_jobs: u32) -> nat {
    let filled = if max_jobs > 0 {
        (cur * 20) / (max_jobs as nat)
    } else {
        0
    };
    if filled < 20 {
        filled
    } else {
        20
    }
}

/// The job bar: `[`, the filling, spaces up to 20 characters, `]`.
pub open spec fn bar_text(cur: nat, max_jobs: u32) -> Seq<char> {
    let m = bar_fill(cur, max_jobs);
    seq!['['] + Seq::new(m, |i: int| '━') + Seq::new((20 - m) as nat, |i: int| ' ') + seq![']']
}

/// The job bar for a host running `cur` jobs with a limit of `max_jobs`.
pub fn job_bar(cur: usize, max_jobs: u32) -> (bar: String)
    ensures
        bar@ == bar_text(cur as nat, max_jobs),
{
    let filled: u128 = if max_jobs > 0 {
        (cur as u128 * 20) / (max_jobs as u128)
    } else {
        0
    };
    let m: usize = if filled < 20 {
        filled as usize
    } else {
        20
    };
    assert(m == bar_fill(cur as nat, max_jobs));
    let mut s = String::new();
    push_char(&mut s, '[');
    let mut i: usize = 0;
    while i < 20
        invariant
            m <= 20,
            i <= 20,
            s@ == seq!['['] + Seq::new(if i < m { i as nat } else { m as nat }, |k: int| '━')
                + Seq::new(if i < m { 0 } else { (i - m) as nat }, |k: int| ' '),
        decreases 20 - i,
    {
        if i < m {
            push_char(&mut s, '━');
        } else {
            push_char(&mut s, ' ');
        }
        i = i + 1;
        assert(s@ =~= seq!['['] + Seq::new(if i < m { i as nat } else { m as nat }, |k: int| '━')
            + Seq::new(if i < m { 0 } else { (i - m) as nat }, |k: int| ' '));
    }
    push_char(&mut s, ']');
    assert(s@ =~= bar_text(cur as nat, max_jobs));
    s
}

/// The hosts with at least one job running on them (by their recorded ID).
pub open spec fn busy_hosts(state: SchedulerState) -> Set<u32> {
    state.hosts@.dom().filter(
        |k: u32| selected_jobs(state.jobs@, JobFilter::ActiveOn(state.hosts@[k].id)).len() > 0,
    )
}

/// How many hosts have at least one job running on them.
pub fn active_host_count(state: &SchedulerState) -> (n: usize)
    ensures
        n == busy_hosts(*state).len(),
{
    let keys = map_keys(&state.hosts);
    let mut busy: Vec<u32> = Vec::new();
    let mut i: usize = 0;
    while i < keys.len()
        invariant
            i <= keys@.len(),
            keys@.no_duplicates(),
            keys@.to_set() == state.hosts@.dom(),
            busy@.no_duplicates(),
            forall|x: u32| busy@.contains(x) <==> (exists|j: int| 0 <= j < i && keys@[j] == x && busy_hosts(*state).contains(x)),
        decreases keys@.len() - i,
    {
        let k = keys[i];
        assert(keys@.to_set().contains(k));
        let h = state.hosts.get(&k).unwrap();
        let ghost before = busy@;
        assert(forall|x: u32| before.contains(x) <==> (exists|j: int| 0 <= j < i && keys@[j] == x && busy_hosts(*state).contains(x)));
        let is_busy = count_jobs(&state.jobs, JobFilter::ActiveOn(h.id)) > 0;
        assert(is_busy == busy_hosts(*state).contains(k));
        if is_busy {
            proof {
                if before.contains(k) {
                    let j = choose|j: int| 0 <= j < i && keys@[j] == k && busy_hosts(*state).contains(k);
                    assert(keys@[j] == keys@[i as int]);
                }
            }
            busy.push(k);
            proof {
                assert forall|x: u32| busy@.contains(x) <==> (before.contains(x) || x == k) by {
                    if busy@.contains(x) && x != k {
                        let j = choose|j: int| 0 <= j < busy@.len() && busy@[j] == x;
                        assert(before[j] == x);
                    }
                    if x == k {
                        assert(busy@[before.len() as int] == x);
                    }
                    if before.contains(x) {
                        let j = choose|j: int| 0 <= j < before.len() && before[j] == x;
                        assert(busy@[j] == x);
                    }
                }
            }
        }
        proof {
            assert forall|x: u32| busy@.contains(x) <==> (exists|j: int| 0 <= j < i + 1 && keys@[j] == x && busy_hosts(*state).contains(x)) by {
                assert(busy@.contains(x) <==> (before.contains(x) || (x == k && is_busy)));
                if before.contains(x) {
                    let j = choose|j: int| 0 <= j < i && keys@[j] == x && busy_hosts(*state).contains(x);
                    assert(0 <= j < i + 1 && keys@[j] == x);
                }
                if x == k && busy_hosts(*state).contains(x) {
                    assert(keys@[i as int] == x);
                }
                if exists|j: int| 0 <= j < i + 1 && keys@[j] == x && busy_hosts(*state).contains(x) {
                    let j = choose|j: int| 0 <= j < i + 1 && keys@[j] == x && busy_hosts(*state).contains(x);
                    if j < i {
                        assert(before.contains(x));
                    }
                }
            }
        }
        i = i + 1;
    }
    proof {
        assert forall|x: u32| busy@.to_set().contains(x) <==> busy_hosts(*state).contains(x) by {
            if busy_hosts(*state).contains(x) {
                assert(keys@.to_set().contains(x));
                let j = choose|j: int| 0 <= j < keys@.len() && keys@[j] == x;
            }
        }
        assert(busy@.to_set() =~= busy_hosts(*state));
        busy@.unique_seq_to_set();
    }
    busy.len()
}

impl App {
    /// Logs a monitor event and applies it to the scheduler state.
    pub fn on_monitor_event<F: Fn(&String) -> u32>(&mut self, event: MonitorEvent, now: u64, speed_of: &F)
        requires
            forall|v: &String| #[trigger] speed_of.requires((v,)),
        ensures
            exists|line: String|
                line@ == log_line(event) && #[trigger] log_after(old(self).log_messages@, line)
                    == final(self).log_messages@,
            SchedulerState::event_applied(old(self).state, final(self).state, event, now, *speed_of),
            *final(self) == (App {
                state: final(self).state,
                log_messages: final(self).log_messages,
                ..*old(self)
            }),
    {
        let line = format_log(&event);
        self.push_log(line);
        self.state.apply_event(event, now, speed_of);
    }

    /// The text shown for a host or file name.
    pub fn anonymize_str(&self, s: &str) -> (shown: String)
        ensures
            shown@ == shown_name(self.anonymize, s@),
    {
        if !self.anonymize {
            return s.to_owned();
        }
        let mut hasher = DefaultHasher::new();
        hash_str(s, &mut hasher);
        let h = hasher.finish();
        let mut out = String::new();
        append_str(&mut out, "host_");
        let low = h & 0xffffu64;
        assert(low < 0x10000) by (bit_vector)
            requires
                low == h & 0xffffu64,
        ;
        push_hex4(&mut out, low);
        out
    }

    /// The hosts the table shows: all hosts in the sort order, or with a
    /// search query, those that match the lowercased query.
    pub fn visible_host_ids(&self) -> (ids: Vec<u32>)
        ensures
            exists|all: Seq<u32>|
                #[trigger] is_host_listing(self.state, self.sort_col, self.sort_reverse, all) && ids@
                    == if self.search_query@.len() == 0 {
                    all
                } else {
                    matching_hosts(self.state.hosts@, lowercase_of(self.search_query@), all)
                },
            ids@.no_duplicates(),
            forall|x: u32| #[trigger] ids@.contains(x) ==> self.state.hosts@.contains_key(x),
            forall|i: int, j: int|
                0 <= i < j < ids@.len() ==> key_ordered(
                    sort_key(self.state, self.sort_col, #[trigger] ids@[i]),
                    sort_key(self.state, self.sort_col, #[trigger] ids@[j]),
                    self.sort_reverse,
                ),
            self.search_query@.len() > 0 ==> forall|x: u32| #[trigger] ids@.contains(x) <==> (
            self.state.hosts@.contains_key(x) && host_matches(
                self.state.hosts@[x],
                lowercase_of(self.search_query@),
            )),
    {
        let all = self.state.sorted_host_ids(self.sort_col, self.sort_reverse);
        if self.search_query.as_str().is_empty() {
            proof {
                assert forall|x: u32| #[trigger] all@.contains(x) implies self.state.hosts@.contains_key(x) by {
                    assert(all@.to_set().contains(x));
                }
            }
            return all;
        }
        let q = to_lowercase(self.search_query.as_str());
        let mut ids: Vec<u32> = Vec::new();
        let mut i: usize = 0;
        while i < all.len()
            invariant
                i <= all@.len(),
                q@ == lowercase_of(self.search_query@),
                ids@ == matching_hosts(self.state.hosts@, q@, all@.take(i as int)),
            decreases all@.len() - i,
        {
            let id = all[i];
            let keep = match self.state.hosts.get(&id) {
                Some(h) => {
                    let name = to_lowercase(h.name.as_str());
                    let platform = to_lowercase(h.platform.as_str());
                    text_contains(name.as_str(), q.as_str()) || text_contains(h.ip.as_str(), q.as_str())
                        || text_contains(platform.as_str(), q.as_str())
                },
                None => false,
            };
            if keep {
                ids.push(id);
            }
            proof {
                assert(all@.take(i + 1).drop_last() =~= all@.take(i as int));
                assert(all@.take(i + 1).last() == id);
            }
            i = i + 1;
        }
        assert(all@.take(all@.len() as int) =~= all@);
        proof {
            lemma_search_keeps_order(self.state, self.sort_col, self.sort_reverse, all@, q@);
            lemma_matching_hosts_filter(self.state.hosts@, q@, all@);
            assert forall|x: u32| #[trigger] ids@.contains(x) <==> (self.state.hosts@.contains_key(x)
                && host_matches(self.state.hosts@[x], q@)) by {
                assert(all@.to_set().contains(x) <==> all@.contains(x));
            }
        }
        ids
    }

    /// Keeps the selection on one of the `visible` hosts and gives the table
    /// row it stands on (none when no host is shown).
    pub fn select_row(&mut self, visible: &[u32]) -> (row: Option<usize>)
        ensures
            final(self).selected == if visible@.len() > 0 && old(self).selected >= visible@.len() {
                (visible@.len() - 1) as usize
            } else {
                old(self).selected
            },
            *final(self) == (App { selected: final(self).selected, ..*old(self) }),
            row == if visible@.len() == 0 {
                None::<usize>
            } else {
                Some(
                    min_int(
                        rows_before(
                            old(self).state,
                            old(self).expanded@,
                            old(self).expand_all,
                            visible@,
                            final(self).selected as int,
                        ),
                        usize::MAX as int,
                    ) as usize,
                )
            },
    {
        if !visible.is_empty() && self.selected >= visible.len() {
            self.selected = visible.len() - 1;
        }
        if visible.is_empty() {
            None
        } else {
            Some(host_to_table_row(visible, self.selected, &self.expanded, self.expand_all, &self.state))
        }
    }
}

/// The least time between two redraws caused by monitor events.
pub const MIN_REDRAW_INTERVAL_MS: u64 = 100;

/// What kind of input the event loop received.
#[derive(Debug, Clone, Copy, PartialEq, Eq, Structural)]
pub enum InputKind {
    /// A key press.
    Key,
    /// The terminal was resized.
    Resize,
    /// A monitor event.
    Monitor,
}

/// Whether to redraw now, and whether a redraw is then owed.
#[derive(Debug, Clone, Copy, PartialEq, Eq, Structural)]
pub struct RedrawStep {
    pub draw_now: bool,
    pub pending: bool,
}

/// The redraw decision after an input: keys and resizes redraw at once;
/// a monitor event redraws at once only when the last redraw is at least
/// [`MIN_REDRAW_INTERVAL_MS`] old and none is owed, and otherwise leaves a
/// redraw owed (to be made when the interval has passed).
pub open spec fn spec_redraw_after(pending: bool, kind: InputKind, elapsed_ms: u64) -> RedrawStep {
    if kind != InputKind::Monitor {
        RedrawStep { draw_now: true, pending: false }
    } else if pending {
        RedrawStep { draw_now: false, pending: true }
    } else if elapsed_ms >= MIN_REDRAW_INTERVAL_MS {
        RedrawStep { draw_now: true, pending: false }
    } else {
        RedrawStep { draw_now: false, pending: true }
    }
}

/// Decides whether an input redraws the screen now, given whether a redraw
/// is owed and how long ago the last one was.
pub fn redraw_after(pending: bool, kind: InputKind, elapsed_ms: u64) -> (step: RedrawStep)
    ensures
        step == spec_redraw_after(pending, kind, elapsed_ms),
{
    match kind {
        InputKind::Key | InputKind::Resize => RedrawStep { draw_now: true, pending: false },
        InputKind::Monitor => {
            if pending {
                RedrawStep { draw_now: false, pending: true }
            } else if elapsed_ms >= MIN_REDRAW_INTERVAL_MS {
                RedrawStep { draw_now: true, pending: false }
            } else {
                RedrawStep { draw_now: false, pending: true }
            }
        },
    }
}

/// Monitor events never redraw twice within [`MIN_REDRAW_INTERVAL_MS`]: a
/// monitor event draws only when the last redraw is old enough, and after
/// it no redraw is owed exactly when it drew.
pub proof fn lemma_monitor_redraws_throttled(pending: bool, elapsed_ms: u64)
    ensures
        spec_redraw_after(pending, InputKind::Monitor, elapsed_ms).draw_now ==> elapsed_ms
            >= MIN_REDRAW_INTERVAL_MS,
        spec_redraw_after(pending, InputKind::Monitor, elapsed_ms).pending != spec_redraw_after(
            pending,
            InputKind::Monitor,
            elapsed_ms,
        ).draw_now,
{
}

/// Pressing `r` twice in the host table gives back the same state.
pub proof fn lemma_reverse_twice(a: App, b: App, c: App, key: KeyEvent)
    requires
        a.view_mode == ViewMode::Table,
        is_char(key, 'r'),
        key_handled(a, b, key),
        key_handled(b, c, key),
    ensures
        c == a,
{
}

/// In the host table, a selection on one of the hosts stays on one of the
/// hosts whatever key is pressed.
pub proof fn lemma_selection_stays_on_hosts(a: App, b: App, key: KeyEvent)
    requires
        a.view_mode == ViewMode::Table,
        a.selected < known_hosts(a),
        key_handled(a, b, key),
    ensures
        b.selected < known_hosts(b),
{
}

/// Starting a search and leaving it with Esc returns to the table with an
/// empty query and nothing else changed.
pub proof fn lemma_search_escape(a: App, b: App, c: App, slash: KeyEvent, esc: KeyEvent)
    requires
        a.view_mode == ViewMode::Table,
        is_char(slash, '/'),
        esc.code == KeyCode::Esc,
        key_handled(a, b, slash),
        key_handled(b, c, esc),
    ensures
        c == (App { search_query: c.search_query, ..a }),
        c.search_query@ == Seq::<char>::empty(),
{
}

/// While searching, typing a character and then Backspace gives back the
/// query.
pub proof fn lemma_type_then_backspace(a: App, b: App, c: App, typed: KeyEvent, back: KeyEvent)
    requires
        a.view_mode == ViewMode::Search,
        typed.code is Char,
        back.code == KeyCode::Backspace,
        key_handled(a, b, typed),
        key_handled(b, c, back),
    ensures
        c.search_query@ == a.search_query@,
        c.view_mode == ViewMode::Search,
{
    assert(a.search_query@.push(typed.code->0).drop_last() =~= a.search_query@);
}

/// The log never holds more than [`MAX_LOG_LINES`] lines, and the newest
/// line is always last.
pub proof fn lemma_log_bounded(log: Seq<String>, line: String)
    requires
        log.len() <= MAX_LOG_LINES,
    ensures
        log_after(log, line).len() <= MAX_LOG_LINES,
        log_after(log, line).last() == line,
{
}


/// Whether `a` is `b` with some entries left out: there are positions
/// `idx`, strictly increasing, with `a[k] == b[idx[k]]`.
pub open spec fn is_subsequence(a: Seq<u32>, b: Seq<u32>) -> bool {
    exists|idx: Seq<int>|
        #![trigger idx.len()]
        idx.len() == a.len() && (forall|k: int| 0 <= k < a.len() ==> 0 <= #[trigger] idx[k] < b.len()
            && a[k] == b[idx[k]]) && (forall|k: int, l: int| 0 <= k < l < a.len() ==> #[trigger] idx[k]
            < #[trigger] idx[l])
}

/// The search keeps exactly the listed known hosts that match the query,
/// in the order they were listed.
pub proof fn lemma_matching_hosts_filter(hosts: Map<u32, Host>, q: Seq<char>, ids: Seq<u32>)
    ensures
        is_subsequence(matching_hosts(hosts, q, ids), ids),
        forall|x: u32| #[trigger] matching_hosts(hosts, q, ids).contains(x) <==> (ids.contains(x)
            && hosts.contains_key(x) && host_matches(hosts[x], q)),
    decreases ids.len(),
{
    let r = matching_hosts(hosts, q, ids);
    if ids.len() == 0 {
        let idx = Seq::<int>::empty();
        assert(idx.len() == r.len());
    } else {
        let front = ids.drop_last();
        let id = ids.last();
        let before = matching_hosts(hosts, q, front);
        lemma_matching_hosts_filter(hosts, q, front);
        let idx0 = choose|idx: Seq<int>|
            #![trigger idx.len()]
            idx.len() == before.len() && (forall|k: int| 0 <= k < before.len() ==> 0 <= #[trigger] idx[k]
                < front.len() && before[k] == front[idx[k]]) && (forall|k: int, l: int|
                0 <= k < l < before.len() ==> #[trigger] idx[k] < #[trigger] idx[l]);
        let keep = hosts.contains_key(id) && host_matches(hosts[id], q);
        let idx = if keep { idx0.push(ids.len() - 1) } else { idx0 };
        assert(idx.len() == r.len());
        assert forall|k: int| 0 <= k < r.len() implies 0 <= #[trigger] idx[k] < ids.len() && r[k]
            == ids[idx[k]] by {
            if k < before.len() {
                assert(front[idx0[k]] == ids[idx0[k]]);
            }
        }
        assert forall|k: int, l: int| 0 <= k < l < r.len() implies #[trigger] idx[k] < #[trigger] idx[l] by {
            if l < before.len() {
            } else {
                assert(idx0[k] < front.len());
            }
        }
        assert forall|x: u32| #[trigger] r.contains(x) <==> (ids.contains(x) && hosts.contains_key(x)
            && host_matches(hosts[x], q)) by {
            if r.contains(x) {
                let k = choose|k: int| 0 <= k < r.len() && r[k] == x;
                if k < before.len() {
                    assert(before.contains(x));
                    let m = choose|m: int| 0 <= m < front.len() && front[m] == x;
                    assert(ids[m] == x);
                } else {
                    assert(ids[ids.len() - 1] == x);
                }
            }
            if ids.contains(x) && hosts.contains_key(x) && host_matches(hosts[x], q) {
                let m = choose|m: int| 0 <= m < ids.len() && ids[m] == x;
                if m < ids.len() - 1 {
                    assert(front[m] == x);
                    assert(before.contains(x));
                    let k = choose|k: int| 0 <= k < before.len() && before[k] == x;
                    assert(r[k] == x);
                } else {
                    assert(r[r.len() - 1] == x);
                }
            }
        }
    }
}

/// A search over a host listing keeps it ordered by the sort column, with
/// each shown host once and only known hosts shown.
pub proof fn lemma_search_keeps_order(
    state: SchedulerState,
    col: SortColumn,
    reverse: bool,
    all: Seq<u32>,
    q: Seq<char>,
)
    requires
        is_host_listing(state, col, reverse, all),
    ensures
        ({
            let shown = matching_hosts(state.hosts@, q, all);
            &&& shown.no_duplicates()
            &&& forall|x: u32| #[trigger] shown.contains(x) ==> state.hosts@.contains_key(x)
            &&& forall|i: int, j: int|
                0 <= i < j < shown.len() ==> key_ordered(
                    sort_key(state, col, #[trigger] shown[i]),
                    sort_key(state, col, #[trigger] shown[j]),
                    reverse,
                )
        }),
{
    let shown = matching_hosts(state.hosts@, q, all);
    lemma_matching_hosts_filter(state.hosts@, q, all);
    let idx = choose|idx: Seq<int>|
        #![trigger idx.len()]
        idx.len() == shown.len() && (forall|k: int| 0 <= k < shown.len() ==> 0 <= #[trigger] idx[k]
            < all.len() && shown[k] == all[idx[k]]) && (forall|k: int, l: int|
            0 <= k < l < shown.len() ==> #[trigger] idx[k] < #[trigger] idx[l]);
    assert forall|i: int, j: int| 0 <= i < j < shown.len() implies key_ordered(
        sort_key(state, col, #[trigger] shown[i]),
        sort_key(state, col, #[trigger] shown[j]),
        reverse,
    ) && shown[i] != shown[j] by {
        assert(idx[i] < idx[j]);
        assert(shown[i] == all[idx[i]] && shown[j] == all[idx[j]]);
    }
    assert forall|x: u32| #[trigger] shown.contains(x) implies state.hosts@.contains_key(x) by {}
}


/// In the host table, `j` or Down moves the selection one row down and `k`
/// or Up one row up, stopping at the last and the first host; `l`, Right
/// or Tab sorts by the next column and `h`, Left or BackTab by the previous
/// one, wrapping around; Home or `g` goes to the first host and End or `G`
/// to the last; `r` flips the direction. Only the named field changes.
pub proof fn lemma_table_navigation(a: App, b: App, key: KeyEvent)
    requires
        a.view_mode == ViewMode::Table,
        key_handled(a, b, key),
    ensures
        (is_char(key, 'j') || key.code == KeyCode::Down) && a.selected + 1 < known_hosts(a) ==> (b
            == (App { selected: (a.selected + 1) as usize, ..a })),
        (is_char(key, 'j') || key.code == KeyCode::Down) && a.selected + 1 >= known_hosts(a)
            && known_hosts(a) > 0 ==> b.selected == known_hosts(a) - 1,
        (is_char(key, 'k') || key.code == KeyCode::Up) && a.selected > 0 ==> (b == (App {
            selected: (a.selected - 1) as usize,
            ..a
        })),
        (is_char(key, 'k') || key.code == KeyCode::Up) && a.selected == 0 ==> b == a,
        is_char(key, 'l') || key.code == KeyCode::Right || key.code == KeyCode::Tab ==> (b == (App {
            sort_col: b.sort_col,
            ..a
        })) && b.sort_col.ordinal() == (a.sort_col.ordinal() + 1) % 8,
        is_char(key, 'h') || key.code == KeyCode::Left || key.code == KeyCode::BackTab ==> (b == (App {
            sort_col: b.sort_col,
            ..a
        })) && (b.sort_col.ordinal() + 1) % 8 == a.sort_col.ordinal(),
        key.code == KeyCode::Home || is_char(key, 'g') ==> (b == (App { selected: 0, ..a })),
        (key.code == KeyCode::End || is_char(key, 'G')) && known_hosts(a) > 0 ==> (b == (App {
            selected: (known_hosts(a) - 1) as usize,
            ..a
        })),
        is_char(key, 'r') ==> (b == (App { sort_reverse: !a.sort_reverse, ..a })),
{
}

} // verus!
