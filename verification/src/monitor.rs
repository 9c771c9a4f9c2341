//! The monitor task's decisions: reading host statistics and turning
//! scheduler messages into model events. Receiving and sending stay with
//! the caller.
use crate::messages::Message;
use crate::model::MonitorEvent;
use crate::text::push_char;
use vstd::prelude::*;

verus! {

/// A line with a trailing carriage return removed.
pub open spec fn strip_cr(line: Seq<char>) -> Seq<char> {
    if line.len() > 0 && line.last() == '\r' {
        line.drop_last()
    } else {
        line
    }
}

/// The lines of `s` (as `str::lines` gives them) when `cur` holds the
/// start of the current line: lines end at `\n`, a `\r` just before the
/// `\n` is dropped, and an empty last line is not a line.
pub open spec fn lines_from(s: Seq<char>, cur: Seq<char>) -> Seq<Seq<char>>
    decreases s.len(),
{
    if s.len() == 0 {
        if cur.len() == 0 {
            Seq::empty()
        } else {
            seq![cur]
        }
    } else if s[0] == '\n' {
        seq![strip_cr(cur)] + lines_from(s.drop_first(), Seq::empty())
    } else {
        lines_from(s.drop_first(), cur.push(s[0]))
    }
}

/// The lines of `s`.
pub open spec fn spec_lines(s: Seq<char>) -> Seq<Seq<char>> {
    lines_from(s, Seq::empty())
}

/// Whether `i` is the first `:` of `line`.
pub open spec fn is_first_colon(line: Seq<char>, i: int) -> bool {
    &&& 0 <= i < line.len()
    &&& line[i] == ':'
    &&& forall|j: int| 0 <= j < i ==> line[j] != ':'
}

/// A `Key:Value` line split at its first `:`, if it has one.
pub open spec fn split_colon(line: Seq<char>) -> Option<(Seq<char>, Seq<char>)> {
    if exists|i: int| is_first_colon(line, i) {
        let i = choose|i: int| is_first_colon(line, i);
        Some((line.take(i), line.skip(i + 1)))
    } else {
        None
    }
}

/// `m` with the entry of `line` added (a later value of a key wins).
pub open spec fn add_line(m: Map<Seq<char>, Seq<char>>, line: Seq<char>) -> Map<Seq<char>, Seq<char>> {
    match split_colon(line) {
        Some((k, v)) => m.insert(k, v),
        None => m,
    }
}

/// `m` with the entries of `lines` added in order.
pub open spec fn add_lines(m: Map<Seq<char>, Seq<char>>, lines: Seq<Seq<char>>) -> Map<
    Seq<char>,
    Seq<char>,
>
    decreases lines.len(),
{
    if lines.len() == 0 {
        m
    } else {
        add_lines(add_line(m, lines[0]), lines.drop_first())
    }
}

/// The statistics a stats text holds: for each line with a `:`, the text
/// before the first `:` maps to the text after it.
pub open spec fn stats_map(statmsg: Seq<char>) -> Map<Seq<char>, Seq<char>> {
    add_lines(Map::empty(), spec_lines(statmsg))
}

/// Whether no two entries share a key.
pub open spec fn keys_distinct(e: Seq<(String, String)>) -> bool {
    forall|i: int, j: int| 0 <= i < e.len() && 0 <= j < e.len() && i != j ==> #[trigger] e[i].0@ != #[trigger] e[j].0@
}

/// Whether some entry has key `k`.
pub open spec fn has_key(e: Seq<(String, String)>, k: Seq<char>) -> bool {
    exists|i: int| 0 <= i < e.len() && #[trigger] e[i].0@ == k
}

/// The map the entries describe.
pub open spec fn entry_map(e: Seq<(String, String)>) -> Map<Seq<char>, Seq<char>> {
    Map::new(
        |k: Seq<char>| has_key(e, k),
        |k: Seq<char>| e[choose|i: int| 0 <= i < e.len() && #[trigger] e[i].0@ == k].1@,
    )
}

/// Host statistics: keys with their values, each key once, in the order
/// the keys first appeared.
#[derive(Debug)]
pub struct StatMap {
    entries: Vec<(String, String)>,
}

impl StatMap {
    #[verifier::type_invariant]
    spec fn inv(&self) -> bool {
        keys_distinct(self.entries@)
    }

    /// The entries in order.
    pub closed spec fn entries(&self) -> Seq<(String, String)> {
        self.entries@
    }

    /// The statistics as a map.
    pub open spec fn spec_map(&self) -> Map<Seq<char>, Seq<char>> {
        entry_map(self.entries())
    }

    /// No statistics.
    pub fn new() -> (m: StatMap)
        ensures
            m.entries() == Seq::<(String, String)>::empty(),
            m.spec_map() == Map::<Seq<char>, Seq<char>>::empty(),
    {
        let m = StatMap { entries: Vec::new() };
        assert(m.spec_map() =~= Map::<Seq<char>, Seq<char>>::empty());
        m
    }

    /// How many keys there are.
    pub fn len(&self) -> (n: usize)
        ensures
            n == self.spec_map().len(),
            n == self.entries().len(),
    {
        proof {
            use_type_invariant(self);
            lemma_entry_map_len(self.entries());
        }
        self.entries.len()
    }

    /// Whether there are no statistics.
    pub fn is_empty(&self) -> (b: bool)
        ensures
            b == (self.spec_map() == Map::<Seq<char>, Seq<char>>::empty()),
    {
        proof {
            if self.entries@.len() > 0 {
                assert(self.spec_map().contains_key(self.entries@[0].0@));
            } else {
                assert(self.spec_map() =~= Map::<Seq<char>, Seq<char>>::empty());
            }
        }
        self.entries.len() == 0
    }

    /// The value of `key`, if present.
    pub fn get(&self, key: &str) -> (r: Option<&String>)
        ensures
            match r {
                Some(v) => self.spec_map().contains_key(key@) && self.spec_map()[key@] == v@,
                None => !self.spec_map().contains_key(key@),
            },
    {
        proof {
            use_type_invariant(self);
        }
        let mut i: usize = 0;
        while i < self.entries.len()
            invariant
                i <= self.entries@.len(),
                keys_distinct(self.entries@),
                forall|j: int| 0 <= j < i ==> self.entries@[j].0@ != key@,
            decreases self.entries@.len() - i,
        {
            if self.entries[i].0 == key.to_owned() {
                let ghost e = self.entries@;
                assert(has_key(e, key@));
                let ghost c = choose|c: int| 0 <= c < e.len() && #[trigger] e[c].0@ == key@;
                assert(c == i);
                return Some(&self.entries[i].1);
            }
            i = i + 1;
        }
        None
    }

    /// The entries, each key once, in the order the keys first appeared.
    pub fn into_pairs(self) -> (v: Vec<(String, String)>)
        ensures
            v@ == self.entries(),
            keys_distinct(v@),
    {
        proof {
            use_type_invariant(&self);
        }
        self.entries
    }

    /// Sets `key` to `value`, in place when the key is present.
    fn insert(&mut self, key: String, value: String)
        ensures
            final(self).spec_map() == old(self).spec_map().insert(key@, value@),
    {
        proof {
            use_type_invariant(&*self);
        }
        let ghost e = self.entries@;
        let mut entries: Vec<(String, String)> = Vec::new();
        std::mem::swap(&mut entries, &mut self.entries);
        let mut i: usize = 0;
        while i < entries.len()
            invariant
                e == entries@,
                e == old(self).entries(),
                i <= e.len(),
                keys_distinct(e),
                forall|j: int| 0 <= j < i ==> e[j].0@ != key@,
            decreases e.len() - i,
        {
            if entries[i].0 == key {
                entries.set(i, (key, value));
                proof {
                    let n = entries@;
                    assert forall|a: int, b: int| 0 <= a < n.len() && 0 <= b < n.len() && a != b implies #[trigger] n[a].0@ != #[trigger] n[b].0@ by {
                        assert(n[a].0@ == e[a].0@ && n[b].0@ == e[b].0@);
                    }
                    assert forall|k2: Seq<char>| has_key(n, k2) <==> has_key(e, k2) by {
                        if has_key(n, k2) {
                            let c = choose|c: int| 0 <= c < n.len() && #[trigger] n[c].0@ == k2;
                            assert(e[c].0@ == k2);
                        }
                        if has_key(e, k2) {
                            let c = choose|c: int| 0 <= c < e.len() && #[trigger] e[c].0@ == k2;
                            assert(n[c].0@ == k2);
                        }
                    }
                    assert forall|k2: Seq<char>| #[trigger] entry_map(n).contains_key(k2) implies entry_map(n)[k2] == entry_map(e).insert(key@, value@)[k2] by {
                        let cn = choose|c: int| 0 <= c < n.len() && #[trigger] n[c].0@ == k2;
                        let ce = choose|c: int| 0 <= c < e.len() && #[trigger] e[c].0@ == k2;
                        assert(n[ce].0@ == k2);
                        assert(cn == ce);
                        if k2 == key@ {
                            assert(cn == i);
                        }
                    }
                    assert(entry_map(n) =~= entry_map(e).insert(key@, value@));
                }
                self.entries = entries;
                return;
            }
            i = i + 1;
        }
        entries.push((key, value));
        proof {
            let n = entries@;
            assert forall|a: int, b: int| 0 <= a < n.len() && 0 <= b < n.len() && a != b implies #[trigger] n[a].0@ != #[trigger] n[b].0@ by {
                if a < e.len() && b < e.len() {
                    assert(n[a] == e[a] && n[b] == e[b]);
                } else if a < e.len() {
                    assert(n[a] == e[a]);
                } else if b < e.len() {
                    assert(n[b] == e[b]);
                }
            }
            assert forall|k2: Seq<char>| has_key(n, k2) <==> (has_key(e, k2) || k2 == key@) by {
                if has_key(n, k2) && k2 != key@ {
                    let c = choose|c: int| 0 <= c < n.len() && #[trigger] n[c].0@ == k2;
                    assert(e[c].0@ == k2);
                }
                if has_key(e, k2) {
                    let c = choose|c: int| 0 <= c < e.len() && #[trigger] e[c].0@ == k2;
                    assert(n[c].0@ == k2);
                }
                if k2 == key@ {
                    assert(n[e.len() as int].0@ == k2);
                }
            }
            assert forall|k2: Seq<char>| #[trigger] entry_map(n).contains_key(k2) implies entry_map(n)[k2] == entry_map(e).insert(key@, value@)[k2] by {
                let cn = choose|c: int| 0 <= c < n.len() && #[trigger] n[c].0@ == k2;
                if k2 == key@ {
                    assert(n[e.len() as int].0@ == k2);
                    assert(cn == e.len());
                } else {
                    let ce = choose|c: int| 0 <= c < e.len() && #[trigger] e[c].0@ == k2;
                    assert(n[ce].0@ == k2);
                    assert(cn == ce);
                }
            }
            assert(entry_map(n) =~= entry_map(e).insert(key@, value@));
        }
        self.entries = entries;
    }

    /// Adds the entry of one line (`line` characters).
    fn add_line(&mut self, line: &Vec<char>)
        ensures
            final(self).spec_map() == add_line(old(self).spec_map(), line@),
    {
        let mut i: usize = 0;
        while i < line.len() && line[i] != ':'
            invariant
                i <= line@.len(),
                forall|j: int| 0 <= j < i ==> line@[j] != ':',
            decreases line@.len() - i,
        {
            i = i + 1;
        }
        if i == line.len() {
            assert(!exists|c: int| is_first_colon(line@, c));
            return;
        }
        assert(is_first_colon(line@, i as int));
        assert(forall|c: int| is_first_colon(line@, c) ==> c == i);
        let key = chars_to_string(line, 0, i);
        let value = chars_to_string(line, i + 1, line.len());
        assert(key@ =~= line@.take(i as int));
        assert(value@ =~= line@.skip(i + 1));
        self.insert(key, value);
    }
}

/// With distinct keys, the map has one key per entry.
proof fn lemma_entry_map_len(e: Seq<(String, String)>)
    requires
        keys_distinct(e),
    ensures
        entry_map(e).len() == e.len(),
{
    let keys = e.map_values(|p: (String, String)| p.0@);
    assert(keys.no_duplicates()) by {
        assert forall|a: int, b: int| 0 <= a < keys.len() && 0 <= b < keys.len() && a != b implies keys[a] != keys[b] by {
            assert(keys[a] == e[a].0@ && keys[b] == e[b].0@);
        }
    }
    keys.unique_seq_to_set();
    assert forall|k: Seq<char>| keys.to_set().contains(k) <==> has_key(e, k) by {
        if has_key(e, k) {
            let c = choose|c: int| 0 <= c < e.len() && #[trigger] e[c].0@ == k;
            assert(keys[c] == k);
        }
        if keys.to_set().contains(k) {
            let c = choose|c: int| 0 <= c < keys.len() && keys[c] == k;
            assert(e[c].0@ == k);
        }
    }
    assert(entry_map(e).dom() =~= keys.to_set());
}

/// A string made of `chars[from..to]`.
fn chars_to_string(chars: &Vec<char>, from: usize, to: usize) -> (s: String)
    requires
        from <= to <= chars@.len(),
    ensures
        s@ == chars@.subrange(from as int, to as int),
{
    let mut s = String::new();
    let mut i = from;
    while i < to
        invariant
            from <= i <= to,
            to <= chars@.len(),
            s@ == chars@.subrange(from as int, i as int),
        decreases to - i,
    {
        push_char(&mut s, chars[i]);
        i = i + 1;
        assert(chars@.subrange(from as int, i as int) =~= chars@.subrange(from as int, i - 1).push(chars@[i - 1]));
    }
    s
}

proof fn lemma_add_lines_concat(m: Map<Seq<char>, Seq<char>>, x: Seq<char>, rest: Seq<Seq<char>>)
    ensures
        add_lines(m, seq![x] + rest) == add_lines(add_line(m, x), rest),
{
    let l = seq![x] + rest;
    assert(l[0] == x);
    assert(l.drop_first() =~= rest);
}

/// Parse a stats text of `Key:Value` lines.
pub fn parse_stats(statmsg: &str) -> (m: StatMap)
    ensures
        m.spec_map() == stats_map(statmsg@),
        keys_distinct(m.entries()),
{
    let mut map = StatMap::new();
    let mut cur: Vec<char> = Vec::new();
    let ghost s = statmsg@;
    assert(s.skip(0) =~= s);
    for c in it: statmsg.chars()
        invariant
            it.seq() == s,
            s == statmsg@,
            add_lines(Map::empty(), lines_from(s, Seq::empty())) == add_lines(
                map.spec_map(),
                lines_from(s.skip(it.index()), cur@),
            ),
    {
        let ghost i = it.index();
        let ghost rest = s.skip(i);
        assert(rest[0] == c);
        assert(rest.drop_first() =~= s.skip(i + 1));
        if c == '\n' {
            let ghost m0 = map.spec_map();
            let ghost line = strip_cr(cur@);
            if cur.len() > 0 && cur[cur.len() - 1] == '\r' {
                cur.pop();
            }
            assert(cur@ =~= line);
            map.add_line(&cur);
            proof {
                lemma_add_lines_concat(m0, line, lines_from(s.skip(i + 1), Seq::empty()));
            }
            cur = Vec::new();
        } else {
            cur.push(c);
        }
    }
    proof {
        assert(s.skip(s.len() as int) =~= Seq::<char>::empty());
    }
    if cur.len() > 0 {
        let ghost m0 = map.spec_map();
        map.add_line(&cur);
        proof {
            assert(lines_from(Seq::<char>::empty(), cur@) == seq![cur@]);
            lemma_add_lines_concat(m0, cur@, Seq::empty());
            assert(seq![cur@] + Seq::<Seq<char>>::empty() =~= seq![cur@]);
        }
    }
    proof {
        use_type_invariant(&map);
    }
    map
}

/// What the monitor loop does with a received message.
#[derive(Debug, Clone)]
pub enum MonitorStep {
    /// Pass this event on.
    Emit(MonitorEvent),
    /// Keep receiving.
    Ignore,
    /// The scheduler ended the connection.
    Stop,
}

/// The event (if any) a scheduler message yields.
pub fn monitor_step(msg: Message) -> (step: MonitorStep)
    ensures
        match msg {
            Message::MonStats { host_id, statmsg } => step matches MonitorStep::Emit(
                MonitorEvent::HostStats { host_id: h, attrs },
            ) && h == host_id && keys_distinct(attrs@) && entry_map(attrs@) == stats_map(statmsg@),
            Message::MonGetCs { filename, job_id, client_id, .. } => step matches MonitorStep::Emit(
                MonitorEvent::JobPending { job_id: j, client_id: c, filename: f },
            ) && j == job_id && c == client_id && f == filename,
            Message::MonJobBegin { job_id, host_id, .. } => step matches MonitorStep::Emit(
                MonitorEvent::JobBegin { job_id: j, host_id: h },
            ) && j == job_id && h == host_id,
            Message::MonJobDone { job_id, .. } => step matches MonitorStep::Emit(
                MonitorEvent::JobDone { job_id: j },
            ) && j == job_id,
            Message::MonLocalJobBegin { host_id, job_id, file, .. } => step matches MonitorStep::Emit(
                MonitorEvent::LocalJobBegin { job_id: j, host_id: h, filename: f },
            ) && j == job_id && h == host_id && f == file,
            Message::JobLocalDone { job_id } => step matches MonitorStep::Emit(
                MonitorEvent::JobDone { job_id: j },
            ) && j == job_id,
            Message::End => step is Stop,
            Message::Ping => step is Ignore,
            Message::MonLogin => step is Ignore,
        },
{
    match msg {
        Message::MonStats { host_id, statmsg } => {
            let stats = parse_stats(statmsg.as_str());
            let attrs = stats.into_pairs();
            MonitorStep::Emit(MonitorEvent::HostStats { host_id, attrs })
        },
        Message::MonGetCs { filename, job_id, client_id, .. } => MonitorStep::Emit(
            MonitorEvent::JobPending { job_id, client_id, filename },
        ),
        Message::MonJobBegin { job_id, host_id, .. } => MonitorStep::Emit(
            MonitorEvent::JobBegin { job_id, host_id },
        ),
        Message::MonJobDone { job_id, .. } => MonitorStep::Emit(MonitorEvent::JobDone { job_id }),
        Message::MonLocalJobBegin { host_id, job_id, file, .. } => MonitorStep::Emit(
            MonitorEvent::LocalJobBegin { job_id, host_id, filename: file },
        ),
        Message::JobLocalDone { job_id } => MonitorStep::Emit(MonitorEvent::JobDone { job_id }),
        // The scheduler ends the connection.
        Message::End => MonitorStep::Stop,
        // Keepalive.
        Message::Ping => MonitorStep::Ignore,
        Message::MonLogin => MonitorStep::Ignore,
    }
}

} // verus!
