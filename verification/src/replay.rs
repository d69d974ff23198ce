//! Bit-exact replay: loads a deterministic log and gives back, cycle by cycle, the
//! recorded policies and messages, in the order and with the timing they had.
//!
//! Recorded decisions are injected from the log, never re-executed. Waiting between
//! messages, and the handlers called for each, are up to the caller, which follows
//! [`ReplayEngine::schedule`].

use vstd::prelude::*;
use std::collections::HashMap;
use crate::log::{entry_is, replay_source, EntryView, LogEntry, LogError, LogReader};
use crate::message::{HeaderView, MessageView, RoxMessage, RoxTimestamp};
use crate::types::default_qos;

verus! {

broadcast use vstd::std_specs::hash::group_hash_axioms;

/// Replay statistics.
#[derive(Clone, Copy, Debug, PartialEq, Eq, Structural)]
pub struct ReplayStats {
    pub total_cycles: u64,
    pub total_messages: u64,
    pub total_policies: u64,
}

impl Default for ReplayStats {
    fn default() -> (s: Self)
        ensures
            s == (ReplayStats { total_cycles: 0, total_messages: 0, total_policies: 0 }),
    {
        ReplayStats { total_cycles: 0, total_messages: 0, total_policies: 0 }
    }
}

/// The message a replayed message entry stands for.
pub open spec fn replayed(v: EntryView) -> MessageView {
    match v {
        EntryView::Message { sequence, key, hw_time, logical_time, payload, .. } => MessageView {
            header: HeaderView {
                key,
                timestamp: RoxTimestamp { hw_time, logical_time },
                qos: default_qos(),
                source_id: replay_source(),
                sequence,
            },
            payload,
        },
        _ => MessageView {
            header: HeaderView {
                key: Seq::empty(),
                timestamp: RoxTimestamp { hw_time: 0, logical_time: 0 },
                qos: default_qos(),
                source_id: replay_source(),
                sequence: 0,
            },
            payload: Seq::empty(),
        },
    }
}

/// The messages recorded in `cycle`, in log order.
pub open spec fn messages_at(vs: Seq<EntryView>, cycle: u64) -> Seq<MessageView>
    decreases vs.len(),
{
    if vs.len() == 0 {
        Seq::empty()
    } else {
        let prev = messages_at(vs.drop_last(), cycle);
        match vs.last() {
            EntryView::Message { cycle: c, .. } => if c == cycle {
                prev.push(replayed(vs.last()))
            } else {
                prev
            },
            _ => prev,
        }
    }
}

/// The serialised policies applied in `cycle`, in log order.
pub open spec fn policies_at(vs: Seq<EntryView>, cycle: u64) -> Seq<Seq<u8>>
    decreases vs.len(),
{
    if vs.len() == 0 {
        Seq::empty()
    } else {
        let prev = policies_at(vs.drop_last(), cycle);
        match vs.last() {
            EntryView::PolicyApplied { cycle: c, data, .. } => if c == cycle {
                prev.push(data)
            } else {
                prev
            },
            _ => prev,
        }
    }
}

/// The number of message entries.
pub open spec fn message_count(vs: Seq<EntryView>) -> nat
    decreases vs.len(),
{
    if vs.len() == 0 {
        0
    } else {
        message_count(vs.drop_last()) + if vs.last() is Message {
            1nat
        } else {
            0nat
        }
    }
}

/// The number of policy entries.
pub open spec fn policy_count(vs: Seq<EntryView>) -> nat
    decreases vs.len(),
{
    if vs.len() == 0 {
        0
    } else {
        policy_count(vs.drop_last()) + if vs.last() is PolicyApplied {
            1nat
        } else {
            0nat
        }
    }
}

/// The number of cycles: one more than the largest completed cycle (a cycle
/// numbered `u64::MAX` counts as none, its successor wrapping to 0).
pub open spec fn cycle_count(vs: Seq<EntryView>) -> u64
    decreases vs.len(),
{
    if vs.len() == 0 {
        0
    } else {
        let prev = cycle_count(vs.drop_last());
        match vs.last() {
            EntryView::CycleComplete { cycle } => if cycle.wrapping_add(1) > prev {
                cycle.wrapping_add(1)
            } else {
                prev
            },
            _ => prev,
        }
    }
}

proof fn lemma_counts_bounded(vs: Seq<EntryView>)
    ensures
        message_count(vs) <= vs.len(),
        policy_count(vs) <= vs.len(),
    decreases vs.len(),
{
    if vs.len() > 0 {
        lemma_counts_bounded(vs.drop_last());
    }
}

/// The message views of a group.
pub open spec fn message_views(g: Seq<RoxMessage>) -> Seq<MessageView> {
    g.map_values(|m: RoxMessage| m@)
}

/// The byte sequences of a group.
pub open spec fn byte_views(g: Seq<Vec<u8>>) -> Seq<Seq<u8>> {
    g.map_values(|d: Vec<u8>| d@)
}

/// Bit-exact replay engine.
pub struct ReplayEngine {
    reader: LogReader,
    stats: ReplayStats,
    cycle_messages: HashMap<u64, Vec<RoxMessage>>,
    cycle_policies: HashMap<u64, Vec<Vec<u8>>>,
    loaded: Ghost<Seq<EntryView>>,
}

impl ReplayEngine {
    /// The entries loaded so far, in log order.
    pub closed spec fn loaded(&self) -> Seq<EntryView> {
        self.loaded@
    }

    /// The reader the engine loads from.
    pub closed spec fn spec_reader(&self) -> LogReader {
        self.reader
    }

    /// The statistics.
    pub closed spec fn spec_stats(&self) -> ReplayStats {
        self.stats
    }

    /// Well-formedness: the tables group the loaded entries by cycle and the
    /// statistics count them.
    pub closed spec fn wf(&self) -> bool {
        &&& self.reader.wf()
        &&& self.loaded@.len() <= self.reader.spec_entries_read()
        &&& forall|c: u64|
            #![trigger messages_at(self.loaded@, c)]
            if self.cycle_messages@.contains_key(c) {
                message_views(self.cycle_messages@[c]@) == messages_at(self.loaded@, c)
            } else {
                messages_at(self.loaded@, c).len() == 0
            }
        &&& forall|c: u64|
            #![trigger policies_at(self.loaded@, c)]
            if self.cycle_policies@.contains_key(c) {
                byte_views(self.cycle_policies@[c]@) == policies_at(self.loaded@, c)
            } else {
                policies_at(self.loaded@, c).len() == 0
            }
        &&& self.stats.total_messages == message_count(self.loaded@)
        &&& self.stats.total_policies == policy_count(self.loaded@)
        &&& self.stats.total_cycles == cycle_count(self.loaded@)
    }

    /// Opens a log for replay (see [`LogReader::open`]); nothing is loaded yet.
    pub fn open(data: Vec<u8>) -> (r: Result<ReplayEngine, LogError>)
        ensures
            match crate::log::parse_header(data@) {
                Ok(p) => r matches Ok(e) && e.wf() && e.loaded().len() == 0
                    && e.spec_reader().data() == data@ && e.spec_reader().position() == p,
                Err(err) => r == Err::<ReplayEngine, LogError>(err),
            },
    {
        match LogReader::open(data) {
            Ok(reader) => {
                let e = ReplayEngine {
                    reader,
                    stats: ReplayStats::default(),
                    cycle_messages: HashMap::new(),
                    cycle_policies: HashMap::new(),
                    loaded: Ghost(Seq::empty()),
                };
                proof {
                    assert forall|c: u64| #[trigger] messages_at(e.loaded@, c).len() == 0 by {}
                    assert forall|c: u64| #[trigger] policies_at(e.loaded@, c).len() == 0 by {}
                }
                Ok(e)
            },
            Err(err) => Err(err),
        }
    }

    /// The statistics.
    pub fn stats(&self) -> (s: &ReplayStats)
        ensures
            *s == self.spec_stats(),
    {
        &self.stats
    }
}

/// What appending one entry does to the messages of a cycle.
proof fn lemma_messages_push(vs: Seq<EntryView>, v: EntryView, c: u64)
    ensures
        messages_at(vs.push(v), c) == match v {
            EntryView::Message { cycle, .. } => if cycle == c {
                messages_at(vs, c).push(replayed(v))
            } else {
                messages_at(vs, c)
            },
            _ => messages_at(vs, c),
        },
        policies_at(vs.push(v), c) == match v {
            EntryView::PolicyApplied { cycle, data, .. } => if cycle == c {
                policies_at(vs, c).push(data)
            } else {
                policies_at(vs, c)
            },
            _ => policies_at(vs, c),
        },
{
    assert(vs.push(v).drop_last() =~= vs);
}

impl ReplayEngine {
    /// Takes one loaded entry into the tables and the statistics.
    fn absorb(&mut self, e: LogEntry, Ghost(v): Ghost<EntryView>)
        requires
            old(self).wf(),
            entry_is(e, v),
            old(self).loaded().len() < old(self).spec_reader().spec_entries_read(),
        ensures
            final(self).wf(),
            final(self).loaded() == old(self).loaded().push(v),
            final(self).spec_reader() == old(self).spec_reader(),
    {
        let ghost l0 = self.loaded@;
        let ghost l1 = l0.push(v);
        proof {
            lemma_counts_bounded(l1);
            assert(l1.drop_last() =~= l0);
        }
        match e {
            LogEntry::Message { cycle, message, .. } => {
                assert(message@ == replayed(v));
                let ghost m0 = self.cycle_messages@;
                let mut g = match self.cycle_messages.remove(&cycle) {
                    Some(g) => g,
                    None => Vec::new(),
                };
                proof {
                    lemma_messages_push(l0, v, cycle);
                    assert(messages_at(l0, cycle) == messages_at(l0, cycle));
                    if !m0.contains_key(cycle) {
                        assert(messages_at(l0, cycle) =~= Seq::<MessageView>::empty());
                    }
                }
                let ghost g0 = g@;
                assert(message_views(g0) == messages_at(l0, cycle));
                g.push(message);
                assert(message_views(g@) =~= message_views(g0).push(replayed(v)));
                self.cycle_messages.insert(cycle, g);
                assert(self.cycle_messages@ == m0.insert(cycle, g));
                self.stats.total_messages = self.stats.total_messages + 1;
                self.loaded = Ghost(l1);
                proof {
                    assert forall|c: u64| #![trigger messages_at(self.loaded@, c)] if self.cycle_messages@.contains_key(c) {
                        message_views(self.cycle_messages@[c]@) == messages_at(self.loaded@, c)
                    } else {
                        messages_at(self.loaded@, c).len() == 0
                    } by {
                        lemma_messages_push(l0, v, c);
                    }
                    assert forall|c: u64| #![trigger policies_at(self.loaded@, c)] if self.cycle_policies@.contains_key(c) {
                        byte_views(self.cycle_policies@[c]@) == policies_at(self.loaded@, c)
                    } else {
                        policies_at(self.loaded@, c).len() == 0
                    } by {
                        lemma_messages_push(l0, v, c);
                    }
                }
            },
            LogEntry::PolicyApplied { cycle, data, .. } => {
                let ghost p0 = self.cycle_policies@;
                let ghost d = data@;
                let mut g = match self.cycle_policies.remove(&cycle) {
                    Some(g) => g,
                    None => Vec::new(),
                };
                proof {
                    lemma_messages_push(l0, v, cycle);
                    assert(policies_at(l0, cycle) == policies_at(l0, cycle));
                    if !p0.contains_key(cycle) {
                        assert(policies_at(l0, cycle) =~= Seq::<Seq<u8>>::empty());
                    }
                }
                let ghost g0 = g@;
                assert(byte_views(g0) == policies_at(l0, cycle));
                g.push(data);
                assert(byte_views(g@) =~= byte_views(g0).push(d));
                self.cycle_policies.insert(cycle, g);
                assert(self.cycle_policies@ == p0.insert(cycle, g));
                self.stats.total_policies = self.stats.total_policies + 1;
                self.loaded = Ghost(l1);
                proof {
                    assert forall|c: u64| #![trigger messages_at(self.loaded@, c)] if self.cycle_messages@.contains_key(c) {
                        message_views(self.cycle_messages@[c]@) == messages_at(self.loaded@, c)
                    } else {
                        messages_at(self.loaded@, c).len() == 0
                    } by {
                        lemma_messages_push(l0, v, c);
                    }
                    assert forall|c: u64| #![trigger policies_at(self.loaded@, c)] if self.cycle_policies@.contains_key(c) {
                        byte_views(self.cycle_policies@[c]@) == policies_at(self.loaded@, c)
                    } else {
                        policies_at(self.loaded@, c).len() == 0
                    } by {
                        lemma_messages_push(l0, v, c);
                    }
                }
            },
            LogEntry::CycleComplete { cycle } => {
                let next = cycle.wrapping_add(1);
                if next > self.stats.total_cycles {
                    self.stats.total_cycles = next;
                }
                self.loaded = Ghost(l1);
                proof {
                    assert forall|c: u64| #![trigger messages_at(self.loaded@, c)] if self.cycle_messages@.contains_key(c) {
                        message_views(self.cycle_messages@[c]@) == messages_at(self.loaded@, c)
                    } else {
                        messages_at(self.loaded@, c).len() == 0
                    } by {
                        lemma_messages_push(l0, v, c);
                    }
                    assert forall|c: u64| #![trigger policies_at(self.loaded@, c)] if self.cycle_policies@.contains_key(c) {
                        byte_views(self.cycle_policies@[c]@) == policies_at(self.loaded@, c)
                    } else {
                        policies_at(self.loaded@, c).len() == 0
                    } by {
                        lemma_messages_push(l0, v, c);
                    }
                }
            },
        }
    }

    /// Loads all remaining entries of the log (see [`crate::log::parse_all`]); if
    /// the log cannot be read to its end, nothing is loaded.
    pub fn load(&mut self) -> (r: Result<(), LogError>)
        requires
            old(self).wf(),
        ensures
            final(self).wf(),
            match crate::log::parse_all(
                old(self).spec_reader().data(),
                old(self).spec_reader().position(),
            ) {
                Ok(vs) => r is Ok && final(self).loaded() == old(self).loaded() + vs,
                Err(e) => r == Err::<(), LogError>(e) && final(self).loaded() == old(self).loaded(),
            },
    {
        let ghost parsed = crate::log::parse_all(self.reader.data(), self.reader.position());
        let res = self.reader.read_all();
        proof {
            lemma_wf_new_reader(*old(self), *self);
        }
        let mut es = match res {
            Ok(es) => es,
            Err(e) => {
                return Err(e);
            },
        };
        let ghost vs = parsed->Ok_0;
        let ghost l0 = self.loaded@;
        proof {
            lemma_wf_new_reader(*old(self), *self);
        }
        let ghost orig = es@;
        let n = es.len();
        let mut rev: Vec<LogEntry> = Vec::new();
        while es.len() > 0
            invariant
                self.wf(),
                self.loaded() == l0,
                self.spec_reader().spec_entries_read() >= l0.len() + n,
                es@.len() + rev@.len() == n,
                n == orig.len(),
                es@ == orig.take(es@.len() as int),
                forall|i: int| 0 <= i < rev@.len() ==> #[trigger] rev@[i] == orig[n - 1 - i],
            decreases es@.len(),
        {
            let e = es.pop().unwrap();
            rev.push(e);
            assert(es@ =~= orig.take(es@.len() as int));
        }
        let mut k: usize = 0;
        while rev.len() > 0
            invariant
                k + rev@.len() == n,
                n == orig.len(),
                n == vs.len(),
                forall|i: int| 0 <= i < rev@.len() ==> #[trigger] rev@[i] == orig[n - 1 - i],
                forall|i: int| 0 <= i < n ==> entry_is(#[trigger] orig[i], vs[i]),
                self.wf(),
                self.loaded() == l0 + vs.take(k as int),
                self.spec_reader().spec_entries_read() >= l0.len() + n,
            decreases rev@.len(),
        {
            let e = rev.pop().unwrap();
            assert(e == orig[k as int]);
            assert(entry_is(orig[k as int], vs[k as int]));
            self.absorb(e, Ghost(vs[k as int]));
            assert(vs.take(k + 1) =~= vs.take(k as int).push(vs[k as int]));
            assert(l0 + vs.take(k + 1) =~= (l0 + vs.take(k as int)).push(vs[k as int]));
            k += 1;
        }
        assert(vs.take(n as int) =~= vs);
        Ok(())
    }

    /// The messages recorded in a cycle, in log order.
    pub fn messages_at_cycle(&self, cycle: u64) -> (r: &[RoxMessage])
        requires
            self.wf(),
        ensures
            message_views(r@) == messages_at(self.loaded(), cycle),
    {
        assert(messages_at(self.loaded@, cycle) == messages_at(self.loaded@, cycle));
        match self.cycle_messages.get(&cycle) {
            Some(g) => g.as_slice(),
            None => {
                let empty: &[RoxMessage] = &[];
                assert(message_views(empty@) =~= messages_at(self.loaded@, cycle));
                empty
            },
        }
    }

    /// The serialised policies applied in a cycle, in log order.
    pub fn policies_at_cycle(&self, cycle: u64) -> (r: &[Vec<u8>])
        requires
            self.wf(),
        ensures
            byte_views(r@) == policies_at(self.loaded(), cycle),
    {
        assert(policies_at(self.loaded@, cycle) == policies_at(self.loaded@, cycle));
        match self.cycle_policies.get(&cycle) {
            Some(g) => g.as_slice(),
            None => {
                let empty: &[Vec<u8>] = &[];
                assert(byte_views(empty@) =~= policies_at(self.loaded@, cycle));
                empty
            },
        }
    }
}

/// Reading on from the log keeps an engine well formed: the tables and the
/// statistics describe the same loaded entries.
proof fn lemma_wf_new_reader(a: ReplayEngine, b: ReplayEngine)
    requires
        a.wf(),
        b.reader.wf(),
        b.reader.spec_entries_read() >= a.reader.spec_entries_read(),
        b.cycle_messages == a.cycle_messages,
        b.cycle_policies == a.cycle_policies,
        b.stats == a.stats,
        b.loaded == a.loaded,
    ensures
        b.wf(),
{
}

/// One step of a replay: hand over the `index`-th policy or message of a cycle.
#[derive(Clone, Copy, Debug, PartialEq, Eq, Structural)]
pub enum ReplayStep {
    Policy { cycle: u64, index: usize },
    Message { cycle: u64, index: usize },
}

/// The steps of one cycle: its policies first, then its messages, each in log order.
pub open spec fn cycle_steps(vs: Seq<EntryView>, cycle: u64) -> Seq<ReplayStep> {
    Seq::new(
        policies_at(vs, cycle).len(),
        |i: int| ReplayStep::Policy { cycle, index: i as usize },
    ) + Seq::new(
        messages_at(vs, cycle).len(),
        |i: int| ReplayStep::Message { cycle, index: i as usize },
    )
}

/// The steps of cycles `0..k`, in cycle order.
pub open spec fn steps_upto(vs: Seq<EntryView>, k: nat) -> Seq<ReplayStep>
    decreases k,
{
    if k == 0 {
        Seq::empty()
    } else {
        steps_upto(vs, (k - 1) as nat) + cycle_steps(vs, (k - 1) as u64)
    }
}

impl ReplayEngine {
    /// The order of a replay: for each cycle from 0 up to the number of cycles,
    /// its recorded policies, then its recorded messages, each in log order. The
    /// caller hands each item to its handler, waiting between messages as its clock
    /// asks.
    pub fn schedule(&self) -> (r: Vec<ReplayStep>)
        requires
            self.wf(),
        ensures
            r@ == steps_upto(self.loaded(), self.spec_stats().total_cycles as nat),
    {
        let total = self.stats.total_cycles;
        let mut steps: Vec<ReplayStep> = Vec::new();
        let mut c: u64 = 0;
        while c < total
            invariant
                self.wf(),
                c <= total,
                total == self.stats.total_cycles,
                steps@ == steps_upto(self.loaded@, c as nat),
            decreases total - c,
        {
            let ghost before = steps@;
            let pols = self.policies_at_cycle(c);
            let mut i: usize = 0;
            while i < pols.len()
                invariant
                    i <= pols@.len(),
                    byte_views(pols@) == policies_at(self.loaded@, c),
                    steps@ == before + Seq::new(
                        i as nat,
                        |j: int| ReplayStep::Policy { cycle: c, index: j as usize },
                    ),
                decreases pols@.len() - i,
            {
                steps.push(ReplayStep::Policy { cycle: c, index: i });
                i += 1;
                assert(steps@ =~= before + Seq::new(
                    i as nat,
                    |j: int| ReplayStep::Policy { cycle: c, index: j as usize },
                ));
            }
            let ghost mid = steps@;
            let msgs = self.messages_at_cycle(c);
            let mut k: usize = 0;
            while k < msgs.len()
                invariant
                    k <= msgs@.len(),
                    message_views(msgs@) == messages_at(self.loaded@, c),
                    steps@ == mid + Seq::new(
                        k as nat,
                        |j: int| ReplayStep::Message { cycle: c, index: j as usize },
                    ),
                decreases msgs@.len() - k,
            {
                steps.push(ReplayStep::Message { cycle: c, index: k });
                k += 1;
                assert(steps@ =~= mid + Seq::new(
                    k as nat,
                    |j: int| ReplayStep::Message { cycle: c, index: j as usize },
                ));
            }
            assert(steps@ =~= steps_upto(self.loaded@, (c + 1) as nat));
            c += 1;
        }
        steps
    }
}

/// The cycle a step belongs to.
pub open spec fn step_cycle(s: ReplayStep) -> u64 {
    match s {
        ReplayStep::Policy { cycle, .. } => cycle,
        ReplayStep::Message { cycle, .. } => cycle,
    }
}

/// Every step of a replay names a recorded item, an existing policy or message of a
/// cycle before the number of cycles; steps go by cycle, and within a cycle all
/// policies come before any message.
pub proof fn law_schedule_names_recorded_items(vs: Seq<EntryView>, k: nat)
    requires
        k <= u64::MAX,
    ensures
        forall|i: int|
            0 <= i < steps_upto(vs, k).len() ==> match #[trigger] steps_upto(vs, k)[i] {
                ReplayStep::Policy { cycle, index } => cycle < k && index < policies_at(vs, cycle).len(),
                ReplayStep::Message { cycle, index } => cycle < k && index < messages_at(vs, cycle).len(),
            },
        forall|i: int, j: int|
            0 <= i < j < steps_upto(vs, k).len() ==> step_cycle(#[trigger] steps_upto(vs, k)[i])
                <= step_cycle(#[trigger] steps_upto(vs, k)[j]) && (steps_upto(vs, k)[j] is Policy
                && step_cycle(steps_upto(vs, k)[i]) == step_cycle(steps_upto(vs, k)[j])
                ==> steps_upto(vs, k)[i] is Policy),
    decreases k,
{
    if k > 0 {
        law_schedule_names_recorded_items(vs, (k - 1) as nat);
        let prev = steps_upto(vs, (k - 1) as nat);
        let c = (k - 1) as u64;
        let cs = cycle_steps(vs, c);
        let np = policies_at(vs, c).len();
        let s = steps_upto(vs, k);
        assert(s == prev + cs);
        assert forall|i: int| 0 <= i < cs.len() implies step_cycle(#[trigger] cs[i]) == c && match cs[i] {
            ReplayStep::Policy { cycle, index } => index < policies_at(vs, cycle).len() && i < np,
            ReplayStep::Message { cycle, index } => index < messages_at(vs, cycle).len() && i >= np,
        } by {
            if i < np {
                assert(cs[i] == ReplayStep::Policy { cycle: c, index: i as usize });
            } else {
                assert(cs[i] == ReplayStep::Message { cycle: c, index: (i - np) as usize });
            }
        }
        assert forall|i: int| 0 <= i < prev.len() implies step_cycle(#[trigger] prev[i]) < c by {
            assert(match prev[i] {
                ReplayStep::Policy { cycle, index } => cycle < k - 1,
                ReplayStep::Message { cycle, index } => cycle < k - 1,
            });
        }
        assert forall|i: int|
            0 <= i < s.len() implies match #[trigger] s[i] {
                ReplayStep::Policy { cycle, index } => cycle < k && index < policies_at(vs, cycle).len(),
                ReplayStep::Message { cycle, index } => cycle < k && index < messages_at(vs, cycle).len(),
            } by {
            if i < prev.len() {
                assert(s[i] == prev[i]);
            } else {
                assert(s[i] == cs[i - prev.len()]);
            }
        }
        assert forall|i: int, j: int|
            0 <= i < j < s.len() implies step_cycle(#[trigger] s[i]) <= step_cycle(#[trigger] s[j])
            && (s[j] is Policy && step_cycle(s[i]) == step_cycle(s[j]) ==> s[i] is Policy) by {
            if j < prev.len() {
                assert(s[i] == prev[i]);
                assert(s[j] == prev[j]);
            } else if i < prev.len() {
                assert(s[i] == prev[i]);
                assert(s[j] == cs[j - prev.len()]);
            } else {
                assert(s[i] == cs[i - prev.len()]);
                assert(s[j] == cs[j - prev.len()]);
            }
        }
    }
}

} // verus!
