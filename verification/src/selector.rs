//! Transport selection: which transport carries messages to a node, by locality and
//! by the hints of the agent, and the switch of a node to another transport.

use vstd::prelude::*;
use crate::clock::{elapsed_nanos, instant_now};
use crate::table::{
    find_key, key_index, key_view, keys_distinct, lemma_key_index, lemma_key_index_keys,
    lemma_store_distinct, lookup, store,
};
use crate::types::{NodeId, TransportKind};

verus! {

/// Hint from the agent about the transport to use for a target.
pub struct AgentTransportHint {
    pub target: NodeId,
    pub recommended: TransportKind,
    /// Whether the agent's confidence in the recommendation is above 0.7.
    pub confident: bool,
}

/// A hint as the selector's rules see it: the transport and whether it is trusted.
pub open spec fn hint_view(h: AgentTransportHint) -> (TransportKind, bool) {
    (h.recommended, h.confident)
}

/// Outcome of a transport switch.
#[derive(Debug)]
pub struct TransportSwitchReport {
    pub success: bool,
    pub drained_count: usize,
    pub replayed_count: usize,
    pub switch_duration_us: u64,
    pub reason: Option<String>,
}

/// The transport chosen for `target`: the agent's recommendation when it is trusted
/// and available; otherwise shared memory for a local node when shared memory is
/// available, and TCP for everything else.
pub open spec fn selected(
    locals: Seq<(Seq<char>, bool)>,
    hints: Seq<(Seq<char>, (TransportKind, bool))>,
    available: Seq<TransportKind>,
    shm_available: bool,
    target: Seq<char>,
) -> TransportKind {
    match lookup(hints, target) {
        Some(h) if h.1 && available.contains(h.0) => h.0,
        _ => if lookup(locals, target) == Some(true) && shm_available {
            TransportKind::SharedMemory
        } else {
            TransportKind::Tcp
        },
    }
}

/// The transports available: TCP and UDP, and shared memory when it is available.
pub open spec fn transports_for(shm_available: bool) -> Seq<TransportKind> {
    if shm_available {
        seq![TransportKind::Tcp, TransportKind::Udp, TransportKind::SharedMemory]
    } else {
        seq![TransportKind::Tcp, TransportKind::Udp]
    }
}

/// The name `Debug` gives a transport kind.
pub open spec fn kind_name_spec(k: TransportKind) -> Seq<char> {
    match k {
        TransportKind::SharedMemory => seq!['S', 'h', 'a', 'r', 'e', 'd', 'M', 'e', 'm', 'o', 'r', 'y'],
        TransportKind::Tcp => seq!['T', 'c', 'p'],
        TransportKind::Udp => seq!['U', 'd', 'p'],
        TransportKind::Quic => seq!['Q', 'u', 'i', 'c'],
        TransportKind::Serial => seq!['S', 'e', 'r', 'i', 'a', 'l'],
    }
}

/// The name of a transport kind.
pub fn kind_name(k: TransportKind) -> (s: &'static str)
    ensures
        s@ == kind_name_spec(k),
{
    match k {
        TransportKind::SharedMemory => {
            proof {
                reveal_strlit("SharedMemory");
            }
            "SharedMemory"
        },
        TransportKind::Tcp => {
            proof {
                reveal_strlit("Tcp");
            }
            "Tcp"
        },
        TransportKind::Udp => {
            proof {
                reveal_strlit("Udp");
            }
            "Udp"
        },
        TransportKind::Quic => {
            proof {
                reveal_strlit("Quic");
            }
            "Quic"
        },
        TransportKind::Serial => {
            proof {
                reveal_strlit("Serial");
            }
            "Serial"
        },
    }
}

/// The reason a switch to an unavailable transport gives.
pub open spec fn unavailable_reason(k: TransportKind) -> Seq<char> {
    seq!['t', 'r', 'a', 'n', 's', 'p', 'o', 'r', 't', ' '] + kind_name_spec(k) + seq![
        ' ',
        'n',
        'o',
        't',
        ' ',
        'a',
        'v',
        'a',
        'i',
        'l',
        'a',
        'b',
        'l',
        'e',
    ]
}

/// Dynamic transport selector.
pub struct TransportSelector {
    local_nodes: Vec<(String, bool)>,
    active_transport: Vec<(String, TransportKind)>,
    available_transports: Vec<TransportKind>,
    agent_hints: Vec<(String, AgentTransportHint)>,
    shm_available: bool,
}

impl TransportSelector {
    /// Which nodes are local (true) or remote (false).
    pub closed spec fn locals(&self) -> Seq<(Seq<char>, bool)> {
        key_view(self.local_nodes@)
    }

    /// The transport each switched node uses.
    pub closed spec fn active(&self) -> Seq<(Seq<char>, TransportKind)> {
        key_view(self.active_transport@)
    }

    /// The agent's hints per target.
    pub closed spec fn hints(&self) -> Seq<(Seq<char>, (TransportKind, bool))> {
        key_view(self.agent_hints@).map_values(
            |e: (Seq<char>, AgentTransportHint)| (e.0, hint_view(e.1)),
        )
    }

    /// The transports available.
    pub closed spec fn available(&self) -> Seq<TransportKind> {
        self.available_transports@
    }

    /// Whether shared memory is available.
    pub closed spec fn spec_shm(&self) -> bool {
        self.shm_available
    }

    /// Well-formedness: no node appears twice in any table.
    pub closed spec fn wf(&self) -> bool {
        &&& keys_distinct(key_view(self.local_nodes@))
        &&& keys_distinct(key_view(self.active_transport@))
        &&& keys_distinct(key_view(self.agent_hints@))
    }

    /// A selector with no nodes and no hints, over TCP, UDP and, when
    /// `shm_available`, shared memory.
    pub fn new(shm_available: bool) -> (s: TransportSelector)
        ensures
            s.wf(),
            s.locals().len() == 0,
            s.active().len() == 0,
            s.hints().len() == 0,
            s.available() == transports_for(shm_available),
            s.spec_shm() == shm_available,
    {
        let mut available = vec![TransportKind::Tcp, TransportKind::Udp];
        if shm_available {
            available.push(TransportKind::SharedMemory);
        }
        let s = TransportSelector {
            local_nodes: Vec::new(),
            active_transport: Vec::new(),
            available_transports: available,
            agent_hints: Vec::new(),
            shm_available,
        };
        assert(s.available() =~= transports_for(shm_available));
        assert(s.hints() =~= Seq::<(Seq<char>, (TransportKind, bool))>::empty());
        s
    }

    fn set_local(&mut self, node_id: &str, local: bool)
        requires
            old(self).wf(),
        ensures
            final(self).wf(),
            final(self).locals() == store(old(self).locals(), node_id@, local),
            final(self).active() == old(self).active(),
            final(self).hints() == old(self).hints(),
            final(self).available() == old(self).available(),
            final(self).spec_shm() == old(self).spec_shm(),
    {
        let ghost t0 = self.locals();
        proof {
            lemma_key_index(t0, node_id@);
            lemma_store_distinct(t0, node_id@, local);
        }
        match find_key(&self.local_nodes, node_id) {
            Some(i) => {
                self.local_nodes.set(i, (node_id.to_owned(), local));
            },
            None => {
                self.local_nodes.push((node_id.to_owned(), local));
            },
        }
        assert(self.locals() =~= store(t0, node_id@, local));
    }

    /// Registers a node as local (same machine).
    pub fn register_local_node(&mut self, node_id: &str)
        requires
            old(self).wf(),
        ensures
            final(self).wf(),
            final(self).locals() == store(old(self).locals(), node_id@, true),
            final(self).active() == old(self).active(),
            final(self).hints() == old(self).hints(),
            final(self).available() == old(self).available(),
            final(self).spec_shm() == old(self).spec_shm(),
    {
        self.set_local(node_id, true);
    }

    /// Registers a node as remote.
    pub fn register_remote_node(&mut self, node_id: &str)
        requires
            old(self).wf(),
        ensures
            final(self).wf(),
            final(self).locals() == store(old(self).locals(), node_id@, false),
            final(self).active() == old(self).active(),
            final(self).hints() == old(self).hints(),
            final(self).available() == old(self).available(),
            final(self).spec_shm() == old(self).spec_shm(),
    {
        self.set_local(node_id, false);
    }

    /// Whether a node is registered as local; unknown nodes are not.
    pub fn is_local(&self, node_id: &str) -> (r: bool)
        ensures
            r == (lookup(self.locals(), node_id@) == Some(true)),
    {
        proof {
            lemma_key_index(self.locals(), node_id@);
        }
        match find_key(&self.local_nodes, node_id) {
            Some(i) => self.local_nodes[i].1,
            None => false,
        }
    }

    fn is_available(&self, k: TransportKind) -> (r: bool)
        ensures
            r == self.available().contains(k),
    {
        let mut i: usize = 0;
        while i < self.available_transports.len()
            invariant
                i <= self.available_transports@.len(),
                forall|j: int| 0 <= j < i ==> self.available_transports@[j] != k,
            decreases self.available_transports@.len() - i,
        {
            if self.available_transports[i] == k {
                assert(self.available()[i as int] == k);
                return true;
            }
            i += 1;
        }
        false
    }

    /// Selects the transport for a target node (see [`selected`]).
    pub fn select(&self, target: &NodeId) -> (k: TransportKind)
        ensures
            k == selected(
                self.locals(),
                self.hints(),
                self.available(),
                self.spec_shm(),
                target.0@,
            ),
    {
        proof {
            lemma_key_index_keys(key_view(self.agent_hints@), self.hints(), target.0@);
            lemma_key_index(self.hints(), target.0@);
        }
        match find_key(&self.agent_hints, target.0.as_str()) {
            Some(i) => {
                let hint = &self.agent_hints[i].1;
                assert(self.hints()[i as int].1 == hint_view(*hint));
                if hint.confident && self.is_available(hint.recommended) {
                    return hint.recommended;
                }
            },
            None => {},
        }
        if self.is_local(target.0.as_str()) && self.shm_available {
            TransportKind::SharedMemory
        } else {
            TransportKind::Tcp
        }
    }

    /// Records an agent hint for its target, replacing an earlier one.
    pub fn apply_hint(&mut self, hint: AgentTransportHint)
        requires
            old(self).wf(),
        ensures
            final(self).wf(),
            final(self).hints() == store(old(self).hints(), hint.target.0@, hint_view(hint)),
            final(self).locals() == old(self).locals(),
            final(self).active() == old(self).active(),
            final(self).available() == old(self).available(),
            final(self).spec_shm() == old(self).spec_shm(),
    {
        let ghost t0 = key_view(self.agent_hints@);
        let ghost h0 = self.hints();
        let ghost key = hint.target.0@;
        let ghost hv = hint_view(hint);
        proof {
            lemma_key_index(t0, key);
            lemma_key_index(h0, key);
            lemma_key_index_keys(t0, h0, key);
            lemma_store_distinct(t0, key, hint);
        }
        let name = hint.target.0.clone();
        match find_key(&self.agent_hints, name.as_str()) {
            Some(i) => {
                self.agent_hints.set(i, (name, hint));
                assert(self.hints() =~= h0.update(i as int, (key, hv)));
            },
            None => {
                self.agent_hints.push((name, hint));
                assert(self.hints() =~= h0.push((key, hv)));
            },
        }
        assert(key_view(self.agent_hints@) =~= store(t0, key, hint));
    }

    /// Forgets all agent hints.
    pub fn clear_hints(&mut self)
        requires
            old(self).wf(),
        ensures
            final(self).wf(),
            final(self).hints().len() == 0,
            final(self).locals() == old(self).locals(),
            final(self).active() == old(self).active(),
            final(self).available() == old(self).available(),
            final(self).spec_shm() == old(self).spec_shm(),
    {
        self.agent_hints = Vec::new();
        assert(key_view(self.agent_hints@) =~= Seq::<(Seq<char>, AgentTransportHint)>::empty());
    }

    /// The transport a target was last switched to, if any.
    pub fn active_transport(&self, target: &str) -> (r: Option<TransportKind>)
        ensures
            r == lookup(self.active(), target@),
    {
        proof {
            lemma_key_index(self.active(), target@);
        }
        match find_key(&self.active_transport, target) {
            Some(i) => Some(self.active_transport[i].1),
            None => None,
        }
    }

    /// Switches a target to another transport (drain, buffer, switch, replay). A
    /// transport that is not available is refused, with the reason, and nothing
    /// changes; otherwise the target's active transport becomes `to`. Nothing is
    /// drained or replayed; the duration is read from the clock.
    pub fn switch_transport(
        &mut self,
        target: &NodeId,
        from: TransportKind,
        to: TransportKind,
    ) -> (report: TransportSwitchReport)
        requires
            old(self).wf(),
        ensures
            final(self).wf(),
            report.success == old(self).available().contains(to),
            report.success ==> final(self).active() == store(old(self).active(), target.0@, to),
            !report.success ==> final(self).active() == old(self).active(),
            report.success ==> report.reason is None,
            !report.success ==> (report.reason matches Some(r) && r@ == unavailable_reason(to)),
            !report.success ==> report.switch_duration_us == 0,
            report.drained_count == 0,
            report.replayed_count == 0,
            final(self).locals() == old(self).locals(),
            final(self).hints() == old(self).hints(),
            final(self).available() == old(self).available(),
            final(self).spec_shm() == old(self).spec_shm(),
    {
        let start = instant_now();
        if !self.is_available(to) {
            let mut reason = "transport ".to_owned();
            reason.append(kind_name(to));
            reason.append(" not available");
            proof {
                reveal_strlit("transport ");
                reveal_strlit(" not available");
            }
            assert(reason@ =~= unavailable_reason(to));
            return TransportSwitchReport {
                success: false,
                drained_count: 0,
                replayed_count: 0,
                switch_duration_us: 0,
                reason: Some(reason),
            };
        }
        let ghost t0 = self.active();
        proof {
            lemma_key_index(t0, target.0@);
            lemma_store_distinct(t0, target.0@, to);
        }
        match find_key(&self.active_transport, target.0.as_str()) {
            Some(i) => {
                self.active_transport.set(i, (target.0.clone(), to));
            },
            None => {
                self.active_transport.push((target.0.clone(), to));
            },
        }
        assert(self.active() =~= store(t0, target.0@, to));
        let micros = elapsed_nanos(&start) / 1000;
        let us: u64 = if micros > (u64::MAX as u128) {
            u64::MAX
        } else {
            micros as u64
        };
        TransportSwitchReport {
            success: true,
            drained_count: 0,
            replayed_count: 0,
            switch_duration_us: us,
            reason: None,
        }
    }
}

/// After a successful switch the target's active transport is the new one, and
/// every other node keeps the transport it had.
pub proof fn law_switch_sets_active(
    active: Seq<(Seq<char>, TransportKind)>,
    target: Seq<char>,
    to: TransportKind,
    other: Seq<char>,
)
    requires
        keys_distinct(active),
    ensures
        lookup(store(active, target, to), target) == Some(to),
        other != target ==> lookup(store(active, target, to), other) == lookup(active, other),
{
    crate::table::lemma_lookup_store(active, target, to, target);
    crate::table::lemma_lookup_store(active, target, to, other);
}

/// A trusted hint for an available transport decides the selection; a hint that is
/// not trusted changes nothing.
pub proof fn law_hints_override_locality(
    locals: Seq<(Seq<char>, bool)>,
    hints: Seq<(Seq<char>, (TransportKind, bool))>,
    available: Seq<TransportKind>,
    shm_available: bool,
    target: Seq<char>,
    hint: (TransportKind, bool),
)
    requires
        keys_distinct(hints),
    ensures
        hint.1 && available.contains(hint.0) ==> selected(
            locals,
            store(hints, target, hint),
            available,
            shm_available,
            target,
        ) == hint.0,
        !hint.1 ==> selected(locals, store(hints, target, hint), available, shm_available, target)
            == selected(locals, Seq::empty(), available, shm_available, target),
{
    crate::table::lemma_lookup_store(hints, target, hint, target);
    let e: Seq<(Seq<char>, (TransportKind, bool))> = Seq::empty();
    assert(key_index(e, target) is None);
}

/// Without hints, a local node gets shared memory exactly when it is available, and
/// any other node gets TCP.
pub proof fn law_default_by_locality(
    locals: Seq<(Seq<char>, bool)>,
    available: Seq<TransportKind>,
    shm_available: bool,
    target: Seq<char>,
)
    ensures
        selected(locals, Seq::empty(), available, shm_available, target) == if lookup(locals, target)
            == Some(true) && shm_available {
            TransportKind::SharedMemory
        } else {
            TransportKind::Tcp
        },
{
    let e: Seq<(Seq<char>, (TransportKind, bool))> = Seq::empty();
    assert(key_index(e, target) is None);
}

/// The available transports are TCP and UDP, and shared memory exactly when it is
/// available; no other transport is. So a switch to shared memory succeeds exactly
/// when shared memory is available, and a switch to TCP or UDP always does.
pub proof fn law_available_transports(shm_available: bool, k: TransportKind)
    ensures
        transports_for(shm_available).contains(k) <==> (k == TransportKind::Tcp || k
            == TransportKind::Udp || (k == TransportKind::SharedMemory && shm_available)),
{
    let a = transports_for(shm_available);
    if k == TransportKind::Tcp {
        assert(a[0] == k);
    } else if k == TransportKind::Udp {
        assert(a[1] == k);
    } else if k == TransportKind::SharedMemory && shm_available {
        assert(a[2] == k);
    }
}

} // verus!
