//! Command validation: which safety boundary an actuator command falls under, and
//! which values of its payload are checked against it.
//!
//! A command on `…/{node}/{port}` falls under the boundary registered for `node`.
//! Its payload starts with the commanded velocity and, if long enough, the
//! acceleration, each a little-endian `f64`. Comparing those floating-point values
//! with the boundary's limits is done by the caller, which reports clamps back.

use vstd::prelude::*;
use crate::keyexpr::KeyExpr;
use crate::table::{key_index, key_view, keys_distinct, lemma_key_index, lemma_store_distinct, lookup, store};
use crate::text::{char_views, chars_eq, chars_of, split_chars, split_on};
use crate::wire::read_u64_at;
use crate::zbuf::{bytes_slice, bytes_view};
use bytes::Bytes;

verus! {

/// The node a command on `topic` is for: the second-to-last level, if there are at
/// least two.
pub open spec fn command_target(topic: Seq<char>) -> Option<Seq<char>> {
    let parts = split_on(topic, '/');
    if parts.len() >= 2 {
        Some(parts[parts.len() - 2])
    } else {
        None
    }
}

/// The values of a command payload that are checked, as the bit patterns of
/// little-endian `f64`s.
#[derive(Clone, Copy, Debug, PartialEq, Eq, Structural)]
pub enum CommandValues {
    /// Fewer than 8 bytes: nothing to check.
    Nothing,
    /// 8 to 15 bytes: a velocity.
    Velocity(u64),
    /// 16 bytes or more: a velocity and an acceleration.
    VelocityAndAcceleration(u64, u64),
}

/// The values a payload carries.
pub open spec fn values_of(payload: Seq<u8>) -> CommandValues {
    if payload.len() < 8 {
        CommandValues::Nothing
    } else if payload.len() < 16 {
        CommandValues::Velocity(read_u64_at(payload, 0))
    } else {
        CommandValues::VelocityAndAcceleration(read_u64_at(payload, 0), read_u64_at(payload, 8))
    }
}

/// The values a command payload carries (see [`values_of`]).
pub fn command_values(payload: &Bytes) -> (v: CommandValues)
    ensures
        v == values_of(bytes_view(*payload)),
{
    let payload = vstd::slice::slice_to_vec(bytes_slice(payload));
    if payload.len() < 8 {
        CommandValues::Nothing
    } else if payload.len() < 16 {
        CommandValues::Velocity(crate::wire::get_u64(&payload, 0))
    } else {
        CommandValues::VelocityAndAcceleration(
            crate::wire::get_u64(&payload, 0),
            crate::wire::get_u64(&payload, 8),
        )
    }
}

/// Validator of actuator commands, with a safety boundary per node.
pub struct CommandValidator<B> {
    boundaries: Vec<(String, B)>,
    total_validated: u64,
    total_rejected: u64,
    total_clamped: u64,
}

impl<B> CommandValidator<B> {
    /// The boundaries, by node, in registration order.
    pub closed spec fn table(&self) -> Seq<(Seq<char>, B)> {
        key_view(self.boundaries@)
    }

    /// Commands validated.
    pub closed spec fn spec_validated(&self) -> u64 {
        self.total_validated
    }

    /// Commands rejected.
    pub closed spec fn spec_rejected(&self) -> u64 {
        self.total_rejected
    }

    /// Commands clamped.
    pub closed spec fn spec_clamped(&self) -> u64 {
        self.total_clamped
    }

    /// Well-formedness: one boundary per node.
    pub closed spec fn wf(&self) -> bool {
        keys_distinct(self.table())
    }

    /// A validator with no boundaries and nothing counted.
    pub fn new() -> (v: CommandValidator<B>)
        ensures
            v.wf(),
            v.table().len() == 0,
            v.spec_validated() == 0,
            v.spec_rejected() == 0,
            v.spec_clamped() == 0,
    {
        let v = CommandValidator {
            boundaries: Vec::new(),
            total_validated: 0,
            total_rejected: 0,
            total_clamped: 0,
        };
        assert(v.table() =~= Seq::<(Seq<char>, B)>::empty());
        v
    }

    /// Registers the boundary of a node, replacing an earlier one.
    pub fn add_boundary(&mut self, node_id: &str, boundary: B)
        requires
            old(self).wf(),
        ensures
            final(self).wf(),
            final(self).table() == store(old(self).table(), node_id@, boundary),
            final(self).spec_validated() == old(self).spec_validated(),
            final(self).spec_rejected() == old(self).spec_rejected(),
            final(self).spec_clamped() == old(self).spec_clamped(),
    {
        let ghost t0 = self.table();
        proof {
            lemma_key_index(t0, node_id@);
            lemma_store_distinct(t0, node_id@, boundary);
        }
        match crate::table::find_key(&self.boundaries, node_id) {
            Some(i) => {
                self.boundaries.set(i, (node_id.to_owned(), boundary));
            },
            None => {
                self.boundaries.push((node_id.to_owned(), boundary));
            },
        }
        assert(self.table() =~= store(t0, node_id@, boundary));
    }

    /// The boundary a command on `topic` falls under, if its node has one.
    pub fn boundary_for(&self, topic: &KeyExpr) -> (r: Option<&B>)
        ensures
            match command_target(topic.0@) {
                Some(node) => match lookup(self.table(), node) {
                    Some(b) => r matches Some(x) && *x == b,
                    None => r is None,
                },
                None => r is None,
            },
    {
        let chars = chars_of(topic.0.as_str());
        let parts = split_chars(&chars, '/');
        if parts.len() < 2 {
            return None;
        }
        let node = &parts[parts.len() - 2];
        assert(char_views(parts@)[parts@.len() - 2] == node@);
        assert(command_target(topic.0@) == Some(node@));
        let ghost t = self.table();
        proof {
            lemma_key_index(t, node@);
        }
        let mut k = self.boundaries.len();
        assert(t.take(k as int) =~= t);
        while k > 0
            invariant
                k <= self.boundaries@.len(),
                t == self.table(),
                command_target(topic.0@) == Some(node@),
                key_index(t, node@) == key_index(t.take(k as int), node@),
            decreases k,
        {
            assert(t.take(k as int).drop_last() =~= t.take(k - 1));
            assert(t.take(k as int).last() == t[k - 1]);
            let name = chars_of(self.boundaries[k - 1].0.as_str());
            if chars_eq(&name, node) {
                assert(t[k - 1] == (self.boundaries@[k - 1].0@, self.boundaries@[k - 1].1));
                assert(key_index(t.take(k as int), node@) == Some(k - 1));
                return Some(&self.boundaries[k - 1].1);
            }
            k -= 1;
        }
        assert(key_index(t.take(0), node@) is None);
        None
    }

    /// Counts a command as validated (counting modulo 2^64).
    pub fn note_validated(&mut self)
        ensures
            final(self).spec_validated() == old(self).spec_validated().wrapping_add(1),
            final(self).spec_rejected() == old(self).spec_rejected(),
            final(self).spec_clamped() == old(self).spec_clamped(),
            final(self).table() == old(self).table(),
            final(self).wf() == old(self).wf(),
    {
        self.total_validated = self.total_validated.wrapping_add(1);
    }

    /// Counts a command as clamped (counting modulo 2^64).
    pub fn note_clamped(&mut self)
        ensures
            final(self).spec_clamped() == old(self).spec_clamped().wrapping_add(1),
            final(self).spec_validated() == old(self).spec_validated(),
            final(self).spec_rejected() == old(self).spec_rejected(),
            final(self).table() == old(self).table(),
            final(self).wf() == old(self).wf(),
    {
        self.total_clamped = self.total_clamped.wrapping_add(1);
    }

    /// Commands validated.
    pub fn total_validated(&self) -> (n: u64)
        ensures
            n == self.spec_validated(),
    {
        self.total_validated
    }

    /// Commands rejected.
    pub fn total_rejected(&self) -> (n: u64)
        ensures
            n == self.spec_rejected(),
    {
        self.total_rejected
    }

    /// Commands clamped.
    pub fn total_clamped(&self) -> (n: u64)
        ensures
            n == self.spec_clamped(),
    {
        self.total_clamped
    }
}

} // verus!
