//! The accounting laws of the capability layer.
//!
//! A ledger only ever changes through four capability operations: minting,
//! duplicating, delaying and releasing. This module models a history of such
//! operations as a sequence, defines the ledger state and the multiset of
//! live capabilities that the history produces, and proves the laws that
//! relate them: conservation of obligations and absence of negative counts.
//! The contracts of the executable operations in [`crate::capability`] state
//! their ledger effect through [`op_delta_at`], so these laws apply to every
//! run of the executable layer.

use vstd::prelude::*;
use vstd::multiset::Multiset;

use crate::progress::Timestamp;

verus! {

/// One capability operation against a ledger, recorded with the timestamps
/// it involves.
pub enum CapOperation<T> {
    /// A fresh capability was minted at the timestamp.
    Mint(T),
    /// A capability held at the timestamp was duplicated.
    Duplicate(T),
    /// A capability held at the first timestamp was delayed to the second.
    Delay(T, T),
    /// A capability held at the timestamp was released.
    Release(T),
}

/// The delta that one operation applies to the ledger entry of timestamp
/// `t`: `+1` where an obligation is created, `-1` where one is retired.
pub open spec fn op_delta_at<T>(op: CapOperation<T>, t: T) -> int {
    match op {
        CapOperation::Mint(m) => if t == m {
            1int
        } else {
            0int
        },
        CapOperation::Duplicate(m) => if t == m {
            1int
        } else {
            0int
        },
        CapOperation::Delay(from, to) => (if t == to {
            1int
        } else {
            0int
        }) - (if t == from {
            1int
        } else {
            0int
        }),
        CapOperation::Release(m) => if t == m {
            -1int
        } else {
            0int
        },
    }
}

/// The ledger entry for timestamp `t` after a history of operations has
/// been applied to an initially empty ledger.
pub open spec fn ledger_after<T>(ops: Seq<CapOperation<T>>, t: T) -> int
    decreases ops.len(),
{
    if ops.len() == 0 {
        0
    } else {
        ledger_after(ops.drop_last(), t) + op_delta_at(ops.last(), t)
    }
}

/// The delta that one operation applies to the sum of all ledger entries.
pub open spec fn op_total<T>(op: CapOperation<T>) -> int {
    match op {
        CapOperation::Mint(_) => 1,
        CapOperation::Duplicate(_) => 1,
        CapOperation::Delay(_, _) => 0,
        CapOperation::Release(_) => -1,
    }
}

/// The sum of all ledger entries after a history of operations.
pub open spec fn total_after<T>(ops: Seq<CapOperation<T>>) -> int
    decreases ops.len(),
{
    if ops.len() == 0 {
        0
    } else {
        total_after(ops.drop_last()) + op_total(ops.last())
    }
}

/// How many operations of the history are mints.
pub open spec fn num_mints<T>(ops: Seq<CapOperation<T>>) -> int
    decreases ops.len(),
{
    if ops.len() == 0 {
        0
    } else {
        num_mints(ops.drop_last()) + if ops.last() is Mint {
            1int
        } else {
            0int
        }
    }
}

/// How many operations of the history are duplications.
pub open spec fn num_duplicates<T>(ops: Seq<CapOperation<T>>) -> int
    decreases ops.len(),
{
    if ops.len() == 0 {
        0
    } else {
        num_duplicates(ops.drop_last()) + if ops.last() is Duplicate {
            1int
        } else {
            0int
        }
    }
}

/// How many operations of the history are delays.
pub open spec fn num_delays<T>(ops: Seq<CapOperation<T>>) -> int
    decreases ops.len(),
{
    if ops.len() == 0 {
        0
    } else {
        num_delays(ops.drop_last()) + if ops.last() is Delay {
            1int
        } else {
            0int
        }
    }
}

/// How many operations of the history are releases.
pub open spec fn num_releases<T>(ops: Seq<CapOperation<T>>) -> int
    decreases ops.len(),
{
    if ops.len() == 0 {
        0
    } else {
        num_releases(ops.drop_last()) + if ops.last() is Release {
            1int
        } else {
            0int
        }
    }
}

/// The multiset of timestamps at which capabilities are live after a
/// history of operations: minting and duplicating add one, delaying moves
/// one, releasing removes one.
pub open spec fn live_after<T>(ops: Seq<CapOperation<T>>) -> Multiset<T>
    decreases ops.len(),
{
    if ops.len() == 0 {
        Multiset::empty()
    } else {
        let prev = live_after(ops.drop_last());
        match ops.last() {
            CapOperation::Mint(t) => prev.insert(t),
            CapOperation::Duplicate(t) => prev.insert(t),
            CapOperation::Delay(from, to) => prev.remove(from).insert(to),
            CapOperation::Release(t) => prev.remove(t),
        }
    }
}

/// A history is valid when every duplication, delay and release acts on a
/// capability that is live at that point, and every delay moves forward in
/// the partial order. These are exactly the uses the executable layer
/// permits: `duplicate`, `delayed` and `release` take a capability the
/// caller holds, and `delayed` requires the order.
pub open spec fn valid_history<T: Timestamp>(ops: Seq<CapOperation<T>>) -> bool
    decreases ops.len(),
{
    if ops.len() == 0 {
        true
    } else {
        let prev = live_after(ops.drop_last());
        valid_history(ops.drop_last()) && match ops.last() {
            CapOperation::Mint(_) => true,
            CapOperation::Duplicate(t) => prev.count(t) > 0,
            CapOperation::Delay(from, to) => prev.count(from) > 0 && from.le(to),
            CapOperation::Release(t) => prev.count(t) > 0,
        }
    }
}

/// Extending a history by one operation moves every ledger entry by that
/// operation's delta. The executable operations promise exactly this step
/// over [`crate::progress::CountMap::count`], so a run of the executable
/// layer walks the model history one operation at a time.
pub proof fn lemma_ledger_step<T>(ops: Seq<CapOperation<T>>, op: CapOperation<T>, t: T)
    ensures
        ledger_after(ops.push(op), t) == ledger_after(ops, t) + op_delta_at(op, t),
{
    assert(ops.push(op).drop_last() =~= ops);
}

/// Conservation of obligations, as a running sum: after any history of
/// capability operations, the sum of all ledger deltas equals the mints,
/// duplications and delayed-in obligations minus the releases and
/// delayed-out obligations.
pub proof fn lemma_conservation<T>(ops: Seq<CapOperation<T>>)
    ensures
        total_after(ops) == (num_mints(ops) + num_duplicates(ops) + num_delays(ops)) - (
        num_releases(ops) + num_delays(ops)),
    decreases ops.len(),
{
    if ops.len() > 0 {
        lemma_conservation(ops.drop_last());
    }
}

/// After a valid history, the ledger entry of every timestamp equals the
/// number of live capabilities bound to it. This is the core invariant of
/// the layer: every live capability is matched by exactly one unretired
/// `+1` in its ledger.
pub proof fn lemma_ledger_matches_live<T: Timestamp>(ops: Seq<CapOperation<T>>, t: T)
    requires
        valid_history(ops),
    ensures
        ledger_after(ops, t) == live_after(ops).count(t),
    decreases ops.len(),
{
    broadcast use vstd::multiset::group_multiset_axioms;

    if ops.len() > 0 {
        lemma_ledger_matches_live(ops.drop_last(), t);
    }
}

/// No negative leakage: no valid history drives any ledger entry below
/// zero, at any timestamp, minted before or never.
pub proof fn lemma_no_negative_counts<T: Timestamp>(ops: Seq<CapOperation<T>>, t: T)
    requires
        valid_history(ops),
    ensures
        ledger_after(ops, t) >= 0,
{
    lemma_ledger_matches_live(ops, t);
}

/// Conservation of obligations, counted against live capabilities: after a
/// valid history the sum of all ledger deltas equals the number of live
/// capabilities.
pub proof fn lemma_total_matches_live<T: Timestamp>(ops: Seq<CapOperation<T>>)
    requires
        valid_history(ops),
    ensures
        total_after(ops) == live_after(ops).len(),
    decreases ops.len(),
{
    broadcast use vstd::multiset::group_multiset_axioms;

    if ops.len() > 0 {
        lemma_total_matches_live(ops.drop_last());
        let prev = live_after(ops.drop_last());
        match ops.last() {
            CapOperation::Mint(m) => {
                assert(prev.insert(m).len() == prev.len() + 1);
            },
            CapOperation::Duplicate(m) => {
                assert(prev.insert(m).len() == prev.len() + 1);
            },
            CapOperation::Delay(from, to) => {
                lemma_remove_len(prev, from);
                assert(prev.remove(from).insert(to).len() == prev.remove(from).len() + 1);
            },
            CapOperation::Release(m) => {
                lemma_remove_len(prev, m);
            },
        }
    }
}

/// Removing a present element from a multiset shrinks it by one.
proof fn lemma_remove_len<T>(m: Multiset<T>, t: T)
    requires
        m.count(t) > 0,
    ensures
        m.remove(t).len() == m.len() - 1,
{
    broadcast use vstd::multiset::group_multiset_axioms;

    assert(Multiset::singleton(t).subset_of(m)) by {
        assert forall|u: T| Multiset::singleton(t).count(u) <= m.count(u) by {}
    }
}

} // verus!
