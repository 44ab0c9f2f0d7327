//! The permission token to produce output at a timestamp.

use vstd::prelude::*;

use crate::laws::CapOperation;
use crate::laws::op_delta_at;
use crate::progress::CountMap;
use crate::progress::Timestamp;

verus! {

/// Permission to produce output at (or, after delaying, beyond) one
/// timestamp, on behalf of one outstanding obligation.
///
/// Every live capability corresponds to exactly one `+1` recorded in the
/// ledger it was minted against and not yet matched by a `-1`. The type has
/// no `Clone` impl and `delayed` and `release` take the token by value, so
/// an obligation can be retired only once; duplicating one records a fresh
/// `+1`. The view of a capability is its timestamp.
///
/// The ledger is owned by the operator's runtime context and passed to
/// every operation by mutable reference; within one worker all mutation is
/// sequential, so no synchronization is needed. Each operation must be
/// given the ledger its capability was minted against: the accounting laws
/// in [`crate::laws`] describe histories routed this way.
pub struct Capability<T> {
    time: T,
}

impl<T> View for Capability<T> {
    type V = T;

    closed spec fn view(&self) -> T {
        self.time
    }
}

/// Mints a fresh capability at `time`, recording one new obligation (`+1`
/// at `time`) in the ledger. This is how the input side turns a received
/// batch into a permission to respond to it; every other capability is a
/// duplicate or delayed derivation of a minted one.
pub fn mint_capability<T: Timestamp>(time: T, internal: &mut CountMap<T>) -> (cap: Capability<T>)
    requires
        old(internal).well_formed(),
        old(internal).count(time) < i64::MAX,
    ensures
        final(internal).well_formed(),
        cap@ == time,
        forall|t: T| #[trigger]
            final(internal).count(t) == old(internal).count(t) + op_delta_at(
                CapOperation::Mint(time),
                t,
            ),
{
    proof {
        internal.lemma_count_in_range(time);
    }
    internal.update(&time, 1);
    Capability { time }
}

impl<T: Timestamp> Capability<T> {
    /// The timestamp this capability is bound to.
    pub fn time(&self) -> (r: T)
        ensures
            r == self@,
    {
        self.time
    }

    /// Records a second, independent obligation at the same timestamp
    /// (`+1` at `time()`) and returns a new capability for it.
    pub fn duplicate(&self, internal: &mut CountMap<T>) -> (cap: Capability<T>)
        requires
            old(internal).well_formed(),
            old(internal).count(self@) < i64::MAX,
        ensures
            final(internal).well_formed(),
            cap@ == self@,
            forall|t: T| #[trigger]
                final(internal).count(t) == old(internal).count(t) + op_delta_at(
                    CapOperation::Duplicate(self@),
                    t,
                ),
    {
        proof {
            internal.lemma_count_in_range(self@);
        }
        internal.update(&self.time, 1);
        Capability { time: self.time }
    }

    /// Moves this obligation forward to `new_time`, which must lie at or
    /// beyond the current timestamp in the partial order. Records `+1` at
    /// `new_time` and `-1` at `time()` as one step and returns the
    /// capability for the later time; the original token is consumed, so
    /// its retired obligation cannot be spent again. To keep producing at
    /// the original time as well, `duplicate` first.
    pub fn delayed(self, new_time: T, internal: &mut CountMap<T>) -> (cap: Capability<T>)
        requires
            old(internal).well_formed(),
            self@.le(new_time),
            old(internal).count(new_time) < i64::MAX,
            old(internal).count(self@) > i64::MIN,
        ensures
            final(internal).well_formed(),
            cap@ == new_time,
            forall|t: T| #[trigger]
                final(internal).count(t) == old(internal).count(t) + op_delta_at(
                    CapOperation::Delay(self@, new_time),
                    t,
                ),
    {
        proof {
            internal.lemma_count_in_range(new_time);
            internal.lemma_count_in_range(self@);
        }
        internal.update(&new_time, 1);
        internal.update(&self.time, -1);
        Capability { time: new_time }
    }

    /// Like `delayed`, but instead of demanding `time() ≤ new_time` it
    /// reports the violation: the delay succeeds exactly when the new time
    /// lies at or beyond the current one, and otherwise the ledger is
    /// untouched and the original capability is handed back.
    pub fn try_delayed(self, new_time: T, internal: &mut CountMap<T>) -> (r: Result<
        Capability<T>,
        Capability<T>,
    >)
        requires
            old(internal).well_formed(),
            old(internal).count(new_time) < i64::MAX,
            old(internal).count(self@) > i64::MIN,
        ensures
            final(internal).well_formed(),
            r is Ok <==> self@.le(new_time),
            (r matches Ok(cap) ==> cap@ == new_time && forall|t: T| #[trigger]
                final(internal).count(t) == old(internal).count(t) + op_delta_at(
                    CapOperation::Delay(self@, new_time),
                    t,
                )),
            (r matches Err(orig) ==> orig@ == self@ && *final(internal) == *old(internal)),
    {
        if self.time.less_equal(&new_time) {
            Ok(self.delayed(new_time, internal))
        } else {
            Err(self)
        }
    }

    /// Retires this obligation, recording `-1` at `time()`. Dropping a
    /// capability is how an operator signals that it will produce no more
    /// output at its timestamp.
    pub fn release(self, internal: &mut CountMap<T>)
        requires
            old(internal).well_formed(),
            old(internal).count(self@) > i64::MIN,
        ensures
            final(internal).well_formed(),
            forall|t: T| #[trigger]
                final(internal).count(t) == old(internal).count(t) + op_delta_at(
                    CapOperation::Release(self@),
                    t,
                ),
    {
        proof {
            internal.lemma_count_in_range(self@);
        }
        internal.update(&self.time, -1);
    }
}

} // verus!
