//! Handles to an operator's input and output streams: the facades that
//! operator logic actually calls.

use vstd::prelude::*;

use crate::capability::Capability;
use crate::capability::mint_capability;
use crate::channels::Buffer;
use crate::channels::PullCounter;
use crate::channels::batches_at;
use crate::laws::CapOperation;
use crate::laws::op_delta_at;
use crate::progress::CountMap;
use crate::progress::Timestamp;

verus! {

proof fn lemma_batches_at_nonneg<T, D>(q: Seq<(T, Seq<D>)>, t: T)
    ensures
        batches_at(q, t) >= 0,
    decreases q.len(),
{
    if q.len() > 0 {
        lemma_batches_at_nonneg(q.drop_first(), t);
    }
}

/// Handle to an operator's input stream: a pull counter for the inbound
/// channel. Received batches are paired with freshly minted capabilities
/// against the operator's own obligation ledger, which the surrounding
/// runtime context owns and passes in.
pub struct InputHandle<T, D> {
    pull_counter: PullCounter<T, D>,
}

/// Constructs an input handle over the receive end of a channel.
pub fn new_input_handle<T: Timestamp, D>(pull_counter: PullCounter<T, D>) -> (r: InputHandle<T, D>)
    ensures
        r.well_formed() == pull_counter.well_formed(),
        r.queue_seq() == pull_counter.queue_seq(),
        r.consumed_map() == pull_counter.consumed_map(),
{
    InputHandle { pull_counter }
}

impl<T: Timestamp, D> InputHandle<T, D> {
    /// The batches not yet pulled, oldest first.
    pub closed spec fn queue_seq(self) -> Seq<(T, Seq<D>)> {
        self.pull_counter.queue_seq()
    }

    /// The channel-level counts accumulated since the last drain.
    pub closed spec fn consumed_map(self) -> CountMap<T> {
        self.pull_counter.consumed_map()
    }

    pub closed spec fn well_formed(self) -> bool {
        self.pull_counter.well_formed()
    }

    /// Reads the next input batch, at some timestamp `t`, together with a
    /// capability for `t` minted against `internal`, the operator's own
    /// obligation ledger. The channel count for `t` is decremented and the
    /// operator's ledger is incremented by the mint. Returns `None` when
    /// no batch is available right now.
    pub fn next(&mut self, internal: &mut CountMap<T>) -> (r: Option<(Capability<T>, Vec<D>)>)
        requires
            old(self).well_formed(),
            old(internal).well_formed(),
            old(self).queue_seq().len() > 0 ==> old(self).consumed_map().count(
                old(self).queue_seq()[0].0,
            ) > i64::MIN && old(internal).count(old(self).queue_seq()[0].0) < i64::MAX,
        ensures
            final(self).well_formed(),
            final(internal).well_formed(),
            match r {
                None => old(self).queue_seq().len() == 0 && *final(self) == *old(self)
                    && *final(internal) == *old(internal),
                Some(p) => {
                    &&& old(self).queue_seq().len() > 0
                    &&& p.0@ == old(self).queue_seq()[0].0
                    &&& p.1@ == old(self).queue_seq()[0].1
                    &&& final(self).queue_seq() == old(self).queue_seq().drop_first()
                    &&& final(self).consumed_map().count(p.0@) == old(self).consumed_map().count(
                        p.0@,
                    ) - 1
                    &&& forall|t: T|
                        t != p.0@ ==> final(self).consumed_map().count(t) == old(
                            self,
                        ).consumed_map().count(t)
                    &&& forall|t: T| #[trigger]
                        final(internal).count(t) == old(internal).count(t) + op_delta_at(
                            CapOperation::Mint(p.0@),
                            t,
                        )
                },
            },
    {
        match self.pull_counter.next() {
            None => None,
            Some(p) => {
                let cap = mint_capability(p.0, internal);
                Some((cap, p.1))
            },
        }
    }

    /// Repeatedly calls `logic` until the available input is exhausted.
    /// Each call receives the accumulated state, a borrowed live
    /// capability for the batch's timestamp and the batch itself, and
    /// returns the new state.
    ///
    /// The handle mints each capability before invoking `logic` and
    /// releases it once `logic` returns, so no obligation leaks: the
    /// operator's ledger ends exactly where it began, whatever `logic`
    /// does. The channel count is decremented once per delivered batch.
    pub fn for_each<S, F: Fn(S, &Capability<T>, Vec<D>) -> S>(
        &mut self,
        internal: &mut CountMap<T>,
        state: S,
        logic: F,
    ) -> (r: S)
        requires
            old(self).well_formed(),
            old(internal).well_formed(),
            forall|t: T| #[trigger] old(internal).count(t) < i64::MAX,
            forall|t: T| #[trigger]
                old(self).consumed_map().count(t) - batches_at(old(self).queue_seq(), t)
                    > i64::MIN,
            forall|s: S, c: Capability<T>, d: Vec<D>| #[trigger] call_requires(logic, (s, &c, d)),
        ensures
            final(self).well_formed(),
            final(internal).well_formed(),
            final(self).queue_seq().len() == 0,
            forall|t: T| #[trigger] final(internal).count(t) == old(internal).count(t),
            forall|t: T| #[trigger]
                final(self).consumed_map().count(t) == old(self).consumed_map().count(t)
                    - batches_at(old(self).queue_seq(), t),
    {
        let mut s = state;
        loop
            invariant_except_break
                self.well_formed(),
                internal.well_formed(),
                forall|t: T| #[trigger] internal.count(t) == old(internal).count(t),
                forall|t: T| #[trigger] old(internal).count(t) < i64::MAX,
                forall|t: T| #[trigger]
                    self.consumed_map().count(t) - batches_at(self.queue_seq(), t) == old(
                        self,
                    ).consumed_map().count(t) - batches_at(old(self).queue_seq(), t),
                forall|t: T| #[trigger]
                    old(self).consumed_map().count(t) - batches_at(old(self).queue_seq(), t)
                        > i64::MIN,
                forall|s2: S, c: Capability<T>, d: Vec<D>| #[trigger]
                    call_requires(logic, (s2, &c, d)),
            ensures
                self.well_formed(),
                internal.well_formed(),
                self.queue_seq().len() == 0,
                forall|t: T| #[trigger] internal.count(t) == old(internal).count(t),
                forall|t: T| #[trigger]
                    self.consumed_map().count(t) == old(self).consumed_map().count(t) - batches_at(
                        old(self).queue_seq(),
                        t,
                    ),
            decreases self.queue_seq().len(),
        {
            let ghost q_before = self.queue_seq();
            let ghost internal_before = *internal;
            proof {
                if q_before.len() > 0 {
                    lemma_batches_at_nonneg(q_before.drop_first(), q_before[0].0);
                }
            }
            match self.next(internal) {
                None => {
                    proof {
                        assert forall|t: T| #[trigger]
                            self.consumed_map().count(t) == old(self).consumed_map().count(t)
                                - batches_at(old(self).queue_seq(), t) by {
                            assert(batches_at(self.queue_seq(), t) == 0);
                        }
                    }
                    break;
                },
                Some((cap, data)) => {
                    s = logic(s, &cap, data);
                    proof {
                        internal_before.lemma_count_in_range(cap@);
                    }
                    cap.release(internal);
                    proof {
                        assert forall|t: T| #[trigger]
                            self.consumed_map().count(t) - batches_at(self.queue_seq(), t) == old(
                                self,
                            ).consumed_map().count(t) - batches_at(old(self).queue_seq(), t) by {
                            assert(batches_at(q_before, t) == (if q_before[0].0 == t {
                                1int
                            } else {
                                0int
                            }) + batches_at(q_before.drop_first(), t));
                        }
                    }
                },
            }
        }
        s
    }

    /// Hands the accumulated channel counts to the progress tracker,
    /// leaving them empty.
    pub fn drain_consumed(&mut self) -> (r: Vec<(T, i64)>)
        requires
            old(self).well_formed(),
        ensures
            final(self).well_formed(),
            final(self).queue_seq() == old(self).queue_seq(),
            forall|t: T| final(self).consumed_map().count(t) == 0,
            forall|t: T| #[trigger]
                crate::progress::seq_count(r@, t) == old(self).consumed_map().count(t),
    {
        self.pull_counter.drain_consumed()
    }
}

/// Handle to an operator's output stream: a thin facade over the staging
/// buffer of the push side. Output can only be produced through a session
/// opened against a capability, which ties every emitted record to an
/// outstanding obligation recorded upstream.
pub struct OutputHandle<T, D> {
    push_buffer: Buffer<T, D>,
}

/// Constructs an output handle over a staging buffer.
pub fn new_output_handle<T: Timestamp, D>(push_buffer: Buffer<T, D>) -> (r: OutputHandle<T, D>)
    ensures
        r.well_formed() == push_buffer.well_formed(),
        r.active_time() == push_buffer.active_time(),
        r.staged_seq() == push_buffer.staged_seq(),
        r.sent_seq() == push_buffer.sent_seq(),
        r.produced_map() == push_buffer.produced_map(),
{
    OutputHandle { push_buffer }
}

impl<T: Timestamp, D> OutputHandle<T, D> {
    /// The timestamp of the open session, if one is open.
    pub closed spec fn active_time(self) -> Option<T> {
        self.push_buffer.active_time()
    }

    /// The records staged and not yet flushed.
    pub closed spec fn staged_seq(self) -> Seq<D> {
        self.push_buffer.staged_seq()
    }

    /// The batches flushed downstream and not yet taken by the transport.
    pub closed spec fn sent_seq(self) -> Seq<(T, Seq<D>)> {
        self.push_buffer.sent_seq()
    }

    /// The downstream counts accumulated since the last drain.
    pub closed spec fn produced_map(self) -> CountMap<T> {
        self.push_buffer.produced_map()
    }

    pub closed spec fn well_formed(self) -> bool {
        self.push_buffer.well_formed()
    }

    /// Opens a session that sends at the timestamp of `cap`. Records
    /// staged for a different timestamp are flushed first. To send at a
    /// future timestamp, delay a capability to it first and open the
    /// session against the delayed capability.
    pub fn session(&mut self, cap: &Capability<T>)
        requires
            old(self).well_formed(),
            old(self).staged_seq().len() > 0 && old(self).active_time() != Some(cap@) ==> old(
                self,
            ).produced_map().count(old(self).active_time().unwrap()) < i64::MAX,
        ensures
            final(self).well_formed(),
            final(self).active_time() == Some(cap@),
            old(self).active_time() == Some(cap@) ==> final(self).staged_seq() == old(
                self,
            ).staged_seq() && final(self).sent_seq() == old(self).sent_seq() && (forall|t: T|
                final(self).produced_map().count(t) == old(self).produced_map().count(t)),
            old(self).active_time() != Some(cap@) ==> {
                &&& final(self).staged_seq().len() == 0
                &&& (old(self).staged_seq().len() == 0 ==> final(self).sent_seq() == old(
                    self,
                ).sent_seq() && (forall|t: T|
                    final(self).produced_map().count(t) == old(self).produced_map().count(t)))
                &&& (old(self).staged_seq().len() > 0 ==> {
                    let time = old(self).active_time().unwrap();
                    &&& final(self).sent_seq() == old(self).sent_seq().push(
                        (time, old(self).staged_seq()),
                    )
                    &&& final(self).produced_map().count(time) == old(self).produced_map().count(
                        time,
                    ) + 1
                    &&& forall|t: T|
                        t != time ==> final(self).produced_map().count(t) == old(
                            self,
                        ).produced_map().count(t)
                })
            },
    {
        self.push_buffer.session(cap);
    }

    /// Stages one record at the open session's timestamp.
    pub fn give(&mut self, record: D)
        requires
            old(self).well_formed(),
            old(self).active_time() is Some,
            old(self).produced_map().count(old(self).active_time().unwrap()) < i64::MAX,
        ensures
            final(self).well_formed(),
            final(self).active_time() == old(self).active_time(),
            old(self).staged_seq().len() + 1 < crate::channels::FLUSH_THRESHOLD
                ==> final(self).staged_seq() == old(self).staged_seq().push(record)
                && final(self).sent_seq() == old(self).sent_seq() && (forall|t: T|
                final(self).produced_map().count(t) == old(self).produced_map().count(t)),
            old(self).staged_seq().len() + 1 == crate::channels::FLUSH_THRESHOLD ==> {
                let time = old(self).active_time().unwrap();
                &&& final(self).staged_seq().len() == 0
                &&& final(self).sent_seq() == old(self).sent_seq().push(
                    (time, old(self).staged_seq().push(record)),
                )
                &&& final(self).produced_map().count(time) == old(self).produced_map().count(time)
                    + 1
                &&& forall|t: T|
                    t != time ==> final(self).produced_map().count(t) == old(
                        self,
                    ).produced_map().count(t)
            },
    {
        self.push_buffer.give(record);
    }

    /// Ends the handle's scope: flushes whatever is staged, below the
    /// threshold or not, and closes the session. Partial batches are never
    /// silently dropped.
    pub fn cease(&mut self)
        requires
            old(self).well_formed(),
            old(self).staged_seq().len() > 0 ==> old(self).produced_map().count(
                old(self).active_time().unwrap(),
            ) < i64::MAX,
        ensures
            final(self).well_formed(),
            final(self).active_time() is None,
            final(self).staged_seq().len() == 0,
            old(self).staged_seq().len() == 0 ==> final(self).sent_seq() == old(self).sent_seq()
                && (forall|t: T|
                final(self).produced_map().count(t) == old(self).produced_map().count(t)),
            old(self).staged_seq().len() > 0 ==> {
                let time = old(self).active_time().unwrap();
                &&& final(self).sent_seq() == old(self).sent_seq().push(
                    (time, old(self).staged_seq()),
                )
                &&& final(self).produced_map().count(time) == old(self).produced_map().count(time)
                    + 1
                &&& forall|t: T|
                    t != time ==> final(self).produced_map().count(t) == old(
                        self,
                    ).produced_map().count(t)
            },
    {
        self.push_buffer.cease();
    }

    /// Takes the flushed batches for the transport to deliver.
    pub fn take_sent(&mut self) -> (r: Vec<(T, Vec<D>)>)
        requires
            old(self).well_formed(),
        ensures
            final(self).well_formed(),
            crate::channels::view_batches(r@) == old(self).sent_seq(),
            final(self).sent_seq().len() == 0,
            final(self).active_time() == old(self).active_time(),
            final(self).staged_seq() == old(self).staged_seq(),
            forall|t: T| final(self).produced_map().count(t) == old(self).produced_map().count(t),
    {
        self.push_buffer.take_sent()
    }

    /// Hands the accumulated downstream counts to the progress tracker,
    /// leaving them empty.
    pub fn drain_produced(&mut self) -> (r: Vec<(T, i64)>)
        requires
            old(self).well_formed(),
        ensures
            final(self).well_formed(),
            final(self).sent_seq() == old(self).sent_seq(),
            final(self).active_time() == old(self).active_time(),
            final(self).staged_seq() == old(self).staged_seq(),
            forall|t: T| final(self).produced_map().count(t) == 0,
            forall|t: T| #[trigger]
                crate::progress::seq_count(r@, t) == old(self).produced_map().count(t),
    {
        self.push_buffer.drain_produced()
    }
}

} // verus!
