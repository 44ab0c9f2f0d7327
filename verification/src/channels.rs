//! Counting adapters around the raw channel endpoints.
//!
//! A raw channel moves timestamped batches without any accounting. The pull
//! side wraps its receive end in a [`PullCounter`], which notes every batch
//! it absorbs; the push side wraps its send end in a [`PushCounter`] behind
//! a [`Buffer`] that stages records per timestamp until a flush. The counts
//! both sides accumulate are drained by the external progress tracker.

use vstd::prelude::*;

use crate::capability::Capability;
use crate::progress::CountMap;
use crate::progress::Timestamp;

verus! {

/// Records are staged in the buffer until this many have accumulated, at
/// which point they are flushed as one batch.
pub const FLUSH_THRESHOLD: usize = 1024;

/// The mathematical view of a vector of timestamped batches.
pub open spec fn view_batches<T, D>(s: Seq<(T, Vec<D>)>) -> Seq<(T, Seq<D>)> {
    s.map_values(|p: (T, Vec<D>)| (p.0, p.1@))
}

proof fn lemma_view_batches_push<T, D>(s: Seq<(T, Vec<D>)>, p: (T, Vec<D>))
    ensures
        view_batches(s.push(p)) == view_batches(s).push((p.0, p.1@)),
{
    assert(view_batches(s.push(p)) =~= view_batches(s).push((p.0, p.1@)));
}

proof fn lemma_view_batches_drop_first<T, D>(s: Seq<(T, Vec<D>)>)
    requires
        s.len() > 0,
    ensures
        view_batches(s.drop_first()) == view_batches(s).drop_first(),
{
    assert(view_batches(s.drop_first()) =~= view_batches(s).drop_first());
}

/// How many batches of `q` are tagged with timestamp `t`.
pub open spec fn batches_at<T, D>(q: Seq<(T, Seq<D>)>, t: T) -> int
    decreases q.len(),
{
    if q.len() == 0 {
        0
    } else {
        (if q[0].0 == t {
            1int
        } else {
            0int
        }) + batches_at(q.drop_first(), t)
    }
}

/// An in-process raw channel: a queue of timestamped batches, delivered in
/// the order they were sent. Pulling never blocks; an empty queue yields
/// `None`, which means "nothing right now", not end-of-stream.
pub struct MessageQueue<T, D> {
    items: Vec<(T, Vec<D>)>,
}

impl<T: Timestamp, D> MessageQueue<T, D> {
    /// The batches currently in flight, oldest first.
    pub closed spec fn queue_seq(self) -> Seq<(T, Seq<D>)> {
        view_batches(self.items@)
    }

    /// An empty channel.
    pub fn new() -> (r: MessageQueue<T, D>)
        ensures
            r.queue_seq().len() == 0,
    {
        MessageQueue { items: Vec::new() }
    }

    /// Appends a batch at the sending end.
    pub fn enqueue(&mut self, time: T, batch: Vec<D>)
        ensures
            final(self).queue_seq() == old(self).queue_seq().push((time, batch@)),
    {
        proof {
            lemma_view_batches_push(self.items@, (time, batch));
        }
        self.items.push((time, batch));
    }

    /// Takes the oldest batch, or reports that nothing is available right
    /// now.
    pub fn pull(&mut self) -> (r: Option<(T, Vec<D>)>)
        ensures
            match r {
                None => old(self).queue_seq().len() == 0 && *final(self) == *old(self),
                Some(p) => {
                    &&& old(self).queue_seq().len() > 0
                    &&& p.0 == old(self).queue_seq()[0].0
                    &&& p.1@ == old(self).queue_seq()[0].1
                    &&& final(self).queue_seq() == old(self).queue_seq().drop_first()
                },
            },
    {
        if self.items.len() == 0 {
            None
        } else {
            let p = self.items.remove(0);
            proof {
                assert(old(self).items@.remove(0) =~= old(self).items@.drop_first());
                lemma_view_batches_drop_first(old(self).items@);
            }
            Some(p)
        }
    }
}

/// The consume counter of the pull side: every batch received from the raw
/// channel decrements the channel's outstanding count for its timestamp,
/// telling the progress tracker that one unit of inbound traffic has been
/// absorbed.
pub struct PullCounter<T, D> {
    queue: MessageQueue<T, D>,
    consumed: CountMap<T>,
}

impl<T: Timestamp, D> PullCounter<T, D> {
    /// The batches not yet pulled, oldest first.
    pub closed spec fn queue_seq(self) -> Seq<(T, Seq<D>)> {
        self.queue.queue_seq()
    }

    /// The channel-level counts accumulated since the last drain.
    pub closed spec fn consumed_map(self) -> CountMap<T> {
        self.consumed
    }

    pub closed spec fn well_formed(self) -> bool {
        self.consumed.well_formed()
    }

    /// Wraps the receive end of a channel, with no counts accumulated yet.
    pub fn new(queue: MessageQueue<T, D>) -> (r: PullCounter<T, D>)
        ensures
            r.well_formed(),
            r.queue_seq() == queue.queue_seq(),
            forall|t: T| r.consumed_map().count(t) == 0,
    {
        PullCounter { queue, consumed: CountMap::new() }
    }

    /// Pulls the next batch and, on success, applies `-1` for its
    /// timestamp to the channel's outstanding count.
    pub fn next(&mut self) -> (r: Option<(T, Vec<D>)>)
        requires
            old(self).well_formed(),
            old(self).queue_seq().len() > 0 ==> old(self).consumed_map().count(
                old(self).queue_seq()[0].0,
            ) > i64::MIN,
        ensures
            final(self).well_formed(),
            match r {
                None => old(self).queue_seq().len() == 0 && *final(self) == *old(self),
                Some(p) => {
                    &&& old(self).queue_seq().len() > 0
                    &&& p.0 == old(self).queue_seq()[0].0
                    &&& p.1@ == old(self).queue_seq()[0].1
                    &&& final(self).queue_seq() == old(self).queue_seq().drop_first()
                    &&& final(self).consumed_map().count(p.0) == old(self).consumed_map().count(
                        p.0,
                    ) - 1
                    &&& forall|t: T|
                        t != p.0 ==> final(self).consumed_map().count(t) == old(
                            self,
                        ).consumed_map().count(t)
                },
            },
    {
        match self.queue.pull() {
            None => None,
            Some(p) => {
                proof {
                    self.consumed.lemma_count_in_range(p.0);
                }
                self.consumed.update(&p.0, -1);
                Some(p)
            },
        }
    }

    /// Hands the accumulated channel counts to the progress tracker,
    /// leaving them empty.
    pub fn drain_consumed(&mut self) -> (r: Vec<(T, i64)>)
        requires
            old(self).well_formed(),
        ensures
            final(self).well_formed(),
            final(self).queue_seq() == old(self).queue_seq(),
            forall|t: T| final(self).consumed_map().count(t) == 0,
            forall|t: T| #[trigger]
                crate::progress::seq_count(r@, t) == old(self).consumed_map().count(t),
    {
        self.consumed.drain()
    }
}

/// The produce counter of the push side: every batch flushed downstream
/// increments the downstream outstanding count for its timestamp,
/// mirroring the sender's obligation into the receiver's bookkeeping.
pub struct PushCounter<T, D> {
    produced: CountMap<T>,
    sent: Vec<(T, Vec<D>)>,
}

impl<T: Timestamp, D> PushCounter<T, D> {
    /// The batches pushed downstream, oldest first, not yet taken by the
    /// transport.
    pub closed spec fn sent_seq(self) -> Seq<(T, Seq<D>)> {
        view_batches(self.sent@)
    }

    /// The downstream counts accumulated since the last drain.
    pub closed spec fn produced_map(self) -> CountMap<T> {
        self.produced
    }

    pub closed spec fn well_formed(self) -> bool {
        self.produced.well_formed()
    }

    /// Wraps the send end of a channel, with no counts accumulated yet.
    pub fn new() -> (r: PushCounter<T, D>)
        ensures
            r.well_formed(),
            r.sent_seq().len() == 0,
            forall|t: T| r.produced_map().count(t) == 0,
    {
        PushCounter { produced: CountMap::new(), sent: Vec::new() }
    }

    /// Pushes one batch downstream and applies `+1` for its timestamp to
    /// the downstream outstanding count.
    pub fn push_batch(&mut self, time: T, batch: Vec<D>)
        requires
            old(self).well_formed(),
            old(self).produced_map().count(time) < i64::MAX,
        ensures
            final(self).well_formed(),
            final(self).sent_seq() == old(self).sent_seq().push((time, batch@)),
            final(self).produced_map().count(time) == old(self).produced_map().count(time) + 1,
            forall|t: T|
                t != time ==> final(self).produced_map().count(t) == old(self).produced_map().count(
                    t,
                ),
    {
        proof {
            self.produced.lemma_count_in_range(time);
            lemma_view_batches_push(self.sent@, (time, batch));
        }
        self.produced.update(&time, 1);
        self.sent.push((time, batch));
    }

    /// Takes the pushed batches for the transport to deliver.
    pub fn take_sent(&mut self) -> (r: Vec<(T, Vec<D>)>)
        requires
            old(self).well_formed(),
        ensures
            final(self).well_formed(),
            view_batches(r@) == old(self).sent_seq(),
            final(self).sent_seq().len() == 0,
            forall|t: T| final(self).produced_map().count(t) == old(self).produced_map().count(t),
    {
        let mut r: Vec<(T, Vec<D>)> = Vec::new();
        core::mem::swap(&mut r, &mut self.sent);
        r
    }

    /// Hands the accumulated downstream counts to the progress tracker,
    /// leaving them empty.
    pub fn drain_produced(&mut self) -> (r: Vec<(T, i64)>)
        requires
            old(self).well_formed(),
        ensures
            final(self).well_formed(),
            final(self).sent_seq() == old(self).sent_seq(),
            forall|t: T| final(self).produced_map().count(t) == 0,
            forall|t: T| #[trigger]
                crate::progress::seq_count(r@, t) == old(self).produced_map().count(t),
    {
        self.produced.drain()
    }
}

/// The staging area of the push side. Records given through a session
/// accumulate under the session's timestamp until a flush pushes them
/// downstream as one batch through the produce counter. Partial batches
/// are never dropped: ceasing always flushes what is staged.
pub struct Buffer<T, D> {
    time: Option<T>,
    staged: Vec<D>,
    counter: PushCounter<T, D>,
}

impl<T: Timestamp, D> Buffer<T, D> {
    /// The timestamp of the open session, if one is open.
    pub closed spec fn active_time(self) -> Option<T> {
        self.time
    }

    /// The records staged and not yet flushed.
    pub closed spec fn staged_seq(self) -> Seq<D> {
        self.staged@
    }

    /// The batches flushed downstream and not yet taken by the transport.
    pub closed spec fn sent_seq(self) -> Seq<(T, Seq<D>)> {
        self.counter.sent_seq()
    }

    /// The downstream counts accumulated since the last drain.
    pub closed spec fn produced_map(self) -> CountMap<T> {
        self.counter.produced_map()
    }

    pub closed spec fn well_formed(self) -> bool {
        &&& self.counter.well_formed()
        &&& (self.time is None ==> self.staged@.len() == 0)
        &&& self.staged@.len() < FLUSH_THRESHOLD
    }

    /// An empty buffer over a fresh produce counter, with no session open.
    pub fn new() -> (r: Buffer<T, D>)
        ensures
            r.well_formed(),
            r.active_time() is None,
            r.staged_seq().len() == 0,
            r.sent_seq().len() == 0,
            forall|t: T| r.produced_map().count(t) == 0,
    {
        Buffer { time: None, staged: Vec::new(), counter: PushCounter::new() }
    }

    /// Pushes the staged records downstream as one batch at the session
    /// timestamp. Flushing an empty stage does nothing.
    fn flush(&mut self)
        requires
            old(self).produced_map().well_formed(),
            old(self).active_time() is None ==> old(self).staged_seq().len() == 0,
            old(self).staged_seq().len() > 0 ==> old(self).produced_map().count(
                old(self).active_time().unwrap(),
            ) < i64::MAX,
        ensures
            final(self).well_formed(),
            final(self).active_time() == old(self).active_time(),
            final(self).staged_seq().len() == 0,
            old(self).staged_seq().len() == 0 ==> final(self).sent_seq() == old(self).sent_seq()
                && (forall|t: T|
                final(self).produced_map().count(t) == old(self).produced_map().count(t)),
            old(self).staged_seq().len() > 0 ==> {
                let time = old(self).active_time().unwrap();
                &&& final(self).sent_seq() == old(self).sent_seq().push(
                    (time, old(self).staged_seq()),
                )
                &&& final(self).produced_map().count(time) == old(self).produced_map().count(time)
                    + 1
                &&& forall|t: T|
                    t != time ==> final(self).produced_map().count(t) == old(
                        self,
                    ).produced_map().count(t)
            },
    {
        if self.staged.len() > 0 {
            let mut batch: Vec<D> = Vec::new();
            core::mem::swap(&mut batch, &mut self.staged);
            match self.time {
                Some(t) => {
                    self.counter.push_batch(t, batch);
                },
                None => {
                    proof {
                        assert(false);
                    }
                },
            }
        }
    }

    /// Opens a session at the timestamp of `cap`. Anything staged for a
    /// different timestamp is flushed first, so records of distinct
    /// timestamps never mix in one batch.
    pub fn session(&mut self, cap: &Capability<T>)
        requires
            old(self).well_formed(),
            old(self).staged_seq().len() > 0 && old(self).active_time() != Some(cap@) ==> old(
                self,
            ).produced_map().count(old(self).active_time().unwrap()) < i64::MAX,
        ensures
            final(self).well_formed(),
            final(self).active_time() == Some(cap@),
            old(self).active_time() == Some(cap@) ==> final(self).staged_seq() == old(
                self,
            ).staged_seq() && final(self).sent_seq() == old(self).sent_seq() && (forall|t: T|
                final(self).produced_map().count(t) == old(self).produced_map().count(t)),
            old(self).active_time() != Some(cap@) ==> {
                &&& final(self).staged_seq().len() == 0
                &&& (old(self).staged_seq().len() == 0 ==> final(self).sent_seq() == old(
                    self,
                ).sent_seq() && (forall|t: T|
                    final(self).produced_map().count(t) == old(self).produced_map().count(t)))
                &&& (old(self).staged_seq().len() > 0 ==> {
                    let time = old(self).active_time().unwrap();
                    &&& final(self).sent_seq() == old(self).sent_seq().push(
                        (time, old(self).staged_seq()),
                    )
                    &&& final(self).produced_map().count(time) == old(self).produced_map().count(
                        time,
                    ) + 1
                    &&& forall|t: T|
                        t != time ==> final(self).produced_map().count(t) == old(
                            self,
                        ).produced_map().count(t)
                })
            },
    {
        let ct = cap.time();
        let same = match self.time {
            Some(t) => t.equals(&ct),
            None => false,
        };
        if !same {
            self.flush();
        }
        self.time = Some(ct);
    }

    /// Stages one record under the open session's timestamp. When the
    /// stage reaches the flush threshold it is pushed downstream at once.
    pub fn give(&mut self, record: D)
        requires
            old(self).well_formed(),
            old(self).active_time() is Some,
            old(self).produced_map().count(old(self).active_time().unwrap()) < i64::MAX,
        ensures
            final(self).well_formed(),
            final(self).active_time() == old(self).active_time(),
            old(self).staged_seq().len() + 1 < FLUSH_THRESHOLD ==> final(self).staged_seq() == old(
                self,
            ).staged_seq().push(record) && final(self).sent_seq() == old(self).sent_seq() && (
            forall|t: T|
                final(self).produced_map().count(t) == old(self).produced_map().count(t)),
            old(self).staged_seq().len() + 1 == FLUSH_THRESHOLD ==> {
                let time = old(self).active_time().unwrap();
                &&& final(self).staged_seq().len() == 0
                &&& final(self).sent_seq() == old(self).sent_seq().push(
                    (time, old(self).staged_seq().push(record)),
                )
                &&& final(self).produced_map().count(time) == old(self).produced_map().count(time)
                    + 1
                &&& forall|t: T|
                    t != time ==> final(self).produced_map().count(t) == old(
                        self,
                    ).produced_map().count(t)
            },
    {
        self.staged.push(record);
        if self.staged.len() == FLUSH_THRESHOLD {
            self.flush();
        }
    }

    /// Ends the scope of the push side for this operator invocation:
    /// flushes whatever is staged, below threshold or not, and closes the
    /// session.
    pub fn cease(&mut self)
        requires
            old(self).well_formed(),
            old(self).staged_seq().len() > 0 ==> old(self).produced_map().count(
                old(self).active_time().unwrap(),
            ) < i64::MAX,
        ensures
            final(self).well_formed(),
            final(self).active_time() is None,
            final(self).staged_seq().len() == 0,
            old(self).staged_seq().len() == 0 ==> final(self).sent_seq() == old(self).sent_seq()
                && (forall|t: T|
                final(self).produced_map().count(t) == old(self).produced_map().count(t)),
            old(self).staged_seq().len() > 0 ==> {
                let time = old(self).active_time().unwrap();
                &&& final(self).sent_seq() == old(self).sent_seq().push(
                    (time, old(self).staged_seq()),
                )
                &&& final(self).produced_map().count(time) == old(self).produced_map().count(time)
                    + 1
                &&& forall|t: T|
                    t != time ==> final(self).produced_map().count(t) == old(
                        self,
                    ).produced_map().count(t)
            },
    {
        self.flush();
        self.time = None;
    }

    /// Takes the flushed batches for the transport to deliver.
    pub fn take_sent(&mut self) -> (r: Vec<(T, Vec<D>)>)
        requires
            old(self).well_formed(),
        ensures
            final(self).well_formed(),
            view_batches(r@) == old(self).sent_seq(),
            final(self).sent_seq().len() == 0,
            final(self).active_time() == old(self).active_time(),
            final(self).staged_seq() == old(self).staged_seq(),
            forall|t: T| final(self).produced_map().count(t) == old(self).produced_map().count(t),
    {
        self.counter.take_sent()
    }

    /// Hands the accumulated downstream counts to the progress tracker,
    /// leaving them empty.
    pub fn drain_produced(&mut self) -> (r: Vec<(T, i64)>)
        requires
            old(self).well_formed(),
        ensures
            final(self).well_formed(),
            final(self).sent_seq() == old(self).sent_seq(),
            final(self).active_time() == old(self).active_time(),
            final(self).staged_seq() == old(self).staged_seq(),
            forall|t: T| final(self).produced_map().count(t) == 0,
            forall|t: T| #[trigger]
                crate::progress::seq_count(r@, t) == old(self).produced_map().count(t),
    {
        self.counter.drain_produced()
    }
}

} // verus!
