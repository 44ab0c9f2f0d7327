//! Timestamps and the per-operator ledger of outstanding obligations.

use vstd::prelude::*;

verus! {

/// A logical time: a partially ordered, joinable value used to tag batches
/// of records and the obligations to produce them.
///
/// `le` is the specification-level partial order; `less_equal` is its
/// executable form. `join` computes the least upper bound of two times.
/// Implementors must prove that `le` is reflexive, transitive and
/// antisymmetric.
pub trait Timestamp: Sized + Copy {
    /// The partial order on times.
    spec fn le(self, other: Self) -> bool;

    proof fn le_refl(x: Self)
        ensures
            x.le(x),
    ;

    proof fn le_trans(x: Self, y: Self, z: Self)
        requires
            x.le(y),
            y.le(z),
        ensures
            x.le(z),
    ;

    proof fn le_antisym(x: Self, y: Self)
        requires
            x.le(y),
            y.le(x),
        ensures
            x == y,
    ;

    /// Decides the partial order.
    fn less_equal(&self, other: &Self) -> (r: bool)
        ensures
            r == self.le(*other),
    ;

    /// Decides equality of times.
    fn equals(&self, other: &Self) -> (r: bool)
        ensures
            r == (*self == *other),
    ;

    /// The least upper bound of two times.
    fn join(&self, other: &Self) -> (r: Self)
        ensures
            self.le(r),
            other.le(r),
            forall|u: Self| self.le(u) && other.le(u) ==> #[trigger] r.le(u),
    ;
}

impl Timestamp for u64 {
    open spec fn le(self, other: Self) -> bool {
        self <= other
    }

    proof fn le_refl(x: Self) {
    }

    proof fn le_trans(x: Self, y: Self, z: Self) {
    }

    proof fn le_antisym(x: Self, y: Self) {
    }

    fn less_equal(&self, other: &Self) -> (r: bool) {
        *self <= *other
    }

    fn equals(&self, other: &Self) -> (r: bool) {
        *self == *other
    }

    fn join(&self, other: &Self) -> (r: Self) {
        if *self >= *other {
            *self
        } else {
            *other
        }
    }
}

/// A product of two times, ordered coordinatewise. The order is genuinely
/// partial: `Product` values can be incomparable even when their components
/// come from total orders.
#[derive(Clone, Copy)]
#[verifier::ext_equal]
pub struct Product<TOuter, TInner> {
    pub outer: TOuter,
    pub inner: TInner,
}

impl<A: Timestamp, B: Timestamp> Timestamp for Product<A, B> {
    open spec fn le(self, other: Self) -> bool {
        self.outer.le(other.outer) && self.inner.le(other.inner)
    }

    proof fn le_refl(x: Self) {
        A::le_refl(x.outer);
        B::le_refl(x.inner);
    }

    proof fn le_trans(x: Self, y: Self, z: Self) {
        A::le_trans(x.outer, y.outer, z.outer);
        B::le_trans(x.inner, y.inner, z.inner);
    }

    proof fn le_antisym(x: Self, y: Self) {
        A::le_antisym(x.outer, y.outer);
        B::le_antisym(x.inner, y.inner);
        assert(x =~= y);
    }

    fn less_equal(&self, other: &Self) -> (r: bool) {
        self.outer.less_equal(&other.outer) && self.inner.less_equal(&other.inner)
    }

    fn equals(&self, other: &Self) -> (r: bool) {
        let r = self.outer.equals(&other.outer) && self.inner.equals(&other.inner);
        proof {
            if r {
                assert(*self =~= *other);
            }
        }
        r
    }

    fn join(&self, other: &Self) -> (r: Self) {
        let outer = self.outer.join(&other.outer);
        let inner = self.inner.join(&other.inner);
        let r = Product { outer, inner };
        proof {
            assert forall|u: Self| self.le(u) && other.le(u) implies #[trigger] r.le(u) by {
                assert(self.outer.le(u.outer) && other.outer.le(u.outer));
                assert(self.inner.le(u.inner) && other.inner.le(u.inner));
            }
        }
        r
    }
}

/// The net delta that the entries `s` record for timestamp `t`: the sum of
/// the second components of all entries whose first component is `t`.
pub open spec fn seq_count<T>(s: Seq<(T, i64)>, t: T) -> int
    decreases s.len(),
{
    if s.len() == 0 {
        0
    } else {
        seq_count(s.drop_last(), t) + if s.last().0 == t {
            s.last().1 as int
        } else {
            0int
        }
    }
}

proof fn lemma_seq_count_push<T>(s: Seq<(T, i64)>, p: (T, i64))
    ensures
        forall|t: T| #[trigger]
            seq_count(s.push(p), t) == seq_count(s, t) + if p.0 == t {
                p.1 as int
            } else {
                0int
            },
{
    assert(s.push(p).drop_last() =~= s);
    assert forall|t: T| #[trigger]
        seq_count(s.push(p), t) == seq_count(s, t) + if p.0 == t {
            p.1 as int
        } else {
            0int
        } by {
        assert(s.push(p).last() == p);
    }
}

proof fn lemma_seq_count_remove<T>(s: Seq<(T, i64)>, i: int)
    requires
        0 <= i < s.len(),
    ensures
        forall|t: T| #[trigger]
            seq_count(s.remove(i), t) == seq_count(s, t) - if s[i].0 == t {
                s[i].1 as int
            } else {
                0int
            },
    decreases s.len(),
{
    if i == s.len() - 1 {
        assert(s.remove(i) =~= s.drop_last());
    } else {
        lemma_seq_count_remove(s.drop_last(), i);
        s.remove_ensures(i);
        s.drop_last().remove_ensures(i);
        assert(s.remove(i).drop_last() =~= s.drop_last().remove(i));
        assert forall|t: T| #[trigger]
            seq_count(s.remove(i), t) == seq_count(s, t) - if s[i].0 == t {
                s[i].1 as int
            } else {
                0int
            } by {
            assert(s.remove(i).last() == s[s.len() - 1]);
            assert(seq_count(s.remove(i), t) == seq_count(s.remove(i).drop_last(), t) + if s.remove(
                i,
            ).last().0 == t {
                s.remove(i).last().1 as int
            } else {
                0int
            });
            assert(s.drop_last()[i] == s[i]);
        }
    }
}

proof fn lemma_seq_count_absent<T>(s: Seq<(T, i64)>, t: T)
    requires
        forall|j: int| 0 <= j < s.len() ==> (#[trigger] s[j]).0 != t,
    ensures
        seq_count(s, t) == 0,
    decreases s.len(),
{
    if s.len() > 0 {
        lemma_seq_count_absent(s.drop_last(), t);
    }
}

proof fn lemma_seq_count_unique<T>(s: Seq<(T, i64)>, i: int)
    requires
        0 <= i < s.len(),
        forall|j: int, k: int| 0 <= j < k < s.len() ==> (#[trigger] s[j]).0 != (#[trigger] s[k]).0,
    ensures
        seq_count(s, s[i].0) == s[i].1 as int,
{
    lemma_seq_count_remove(s, i);
    assert forall|j: int| 0 <= j < s.remove(i).len() implies (#[trigger] s.remove(i)[j]).0
        != s[i].0 by {
        if j < i {
            assert(s.remove(i)[j] == s[j]);
        } else {
            assert(s.remove(i)[j] == s[j + 1]);
        }
    }
    lemma_seq_count_absent(s.remove(i), s[i].0);
}

/// The ledger of net outstanding obligations per timestamp.
///
/// It records, for each timestamp, the sum of all deltas applied since the
/// last drain. An entry is removed as soon as its sum returns to zero, so
/// the stored entries always have pairwise distinct keys and nonzero values.
pub struct CountMap<T> {
    entries: Vec<(T, i64)>,
}

impl<T: Timestamp> CountMap<T> {
    /// The net delta recorded for timestamp `t` since the last drain.
    pub closed spec fn count(self, t: T) -> int {
        seq_count(self.entries@, t)
    }

    /// The number of timestamps with a nonzero recorded delta.
    pub closed spec fn num_entries(self) -> nat {
        self.entries@.len()
    }

    /// Keys are pairwise distinct and no entry is zero.
    pub closed spec fn well_formed(self) -> bool {
        &&& forall|j: int, k: int|
            0 <= j < k < self.entries@.len() ==> (#[trigger] self.entries@[j]).0 != (
            #[trigger] self.entries@[k]).0
        &&& forall|j: int| 0 <= j < self.entries@.len() ==> (#[trigger] self.entries@[j]).1 != 0
    }

    /// An empty ledger: every timestamp has net delta zero.
    pub fn new() -> (r: CountMap<T>)
        ensures
            r.well_formed(),
            r.num_entries() == 0,
            forall|t: T| r.count(t) == 0,
    {
        let r = CountMap { entries: Vec::new() };
        proof {
            assert forall|t: T| r.count(t) == 0 by {
                lemma_seq_count_absent(r.entries@, t);
            }
        }
        r
    }

    /// Every recorded count fits in a signed 64-bit value.
    pub proof fn lemma_count_in_range(self, t: T)
        requires
            self.well_formed(),
        ensures
            i64::MIN <= self.count(t) <= i64::MAX,
    {
        if forall|j: int| 0 <= j < self.entries@.len() ==> (#[trigger] self.entries@[j]).0 != t {
            lemma_seq_count_absent(self.entries@, t);
        } else {
            let i = choose|i: int|
                0 <= i < self.entries@.len() && (#[trigger] self.entries@[i]).0 == t;
            lemma_seq_count_unique(self.entries@, i);
        }
    }

    /// Adds `delta` to the entry for `key`, creating it at zero if absent
    /// and removing it if the sum returns to zero. Returns the new net
    /// delta for `key`. Counts for all other timestamps are unchanged.
    pub fn update(&mut self, key: &T, delta: i64) -> (r: i64)
        requires
            old(self).well_formed(),
            i64::MIN <= old(self).count(*key) + delta <= i64::MAX,
        ensures
            final(self).well_formed(),
            r == old(self).count(*key) + delta,
            final(self).count(*key) == old(self).count(*key) + delta,
            forall|t: T| t != *key ==> final(self).count(t) == old(self).count(t),
    {
        let n: usize = self.entries.len();
        let mut i: usize = 0;
        while i < n
            invariant
                n == self.entries@.len(),
                i <= n,
                *self == *old(self),
                old(self).well_formed(),
                i64::MIN <= old(self).count(*key) + delta <= i64::MAX,
                forall|j: int| 0 <= j < i ==> (#[trigger] self.entries@[j]).0 != *key,
            decreases n - i,
        {
            let pair: (T, i64) = self.entries[i];
            if pair.0.equals(key) {
                proof {
                    lemma_seq_count_unique(self.entries@, i as int);
                    lemma_seq_count_remove(self.entries@, i as int);
                    self.entries@.remove_ensures(i as int);
                }
                let nv: i64 = pair.1 + delta;
                let ghost removed = self.entries@.remove(i as int);
                self.entries.remove(i);
                proof {
                    assert forall|j: int| 0 <= j < removed.len() implies (
                    #[trigger] removed[j]).0 != *key by {
                        if j < i as int {
                            assert(removed[j] == old(self).entries@[j]);
                        } else {
                            assert(removed[j] == old(self).entries@[j + 1]);
                        }
                    }
                    assert forall|j: int, k: int| 0 <= j < k < removed.len() implies (
                    #[trigger] removed[j]).0 != (#[trigger] removed[k]).0 by {
                        let jj = if j < i as int { j } else { j + 1 };
                        let kk = if k < i as int { k } else { k + 1 };
                        assert(removed[j] == old(self).entries@[jj]);
                        assert(removed[k] == old(self).entries@[kk]);
                    }
                    assert forall|j: int| 0 <= j < removed.len() implies (
                    #[trigger] removed[j]).1 != 0 by {
                        let jj = if j < i as int { j } else { j + 1 };
                        assert(removed[j] == old(self).entries@[jj]);
                    }
                }
                if nv != 0 {
                    self.entries.push((pair.0, nv));
                    proof {
                        lemma_seq_count_push(removed, (pair.0, nv));
                    }
                }
                return nv;
            }
            i += 1;
        }
        proof {
            lemma_seq_count_absent(self.entries@, *key);
        }
        if delta != 0 {
            let k: T = *key;
            self.entries.push((k, delta));
            proof {
                lemma_seq_count_push(old(self).entries@, (k, delta));
            }
        }
        delta
    }

    /// The net delta currently recorded for `key`, without changing it.
    pub fn count_of(&self, key: &T) -> (r: i64)
        requires
            self.well_formed(),
        ensures
            r == self.count(*key),
    {
        let n: usize = self.entries.len();
        let mut i: usize = 0;
        while i < n
            invariant
                n == self.entries@.len(),
                i <= n,
                self.well_formed(),
                forall|j: int| 0 <= j < i ==> (#[trigger] self.entries@[j]).0 != *key,
            decreases n - i,
        {
            let pair: (T, i64) = self.entries[i];
            if pair.0.equals(key) {
                proof {
                    lemma_seq_count_unique(self.entries@, i as int);
                }
                return pair.1;
            }
            i += 1;
        }
        proof {
            lemma_seq_count_absent(self.entries@, *key);
        }
        0
    }

    /// True when every timestamp has net delta zero.
    pub fn is_empty(&self) -> (r: bool)
        requires
            self.well_formed(),
        ensures
            r == (forall|t: T| self.count(t) == 0),
    {
        let r = self.entries.len() == 0;
        proof {
            if r {
                assert forall|t: T| self.count(t) == 0 by {
                    lemma_seq_count_absent(self.entries@, t);
                }
            } else {
                lemma_seq_count_unique(self.entries@, 0);
                assert(self.count(self.entries@[0].0) != 0);
            }
        }
        r
    }

    /// Takes the accumulated deltas, leaving the ledger empty. The returned
    /// entries carry exactly the counts recorded since the last drain;
    /// draining a ledger that has recorded nothing yields no entries, so a
    /// second drain with no intervening update returns an empty batch.
    pub fn drain(&mut self) -> (r: Vec<(T, i64)>)
        requires
            old(self).well_formed(),
        ensures
            final(self).well_formed(),
            final(self).num_entries() == 0,
            forall|t: T| final(self).count(t) == 0,
            r@.len() == old(self).num_entries(),
            forall|t: T| #[trigger] seq_count(r@, t) == old(self).count(t),
            (forall|t: T| old(self).count(t) == 0) ==> r@.len() == 0,
    {
        let mut r: Vec<(T, i64)> = Vec::new();
        core::mem::swap(&mut r, &mut self.entries);
        proof {
            assert forall|t: T| self.count(t) == 0 by {
                lemma_seq_count_absent(self.entries@, t);
            }
            if r@.len() > 0 {
                lemma_seq_count_unique(r@, 0);
                assert(old(self).count(r@[0].0) != 0);
            }
        }
        r
    }
}

} // verus!
