use vstd::prelude::*;

verus! {

/// A vector clock: one logical timestamp per thread slot.
#[derive(Debug)]
pub struct VersionVec {
    pub v: Vec<u64>,
}

/// Entrywise maximum of two clocks of the same width.
pub open spec fn join_spec(a: Seq<u64>, b: Seq<u64>) -> Seq<u64> {
    Seq::new(a.len(), |i: int| if a[i] >= b[i] { a[i] } else { b[i] })
}

/// Every entry of `a` is at most the matching entry of `b`.
pub open spec fn le_spec(a: Seq<u64>, b: Seq<u64>) -> bool {
    a.len() == b.len() && forall|i: int| 0 <= i < a.len() ==> #[trigger] a[i] <= b[i]
}

impl View for VersionVec {
    type V = Seq<u64>;

    open spec fn view(&self) -> Seq<u64> {
        self.v@
    }
}

impl VersionVec {
    /// A clock of `n` slots, all zero.
    pub fn new(n: usize) -> (r: VersionVec)
        ensures
            r@ == Seq::new(n as nat, |i: int| 0u64),
    {
        let mut v: Vec<u64> = Vec::new();
        let mut k: usize = 0;
        while k < n
            invariant
                k <= n,
                v@ == Seq::new(k as nat, |i: int| 0u64),
            decreases n - k,
        {
            v.push(0);
            k = k + 1;
            assert(v@ =~= Seq::new(k as nat, |i: int| 0u64));
        }
        VersionVec { v }
    }

    pub fn len(&self) -> (r: usize)
        ensures
            r == self@.len(),
    {
        self.v.len()
    }

    pub fn get(&self, i: usize) -> (r: u64)
        requires
            i < self@.len(),
        ensures
            r == self@[i as int],
    {
        self.v[i]
    }

    /// An independent copy of this clock.
    pub fn copy(&self) -> (r: VersionVec)
        ensures
            r@ == self@,
    {
        let mut v: Vec<u64> = Vec::new();
        let mut k: usize = 0;
        while k < self.v.len()
            invariant
                k <= self.v@.len(),
                v@ == self.v@.subrange(0, k as int),
            decreases self.v@.len() - k,
        {
            v.push(self.v[k]);
            k = k + 1;
            assert(v@ =~= self.v@.subrange(0, k as int));
        }
        assert(v@ =~= self.v@);
        VersionVec { v }
    }

    /// Absorbs `other` into this clock: each entry becomes the larger of the two.
    pub fn join(&mut self, other: &VersionVec)
        requires
            old(self)@.len() == other@.len(),
        ensures
            final(self)@ == join_spec(old(self)@, other@),
    {
        let n = self.v.len();
        let mut k: usize = 0;
        while k < n
            invariant
                n == old(self)@.len(),
                n == other@.len(),
                k <= n,
                self@.len() == n,
                forall|i: int| 0 <= i < k ==> #[trigger] self@[i] == join_spec(old(self)@, other@)[i],
                forall|i: int| k <= i < n ==> #[trigger] self@[i] == old(self)@[i],
            decreases n - k,
        {
            let o = other.v[k];
            if o > self.v[k] {
                self.v.set(k, o);
            }
            k = k + 1;
        }
        assert(self@ =~= join_spec(old(self)@, other@));
    }

    /// Adds one to entry `i`; refuses, leaving the clock as it was, where the
    /// entry is already at its largest value.
    pub fn increment(&mut self, i: usize) -> (ok: bool)
        requires
            i < old(self)@.len(),
        ensures
            ok == (old(self)@[i as int] < u64::MAX),
            ok ==> final(self)@ == old(self)@.update(i as int, (old(self)@[i as int] + 1) as u64),
            !ok ==> final(self)@ == old(self)@,
    {
        let x = self.v[i];
        if x < u64::MAX {
            self.v.set(i, x + 1);
            true
        } else {
            false
        }
    }

    /// Whether this clock happened before `other`: no entry is larger.
    pub fn le(&self, other: &VersionVec) -> (r: bool)
        requires
            self@.len() == other@.len(),
        ensures
            r == le_spec(self@, other@),
    {
        let mut k: usize = 0;
        while k < self.v.len()
            invariant
                self@.len() == other@.len(),
                k <= self@.len(),
                forall|i: int| 0 <= i < k ==> #[trigger] self@[i] <= other@[i],
            decreases self@.len() - k,
        {
            if self.v[k] > other.v[k] {
                return false;
            }
            k = k + 1;
        }
        true
    }
}

/// Joining never lowers an entry.
pub proof fn lemma_join_grows(a: Seq<u64>, b: Seq<u64>)
    requires
        a.len() == b.len(),
    ensures
        le_spec(a, join_spec(a, b)),
        le_spec(b, join_spec(a, b)),
{
}

} // verus!
