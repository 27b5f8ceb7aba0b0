//! The broadcast value store: an insertion-ordered set of 64-bit values.
//! Inserting is idempotent on value identity, so the store never holds two
//! copies of one value.

use vstd::prelude::*;

use crate::vecutil::contains_u64;

verus! {

/// The set of broadcast values this node has observed.
pub struct ValueStore {
    pub data: Vec<u64>,
}

impl ValueStore {
    /// The store holds each value at most once.
    pub open spec fn wf(self) -> bool {
        self.data@.no_duplicates()
    }

    /// An empty store.
    pub fn new() -> (s: ValueStore)
        ensures
            s.wf(),
            s.data@ == Seq::<u64>::empty(),
    {
        ValueStore { data: Vec::new() }
    }

    /// A snapshot of all observed values, in insertion order.
    pub fn values(&self) -> (r: Vec<u64>)
        ensures
            r@ == self.data@,
    {
        let n = self.data.len();
        let mut r: Vec<u64> = Vec::new();
        let mut i: usize = 0;
        while i < n
            invariant
                i <= n,
                n == self.data@.len(),
                r@ == self.data@.take(i as int),
            decreases n - i,
        {
            r.push(self.data[i]);
            assert(r@ =~= self.data@.take(i + 1));
            i = i + 1;
        }
        assert(self.data@.take(n as int) =~= self.data@);
        r
    }

    /// Insert a value if it is not already present; true means the value
    /// was new. A duplicate insert leaves the store unchanged.
    pub fn update_store_data(&mut self, value: u64) -> (fresh: bool)
        requires
            old(self).wf(),
        ensures
            final(self).wf(),
            fresh == !old(self).data@.contains(value),
            fresh ==> final(self).data@ == old(self).data@.push(value),
            !fresh ==> *final(self) == *old(self),
    {
        if contains_u64(&self.data, value) {
            return false;
        }
        self.data.push(value);
        true
    }

    /// Whether the value has been observed.
    pub fn contains_value(&self, value: u64) -> (r: bool)
        ensures
            r == self.data@.contains(value),
    {
        contains_u64(&self.data, value)
    }
}

/// A well-formed store holds exactly one copy of each value it contains:
/// inserting a value twice leaves a single copy behind.
pub proof fn lemma_store_single_copy(s: ValueStore, v: u64)
    requires
        s.wf(),
        s.data@.contains(v),
    ensures
        s.data@.to_multiset().count(v) == 1,
{
    s.data@.lemma_multiset_has_no_duplicates();
    s.data@.to_multiset_ensures();
    assert(s.data@.to_multiset().contains(v));
}

} // verus!
