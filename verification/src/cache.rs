//! The policy cache: a read-optimized copy of the store.
//!
//! `refresh` rebuilds the whole set from the store and swaps it in as one
//! value, so a snapshot taken for a sweep pass is always a complete
//! point-in-time view — either the old set or the new one, never a
//! partial mix. The cache is never the source of truth.

use vstd::prelude::*;

use crate::policy::RetentionPolicy;
use crate::store::RetentionStore;
use crate::store::all_valid;
use crate::store::unique_channels;

verus! {

pub struct PolicyCache {
    entries: Vec<RetentionPolicy>,
}

impl View for PolicyCache {
    type V = Seq<RetentionPolicy>;

    closed spec fn view(&self) -> Seq<RetentionPolicy> {
        self.entries@
    }
}

impl PolicyCache {
    pub open spec fn wf(self) -> bool {
        &&& unique_channels(self@)
        &&& all_valid(self@)
    }

    /// An empty cache: nothing is tracked until the first refresh.
    pub fn new() -> (r: PolicyCache)
        ensures
            r.wf(),
            r@ == Seq::<RetentionPolicy>::empty(),
    {
        let r = PolicyCache { entries: Vec::new() };
        proof {
            assert(r@ =~= Seq::<RetentionPolicy>::empty());
        }
        r
    }

    /// Reload the full policy set from the store.
    pub fn refresh(&mut self, store: &RetentionStore)
        requires
            store.wf(),
        ensures
            final(self)@ == store@,
            final(self).wf(),
    {
        self.entries = store.list_all();
    }

    /// An immutable point-in-time view for one sweep pass.
    pub fn snapshot(&self) -> (r: Vec<RetentionPolicy>)
        ensures
            r@ == self@,
    {
        let mut r: Vec<RetentionPolicy> = Vec::new();
        let mut i: usize = 0;
        while i < self.entries.len()
            invariant
                i <= self.entries.len(),
                r@ =~= self.entries@.subrange(0, i as int),
            decreases self.entries.len() - i,
        {
            r.push(self.entries[i]);
            i = i + 1;
        }
        proof {
            assert(r@ =~= self@);
        }
        r
    }
}

} // verus!
