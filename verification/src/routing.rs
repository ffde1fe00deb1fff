//! The routing table: event kind to the set of subscribing loops.
//!
//! Built once from the loop descriptors and consulted read-only by the
//! dispatcher.  Per kind the subscribers are kept as a strictly increasing
//! list of loop indices, so every subscriber appears exactly once and the
//! dispatcher's fan-out order is fixed.

use vstd::prelude::*;

use crate::config::{kind_list_contains, LoopDescriptor};

verus! {

/// The static map from event kind to subscriber loops.
pub struct RoutingTable {
    /// How many event kinds the configuration declares.
    pub n_kinds: usize,
    /// For each kind, the indices of the loops subscribed to it, strictly
    /// increasing.
    pub subscribers: Vec<Vec<usize>>,
}

/// Whether a list of loop indices is strictly increasing.
pub open spec fn strictly_increasing(s: Seq<usize>) -> bool {
    forall|i: int, j: int| 0 <= i < j < s.len() ==> s[i] < s[j]
}

/// Whether the table routes events of kind `k` to loop `l`.
pub open spec fn routes_to(t: RoutingTable, k: usize, l: usize) -> bool {
    k < t.subscribers@.len() && t.subscribers@[k as int]@.contains(l)
}

impl RoutingTable {
    /// Structural soundness of a table over `n_loops` loops: one subscriber
    /// list per kind, each strictly increasing and naming only real loops.
    pub open spec fn wf(self, n_loops: int) -> bool {
        &&& self.subscribers@.len() == self.n_kinds
        &&& forall|k: int|
            0 <= k < self.subscribers@.len() ==> strictly_increasing(
                #[trigger] self.subscribers@[k]@,
            )
        &&& forall|k: int, i: int|
            0 <= k < self.subscribers@.len() && 0 <= i < self.subscribers@[k]@.len()
                ==> #[trigger] self.subscribers@[k]@[i] < n_loops
    }

    /// Whether the table routes each kind to exactly the loops whose
    /// descriptors subscribe to it.
    pub open spec fn matches(self, ds: Seq<LoopDescriptor>) -> bool {
        forall|k: usize, l: usize|
            k < self.n_kinds && l < ds.len() ==> (#[trigger] routes_to(self, k, l) <==> ds[
                l as int
            ].subscribes@.contains(k))
    }

    /// Builds the table from the descriptors: kind `k` is routed to loop `l`
    /// exactly when `l`'s descriptor subscribes to `k`.
    pub fn build(n_kinds: usize, ds: &Vec<LoopDescriptor>) -> (t: RoutingTable)
        ensures
            t.n_kinds == n_kinds,
            t.wf(ds@.len() as int),
            t.matches(ds@),
    {
        let mut subscribers: Vec<Vec<usize>> = Vec::new();
        let mut k: usize = 0;
        while k < n_kinds
            invariant
                k <= n_kinds,
                subscribers@.len() == k,
                forall|k2: int|
                    0 <= k2 < k ==> strictly_increasing(#[trigger] subscribers@[k2]@),
                forall|k2: int, i: int|
                    0 <= k2 < k && 0 <= i < subscribers@[k2]@.len()
                        ==> #[trigger] subscribers@[k2]@[i] < ds@.len(),
                forall|k2: usize, l: usize|
                    k2 < k && l < ds@.len() ==> (#[trigger] subscribers@[k2 as int]@.contains(l)
                        <==> ds@[l as int].subscribes@.contains(k2)),
            decreases n_kinds - k,
        {
            let mut subs: Vec<usize> = Vec::new();
            let mut l: usize = 0;
            while l < ds.len()
                invariant
                    l <= ds@.len(),
                    strictly_increasing(subs@),
                    forall|i: int| 0 <= i < subs@.len() ==> #[trigger] subs@[i] < l,
                    forall|l2: usize|
                        l2 < l ==> (#[trigger] subs@.contains(l2) <==> ds@[
                            l2 as int
                        ].subscribes@.contains(k)),
                decreases ds@.len() - l,
            {
                let ghost prior = subs@;
                if kind_list_contains(&ds[l].subscribes, k) {
                    subs.push(l);
                    proof {
                        assert forall|l2: usize| l2 < l + 1 implies (#[trigger] subs@.contains(l2)
                            <==> ds@[l2 as int].subscribes@.contains(k)) by {
                            if l2 == l {
                                assert(subs@[subs@.len() - 1] == l);
                            } else {
                                if prior.contains(l2) {
                                    let i = choose|i: int| 0 <= i < prior.len() && prior[i] == l2;
                                    assert(subs@[i] == l2);
                                }
                                if subs@.contains(l2) {
                                    let i = choose|i: int|
                                        0 <= i < subs@.len() && subs@[i] == l2;
                                    assert(prior[i] == l2);
                                }
                            }
                        }
                    }
                } else {
                    proof {
                        if subs@.contains(l) {
                            let i = choose|i: int| 0 <= i < subs@.len() && subs@[i] == l;
                            assert(subs@[i] < l);
                        }
                    }
                }
                l += 1;
            }
            subscribers.push(subs);
            k += 1;
        }
        RoutingTable { n_kinds, subscribers }
    }
}

} // verus!
