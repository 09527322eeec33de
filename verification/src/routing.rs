//! The routing oracle consumed by the engine: topology knowledge gathered
//! from flood responses, best-path queries, and per-node congestion
//! feedback.
//!
//! Paths are kept as the freshest hop list learned for each destination:
//! every flood response records, for each node on its trace after the
//! first, the prefix of the trace that reaches it.  Congestion feedback is
//! recorded as per-node counters.

use vstd::prelude::*;
use std::collections::HashMap;
use crate::packet::{NodeId, FloodResponse, SourceRoutingHeader, trace_ids};

verus! {

broadcast use vstd::std_specs::hash::group_hash_axioms;

/// Topology knowledge and congestion scores.
#[derive(Debug)]
pub struct RoutingHandler {
    paths: HashMap<NodeId, Vec<NodeId>>,
    congestion: HashMap<NodeId, u64>,
}

/// One congestion observation: the counter for `id` grows by one, saturating
/// at the largest representable count.
pub open spec fn bump(m: Map<NodeId, u64>, id: NodeId) -> Map<NodeId, u64> {
    let c: u64 = if m.contains_key(id) {
        m[id]
    } else {
        0
    };
    m.insert(id, if c < u64::MAX {
        (c + 1) as u64
    } else {
        c
    })
}

/// Congestion observations for every node of a hop list, in order.
pub open spec fn bump_all(m: Map<NodeId, u64>, hops: Seq<NodeId>) -> Map<NodeId, u64>
    decreases hops.len(),
{
    if hops.len() == 0 {
        m
    } else {
        bump_all(bump(m, hops[0]), hops.drop_first())
    }
}

/// Every stored hop list has at least two hops and ends at its key.
pub open spec fn paths_ok(m: Map<NodeId, Seq<NodeId>>) -> bool {
    forall|dst: NodeId| #[trigger] m.contains_key(dst) ==> m[dst].len() >= 2 && m[dst].last()
        == dst
}

/// The path table after learning the first `k` positions of a trace whose
/// hop list is `ids`: position `j` (for `1 <= j < k`) stores the prefix
/// `ids.take(j + 1)` under the key `ids[j]`, later positions winning.
pub open spec fn paths_after_trace(m: Map<NodeId, Seq<NodeId>>, ids: Seq<NodeId>, k: int)
    -> Map<NodeId, Seq<NodeId>>
    decreases k,
{
    if k <= 1 {
        m
    } else {
        paths_after_trace(m, ids, k - 1).insert(ids[k - 1], ids.take(k))
    }
}

/// Learning a trace preserves the shape of stored paths.
pub proof fn lemma_paths_after_trace_ok(m: Map<NodeId, Seq<NodeId>>, ids: Seq<NodeId>, k: int)
    requires
        paths_ok(m),
        k <= ids.len(),
    ensures
        paths_ok(paths_after_trace(m, ids, k)),
    decreases k,
{
    if k > 1 {
        lemma_paths_after_trace_ok(m, ids, k - 1);
        assert(ids.take(k).len() == k);
        assert(ids.take(k).last() == ids[k - 1]);
    }
}

/// Every node on the trace after the first has a stored path once the trace
/// is learned.
pub proof fn lemma_paths_after_trace_covers(
    m: Map<NodeId, Seq<NodeId>>,
    ids: Seq<NodeId>,
    k: int,
    j: int,
)
    requires
        1 <= j < k,
    ensures
        paths_after_trace(m, ids, k).contains_key(ids[j]),
    decreases k,
{
    if j < k - 1 && ids[k - 1] != ids[j] {
        lemma_paths_after_trace_covers(m, ids, k - 1, j);
    }
}

/// A destination that the trace does not name keeps its old entry.
pub proof fn lemma_paths_after_trace_frame(
    m: Map<NodeId, Seq<NodeId>>,
    ids: Seq<NodeId>,
    k: int,
    dst: NodeId,
)
    requires
        forall|j: int| 1 <= j < k ==> ids[j] != dst,
    ensures
        paths_after_trace(m, ids, k).contains_key(dst) == m.contains_key(dst),
        m.contains_key(dst) ==> paths_after_trace(m, ids, k)[dst] == m[dst],
    decreases k,
{
    if k > 1 {
        lemma_paths_after_trace_frame(m, ids, k - 1, dst);
    }
}

impl RoutingHandler {
    /// The stored hop lists by destination.
    pub closed spec fn spec_paths(&self) -> Map<NodeId, Seq<NodeId>> {
        self.paths@.map_values(|v: Vec<NodeId>| v@)
    }

    /// The stored hop list toward `dst`, if one was ever learned.
    pub open spec fn spec_path(&self, dst: NodeId) -> Option<Seq<NodeId>> {
        if self.spec_paths().contains_key(dst) {
            Some(self.spec_paths()[dst])
        } else {
            None
        }
    }

    /// The congestion counters by node.
    pub closed spec fn spec_congestion(&self) -> Map<NodeId, u64> {
        self.congestion@
    }

    /// Every stored hop list has at least two hops and ends at its key.
    pub open spec fn wf(&self) -> bool {
        paths_ok(self.spec_paths())
    }

    /// The answer of a best-path query from `src` to `dst`: the stored hop
    /// list, provided it starts at `src` and ends at `dst`.
    pub open spec fn spec_best_path(&self, src: NodeId, dst: NodeId) -> Option<Seq<NodeId>> {
        match self.spec_path(dst) {
            Some(p) => if p.len() >= 2 && p[0] == src && p.last() == dst {
                Some(p)
            } else {
                None
            },
            None => None,
        }
    }

    pub fn new() -> (r: Self)
        ensures
            r.wf(),
            r.spec_paths() == Map::<NodeId, Seq<NodeId>>::empty(),
            r.spec_congestion() == Map::<NodeId, u64>::empty(),
    {
        let r = RoutingHandler { paths: HashMap::new(), congestion: HashMap::new() };
        proof {
            assert(r.spec_paths() =~= Map::<NodeId, Seq<NodeId>>::empty());
            assert(r.congestion@ =~= Map::<NodeId, u64>::empty());
        }
        r
    }

    /// Feed one discovered path into the topology: for every node on the
    /// response's trace after the first, the prefix of the trace reaching it
    /// becomes the freshest known path; later positions win.
    #[verifier::loop_isolation(false)]
    pub fn update_graph(&mut self, response: &FloodResponse)
        requires
            old(self).wf(),
        ensures
            final(self).wf(),
            final(self).spec_congestion() == old(self).spec_congestion(),
            final(self).spec_paths() == paths_after_trace(
                old(self).spec_paths(),
                trace_ids(response@.path_trace),
                response@.path_trace.len() as int,
            ),
    {
        let ghost trace = response@.path_trace;
        let ghost ids = trace_ids(trace);
        let n = response.path_trace.len();
        let mut i: usize = 1;
        while i < n
            invariant
                1 <= i,
                i <= n || n <= 1,
                n <= 1 ==> i == 1,
                n == trace.len(),
                response@.path_trace == trace,
                ids == trace_ids(trace),
                old(self).wf(),
                self.spec_congestion() == old(self).spec_congestion(),
                self.spec_paths() == paths_after_trace(old(self).spec_paths(), ids, i as int),
            decreases n - i,
        {
            let dst = response.path_trace[i].0;
            let mut prefix: Vec<NodeId> = Vec::new();
            let mut k: usize = 0;
            while k < i + 1
                invariant
                    k <= i + 1,
                    i < n,
                    n == trace.len(),
                    response@.path_trace == trace,
                    prefix@.len() == k,
                    forall|j: int| 0 <= j < k ==> prefix@[j] == trace[j].0,
                decreases i + 1 - k,
            {
                prefix.push(response.path_trace[k].0);
                k = k + 1;
            }
            proof {
                assert(prefix@ =~= ids.take(i + 1));
            }
            let ghost pre = self.spec_paths();
            self.paths.insert(dst, prefix);
            proof {
                assert(self.spec_paths() =~= pre.insert(ids[i as int], ids.take(i + 1)));
            }
            i = i + 1;
        }
        proof {
            if n > 1 {
                assert(i == n);
                assert(self.spec_paths() == paths_after_trace(
                    old(self).spec_paths(),
                    ids,
                    n as int,
                ));
                lemma_paths_after_trace_ok(old(self).spec_paths(), ids, n as int);
            } else {
                assert(self.spec_paths() == paths_after_trace(old(self).spec_paths(), ids, 1));
                assert(paths_after_trace(old(self).spec_paths(), ids, n as int)
                    == old(self).spec_paths());
            }
            assert(paths_ok(self.spec_paths()));
            assert(ids == trace_ids(response@.path_trace));
            assert(n as int == response@.path_trace.len() as int);
        }
    }

    /// Best known path from `src` to `dst`, as a routing header whose cursor
    /// designates the first forwarding hop.
    pub fn best_path(&self, src: NodeId, dst: NodeId) -> (r: Option<SourceRoutingHeader>)
        ensures
            r is Some <==> self.spec_best_path(src, dst) is Some,
            r matches Some(srh) ==> {
                &&& srh@.hops == self.spec_best_path(src, dst).unwrap()
                &&& srh@.hop_index == 1
            },
    {
        match self.paths.get(&dst) {
            Some(p) => {
                proof {
                    assert(self.spec_paths().contains_key(dst));
                    assert(self.spec_paths()[dst] == p@);
                }
                if p.len() >= 2 && p[0] == src && p[p.len() - 1] == dst {
                    Some(SourceRoutingHeader::new(crate::packet::copy_vec(p), 1))
                } else {
                    None
                }
            },
            None => {
                proof {
                    assert(!self.spec_paths().contains_key(dst));
                }
                None
            },
        }
    }

    /// Penalize one node after a drop report.
    pub fn node_nack(&mut self, id: NodeId)
        ensures
            final(self).spec_congestion() == bump(old(self).spec_congestion(), id),
            final(self).spec_paths() == old(self).spec_paths(),
    {
        let c: u64 = match self.congestion.get(&id) {
            Some(v) => *v,
            None => 0,
        };
        let bumped: u64 = if c < u64::MAX {
            c + 1
        } else {
            c
        };
        self.congestion.insert(id, bumped);
    }

    /// Passive congestion sampling: observe every hop of an inbound packet's
    /// routing header.
    #[verifier::loop_isolation(false)]
    pub fn nodes_congestion(&mut self, header: &SourceRoutingHeader)
        ensures
            final(self).spec_congestion() == bump_all(old(self).spec_congestion(), header@.hops),
            final(self).spec_paths() == old(self).spec_paths(),
    {
        let ghost hops = header@.hops;
        let n = header.hops.len();
        let mut i: usize = 0;
        proof {
            assert(hops.skip(0) =~= hops);
        }
        while i < n
            invariant
                i <= n,
                n == hops.len(),
                header@.hops == hops,
                self.spec_paths() == old(self).spec_paths(),
                bump_all(old(self).spec_congestion(), hops) == bump_all(
                    self.spec_congestion(),
                    hops.skip(i as int),
                ),
            decreases n - i,
        {
            proof {
                assert(hops.skip(i as int)[0] == hops[i as int]);
                assert(hops.skip(i as int).drop_first() =~= hops.skip(i as int + 1));
            }
            self.node_nack(header.hops[i]);
            i = i + 1;
        }
        proof {
            assert(hops.skip(n as int) =~= Seq::<NodeId>::empty());
        }
    }
}

} // verus!
