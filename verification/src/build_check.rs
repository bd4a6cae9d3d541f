//! Whether a shader graph can be built for a set of outputs: every node met
//! by following inputs from the build's roots exists and no such walk runs
//! in a cycle, and no node whose passthrough inputs a build removes reaches
//! an unconnected input of a passthrough node.
use vstd::prelude::*;
use vstd::set_lib::{lemma_int_range, set_int_range};
use crate::arena::NodeIndex;
use crate::graph_spec::{buildable, closed_below, fed_below, input_at, node_closed};
use crate::shader_graph::{ShaderGraph, MAX_INPUT_OUTPUTS_PER_NODE};

verus! {

/// Where `x` stands in `ids`.
fn position(ids: &Vec<NodeIndex>, x: NodeIndex) -> (r: Option<usize>)
    ensures
        match r {
            Some(j) => j < ids@.len() && ids@[j as int] == x,
            None => !ids@.contains(x),
        },
{
    let mut i: usize = 0;
    while i < ids.len()
        invariant
            i <= ids@.len(),
            forall|j: int| 0 <= j < i ==> ids@[j] != x,
        decreases ids@.len() - i,
    {
        if ids[i] == x {
            return Some(i);
        }
        i = i + 1;
    }
    None
}

/// In a list without repeats, the place of the element at `p` is `p`.
proof fn lemma_index_of(ids: Seq<NodeIndex>, p: int)
    requires
        ids.no_duplicates(),
        0 <= p < ids.len(),
    ensures
        ids.index_of(ids[p]) == p,
{
    let i = ids.index_of(ids[p]);
    assert(0 <= i < ids.len() && ids[i] == ids[p]);
}

/// The rank of `x`: its entry in `rank` at its place in `ids` (0 when it has
/// none yet).
pub open spec fn rank_of(ids: Seq<NodeIndex>, rank: Seq<usize>, x: NodeIndex) -> nat {
    rank[ids.index_of(x)] as nat
}

/// Every connected input of `x` comes, through an output below the limit,
/// from a node of `ids` whose rank is positive and below `r`.
pub open spec fn ready(nodes: Map<NodeIndex, crate::shader_graph::NodeView>, ids: Seq<NodeIndex>, rank: Seq<usize>, x: NodeIndex, r: nat) -> bool {
    forall|q: int| 0 <= q < MAX_INPUT_OUTPUTS_PER_NODE && (#[trigger] input_at(nodes, x, q)) is Some ==> {
        let inp = input_at(nodes, x, q).unwrap();
        &&& ids.contains(inp.owner_node_index)
        &&& 0 < rank_of(ids, rank, inp.owner_node_index) < r
        &&& inp.owner_node_output < MAX_INPUT_OUTPUTS_PER_NODE
    }
}

/// Every connected input of `x` comes from a node of `ids` marked in `keep`,
/// and, where that node only passes values through, the input of it that is
/// read exists and is connected.
pub open spec fn fed(nodes: Map<NodeIndex, crate::shader_graph::NodeView>, ids: Seq<NodeIndex>, keep: Seq<bool>, x: NodeIndex) -> bool {
    forall|q: int| 0 <= q < MAX_INPUT_OUTPUTS_PER_NODE && (#[trigger] input_at(nodes, x, q)) is Some ==> {
        let inp = input_at(nodes, x, q).unwrap();
        &&& ids.contains(inp.owner_node_index)
        &&& keep[ids.index_of(inp.owner_node_index)]
        &&& nodes[inp.owner_node_index].passthrough ==> inp.owner_node_output < MAX_INPUT_OUTPUTS_PER_NODE
            && input_at(nodes, inp.owner_node_index, inp.owner_node_output as int) is Some
    }
}

/// When every unranked node is not ready, every node of a closed set with a
/// rank of at most `k` is ranked.
proof fn lemma_closed_ranked(
    nodes: Map<NodeIndex, crate::shader_graph::NodeView>,
    ids: Seq<NodeIndex>,
    rank: Seq<usize>,
    s: Set<NodeIndex>,
    rho: spec_fn(NodeIndex) -> nat,
    k: nat,
)
    requires
        ids.no_duplicates(),
        forall|i: NodeIndex| nodes.contains_key(i) <==> ids.contains(i),
        rank.len() == ids.len(),
        forall|j: int| 0 <= j < ids.len() ==> #[trigger] rank[j] <= ids.len(),
        forall|j: int| 0 <= j < ids.len() && #[trigger] rank[j] == 0
            ==> !ready(nodes, ids, rank, ids[j], (ids.len() + 1) as nat),
        closed_below(nodes, s, rho),
    ensures
        forall|x: NodeIndex| #[trigger] s.contains(x) && rho(x) <= k ==> rank_of(ids, rank, x) > 0,
    decreases k,
{
    if k > 0 {
        lemma_closed_ranked(nodes, ids, rank, s, rho, (k - 1) as nat);
    }
    assert forall|x: NodeIndex| #[trigger] s.contains(x) && rho(x) <= k implies rank_of(ids, rank, x) > 0 by {
        assert(nodes.contains_key(x));
        assert(ids.contains(x));
        let j = ids.index_of(x);
        assert(0 <= j < ids.len() && ids[j] == x);
        if rank[j] == 0 {
            assert(node_closed(nodes, s, rho, x));
            assert forall|q: int| 0 <= q < MAX_INPUT_OUTPUTS_PER_NODE && (#[trigger] input_at(nodes, x, q)) is Some implies {
                let inp = input_at(nodes, x, q).unwrap();
                &&& ids.contains(inp.owner_node_index)
                &&& 0 < rank_of(ids, rank, inp.owner_node_index) < (ids.len() + 1) as nat
                &&& inp.owner_node_output < MAX_INPUT_OUTPUTS_PER_NODE
            } by {
                let inp = input_at(nodes, x, q).unwrap();
                let o = inp.owner_node_index;
                assert(s.contains(o));
                assert(rho(o) < rho(x));
                assert(nodes.contains_key(o));
                assert(ids.contains(o));
                let p = ids.index_of(o);
                assert(0 <= p < ids.len() && ids[p] == o);
                assert(rank[p] <= ids.len());
            }
            assert(ready(nodes, ids, rank, ids[j], (ids.len() + 1) as nat));
        }
    }
}

impl ShaderGraph {
    /// Whether every connected input of node `x` comes from a ranked node of
    /// rank below `r`, through an output below the limit.
    fn node_ready(&self, ids: &Vec<NodeIndex>, rank: &Vec<usize>, x: NodeIndex, r: usize) -> (b: bool)
        requires
            self.nodes().contains_key(x),
            ids@.no_duplicates(),
            rank@.len() == ids@.len(),
        ensures
            b == ready(self.nodes(), ids@, rank@, x, r as nat),
    {
        let node = self.node_ref(x);
        let mut q: usize = 0;
        while q < MAX_INPUT_OUTPUTS_PER_NODE
            invariant
                q <= MAX_INPUT_OUTPUTS_PER_NODE,
                node@ == self.nodes()[x],
                ids@.no_duplicates(),
                rank@.len() == ids@.len(),
                forall|p: int| 0 <= p < q && (#[trigger] input_at(self.nodes(), x, p)) is Some ==> {
                    let inp = input_at(self.nodes(), x, p).unwrap();
                    &&& ids@.contains(inp.owner_node_index)
                    &&& 0 < rank_of(ids@, rank@, inp.owner_node_index) < r
                    &&& inp.owner_node_output < MAX_INPUT_OUTPUTS_PER_NODE
                },
            decreases MAX_INPUT_OUTPUTS_PER_NODE - q,
        {
            assert(input_at(self.nodes(), x, q as int) == node.inputs@[q as int]);
            if let Some(inp) = node.inputs[q] {
                match position(ids, inp.owner_node_index) {
                    Some(p) => {
                        proof { lemma_index_of(ids@, p as int); }
                        if rank[p] == 0 || rank[p] >= r || inp.owner_node_output >= MAX_INPUT_OUTPUTS_PER_NODE {
                            return false;
                        }
                    },
                    None => {
                        return false;
                    },
                }
            }
            q = q + 1;
        }
        true
    }

    /// Whether node `x` is fed (see [`fed`]) by the nodes marked in `keep`.
    fn node_fed(&self, ids: &Vec<NodeIndex>, keep: &Vec<bool>, x: NodeIndex) -> (b: bool)
        requires
            self.nodes().contains_key(x),
            ids@.no_duplicates(),
            keep@.len() == ids@.len(),
            forall|i: NodeIndex| self.nodes().contains_key(i) <==> ids@.contains(i),
        ensures
            b == fed(self.nodes(), ids@, keep@, x),
    {
        let node = self.node_ref(x);
        let mut q: usize = 0;
        while q < MAX_INPUT_OUTPUTS_PER_NODE
            invariant
                q <= MAX_INPUT_OUTPUTS_PER_NODE,
                node@ == self.nodes()[x],
                ids@.no_duplicates(),
                keep@.len() == ids@.len(),
                forall|i: NodeIndex| self.nodes().contains_key(i) <==> ids@.contains(i),
                forall|p: int| 0 <= p < q && (#[trigger] input_at(self.nodes(), x, p)) is Some ==> {
                    let inp = input_at(self.nodes(), x, p).unwrap();
                    &&& ids@.contains(inp.owner_node_index)
                    &&& keep@[ids@.index_of(inp.owner_node_index)]
                    &&& self.nodes()[inp.owner_node_index].passthrough ==> inp.owner_node_output < MAX_INPUT_OUTPUTS_PER_NODE
                        && input_at(self.nodes(), inp.owner_node_index, inp.owner_node_output as int) is Some
                },
            decreases MAX_INPUT_OUTPUTS_PER_NODE - q,
        {
            assert(input_at(self.nodes(), x, q as int) == node.inputs@[q as int]);
            if let Some(inp) = node.inputs[q] {
                match position(ids, inp.owner_node_index) {
                    Some(p) => {
                        proof { lemma_index_of(ids@, p as int); }
                        if !keep[p] {
                            return false;
                        }
                        assert(ids@.contains(inp.owner_node_index)) by { assert(ids@[p as int] == inp.owner_node_index); }
                        let owner = self.node_ref(inp.owner_node_index);
                        if owner.passthrough {
                            if inp.owner_node_output >= MAX_INPUT_OUTPUTS_PER_NODE {
                                return false;
                            }
                            assert(input_at(self.nodes(), inp.owner_node_index, inp.owner_node_output as int)
                                == owner.inputs@[inp.owner_node_output as int]);
                            if owner.inputs[inp.owner_node_output].is_none() {
                                return false;
                            }
                        }
                    },
                    None => {
                        return false;
                    },
                }
            }
            q = q + 1;
        }
        true
    }

    /// Ranks nodes one at a time: a node whose connected inputs all come,
    /// through outputs below the limit, from ranked nodes takes the next
    /// rank, until no node can. Nodes that end unranked are not ready.
    fn rank_nodes(&self, ids: &Vec<NodeIndex>) -> (rank: Vec<usize>)
        requires
            ids@.no_duplicates(),
            forall|i: NodeIndex| self.nodes().contains_key(i) <==> ids@.contains(i),
        ensures
            rank@.len() == ids@.len(),
            forall|j: int| 0 <= j < ids@.len() ==> #[trigger] rank@[j] <= ids@.len(),
            forall|j: int| 0 <= j < ids@.len() && #[trigger] rank@[j] > 0
                ==> ready(self.nodes(), ids@, rank@, ids@[j], rank@[j] as nat),
            forall|j: int| 0 <= j < ids@.len() && #[trigger] rank@[j] == 0
                ==> !ready(self.nodes(), ids@, rank@, ids@[j], (ids@.len() + 1) as nat),
    {
        let n = ids.len();
        let mut rank: Vec<usize> = Vec::new();
        while rank.len() < n
            invariant
                rank@.len() <= n,
                forall|j: int| 0 <= j < rank@.len() ==> rank@[j] == 0,
            decreases n - rank@.len(),
        {
            rank.push(0);
        }
        let ghost mut undone: Set<int> = set_int_range(0, n as int);
        proof { lemma_int_range(0, n as int); }
        let mut left: usize = n;
        let mut changed = true;
        while changed
            invariant
                n == ids@.len(),
                ids@.no_duplicates(),
                forall|i: NodeIndex| self.nodes().contains_key(i) <==> ids@.contains(i),
                rank@.len() == n,
                undone.finite(),
                undone.len() == left,
                left <= n,
                forall|j: int| undone.contains(j) <==> (0 <= j < n && rank@[j] == 0),
                forall|j: int| 0 <= j < n ==> #[trigger] rank@[j] <= n - left,
                forall|j: int| 0 <= j < n && #[trigger] rank@[j] > 0
                    ==> ready(self.nodes(), ids@, rank@, ids@[j], rank@[j] as nat),
                !changed ==> forall|j: int| 0 <= j < n && #[trigger] rank@[j] == 0
                    ==> !ready(self.nodes(), ids@, rank@, ids@[j], (n - left + 1) as nat),
            decreases left + if changed { 1int } else { 0int },
        {
            changed = false;
            let ghost left0 = left;
            let mut j: usize = 0;
            while j < n
                invariant
                    n == ids@.len(),
                    ids@.no_duplicates(),
                    forall|i: NodeIndex| self.nodes().contains_key(i) <==> ids@.contains(i),
                    rank@.len() == n,
                    j <= n,
                    undone.finite(),
                    undone.len() == left,
                    left <= left0,
                    changed ==> left < left0,
                    forall|i: int| undone.contains(i) <==> (0 <= i < n && rank@[i] == 0),
                    forall|i: int| 0 <= i < n ==> #[trigger] rank@[i] <= n - left,
                    forall|i: int| 0 <= i < n && #[trigger] rank@[i] > 0
                        ==> ready(self.nodes(), ids@, rank@, ids@[i], rank@[i] as nat),
                    !changed ==> forall|i: int| 0 <= i < j && #[trigger] rank@[i] == 0
                        ==> !ready(self.nodes(), ids@, rank@, ids@[i], (n - left + 1) as nat),
                decreases n - j,
            {
                if rank[j] == 0 {
                    proof {
                        assert(undone.contains(j as int));
                        assert(undone.remove(j as int).len() == undone.len() - 1);
                    }
                    let next = n - left + 1;
                    let x = ids[j];
                    assert(ids@.contains(x)) by { assert(ids@[j as int] == x); }
                    if self.node_ready(ids, &rank, x, next) {
                        let ghost before = rank@;
                        rank.set(j, next);
                        proof {
                            undone = undone.remove(j as int);
                            lemma_index_of(ids@, j as int);
                            assert forall|i: int| 0 <= i < n && #[trigger] rank@[i] > 0
                                implies ready(self.nodes(), ids@, rank@, ids@[i], rank@[i] as nat) by {
                                let ri = rank@[i] as nat;
                                assert(ready(self.nodes(), ids@, before, ids@[i], ri));
                                assert forall|q: int| 0 <= q < MAX_INPUT_OUTPUTS_PER_NODE
                                    && (#[trigger] input_at(self.nodes(), ids@[i], q)) is Some implies {
                                    let inp = input_at(self.nodes(), ids@[i], q).unwrap();
                                    &&& ids@.contains(inp.owner_node_index)
                                    &&& 0 < rank_of(ids@, rank@, inp.owner_node_index) < ri
                                    &&& inp.owner_node_output < MAX_INPUT_OUTPUTS_PER_NODE
                                } by {
                                    let inp = input_at(self.nodes(), ids@[i], q).unwrap();
                                    let o = ids@.index_of(inp.owner_node_index);
                                    assert(0 < before[o]);
                                    assert(o != j);
                                }
                            }
                        }
                        left = left - 1;
                        changed = true;
                    }
                }
                j = j + 1;
            }
        }
        rank
    }

    /// Unmarks, until none is left, every marked node that is not fed by the
    /// marked nodes. What stays marked is fed, and holds every set of nodes
    /// that feeds itself (see [`fed_below`]).
    fn keep_fed(&self, ids: &Vec<NodeIndex>) -> (keep: Vec<bool>)
        requires
            ids@.no_duplicates(),
            forall|i: NodeIndex| self.nodes().contains_key(i) <==> ids@.contains(i),
        ensures
            keep@.len() == ids@.len(),
            forall|j: int| 0 <= j < ids@.len() && #[trigger] keep@[j] ==> fed(self.nodes(), ids@, keep@, ids@[j]),
            forall|t: Set<NodeIndex>| #[trigger] fed_below(self.nodes(), t)
                ==> forall|x: NodeIndex| #[trigger] t.contains(x) ==> keep@[ids@.index_of(x)],
    {
        let n = ids.len();
        let mut keep: Vec<bool> = Vec::new();
        while keep.len() < n
            invariant
                keep@.len() <= n,
                forall|j: int| 0 <= j < keep@.len() ==> keep@[j],
            decreases n - keep@.len(),
        {
            keep.push(true);
        }
        let ghost mut kept: Set<int> = set_int_range(0, n as int);
        proof {
            lemma_int_range(0, n as int);
            assert forall|t: Set<NodeIndex>| #[trigger] fed_below(self.nodes(), t)
                implies forall|x: NodeIndex| #[trigger] t.contains(x) ==> keep@[ids@.index_of(x)] by {
                assert forall|x: NodeIndex| #[trigger] t.contains(x) implies keep@[ids@.index_of(x)] by {
                    assert(self.nodes().contains_key(x));
                    assert(ids@.contains(x));
                }
            }
        }
        let mut left: usize = n;
        let mut changed = true;
        while changed
            invariant
                n == ids@.len(),
                ids@.no_duplicates(),
                forall|i: NodeIndex| self.nodes().contains_key(i) <==> ids@.contains(i),
                keep@.len() == n,
                kept.finite(),
                kept.len() == left,
                forall|j: int| kept.contains(j) <==> (0 <= j < n && keep@[j]),
                forall|t: Set<NodeIndex>| #[trigger] fed_below(self.nodes(), t)
                    ==> forall|x: NodeIndex| #[trigger] t.contains(x) ==> keep@[ids@.index_of(x)],
                !changed ==> forall|j: int| 0 <= j < n && #[trigger] keep@[j] ==> fed(self.nodes(), ids@, keep@, ids@[j]),
            decreases left + if changed { 1int } else { 0int },
        {
            changed = false;
            let ghost left0 = left;
            let mut j: usize = 0;
            while j < n
                invariant
                    n == ids@.len(),
                    ids@.no_duplicates(),
                    forall|i: NodeIndex| self.nodes().contains_key(i) <==> ids@.contains(i),
                    keep@.len() == n,
                    j <= n,
                    kept.finite(),
                    kept.len() == left,
                    left <= left0,
                    changed ==> left < left0,
                    forall|i: int| kept.contains(i) <==> (0 <= i < n && keep@[i]),
                    forall|t: Set<NodeIndex>| #[trigger] fed_below(self.nodes(), t)
                        ==> forall|x: NodeIndex| #[trigger] t.contains(x) ==> keep@[ids@.index_of(x)],
                    !changed ==> forall|i: int| 0 <= i < j && #[trigger] keep@[i] ==> fed(self.nodes(), ids@, keep@, ids@[i]),
                decreases n - j,
            {
                if keep[j] {
                    let x = ids[j];
                    assert(ids@.contains(x)) by { assert(ids@[j as int] == x); }
                    if !self.node_fed(ids, &keep, x) {
                        proof {
                            assert(kept.contains(j as int));
                            assert(kept.remove(j as int).len() == kept.len() - 1);
                            lemma_index_of(ids@, j as int);
                            assert forall|t: Set<NodeIndex>| #[trigger] fed_below(self.nodes(), t)
                                implies !t.contains(x) by {
                                if t.contains(x) {
                                    assert forall|q: int| 0 <= q < MAX_INPUT_OUTPUTS_PER_NODE
                                        && (#[trigger] input_at(self.nodes(), x, q)) is Some implies {
                                        let inp = input_at(self.nodes(), x, q).unwrap();
                                        &&& ids@.contains(inp.owner_node_index)
                                        &&& keep@[ids@.index_of(inp.owner_node_index)]
                                        &&& self.nodes()[inp.owner_node_index].passthrough
                                            ==> inp.owner_node_output < MAX_INPUT_OUTPUTS_PER_NODE
                                            && input_at(self.nodes(), inp.owner_node_index, inp.owner_node_output as int) is Some
                                    } by {
                                        let inp = input_at(self.nodes(), x, q).unwrap();
                                        assert(t.contains(inp.owner_node_index));
                                    }
                                    assert(fed(self.nodes(), ids@, keep@, x));
                                }
                            }
                        }
                        let ghost before = keep@;
                        keep.set(j, false);
                        proof {
                            kept = kept.remove(j as int);
                            assert forall|t: Set<NodeIndex>| #[trigger] fed_below(self.nodes(), t)
                                implies forall|y: NodeIndex| #[trigger] t.contains(y) ==> keep@[ids@.index_of(y)] by {
                                assert forall|y: NodeIndex| #[trigger] t.contains(y) implies keep@[ids@.index_of(y)] by {
                                    assert(self.nodes().contains_key(y));
                                    assert(ids@.contains(y));
                                    let o = ids@.index_of(y);
                                    assert(ids@[o] == y);
                                    assert(before[o]);
                                    assert(!t.contains(x));
                                    assert(o != j);
                                }
                            }
                        }
                        left = left - 1;
                        changed = true;
                    }
                }
                j = j + 1;
            }
        }
        keep
    }

    /// Whether `x` is a node with a rank and, when `need_fed`, marked fed.
    fn marked(ids: &Vec<NodeIndex>, rank: &Vec<usize>, keep: &Vec<bool>, x: NodeIndex, need_fed: bool) -> (b: bool)
        requires
            ids@.no_duplicates(),
            rank@.len() == ids@.len(),
            keep@.len() == ids@.len(),
        ensures
            b == (ids@.contains(x) && rank_of(ids@, rank@, x) > 0 && (need_fed ==> keep@[ids@.index_of(x)])),
    {
        match position(ids, x) {
            Some(p) => {
                proof { lemma_index_of(ids@, p as int); }
                rank[p] > 0 && (!need_fed || keep[p])
            },
            None => false,
        }
    }

    /// Whether [`ShaderGraph::build`] can be called with `outputs`: the graph
    /// has a vertex output, and it is buildable for the roots and the nodes
    /// to clean up of that build (see [`buildable`]).
    pub fn can_build(&self, outputs: &[NodeIndex]) -> (r: bool)
        ensures
            r == (self.vertex_output() is Some
                && buildable(self.nodes(), self.build_roots(outputs@), self.cleanup_roots(outputs@))),
    {
        let vo = match self.vertex_output_index() {
            Some(v) => v,
            None => return false,
        };
        let ids = self.node_indices();
        let rank = self.rank_nodes(&ids);
        let keep = self.keep_fed(&ids);
        let ghost nodes = self.nodes();
        let ghost roots = self.build_roots(outputs@);
        let ghost fed_roots = self.cleanup_roots(outputs@);
        let ghost big_r = Set::new(|x: NodeIndex| ids@.contains(x) && rank_of(ids@, rank@, x) > 0);
        let ghost rho = |x: NodeIndex| rank_of(ids@, rank@, x);
        let ghost big_t = Set::new(|x: NodeIndex| ids@.contains(x) && keep@[ids@.index_of(x)]);
        proof {
            assert forall|x: NodeIndex| #[trigger] big_r.contains(x) implies nodes.contains_key(x)
                && node_closed(nodes, big_r, rho, x) by {
                let j = ids@.index_of(x);
                assert(0 <= j < ids@.len() && ids@[j] == x);
                assert(ready(nodes, ids@, rank@, ids@[j], rank@[j] as nat));
                assert forall|q: int| 0 <= q < MAX_INPUT_OUTPUTS_PER_NODE && (#[trigger] input_at(nodes, x, q)) is Some implies {
                    let inp = input_at(nodes, x, q).unwrap();
                    &&& big_r.contains(inp.owner_node_index)
                    &&& rho(inp.owner_node_index) < rho(x)
                    &&& inp.owner_node_output < MAX_INPUT_OUTPUTS_PER_NODE
                } by {}
            }
            assert(closed_below(nodes, big_r, rho));
            assert forall|x: NodeIndex| #[trigger] big_t.contains(x) implies nodes.contains_key(x) by {}
            assert forall|x: NodeIndex, q: int|
                #![trigger big_t.contains(x), input_at(nodes, x, q)]
                big_t.contains(x) && 0 <= q < MAX_INPUT_OUTPUTS_PER_NODE && input_at(nodes, x, q) is Some implies {
                    let inp = input_at(nodes, x, q).unwrap();
                    &&& big_t.contains(inp.owner_node_index)
                    &&& nodes[inp.owner_node_index].passthrough ==> inp.owner_node_output < MAX_INPUT_OUTPUTS_PER_NODE
                        && input_at(nodes, inp.owner_node_index, inp.owner_node_output as int) is Some
                } by {
                let j = ids@.index_of(x);
                assert(0 <= j < ids@.len() && ids@[j] == x);
                assert(fed(nodes, ids@, keep@, ids@[j]));
            }
            assert(fed_below(nodes, big_t));
            if buildable(nodes, roots, fed_roots) {
                let (s, t, rk) = choose|s: Set<NodeIndex>, t: Set<NodeIndex>, rk: spec_fn(NodeIndex) -> nat|
                    #![trigger closed_below(nodes, s, rk), fed_below(nodes, t)]
                    roots.subset_of(s) && fed_roots.subset_of(t) && closed_below(nodes, s, rk) && fed_below(nodes, t);
                assert forall|x: NodeIndex| #[trigger] s.contains(x) implies big_r.contains(x) by {
                    lemma_closed_ranked(nodes, ids@, rank@, s, rk, rk(x));
                    assert(nodes.contains_key(x));
                }
                assert forall|x: NodeIndex| #[trigger] t.contains(x) implies big_t.contains(x) by {
                    assert(nodes.contains_key(x));
                }
                assert(roots.subset_of(big_r));
                assert(fed_roots.subset_of(big_t));
            }
        }
        assert(buildable(nodes, roots, fed_roots) ==> roots.subset_of(big_r) && fed_roots.subset_of(big_t));
        assert(roots.contains(vo) && fed_roots.contains(vo));
        if !Self::marked(&ids, &rank, &keep, vo, true) {
            return false;
        }
        proof {
            assert forall|a: int| 0 <= a < outputs@.len() implies roots.contains(#[trigger] outputs@[a])
                && fed_roots.contains(outputs@[a]) by {
                assert(outputs@.contains(outputs@[a]));
            }
            assert forall|a: int| 0 <= a < self.color_nodes().len() implies roots.contains(#[trigger] self.color_nodes()[a]) by {
                assert(self.color_nodes().contains(self.color_nodes()[a]));
            }
        }
        let mut i: usize = 0;
        while i < outputs.len()
            invariant
                i <= outputs@.len(),
                ids@.no_duplicates(),
                rank@.len() == ids@.len(),
                keep@.len() == ids@.len(),
                big_r == Set::new(|x: NodeIndex| ids@.contains(x) && rank_of(ids@, rank@, x) > 0),
                big_t == Set::new(|x: NodeIndex| ids@.contains(x) && keep@[ids@.index_of(x)]),
                nodes == self.nodes(),
                roots == self.build_roots(outputs@),
                fed_roots == self.cleanup_roots(outputs@),
                self.vertex_output() is Some,
                buildable(nodes, roots, fed_roots) ==> roots.subset_of(big_r) && fed_roots.subset_of(big_t),
                forall|a: int| 0 <= a < outputs@.len() ==> roots.contains(#[trigger] outputs@[a]) && fed_roots.contains(outputs@[a]),
                forall|a: int| 0 <= a < i ==> big_r.contains(#[trigger] outputs@[a]) && big_t.contains(outputs@[a]),
            decreases outputs@.len() - i,
        {
            if !Self::marked(&ids, &rank, &keep, outputs[i], true) {
                return false;
            }
            assert(big_r.contains(outputs@[i as int]) && big_t.contains(outputs@[i as int]));
            i = i + 1;
        }
        let colors = self.get_color_outputs();
        let mut c: usize = 0;
        while c < colors.len()
            invariant
                c <= colors@.len(),
                colors@ == self.color_output_list(),
                ids@.no_duplicates(),
                rank@.len() == ids@.len(),
                keep@.len() == ids@.len(),
                big_r == Set::new(|x: NodeIndex| ids@.contains(x) && rank_of(ids@, rank@, x) > 0),
                big_t == Set::new(|x: NodeIndex| ids@.contains(x) && keep@[ids@.index_of(x)]),
                nodes == self.nodes(),
                roots == self.build_roots(outputs@),
                fed_roots == self.cleanup_roots(outputs@),
                self.vertex_output() is Some,
                buildable(nodes, roots, fed_roots) ==> roots.subset_of(big_r) && fed_roots.subset_of(big_t),
                forall|a: int| 0 <= a < colors@.len() ==> roots.contains(#[trigger] self.color_nodes()[a]),
                forall|a: int| 0 <= a < c ==> #[trigger] big_r.contains(self.color_nodes()[a]),
            decreases colors@.len() - c,
        {
            assert(colors@[c as int].node == self.color_nodes()[c as int]);
            if !Self::marked(&ids, &rank, &keep, colors[c].node, false) {
                return false;
            }
            c = c + 1;
        }
        proof {
            assert forall|x: NodeIndex| #[trigger] roots.contains(x) implies big_r.contains(x) by {
                if outputs@.contains(x) {
                    let a = choose|a: int| 0 <= a < outputs@.len() && outputs@[a] == x;
                }
                if self.color_nodes().contains(x) {
                    let a = choose|a: int| 0 <= a < self.color_nodes().len() && self.color_nodes()[a] == x;
                }
            }
            assert forall|x: NodeIndex| #[trigger] fed_roots.contains(x) implies big_t.contains(x) by {
                if outputs@.contains(x) {
                    let a = choose|a: int| 0 <= a < outputs@.len() && outputs@[a] == x;
                }
            }
            assert(closed_below(nodes, big_r, rho) && fed_below(nodes, big_t));
        }
        true
    }
}

} // verus!
