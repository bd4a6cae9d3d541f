//! The mathematical model of a shader graph's connections: which node sets
//! are closed and acyclic, and the order in which a traversal visits nodes.
use vstd::prelude::*;
use crate::arena::NodeIndex;
use crate::shader_graph::{Input, NodeView, MAX_INPUT_OUTPUTS_PER_NODE};

verus! {

/// Input slot `k` of node `n` (`None` when nothing is connected there).
pub open spec fn input_at(nodes: Map<NodeIndex, NodeView>, n: NodeIndex, k: int) -> Option<Input> {
    nodes[n].inputs[k]
}

/// Every connected input of `n` comes from a node of `s` with a smaller rank
/// and names an output below the limit.
pub open spec fn node_closed(
    nodes: Map<NodeIndex, NodeView>,
    s: Set<NodeIndex>,
    rank: spec_fn(NodeIndex) -> nat,
    n: NodeIndex,
) -> bool {
    forall|k: int|
        0 <= k < MAX_INPUT_OUTPUTS_PER_NODE && (#[trigger] input_at(nodes, n, k)) is Some ==> {
            let inp = input_at(nodes, n, k).unwrap();
            &&& s.contains(inp.owner_node_index)
            &&& rank(inp.owner_node_index) < rank(n)
            &&& inp.owner_node_output < MAX_INPUT_OUTPUTS_PER_NODE
        }
}

/// Every node of `t` exists; every connected input of a node of `t` comes
/// from a node of `t`, and, where that node only passes values through, the
/// input of that node that is read exists and is connected.
pub open spec fn fed_below(nodes: Map<NodeIndex, NodeView>, t: Set<NodeIndex>) -> bool {
    &&& forall|n: NodeIndex| #[trigger] t.contains(n) ==> nodes.contains_key(n)
    &&& forall|n: NodeIndex, k: int|
        #![trigger t.contains(n), input_at(nodes, n, k)]
        t.contains(n) && 0 <= k < MAX_INPUT_OUTPUTS_PER_NODE && input_at(nodes, n, k) is Some ==> {
            let inp = input_at(nodes, n, k).unwrap();
            &&& t.contains(inp.owner_node_index)
            &&& nodes[inp.owner_node_index].passthrough ==> inp.owner_node_output < MAX_INPUT_OUTPUTS_PER_NODE
                && input_at(nodes, inp.owner_node_index, inp.owner_node_output as int) is Some
        }
}

/// What a build needs of the graph: from every node of `roots`, following
/// inputs only reaches existing nodes and never runs in a cycle; from every
/// node of `fed` (the nodes whose passthrough inputs get removed) it also
/// never reaches an unconnected input of a passthrough node.
pub open spec fn buildable(nodes: Map<NodeIndex, NodeView>, roots: Set<NodeIndex>, fed: Set<NodeIndex>) -> bool {
    exists|s: Set<NodeIndex>, t: Set<NodeIndex>, rank: spec_fn(NodeIndex) -> nat|
        #![trigger closed_below(nodes, s, rank), fed_below(nodes, t)]
        roots.subset_of(s) && fed.subset_of(t) && closed_below(nodes, s, rank) && fed_below(nodes, t)
}

/// A closed set, a set whose passthrough inputs are fed, and a rank that
/// show [`buildable`] (any one).
pub open spec fn build_witness(
    nodes: Map<NodeIndex, NodeView>,
    roots: Set<NodeIndex>,
    fed: Set<NodeIndex>,
) -> (Set<NodeIndex>, Set<NodeIndex>, spec_fn(NodeIndex) -> nat) {
    choose|p: (Set<NodeIndex>, Set<NodeIndex>, spec_fn(NodeIndex) -> nat)|
        roots.subset_of(p.0) && fed.subset_of(p.1) && closed_below(nodes, p.0, p.2) && fed_below(nodes, p.1)
}

/// `s` is a set of existing nodes, closed under following inputs, and `rank`
/// strictly decreases along every connection inside it (so there is no cycle).
pub open spec fn closed_below(
    nodes: Map<NodeIndex, NodeView>,
    s: Set<NodeIndex>,
    rank: spec_fn(NodeIndex) -> nat,
) -> bool {
    forall|n: NodeIndex| #[trigger] s.contains(n) ==> nodes.contains_key(n) && node_closed(nodes, s, rank, n)
}

/// From every node of `roots`, following inputs only reaches existing nodes
/// and never runs in a cycle.
pub open spec fn traversable(nodes: Map<NodeIndex, NodeView>, roots: Set<NodeIndex>) -> bool {
    exists|s: Set<NodeIndex>, rank: spec_fn(NodeIndex) -> nat|
        roots.subset_of(s) && #[trigger] closed_below(nodes, s, rank)
}

/// The nodes visited by a depth-first walk from `idx` that lists a node, then
/// walks each connected input in slot order, going at most `fuel` deep.
pub open spec fn preorder(nodes: Map<NodeIndex, NodeView>, idx: NodeIndex, fuel: nat) -> Seq<NodeIndex>
    decreases fuel, 0nat,
{
    if fuel == 0 {
        Seq::empty()
    } else {
        seq![idx] + preorder_inputs(nodes, nodes[idx].inputs, 0, (fuel - 1) as nat)
    }
}

/// The walk of [`preorder`] over input slots `k..` of a node.
pub open spec fn preorder_inputs(
    nodes: Map<NodeIndex, NodeView>,
    ins: Seq<Option<Input>>,
    k: nat,
    fuel: nat,
) -> Seq<NodeIndex>
    decreases fuel, MAX_INPUT_OUTPUTS_PER_NODE + 1 - k,
{
    if k >= MAX_INPUT_OUTPUTS_PER_NODE || k >= ins.len() {
        Seq::empty()
    } else {
        let rest = preorder_inputs(nodes, ins, k + 1, fuel);
        match ins[k as int] {
            Some(inp) => preorder(nodes, inp.owner_node_index, fuel) + rest,
            None => rest,
        }
    }
}

/// A closed set and rank that cover `roots` (any one, where there is one).
pub open spec fn witness(nodes: Map<NodeIndex, NodeView>, roots: Set<NodeIndex>) -> (Set<NodeIndex>, spec_fn(NodeIndex) -> nat) {
    choose|p: (Set<NodeIndex>, spec_fn(NodeIndex) -> nat)| roots.subset_of(p.0) && closed_below(nodes, p.0, p.1)
}

/// The full depth-first walk from `idx`: deep enough to reach every node
/// below it (its length does not depend on which rank is chosen).
pub open spec fn traversal(nodes: Map<NodeIndex, NodeView>, idx: NodeIndex) -> Seq<NodeIndex> {
    preorder(nodes, idx, ((witness(nodes, set![idx]).1)(idx) + 1) as nat)
}

/// Once the fuel exceeds the rank of `idx`, more fuel does not change the walk.
pub proof fn lemma_preorder_fuel(
    nodes: Map<NodeIndex, NodeView>,
    s: Set<NodeIndex>,
    rank: spec_fn(NodeIndex) -> nat,
    idx: NodeIndex,
    f1: nat,
    f2: nat,
)
    requires
        closed_below(nodes, s, rank),
        s.contains(idx),
        f1 > rank(idx),
        f2 > rank(idx),
    ensures
        preorder(nodes, idx, f1) == preorder(nodes, idx, f2),
    decreases rank(idx), MAX_INPUT_OUTPUTS_PER_NODE + 2,
{
    lemma_preorder_inputs_fuel(nodes, s, rank, idx, 0, (f1 - 1) as nat, (f2 - 1) as nat);
}

proof fn lemma_preorder_inputs_fuel(
    nodes: Map<NodeIndex, NodeView>,
    s: Set<NodeIndex>,
    rank: spec_fn(NodeIndex) -> nat,
    idx: NodeIndex,
    k: nat,
    f1: nat,
    f2: nat,
)
    requires
        closed_below(nodes, s, rank),
        s.contains(idx),
        f1 >= rank(idx),
        f2 >= rank(idx),
    ensures
        preorder_inputs(nodes, nodes[idx].inputs, k, f1) == preorder_inputs(nodes, nodes[idx].inputs, k, f2),
    decreases rank(idx), MAX_INPUT_OUTPUTS_PER_NODE + 1 - k,
{
    let ins = nodes[idx].inputs;
    if k >= MAX_INPUT_OUTPUTS_PER_NODE || k >= ins.len() {
    } else {
        lemma_preorder_inputs_fuel(nodes, s, rank, idx, k + 1, f1, f2);
        match ins[k as int] {
            Some(inp) => {
                assert(input_at(nodes, idx, k as int) is Some);
                lemma_preorder_fuel(nodes, s, rank, inp.owner_node_index, f1, f2);
            },
            None => {},
        }
    }
}

/// Under any closed set and rank that cover `idx`, the walk with fuel beyond
/// the rank is [`traversal`].
pub proof fn lemma_traversal(
    nodes: Map<NodeIndex, NodeView>,
    s: Set<NodeIndex>,
    rank: spec_fn(NodeIndex) -> nat,
    idx: NodeIndex,
    f: nat,
)
    requires
        closed_below(nodes, s, rank),
        s.contains(idx),
        f > rank(idx),
    ensures
        preorder(nodes, idx, f) == traversal(nodes, idx),
{
    let p = (s, rank);
    assert(set![idx].subset_of(p.0) && closed_below(nodes, p.0, p.1));
    let w = witness(nodes, set![idx]);
    assert(set![idx].subset_of(w.0) && closed_below(nodes, w.0, w.1));
    assert(w.0.contains(idx));
    let g = f + w.1(idx) + 1;
    lemma_preorder_fuel(nodes, s, rank, idx, f, g);
    lemma_preorder_fuel(nodes, w.0, w.1, idx, (w.1(idx) + 1) as nat, g);
}

/// `node` with input slot `k` set to `value`.
pub open spec fn with_input(node: NodeView, k: int, value: Option<Input>) -> NodeView {
    NodeView { inputs: node.inputs.update(k, value), ..node }
}

/// The graph after removing passthrough nodes below `idx`: walking the
/// inputs of `idx` in slot order, each connection to a passthrough node is
/// replaced by the connection that node receives in the matching slot (as it
/// stands at that moment), and the walk continues into the connected node.
pub open spec fn cleanup(
    nodes: Map<NodeIndex, NodeView>,
    rank: spec_fn(NodeIndex) -> nat,
    idx: NodeIndex,
) -> Map<NodeIndex, NodeView>
    decreases rank(idx), MAX_INPUT_OUTPUTS_PER_NODE + 2,
{
    cleanup_from(nodes, rank, idx, nodes[idx], 0)
}

/// The part of [`cleanup`] that handles input slots `k..` of `idx`, with the
/// slots before `k` already rewritten in `pending`.
pub open spec fn cleanup_from(
    m: Map<NodeIndex, NodeView>,
    rank: spec_fn(NodeIndex) -> nat,
    idx: NodeIndex,
    pending: NodeView,
    k: nat,
) -> Map<NodeIndex, NodeView>
    decreases rank(idx), MAX_INPUT_OUTPUTS_PER_NODE + 1 - k,
{
    if k >= MAX_INPUT_OUTPUTS_PER_NODE || k >= pending.inputs.len() {
        m.insert(idx, pending)
    } else {
        match pending.inputs[k as int] {
            None => cleanup_from(m, rank, idx, pending, k + 1),
            Some(inp) => {
                let target = m[inp.owner_node_index];
                let pending2 = if target.passthrough {
                    with_input(pending, k as int, target.inputs[inp.owner_node_output as int])
                } else {
                    pending
                };
                let m2 = if rank(inp.owner_node_index) < rank(idx) {
                    cleanup(m, rank, inp.owner_node_index)
                } else {
                    m
                };
                cleanup_from(m2, rank, idx, pending2, k + 1)
            },
        }
    }
}

/// `after` has the nodes of `before`, each of the same kind and output
/// types, with the same input slots connected.
pub open spec fn same_shape(before: Map<NodeIndex, NodeView>, after: Map<NodeIndex, NodeView>) -> bool {
    &&& after.dom() == before.dom()
    &&& forall|n: NodeIndex| #[trigger] before.contains_key(n) ==> {
        &&& after[n].passthrough == before[n].passthrough
        &&& after[n].outputs == before[n].outputs
        &&& after[n].inputs.len() == before[n].inputs.len()
        &&& forall|k: int| 0 <= k < before[n].inputs.len() ==>
            (#[trigger] after[n].inputs[k] is Some) == before[n].inputs[k] is Some
    }
}

/// Every node has exactly the input slots of the limit.
pub open spec fn slots_complete(nodes: Map<NodeIndex, NodeView>) -> bool {
    forall|n: NodeIndex| #[trigger] nodes.contains_key(n) ==> nodes[n].inputs.len() == MAX_INPUT_OUTPUTS_PER_NODE
}

/// `s` without repetitions, keeping the first occurrence of each node.
pub open spec fn dedup(s: Seq<NodeIndex>) -> Seq<NodeIndex>
    decreases s.len(),
{
    if s.len() == 0 {
        s
    } else {
        let d = dedup(s.drop_last());
        if d.contains(s.last()) {
            d
        } else {
            d.push(s.last())
        }
    }
}

/// The nodes where a walk from `current` towards its inputs first meets a
/// node that lies in both `source` and `target`; the walk does not go on
/// below such a node.
pub open spec fn shared_below(
    nodes: Map<NodeIndex, NodeView>,
    rank: spec_fn(NodeIndex) -> nat,
    source: Seq<NodeIndex>,
    target: Seq<NodeIndex>,
    current: NodeIndex,
) -> Seq<NodeIndex>
    decreases rank(current), MAX_INPUT_OUTPUTS_PER_NODE + 2,
{
    shared_inputs(nodes, rank, source, target, current, 0)
}

/// The part of [`shared_below`] that comes from input slots `k..`.
pub open spec fn shared_inputs(
    nodes: Map<NodeIndex, NodeView>,
    rank: spec_fn(NodeIndex) -> nat,
    source: Seq<NodeIndex>,
    target: Seq<NodeIndex>,
    current: NodeIndex,
    k: nat,
) -> Seq<NodeIndex>
    decreases rank(current), MAX_INPUT_OUTPUTS_PER_NODE + 1 - k,
{
    if k >= MAX_INPUT_OUTPUTS_PER_NODE || k >= nodes[current].inputs.len() {
        Seq::empty()
    } else {
        let rest = shared_inputs(nodes, rank, source, target, current, k + 1);
        match nodes[current].inputs[k as int] {
            None => rest,
            Some(inp) => {
                let t = inp.owner_node_index;
                if source.contains(t) && target.contains(t) {
                    seq![t] + rest
                } else if rank(t) < rank(current) {
                    shared_below(nodes, rank, source, target, t) + rest
                } else {
                    rest
                }
            },
        }
    }
}

/// The graph after [`cleanup`] from each of `roots`, in order.
pub open spec fn cleanup_each(
    nodes: Map<NodeIndex, NodeView>,
    rank: spec_fn(NodeIndex) -> nat,
    roots: Seq<NodeIndex>,
) -> Map<NodeIndex, NodeView>
    decreases roots.len(),
{
    if roots.len() == 0 {
        nodes
    } else {
        cleanup(cleanup_each(nodes, rank, roots.drop_last()), rank, roots.last())
    }
}

/// The walks from each of `roots`, one after the other.
pub open spec fn walks(
    nodes: Map<NodeIndex, NodeView>,
    rank: spec_fn(NodeIndex) -> nat,
    roots: Seq<NodeIndex>,
) -> Seq<NodeIndex>
    decreases roots.len(),
{
    if roots.len() == 0 {
        Seq::empty()
    } else {
        walks(nodes, rank, roots.drop_last()) + preorder(nodes, roots.last(), rank(roots.last()) + 1)
    }
}

/// [`shared_below`] for each of `roots`, one after the other.
pub open spec fn shared_each(
    nodes: Map<NodeIndex, NodeView>,
    rank: spec_fn(NodeIndex) -> nat,
    source: Seq<NodeIndex>,
    target: Seq<NodeIndex>,
    roots: Seq<NodeIndex>,
) -> Seq<NodeIndex>
    decreases roots.len(),
{
    if roots.len() == 0 {
        Seq::empty()
    } else {
        shared_each(nodes, rank, source, target, roots.drop_last())
            + shared_below(nodes, rank, source, target, roots.last())
    }
}

/// Every node that [`dedup`] keeps comes from the list, and every node of
/// the list is kept; none is kept twice.
pub proof fn lemma_dedup(s: Seq<NodeIndex>)
    ensures
        forall|x: NodeIndex| dedup(s).contains(x) <==> s.contains(x),
        dedup(s).no_duplicates(),
    decreases s.len(),
{
    if s.len() > 0 {
        lemma_dedup(s.drop_last());
        let d = dedup(s.drop_last());
        assert forall|x: NodeIndex| dedup(s).contains(x) <==> s.contains(x) by {
            if s.contains(x) && x != s.last() {
                let i = choose|i: int| 0 <= i < s.len() && s[i] == x;
                assert(s.drop_last()[i] == x);
            }
            if s.drop_last().contains(x) {
                let i = choose|i: int| 0 <= i < s.drop_last().len() && s.drop_last()[i] == x;
                assert(s[i] == x);
            }
            if !d.contains(s.last()) && dedup(s).contains(x) {
                let i = choose|i: int| 0 <= i < dedup(s).len() && dedup(s)[i] == x;
                if i < d.len() {
                    assert(d[i] == x);
                }
            }
            if d.contains(x) && !d.contains(s.last()) {
                let i = choose|i: int| 0 <= i < d.len() && d[i] == x;
                assert(dedup(s)[i] == x);
            }
            if x == s.last() && !d.contains(s.last()) {
                assert(dedup(s)[d.len() as int] == x);
            }
            if x == s.last() {
                assert(s[s.len() - 1] == x);
            }
        }
    }
}

/// The nodes met by [`shared_below`] from a node of a closed set stay in it.
pub proof fn lemma_shared_below_in(
    nodes: Map<NodeIndex, NodeView>,
    s: Set<NodeIndex>,
    rank: spec_fn(NodeIndex) -> nat,
    source: Seq<NodeIndex>,
    target: Seq<NodeIndex>,
    current: NodeIndex,
)
    requires
        closed_below(nodes, s, rank),
        s.contains(current),
    ensures
        forall|x: NodeIndex| shared_below(nodes, rank, source, target, current).contains(x) ==> s.contains(x),
    decreases rank(current), MAX_INPUT_OUTPUTS_PER_NODE + 2,
{
    lemma_shared_inputs_in(nodes, s, rank, source, target, current, 0);
}

proof fn lemma_shared_inputs_in(
    nodes: Map<NodeIndex, NodeView>,
    s: Set<NodeIndex>,
    rank: spec_fn(NodeIndex) -> nat,
    source: Seq<NodeIndex>,
    target: Seq<NodeIndex>,
    current: NodeIndex,
    k: nat,
)
    requires
        closed_below(nodes, s, rank),
        s.contains(current),
    ensures
        forall|x: NodeIndex| shared_inputs(nodes, rank, source, target, current, k).contains(x) ==> s.contains(x),
    decreases rank(current), MAX_INPUT_OUTPUTS_PER_NODE + 1 - k,
{
    if k >= MAX_INPUT_OUTPUTS_PER_NODE || k >= nodes[current].inputs.len() {
    } else {
        lemma_shared_inputs_in(nodes, s, rank, source, target, current, k + 1);
        let rest = shared_inputs(nodes, rank, source, target, current, k + 1);
        match nodes[current].inputs[k as int] {
            None => {},
            Some(inp) => {
                assert(input_at(nodes, current, k as int) is Some);
                let t = inp.owner_node_index;
                let here = if source.contains(t) && target.contains(t) {
                    seq![t]
                } else if rank(t) < rank(current) {
                    lemma_shared_below_in(nodes, s, rank, source, target, t);
                    shared_below(nodes, rank, source, target, t)
                } else {
                    Seq::empty()
                };
                assert(shared_inputs(nodes, rank, source, target, current, k) == here + rest);
                assert forall|x: NodeIndex| (here + rest).contains(x) implies s.contains(x) by {
                    let i = choose|i: int| 0 <= i < (here + rest).len() && (here + rest)[i] == x;
                    if i < here.len() {
                        assert(here[i] == x);
                    } else {
                        assert(rest[i - here.len()] == x);
                    }
                }
            },
        }
    }
}

/// The nodes met by [`shared_each`] from nodes of a closed set stay in it.
pub proof fn lemma_shared_each_in(
    nodes: Map<NodeIndex, NodeView>,
    s: Set<NodeIndex>,
    rank: spec_fn(NodeIndex) -> nat,
    source: Seq<NodeIndex>,
    target: Seq<NodeIndex>,
    roots: Seq<NodeIndex>,
)
    requires
        closed_below(nodes, s, rank),
        forall|i: int| 0 <= i < roots.len() ==> s.contains(#[trigger] roots[i]),
    ensures
        forall|x: NodeIndex| shared_each(nodes, rank, source, target, roots).contains(x) ==> s.contains(x),
    decreases roots.len(),
{
    if roots.len() > 0 {
        lemma_shared_each_in(nodes, s, rank, source, target, roots.drop_last());
        assert(s.contains(roots[roots.len() - 1]));
        lemma_shared_below_in(nodes, s, rank, source, target, roots.last());
        let a = shared_each(nodes, rank, source, target, roots.drop_last());
        let b = shared_below(nodes, rank, source, target, roots.last());
        assert forall|x: NodeIndex| (a + b).contains(x) implies s.contains(x) by {
            let i = choose|i: int| 0 <= i < (a + b).len() && (a + b)[i] == x;
            if i < a.len() {
                assert(a[i] == x);
            } else {
                assert(b[i - a.len()] == x);
            }
        }
    }
}

} // verus!
