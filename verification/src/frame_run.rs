//! Where render nodes find their inputs while a frame runs. The nodes of a
//! level write their outputs side by side, `MAX_FRAME_NODE_INPUTS` slots per
//! node in the order the level runs them; an input reads, in the output list
//! of the level it names, the slot of the node and output it names.
use vstd::prelude::*;
use crate::arena::NodeIndex;
use crate::frame_graph::{traversed, FrameEdge, FrameNodeView, TraversedGraphNode, MAX_FRAME_NODE_INPUTS};

verus! {

/// The slot that output `output` of the node at `position` of its level
/// writes.
pub open spec fn output_slot(position: int, output: int) -> int {
    position * MAX_FRAME_NODE_INPUTS + output
}

/// Every output of every node of a level has a slot of its own: two outputs
/// below the limit share a slot only when they are the same output of the
/// node at the same position.
pub proof fn law_output_slots_distinct(p1: int, o1: int, p2: int, o2: int)
    requires
        0 <= p1,
        0 <= p2,
        0 <= o1 < MAX_FRAME_NODE_INPUTS,
        0 <= o2 < MAX_FRAME_NODE_INPUTS,
        output_slot(p1, o1) == output_slot(p2, o2),
    ensures
        p1 == p2,
        o1 == o2,
{
    if p1 < p2 {
        assert(p1 * 16 + 16 <= p2 * 16) by (nonlinear_arith)
            requires p1 < p2;
    } else if p2 < p1 {
        assert(p2 * 16 + 16 <= p1 * 16) by (nonlinear_arith)
            requires p2 < p1;
    }
}

/// A walked node reads each connected input from the output the connection
/// was made from: when input `k` of `node` holds edge `e`, made from output
/// `output` of `source`, the node met at `level` reads, while that level
/// runs after `previous` deeper levels, the list of the next deeper level and
/// the slot of output `output` of `source` there.
pub proof fn law_input_reads_connected_output(
    nodes: Map<NodeIndex, FrameNodeView>,
    edges: Map<NodeIndex, FrameEdge>,
    node: NodeIndex,
    level: int,
    k: int,
    e: NodeIndex,
    source: NodeIndex,
    output: usize,
    positions: Map<NodeIndex, usize>,
    previous: int,
)
    requires
        0 <= k < MAX_FRAME_NODE_INPUTS,
        0 <= level,
        level + 1 <= usize::MAX,
        nodes[node].inputs[k] == Some(e),
        edges[e] == (FrameEdge { owner_node_index: source, output_index: output }),
    ensures
        input_source(traversed(nodes, edges, node, level).inputs[k], positions, level, previous)
            == Some((
                (previous - 1) as usize,
                output_slot(positions[source] as int, output as int) as usize,
            )),
{
}

/// Where an input connected to output `output` of node `node`, walked at
/// level `target`, reads while level `level` runs with `previous` output
/// lists of deeper levels: the list `previous - (target - level)` and the
/// node's slot there. An unconnected input reads nothing.
pub open spec fn input_source(
    input: Option<(usize, usize, NodeIndex)>,
    positions: Map<NodeIndex, usize>,
    level: int,
    previous: int,
) -> Option<(usize, usize)> {
    match input {
        Some((target, output, node)) => Some((
            (previous - (target - level)) as usize,
            output_slot(positions[node] as int, output as int) as usize,
        )),
        None => None,
    }
}

/// An input that [`OutputPositions::input_sources`] can place: unconnected,
/// or connected to a node with a known position, walked at a deeper level
/// that is among the `previous` ones, with a slot that fits in `usize`.
pub open spec fn input_placeable(
    input: Option<(usize, usize, NodeIndex)>,
    positions: Map<NodeIndex, usize>,
    level: int,
    previous: int,
) -> bool {
    match input {
        Some((target, output, node)) => {
            &&& positions.contains_key(node)
            &&& level < target
            &&& target - level <= previous
            &&& output_slot(positions[node] as int, output as int) <= usize::MAX
        },
        None => true,
    }
}

/// No two nodes of `nodes` share an index.
pub open spec fn indices_distinct(nodes: Seq<TraversedGraphNode>) -> bool {
    forall|i: int, j: int| 0 <= i < j < nodes.len() ==> nodes[i].index != nodes[j].index
}

/// For each node that has run, its position within the last level it ran in.
pub struct OutputPositions {
    entries: Vec<(NodeIndex, usize)>,
    map: Ghost<Map<NodeIndex, usize>>,
}

impl OutputPositions {
    /// Each node's position.
    pub closed spec fn positions(&self) -> Map<NodeIndex, usize> {
        self.map@
    }

    /// The entries hold each known node once, with its position.
    pub closed spec fn well_formed(&self) -> bool {
        &&& forall|i: int, j: int| 0 <= i < j < self.entries@.len() ==> self.entries@[i].0 != self.entries@[j].0
        &&& forall|k: NodeIndex| #[trigger] self.map@.contains_key(k)
            <==> exists|i: int| 0 <= i < self.entries@.len() && self.entries@[i].0 == k
        &&& forall|i: int| 0 <= i < self.entries@.len() ==> self.map@[#[trigger] self.entries@[i].0] == self.entries@[i].1
    }

    /// No node has run yet.
    pub fn new() -> (r: OutputPositions)
        ensures
            r.well_formed(),
            r.positions() == Map::<NodeIndex, usize>::empty(),
    {
        OutputPositions { entries: Vec::new(), map: Ghost(Map::empty()) }
    }

    /// The position of `node`, if it has run.
    pub fn get(&self, node: NodeIndex) -> (r: Option<usize>)
        requires
            self.well_formed(),
        ensures
            r == if self.positions().contains_key(node) { Some(self.positions()[node]) } else { None },
    {
        let mut i: usize = 0;
        while i < self.entries.len()
            invariant
                self.well_formed(),
                i <= self.entries@.len(),
                forall|j: int| 0 <= j < i ==> self.entries@[j].0 != node,
            decreases self.entries@.len() - i,
        {
            if self.entries[i].0 == node {
                return Some(self.entries[i].1);
            }
            i = i + 1;
        }
        None
    }

    /// Records `position` for `node`.
    fn set(&mut self, node: NodeIndex, position: usize)
        requires
            old(self).well_formed(),
        ensures
            final(self).well_formed(),
            final(self).positions() == old(self).positions().insert(node, position),
    {
        let ghost m = self.map@.insert(node, position);
        let mut i: usize = 0;
        while i < self.entries.len()
            invariant
                old(self).well_formed(),
                m == old(self).map@.insert(node, position),
                i <= self.entries@.len(),
                self.entries@ == old(self).entries@,
                self.map@ == old(self).map@,
                forall|j: int| 0 <= j < i ==> self.entries@[j].0 != node,
            decreases self.entries@.len() - i,
        {
            if self.entries[i].0 == node {
                self.entries.set(i, (node, position));
                self.map = Ghost(m);
                proof {
                    assert forall|a: int, b: int| 0 <= a < b < self.entries@.len()
                        implies self.entries@[a].0 != self.entries@[b].0 by {
                        assert(old(self).entries@[a].0 != old(self).entries@[b].0);
                    }
                    assert forall|k: NodeIndex| #[trigger] self.map@.contains_key(k)
                        <==> exists|j: int| 0 <= j < self.entries@.len() && self.entries@[j].0 == k by {
                        if old(self).map@.contains_key(k) {
                            let j = choose|j: int| 0 <= j < old(self).entries@.len() && old(self).entries@[j].0 == k;
                            assert(self.entries@[j].0 == k);
                        }
                        if k == node {
                            assert(self.entries@[i as int].0 == k);
                        }
                        if exists|j: int| 0 <= j < self.entries@.len() && self.entries@[j].0 == k {
                            let j = choose|j: int| 0 <= j < self.entries@.len() && self.entries@[j].0 == k;
                            if j != i {
                                assert(old(self).entries@[j].0 == k);
                            }
                        }
                    }
                    assert forall|j: int| 0 <= j < self.entries@.len()
                        implies self.map@[#[trigger] self.entries@[j].0] == self.entries@[j].1 by {
                        if j != i {
                            assert(old(self).entries@[j].0 != node);
                            assert(old(self).map@[old(self).entries@[j].0] == old(self).entries@[j].1);
                        }
                    }
                }
                return;
            }
            i = i + 1;
        }
        self.entries.push((node, position));
        self.map = Ghost(m);
        proof {
            let n = old(self).entries@.len() as int;
            assert forall|k: NodeIndex| #[trigger] self.map@.contains_key(k)
                <==> exists|j: int| 0 <= j < self.entries@.len() && self.entries@[j].0 == k by {
                if old(self).map@.contains_key(k) {
                    let j = choose|j: int| 0 <= j < old(self).entries@.len() && old(self).entries@[j].0 == k;
                    assert(self.entries@[j].0 == k);
                }
                if k == node {
                    assert(self.entries@[n].0 == k);
                }
                if exists|j: int| 0 <= j < self.entries@.len() && self.entries@[j].0 == k {
                    let j = choose|j: int| 0 <= j < self.entries@.len() && self.entries@[j].0 == k;
                    if j != n {
                        assert(old(self).entries@[j].0 == k);
                    }
                }
            }
            assert forall|j: int| 0 <= j < self.entries@.len()
                implies self.map@[#[trigger] self.entries@[j].0] == self.entries@[j].1 by {
                if j != n {
                    assert(old(self).map@[old(self).entries@[j].0] == old(self).entries@[j].1);
                }
            }
        }
    }

    /// Records the position of every node of a level about to run: the node
    /// at `i` takes position `i`; nodes of other levels keep theirs.
    pub fn record_level(&mut self, nodes: &Vec<TraversedGraphNode>)
        requires
            old(self).well_formed(),
            indices_distinct(nodes@),
        ensures
            final(self).well_formed(),
            forall|i: int| 0 <= i < nodes@.len() ==> final(self).positions().contains_key(#[trigger] nodes@[i].index)
                && final(self).positions()[nodes@[i].index] == i,
            forall|k: NodeIndex| final(self).positions().contains_key(k) <==> (old(self).positions().contains_key(k)
                || exists|i: int| 0 <= i < nodes@.len() && #[trigger] nodes@[i].index == k),
            forall|k: NodeIndex| old(self).positions().contains_key(k)
                && (forall|i: int| 0 <= i < nodes@.len() ==> #[trigger] nodes@[i].index != k)
                ==> final(self).positions()[k] == old(self).positions()[k],
    {
        let mut i: usize = 0;
        while i < nodes.len()
            invariant
                i <= nodes@.len(),
                indices_distinct(nodes@),
                self.well_formed(),
                forall|a: int| 0 <= a < i ==> self.positions().contains_key(#[trigger] nodes@[a].index)
                    && self.positions()[nodes@[a].index] == a,
                forall|k: NodeIndex| self.positions().contains_key(k) <==> (old(self).positions().contains_key(k)
                    || exists|a: int| 0 <= a < i && #[trigger] nodes@[a].index == k),
                forall|k: NodeIndex| old(self).positions().contains_key(k)
                    && (forall|a: int| 0 <= a < i ==> #[trigger] nodes@[a].index != k)
                    ==> self.positions()[k] == old(self).positions()[k],
            decreases nodes@.len() - i,
        {
            let ghost before = self.positions();
            self.set(nodes[i].index, i);
            proof {
                assert forall|a: int| 0 <= a <= i implies self.positions().contains_key(#[trigger] nodes@[a].index)
                    && self.positions()[nodes@[a].index] == a by {
                    if a < i {
                        assert(nodes@[a].index != nodes@[i as int].index);
                    }
                }
                assert forall|k: NodeIndex| self.positions().contains_key(k) <==> (old(self).positions().contains_key(k)
                    || exists|a: int| 0 <= a < i + 1 && #[trigger] nodes@[a].index == k) by {
                    if k == nodes@[i as int].index {
                        assert(nodes@[i as int].index == k);
                    }
                    if exists|a: int| 0 <= a < i + 1 && #[trigger] nodes@[a].index == k {
                        let a = choose|a: int| 0 <= a < i + 1 && #[trigger] nodes@[a].index == k;
                        if a < i {
                            assert(before.contains_key(k));
                        }
                    }
                }
                assert forall|k: NodeIndex| old(self).positions().contains_key(k)
                    && (forall|a: int| 0 <= a < i + 1 ==> #[trigger] nodes@[a].index != k)
                    implies self.positions()[k] == old(self).positions()[k] by {
                    assert(nodes@[i as int].index != k);
                    assert forall|a: int| 0 <= a < i implies #[trigger] nodes@[a].index != k by {
                        assert(nodes@[a].index != k);
                    }
                }
            }
            i = i + 1;
        }
    }

    /// For each input slot of `node`, running at level `level` after
    /// `previous_len` deeper levels, the output list and slot its value is
    /// read from (see [`input_source`]).
    pub fn input_sources(&self, node: &TraversedGraphNode, level: usize, previous_len: usize)
        -> (r: Vec<Option<(usize, usize)>>)
        requires
            self.well_formed(),
            forall|q: int| 0 <= q < MAX_FRAME_NODE_INPUTS ==> input_placeable(
                #[trigger] node@.inputs[q], self.positions(), level as int, previous_len as int),
        ensures
            r@.len() == MAX_FRAME_NODE_INPUTS,
            forall|q: int| 0 <= q < MAX_FRAME_NODE_INPUTS ==> #[trigger] r@[q] == input_source(
                node@.inputs[q], self.positions(), level as int, previous_len as int),
    {
        let mut r: Vec<Option<(usize, usize)>> = Vec::new();
        let mut q: usize = 0;
        while q < MAX_FRAME_NODE_INPUTS
            invariant
                q <= MAX_FRAME_NODE_INPUTS,
                self.well_formed(),
                node@.inputs.len() == MAX_FRAME_NODE_INPUTS,
                forall|p: int| 0 <= p < MAX_FRAME_NODE_INPUTS ==> input_placeable(
                    #[trigger] node@.inputs[p], self.positions(), level as int, previous_len as int),
                r@.len() == q,
                forall|p: int| 0 <= p < q ==> #[trigger] r@[p] == input_source(
                    node@.inputs[p], self.positions(), level as int, previous_len as int),
            decreases MAX_FRAME_NODE_INPUTS - q,
        {
            let source = match node.inputs[q] {
                Some((target, output, owner)) => {
                    assert(input_placeable(node@.inputs[q as int], self.positions(), level as int, previous_len as int));
                    let position = self.get(owner).unwrap();
                    let slot = position * MAX_FRAME_NODE_INPUTS + output;
                    Some((previous_len - (target - level), slot))
                },
                None => None,
            };
            r.push(source);
            q = q + 1;
        }
        r
    }
}

} // verus!
