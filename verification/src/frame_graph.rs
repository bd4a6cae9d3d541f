//! The frame graph: render nodes connected output-to-input through edges,
//! walked from the end node into levels (a node's inputs one level deeper)
//! and run level by level, deepest first.
use vstd::prelude::*;
use generational_arena::Arena;
use multimap::MultiMap;
use crate::arena::NodeIndex;
use crate::frame_store::{
    frame_edge_arena, frame_edge_clear, frame_edge_get, frame_edge_insert, frame_edges, frame_node_arena,
    frame_edge_generation, frame_node_clear, frame_node_generation, frame_node_get, frame_node_get_mut,
    frame_node_insert, frame_nodes, index_le,
    level_lists, levels_clear, levels_get, levels_insert, levels_keys, levels_with_capacity, sort_by_index,
    sort_levels,
};
use crate::text::owned;

verus! {

/// How many levels the graph's storage is prepared for.
pub const MAX_LAYERS: usize = 8;
/// How many nodes per level the graph's storage is prepared for.
pub const MAX_NODES_PER_LAYER: usize = 8;
/// How many inputs (and outputs) a render node can have.
pub const MAX_FRAME_NODE_INPUTS: usize = 16;

/// A render node as the graph sees it: its name and, per input slot, the
/// edge connected there.
pub struct FrameNode {
    pub name: String,
    pub inputs: [Option<NodeIndex>; MAX_FRAME_NODE_INPUTS],
}

/// A connection: which output of which node feeds an input.
#[derive(Clone, Copy, Debug, PartialEq, Eq, Structural)]
pub struct FrameEdge {
    pub owner_node_index: NodeIndex,
    pub output_index: usize,
}

/// A node met by the walk: its index and, per input slot, the level, output
/// and node its value comes from.
#[derive(Clone, Copy, Debug)]
pub struct TraversedGraphNode {
    pub index: NodeIndex,
    pub inputs: [Option<(usize, usize, NodeIndex)>; MAX_FRAME_NODE_INPUTS],
}

/// Why a connection was refused.
#[derive(Clone, Copy, Debug, PartialEq, Eq, Structural)]
pub enum GraphConnectError {
    /// The target node has reached its input limit.
    MaximumInputsReached,
    /// The source node has reached its outputs limit.
    MaximumOutputsReached,
    /// The target node does not exist.
    InvalidDestination,
    /// The target node's input is already connected.
    AlreadyConnected,
}

pub struct FrameGraph {
    node_arena: Arena<FrameNode>,
    edges_arena: Arena<FrameEdge>,
    end_node: NodeIndex,
    levels_map: MultiMap<usize, TraversedGraphNode>,
}

/// The model of a render node: its name and its input slots.
pub ghost struct FrameNodeView {
    pub name: Seq<char>,
    pub inputs: Seq<Option<NodeIndex>>,
}

impl View for FrameNode {
    type V = FrameNodeView;

    open spec fn view(&self) -> FrameNodeView {
        FrameNodeView { name: self.name@, inputs: self.inputs@ }
    }
}

/// The model of a traversed node.
pub ghost struct TraversedView {
    pub index: NodeIndex,
    pub inputs: Seq<Option<(usize, usize, NodeIndex)>>,
}

impl View for TraversedGraphNode {
    type V = TraversedView;

    open spec fn view(&self) -> TraversedView {
        TraversedView { index: self.index, inputs: self.inputs@ }
    }
}

/// The model of an arena's nodes.
pub open spec fn node_views(m: Map<NodeIndex, FrameNode>) -> Map<NodeIndex, FrameNodeView> {
    m.map_values(|n: FrameNode| n@)
}

/// The model of the levels.
pub open spec fn level_views(m: Map<usize, Seq<TraversedGraphNode>>) -> Map<usize, Seq<TraversedView>> {
    m.map_values(|s: Seq<TraversedGraphNode>| s.map_values(|t: TraversedGraphNode| t@))
}

/// A node with no input connected.
pub open spec fn unconnected_frame_node(name: Seq<char>) -> FrameNodeView {
    FrameNodeView { name, inputs: Seq::new(MAX_FRAME_NODE_INPUTS as nat, |k: int| None::<NodeIndex>) }
}

/// `s` is a set of existing nodes whose connected inputs all go through
/// existing edges to nodes of `s` of smaller rank.
pub open spec fn frame_closed(
    nodes: Map<NodeIndex, FrameNodeView>,
    edges: Map<NodeIndex, FrameEdge>,
    s: Set<NodeIndex>,
    rank: spec_fn(NodeIndex) -> nat,
) -> bool {
    forall|n: NodeIndex| #[trigger] s.contains(n) ==> {
        &&& nodes.contains_key(n)
        &&& nodes[n].inputs.len() == MAX_FRAME_NODE_INPUTS
        &&& forall|k: int| 0 <= k < MAX_FRAME_NODE_INPUTS && (#[trigger] nodes[n].inputs[k]) is Some ==> {
            let e = nodes[n].inputs[k].unwrap();
            &&& edges.contains_key(e)
            &&& s.contains(edges[e].owner_node_index)
            &&& rank(edges[e].owner_node_index) < rank(n)
        }
    }
}

/// The traversed form of node `idx` met at `level`.
pub open spec fn traversed(
    nodes: Map<NodeIndex, FrameNodeView>,
    edges: Map<NodeIndex, FrameEdge>,
    idx: NodeIndex,
    level: int,
) -> TraversedView {
    TraversedView {
        index: idx,
        inputs: Seq::new(MAX_FRAME_NODE_INPUTS as nat, |k: int| match nodes[idx].inputs[k] {
            Some(e) => Some(((level + 1) as usize, edges[e].output_index, edges[e].owner_node_index)),
            None => None,
        }),
    }
}

/// The list of `level` in `m`, empty when there is none.
pub open spec fn level_of(m: Map<usize, Seq<TraversedView>>, level: int) -> Seq<TraversedView> {
    if m.contains_key(level as usize) { m[level as usize] } else { Seq::empty() }
}

/// The levels after walking from `idx` at `level`: first the node behind
/// each connected input, in slot order, one level deeper; then `idx` itself
/// goes to the end of its level's list.
pub open spec fn walk(
    nodes: Map<NodeIndex, FrameNodeView>,
    edges: Map<NodeIndex, FrameEdge>,
    rank: spec_fn(NodeIndex) -> nat,
    m: Map<usize, Seq<TraversedView>>,
    idx: NodeIndex,
    level: int,
) -> Map<usize, Seq<TraversedView>>
    decreases rank(idx), MAX_FRAME_NODE_INPUTS + 2,
{
    let m2 = walk_inputs(nodes, edges, rank, m, idx, level, 0);
    m2.insert(level as usize, level_of(m2, level).push(traversed(nodes, edges, idx, level)))
}

/// The part of [`walk`] for input slots `k..` of `idx`.
pub open spec fn walk_inputs(
    nodes: Map<NodeIndex, FrameNodeView>,
    edges: Map<NodeIndex, FrameEdge>,
    rank: spec_fn(NodeIndex) -> nat,
    m: Map<usize, Seq<TraversedView>>,
    idx: NodeIndex,
    level: int,
    k: nat,
) -> Map<usize, Seq<TraversedView>>
    decreases rank(idx), MAX_FRAME_NODE_INPUTS + 1 - k,
{
    if k >= MAX_FRAME_NODE_INPUTS || k >= nodes[idx].inputs.len() {
        m
    } else {
        match nodes[idx].inputs[k as int] {
            None => walk_inputs(nodes, edges, rank, m, idx, level, k + 1),
            Some(e) => {
                let o = edges[e].owner_node_index;
                let m2 = if rank(o) < rank(idx) { walk(nodes, edges, rank, m, o, level + 1) } else { m };
                walk_inputs(nodes, edges, rank, m2, idx, level, k + 1)
            },
        }
    }
}

proof fn lemma_node_view_insert(m: Map<NodeIndex, FrameNode>, i: NodeIndex, n: FrameNode)
    ensures
        node_views(m.insert(i, n)) == node_views(m).insert(i, n@),
{
    assert(node_views(m.insert(i, n)) =~= node_views(m).insert(i, n@));
}

proof fn lemma_level_view_insert(m: Map<usize, Seq<TraversedGraphNode>>, k: usize, v: TraversedGraphNode)
    ensures
        level_views(m.insert(k, if m.contains_key(k) { m[k].push(v) } else { seq![v] }))
            == level_views(m).insert(k, level_of(level_views(m), k as int).push(v@)),
{
    let s = if m.contains_key(k) { m[k].push(v) } else { seq![v] };
    assert(s.map_values(|t: TraversedGraphNode| t@) =~= level_of(level_views(m), k as int).push(v@));
    assert(level_views(m.insert(k, s)) =~= level_views(m).insert(k, level_of(level_views(m), k as int).push(v@)));
}

/// Indices of nodes with nothing connected.
fn empty_edge_slots() -> (r: [Option<NodeIndex>; MAX_FRAME_NODE_INPUTS])
    ensures
        r@ == Seq::new(MAX_FRAME_NODE_INPUTS as nat, |k: int| None::<NodeIndex>),
{
    let r: [Option<NodeIndex>; MAX_FRAME_NODE_INPUTS] = [
        None, None, None, None, None, None, None, None, None, None, None, None, None, None, None, None,
    ];
    assert(r@ =~= Seq::new(MAX_FRAME_NODE_INPUTS as nat, |k: int| None::<NodeIndex>));
    r
}

impl FrameGraph {
    /// The nodes of the graph.
    pub closed spec fn nodes(&self) -> Map<NodeIndex, FrameNodeView> {
        node_views(frame_nodes(self.node_arena))
    }

    /// The edges of the graph.
    pub closed spec fn edges(&self) -> Map<NodeIndex, FrameEdge> {
        frame_edges(self.edges_arena)
    }

    /// The end node.
    pub closed spec fn end(&self) -> NodeIndex {
        self.end_node
    }

    /// The generation new nodes are given; every node of the graph has it or
    /// an earlier one.
    pub closed spec fn generation(&self) -> u64 {
        frame_node_generation(self.node_arena)
    }

    /// The generation new edges are given.
    pub closed spec fn edge_generation(&self) -> u64 {
        frame_edge_generation(self.edges_arena)
    }

    /// No node of the graph is of a later generation than new nodes get, and
    /// the end node is a node of the graph.
    pub closed spec fn well_formed(&self) -> bool {
        &&& forall|k: NodeIndex| #[trigger] frame_nodes(self.node_arena).contains_key(k)
            ==> k.generation <= frame_node_generation(self.node_arena)
        &&& frame_nodes(self.node_arena).contains_key(self.end_node)
    }

    /// The entries of each level of the last walk.
    pub closed spec fn level_entries(&self) -> Map<usize, Seq<TraversedGraphNode>> {
        level_lists(self.levels_map)
    }

    /// The levels of the last walk.
    pub closed spec fn levels(&self) -> Map<usize, Seq<TraversedView>> {
        level_views(level_lists(self.levels_map))
    }

    /// A graph that holds only its end node, called `EndNode`.
    pub fn new() -> (g: FrameGraph)
        ensures
            g.well_formed(),
            g.generation() == 0,
            g.edge_generation() == 0,
            g.nodes() == Map::<NodeIndex, FrameNodeView>::empty().insert(g.end(), unconnected_frame_node("EndNode"@)),
            g.edges() == Map::<NodeIndex, FrameEdge>::empty(),
            g.levels() == Map::<usize, Seq<TraversedView>>::empty(),
    {
        let mut node_arena = frame_node_arena(MAX_LAYERS * MAX_NODES_PER_LAYER);
        proof { reveal_strlit("EndNode"); }
        let node = FrameNode { name: owned("EndNode"), inputs: empty_edge_slots() };
        let ghost before = frame_nodes(node_arena);
        let end_node = frame_node_insert(&mut node_arena, node);
        proof {
            lemma_node_view_insert(before, end_node, node);
            assert(node_views(before) =~= Map::<NodeIndex, FrameNodeView>::empty());
        }
        let g = FrameGraph {
            node_arena,
            edges_arena: frame_edge_arena(MAX_LAYERS * MAX_FRAME_NODE_INPUTS * MAX_NODES_PER_LAYER),
            levels_map: levels_with_capacity(MAX_LAYERS),
            end_node,
        };
        assert(g.levels() =~= Map::<usize, Seq<TraversedView>>::empty());
        g
    }

    /// Returns the end node.
    pub fn get_end_node(&self) -> (r: NodeIndex)
        ensures
            r == self.end(),
    {
        self.end_node
    }

    /// Removes all nodes and edges and sets up a new end node. The nodes go
    /// to a new generation, so no node from before the reset is a node of the
    /// graph afterwards.
    pub fn reset(&mut self)
        requires
            old(self).generation() < u64::MAX,
            old(self).edge_generation() < u64::MAX,
        ensures
            old(self).well_formed() ==> final(self).well_formed()
                && final(self).generation() == old(self).generation() + 1
                && forall|i: NodeIndex| #[trigger] old(self).nodes().contains_key(i) ==> !final(self).nodes().contains_key(i),
            final(self).end().generation == final(self).generation(),
            final(self).edge_generation() >= old(self).edge_generation(),
            final(self).nodes() == Map::<NodeIndex, FrameNodeView>::empty().insert(
                final(self).end(),
                unconnected_frame_node("EndNode"@),
            ),
            final(self).edges() == Map::<NodeIndex, FrameEdge>::empty(),
            final(self).levels() == old(self).levels(),
    {
        frame_node_clear(&mut self.node_arena);
        frame_edge_clear(&mut self.edges_arena);
        proof { reveal_strlit("EndNode"); }
        let node = FrameNode { name: owned("EndNode"), inputs: empty_edge_slots() };
        let ghost before = frame_nodes(self.node_arena);
        self.end_node = frame_node_insert(&mut self.node_arena, node);
        proof {
            lemma_node_view_insert(before, self.end_node, node);
            assert(node_views(before) =~= Map::<NodeIndex, FrameNodeView>::empty());
            if old(self).well_formed() {
                let m0 = frame_nodes(old(self).node_arena);
                assert(m0.contains_key(old(self).end_node));
                assert(!(m0.dom() =~= Set::<NodeIndex>::empty()));
                assert(frame_nodes(self.node_arena).dom() =~= set![self.end_node]);
                assert forall|i: NodeIndex| #[trigger] old(self).nodes().contains_key(i) implies !self.nodes().contains_key(i) by {
                    assert(m0.contains_key(i));
                    assert(i.generation <= frame_node_generation(old(self).node_arena));
                }
            }
        }
    }

    /// Adds a node called `name` with no input connected.
    pub fn add_node(&mut self, name: &str) -> (i: NodeIndex)
        ensures
            old(self).well_formed() ==> final(self).well_formed(),
            i.generation == old(self).generation(),
            final(self).generation() == old(self).generation(),
            final(self).edge_generation() == old(self).edge_generation(),
            !old(self).nodes().contains_key(i),
            final(self).nodes() == old(self).nodes().insert(i, unconnected_frame_node(name@)),
            final(self).edges() == old(self).edges(),
            final(self).end() == old(self).end(),
            final(self).levels() == old(self).levels(),
    {
        let node = FrameNode { name: owned(name), inputs: empty_edge_slots() };
        let ghost before = frame_nodes(self.node_arena);
        let i = frame_node_insert(&mut self.node_arena, node);
        proof { lemma_node_view_insert(before, i, node); }
        i
    }

    /// Connects one node's output to another node's input through a new edge.
    pub fn connect(
        &mut self,
        source: NodeIndex,
        source_output: usize,
        destination: NodeIndex,
        destination_input: usize,
    ) -> (r: Result<(), GraphConnectError>)
        ensures
            old(self).well_formed() ==> final(self).well_formed(),
            final(self).generation() == old(self).generation(),
            final(self).edge_generation() == old(self).edge_generation(),
            destination_input >= MAX_FRAME_NODE_INPUTS
                ==> r matches Err(GraphConnectError::MaximumInputsReached),
            destination_input < MAX_FRAME_NODE_INPUTS && source_output >= MAX_FRAME_NODE_INPUTS
                ==> r matches Err(GraphConnectError::MaximumOutputsReached),
            destination_input < MAX_FRAME_NODE_INPUTS && source_output < MAX_FRAME_NODE_INPUTS
                && !old(self).nodes().contains_key(destination)
                ==> r matches Err(GraphConnectError::InvalidDestination),
            destination_input < MAX_FRAME_NODE_INPUTS && source_output < MAX_FRAME_NODE_INPUTS
                && old(self).nodes().contains_key(destination)
                && old(self).nodes()[destination].inputs[destination_input as int] is Some
                ==> r matches Err(GraphConnectError::AlreadyConnected),
            r is Ok <==> (destination_input < MAX_FRAME_NODE_INPUTS
                && source_output < MAX_FRAME_NODE_INPUTS
                && old(self).nodes().contains_key(destination)
                && old(self).nodes()[destination].inputs[destination_input as int] is None),
            r is Ok ==> ({
                let e = final(self).nodes()[destination].inputs[destination_input as int].unwrap();
                &&& final(self).nodes()[destination].inputs[destination_input as int] is Some
                &&& !old(self).edges().contains_key(e)
                &&& final(self).edges() == old(self).edges().insert(
                    e,
                    FrameEdge { owner_node_index: source, output_index: source_output },
                )
                &&& final(self).nodes() == old(self).nodes().insert(
                    destination,
                    FrameNodeView {
                        inputs: old(self).nodes()[destination].inputs.update(destination_input as int, Some(e)),
                        ..old(self).nodes()[destination]
                    },
                )
            }),
            r is Err ==> final(self).nodes() == old(self).nodes() && final(self).edges() == old(self).edges(),
            final(self).end() == old(self).end(),
            final(self).levels() == old(self).levels(),
    {
        if destination_input >= MAX_FRAME_NODE_INPUTS {
            return Err(GraphConnectError::MaximumInputsReached);
        }
        if source_output >= MAX_FRAME_NODE_INPUTS {
            return Err(GraphConnectError::MaximumOutputsReached);
        }
        match frame_node_get(&self.node_arena, destination) {
            None => return Err(GraphConnectError::InvalidDestination),
            Some(n) => {
                if n.inputs[destination_input].is_some() {
                    return Err(GraphConnectError::AlreadyConnected);
                }
            },
        }
        let edge = frame_edge_insert(
            &mut self.edges_arena,
            FrameEdge { owner_node_index: source, output_index: source_output },
        );
        let ghost arena_before = frame_nodes(self.node_arena);
        let destination_node = frame_node_get_mut(&mut self.node_arena, destination).unwrap();
        destination_node.inputs[destination_input] = Some(edge);
        proof {
            lemma_node_view_insert(arena_before, destination, *destination_node);
            assert(destination_node@ =~= FrameNodeView {
                inputs: old(self).nodes()[destination].inputs.update(destination_input as int, Some(edge)),
                ..old(self).nodes()[destination]
            });
        }
        Ok(())
    }

    /// Walks from `node_index` at `level` and records, in `levels_map`, each
    /// node met after the nodes behind its inputs (see [`walk`]).
    fn traverse_node(
        levels_map: &mut MultiMap<usize, TraversedGraphNode>,
        nodes: &Arena<FrameNode>,
        edges: &Arena<FrameEdge>,
        node_index: NodeIndex,
        level: usize,
        Ghost(s): Ghost<Set<NodeIndex>>,
        Ghost(rank): Ghost<spec_fn(NodeIndex) -> nat>,
    )
        requires
            frame_closed(node_views(frame_nodes(*nodes)), frame_edges(*edges), s, rank),
            s.contains(node_index),
            level + rank(node_index) < usize::MAX,
        ensures
            level_views(level_lists(*final(levels_map))) == walk(
                node_views(frame_nodes(*nodes)),
                frame_edges(*edges),
                rank,
                level_views(level_lists(*old(levels_map))),
                node_index,
                level as int,
            ),
        decreases rank(node_index),
    {
        let ghost nv = node_views(frame_nodes(*nodes));
        let ghost ev = frame_edges(*edges);
        let ghost m0 = level_views(level_lists(*levels_map));
        let mut traversed_node = TraversedGraphNode {
            index: node_index,
            inputs: [None, None, None, None, None, None, None, None, None, None, None, None, None, None, None, None],
        };
        let next_level = level + 1;
        let node = frame_node_get(nodes, node_index).unwrap();
        assert(node@ == nv[node_index]);
        let ghost target = traversed(nv, ev, node_index, level as int);
        let mut k: usize = 0;
        while k < MAX_FRAME_NODE_INPUTS
            invariant
                k <= MAX_FRAME_NODE_INPUTS,
                nv == node_views(frame_nodes(*nodes)),
                ev == frame_edges(*edges),
                frame_closed(nv, ev, s, rank),
                s.contains(node_index),
                level + rank(node_index) < usize::MAX,
                next_level == level + 1,
                node@ == nv[node_index],
                target == traversed(nv, ev, node_index, level as int),
                traversed_node.index == node_index,
                forall|j: int| 0 <= j < k ==> #[trigger] traversed_node.inputs@[j] == target.inputs[j],
                forall|j: int| k <= j < MAX_FRAME_NODE_INPUTS ==> #[trigger] traversed_node.inputs@[j] is None,
                walk_inputs(nv, ev, rank, m0, node_index, level as int, 0)
                    == walk_inputs(nv, ev, rank, level_views(level_lists(*levels_map)), node_index, level as int, k as nat),
            decreases MAX_FRAME_NODE_INPUTS - k,
        {
            let ghost cur = level_views(level_lists(*levels_map));
            if let Some(input) = node.inputs[k] {
                assert(nv[node_index].inputs[k as int] is Some);
                let edge = frame_edge_get(edges, input).unwrap();
                let inner_node = edge.owner_node_index;
                traversed_node.inputs[k] = Some((next_level, edge.output_index, inner_node));
                Self::traverse_node(levels_map, nodes, edges, inner_node, next_level, Ghost(s), Ghost(rank));
            }
            k = k + 1;
        }
        let ghost before = level_lists(*levels_map);
        levels_insert(levels_map, level, traversed_node);
        proof {
            lemma_level_view_insert(before, level, traversed_node);
            assert(traversed_node.inputs@ =~= target.inputs);
            assert(traversed_node@ =~= target);
        }
    }

    /// Walks the graph from the end node at level zero into fresh levels.
    pub fn traverse(&mut self)
        requires
            frame_traversable(old(self).nodes(), old(self).edges(), old(self).end()),
        ensures
            final(self).levels() == walk(
                old(self).nodes(),
                old(self).edges(),
                frame_witness(old(self).nodes(), old(self).edges(), old(self).end()).1,
                Map::empty(),
                old(self).end(),
                0,
            ),
            final(self).nodes() == old(self).nodes(),
            final(self).edges() == old(self).edges(),
            final(self).end() == old(self).end(),
            final(self).generation() == old(self).generation(),
            final(self).edge_generation() == old(self).edge_generation(),
            old(self).well_formed() ==> final(self).well_formed(),
    {
        let ghost nv = self.nodes();
        let ghost ev = self.edges();
        let ghost end = self.end_node;
        proof {
            let (s0, r0) = choose|s: Set<NodeIndex>, rank: spec_fn(NodeIndex) -> nat|
                s.contains(end) && rank(end) < usize::MAX && #[trigger] frame_closed(nv, ev, s, rank);
            let p = (s0, r0);
            assert(p.0.contains(end) && p.1(end) < usize::MAX && frame_closed(nv, ev, p.0, p.1));
        }
        let ghost w = frame_witness(nv, ev, end);
        levels_clear(&mut self.levels_map);
        assert(level_views(level_lists(self.levels_map)) =~= Map::<usize, Seq<TraversedView>>::empty());
        Self::traverse_node(&mut self.levels_map, &self.node_arena, &self.edges_arena, self.end_node, 0, Ghost(w.0), Ghost(w.1));
    }
}

/// From `end`, following inputs only reaches existing nodes through
/// existing edges, never runs in a cycle, and is not deeper than `usize`
/// levels can count.
pub open spec fn frame_traversable(
    nodes: Map<NodeIndex, FrameNodeView>,
    edges: Map<NodeIndex, FrameEdge>,
    end: NodeIndex,
) -> bool {
    exists|s: Set<NodeIndex>, rank: spec_fn(NodeIndex) -> nat|
        s.contains(end) && rank(end) < usize::MAX && #[trigger] frame_closed(nodes, edges, s, rank)
}

/// A closed set and rank that show [`frame_traversable`] (any one).
pub open spec fn frame_witness(
    nodes: Map<NodeIndex, FrameNodeView>,
    edges: Map<NodeIndex, FrameEdge>,
    end: NodeIndex,
) -> (Set<NodeIndex>, spec_fn(NodeIndex) -> nat) {
    choose|p: (Set<NodeIndex>, spec_fn(NodeIndex) -> nat)|
        p.0.contains(end) && p.1(end) < usize::MAX && frame_closed(nodes, edges, p.0, p.1)
}

/// `a` comes strictly before `b`: smaller slot, or the same slot and an
/// older generation.
pub open spec fn index_lt(a: NodeIndex, b: NodeIndex) -> bool {
    index_le(a, b) && a != b
}

/// The nodes of one level, in the order they run: each index once, by
/// increasing index.
pub open spec fn level_order_ok(list: Seq<TraversedGraphNode>, out: Seq<TraversedGraphNode>) -> bool {
    &&& forall|i: int, j: int| 0 <= i < j < out.len() ==> index_lt(out[i].index, out[j].index)
    &&& forall|i: int| 0 <= i < out.len() ==> list.contains(#[trigger] out[i])
    &&& forall|i: int| 0 <= i < list.len() ==> has_index(out, #[trigger] list[i].index)
}

/// Some entry of `out` has index `x`.
pub open spec fn has_index(out: Seq<TraversedGraphNode>, x: NodeIndex) -> bool {
    exists|j: int| 0 <= j < out.len() && out[j].index == x
}

impl FrameGraph {
    /// The levels of the last walk in the order they run, deepest first, each
    /// with its nodes ordered by index and without repeats.
    pub fn execution_levels(&self) -> (r: Vec<(usize, Vec<TraversedGraphNode>)>)
        ensures
            r@.len() == self.level_entries().dom().len(),
            forall|i: int, j: int| 0 <= i < j < r@.len() ==> r@[i].0 > r@[j].0,
            forall|i: int| 0 <= i < r@.len() ==> self.level_entries().contains_key(#[trigger] r@[i].0)
                && level_order_ok(self.level_entries()[r@[i].0], r@[i].1@),
            forall|k: usize| self.level_entries().contains_key(k)
                ==> exists|i: int| 0 <= i < r@.len() && #[trigger] r@[i].0 == k,
    {
        let ghost lists = level_lists(self.levels_map);
        let mut all_levels = levels_keys(&self.levels_map);
        let ghost keys0 = all_levels@;
        sort_levels(&mut all_levels);
        proof {
            keys0.to_multiset_ensures();
            all_levels@.to_multiset_ensures();
            assert forall|i: int, j: int| 0 <= i < j < all_levels@.len() implies all_levels@[i] < all_levels@[j] by {
                if all_levels@[i] == all_levels@[j] {
                    Self::lemma_sorted_dup(keys0, all_levels@, i, j);
                }
            }
            assert forall|k: usize| lists.contains_key(k) implies all_levels@.contains(k) by {
                assert(keys0.to_set().contains(k));
                assert(keys0.contains(k));
                assert(keys0.to_multiset().count(k) > 0);
            }
            assert forall|i: int| 0 <= i < all_levels@.len() implies lists.contains_key(#[trigger] all_levels@[i]) by {
                assert(all_levels@.contains(all_levels@[i]));
                assert(all_levels@.to_multiset().count(all_levels@[i]) > 0);
                assert(keys0.contains(all_levels@[i]));
                assert(keys0.to_set().contains(all_levels@[i]));
            }
            keys0.unique_seq_to_set();
        }
        let ghost sorted = all_levels@;
        let mut r: Vec<(usize, Vec<TraversedGraphNode>)> = Vec::new();
        let mut i: usize = all_levels.len();
        while i > 0
            invariant
                i <= sorted.len(),
                all_levels@ == sorted,
                lists == level_lists(self.levels_map),
                forall|a: int, b: int| 0 <= a < b < sorted.len() ==> sorted[a] < sorted[b],
                forall|a: int| 0 <= a < sorted.len() ==> lists.contains_key(#[trigger] sorted[a]),
                r@.len() == sorted.len() - i,
                forall|a: int| 0 <= a < r@.len() ==> #[trigger] r@[a].0 == sorted[sorted.len() - 1 - a],
                forall|a: int| 0 <= a < r@.len() ==> level_order_ok(lists[r@[a].0], #[trigger] r@[a].1@),
            decreases i,
        {
            i = i - 1;
            let level = all_levels[i];
            let mut nodes_in_level = levels_get(&self.levels_map, level).unwrap();
            let ghost list = nodes_in_level@;
            sort_by_index(&mut nodes_in_level);
            proof {
                list.to_multiset_ensures();
                nodes_in_level@.to_multiset_ensures();
            }
            let deduped = dedup_by_index(&nodes_in_level);
            proof {
                assert forall|a: int| 0 <= a < deduped@.len() implies list.contains(#[trigger] deduped@[a]) by {
                    assert(nodes_in_level@.contains(deduped@[a]));
                    assert(nodes_in_level@.to_multiset().count(deduped@[a]) > 0);
                }
                assert forall|a: int| 0 <= a < list.len() implies has_index(deduped@, #[trigger] list[a].index) by {
                    assert(list.contains(list[a]));
                    assert(list.to_multiset().count(list[a]) > 0);
                    assert(nodes_in_level@.contains(list[a]));
                    let k = choose|k: int| 0 <= k < nodes_in_level@.len() && nodes_in_level@[k] == list[a];
                    assert(nodes_in_level@[k].index == list[a].index);
                    assert(has_index(deduped@, nodes_in_level@[k].index));
                }
                assert(list == lists[level]);
                assert(level_order_ok(lists[level], deduped@));
            }
            r.push((level, deduped));
        }
        proof {
            assert forall|a: int, b: int| 0 <= a < b < r@.len() implies r@[a].0 > r@[b].0 by {
                assert(sorted[sorted.len() - 1 - b] < sorted[sorted.len() - 1 - a]);
            }
            assert forall|k: usize| lists.contains_key(k) implies exists|a: int| 0 <= a < r@.len() && #[trigger] r@[a].0 == k by {
                assert(sorted.contains(k));
                let j = choose|j: int| 0 <= j < sorted.len() && sorted[j] == k;
                assert(r@[sorted.len() - 1 - j].0 == k);
            }
            keys0.to_multiset_ensures();
            sorted.to_multiset_ensures();
        }
        r
    }

    proof fn lemma_sorted_dup(keys: Seq<usize>, sorted: Seq<usize>, i: int, j: int)
        requires
            keys.no_duplicates(),
            sorted.to_multiset() == keys.to_multiset(),
            0 <= i < j < sorted.len(),
        ensures
            sorted[i] != sorted[j],
    {
        broadcast use vstd::multiset::group_multiset_axioms;
        if sorted[i] != sorted[j] {
            return;
        }
        keys.lemma_multiset_has_no_duplicates();
        let r = sorted.remove(i);
        sorted.to_multiset_ensures();
        r.to_multiset_ensures();
        assert(r[j - 1] == sorted[j]);
        assert(r.contains(sorted[i]));
        assert(r.to_multiset().count(sorted[i]) > 0);
        assert(r.to_multiset() =~= sorted.to_multiset().remove(sorted[i]));
    }
}

/// A list ordered by index, with each run of equal indices cut to its first
/// entry.
fn dedup_by_index(list: &Vec<TraversedGraphNode>) -> (r: Vec<TraversedGraphNode>)
    requires
        forall|i: int, j: int| 0 <= i < j < list@.len() ==> index_le(list@[i].index, list@[j].index),
    ensures
        forall|i: int, j: int| 0 <= i < j < r@.len() ==> index_lt(r@[i].index, r@[j].index),
        forall|i: int| 0 <= i < r@.len() ==> list@.contains(#[trigger] r@[i]),
        forall|i: int| 0 <= i < list@.len() ==> has_index(r@, #[trigger] list@[i].index),
{
    let mut r: Vec<TraversedGraphNode> = Vec::new();
    let mut i: usize = 0;
    while i < list.len()
        invariant
            i <= list@.len(),
            forall|a: int, b: int| 0 <= a < b < list@.len() ==> index_le(list@[a].index, list@[b].index),
            forall|a: int, b: int| 0 <= a < b < r@.len() ==> index_lt(r@[a].index, r@[b].index),
            forall|a: int| 0 <= a < r@.len() ==> list@.contains(#[trigger] r@[a]),
            forall|a: int| 0 <= a < i ==> has_index(r@, #[trigger] list@[a].index),
            i > 0 ==> r@.len() > 0 && r@[r@.len() - 1].index == list@[i - 1].index,
            i == 0 ==> r@.len() == 0,
        decreases list@.len() - i,
    {
        let item = list[i];
        if r.len() == 0 || r[r.len() - 1].index != item.index {
            let ghost before = r@;
            r.push(item);
            proof {
                assert(list@.contains(item)) by { assert(list@[i as int] == item); }
                assert forall|a: int| 0 <= a <= i implies has_index(r@, #[trigger] list@[a].index) by {
                    if a == i {
                        assert(r@[r@.len() - 1].index == list@[a].index);
                    } else {
                        assert(has_index(before, list@[a].index));
                        let j = choose|j: int| 0 <= j < before.len() && before[j].index == list@[a].index;
                        assert(r@[j].index == list@[a].index);
                    }
                }
                if before.len() > 0 {
                    assert(index_le(list@[i - 1].index, list@[i as int].index));
                    assert forall|a: int| 0 <= a < before.len() implies index_lt(before[a].index, item.index) by {
                        if a < before.len() - 1 {
                            assert(index_lt(before[a].index, before[before.len() - 1].index));
                        }
                    }
                }
            }
        } else {
            assert forall|a: int| 0 <= a <= i implies has_index(r@, #[trigger] list@[a].index) by {
                if a == i {
                    assert(r@[r@.len() - 1].index == list@[a].index);
                }
            }
        }
        i = i + 1;
    }
    r
}

} // verus!
