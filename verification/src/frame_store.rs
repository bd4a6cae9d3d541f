//! The storage of the frame graph: two `generational_arena::Arena`s (nodes
//! and edges) and a `multimap::MultiMap` of traversed nodes per level,
//! reached through the trusted items below.
use vstd::prelude::*;
use generational_arena::{Arena, Index};
use multimap::MultiMap;
use crate::arena::NodeIndex;
use crate::frame_graph::{FrameEdge, FrameNode, TraversedGraphNode};

verus! {

#[verifier::external_type_specification]
#[verifier::external_body]
#[verifier::reject_recursive_types(K)]
#[verifier::reject_recursive_types(V)]
#[verifier::reject_recursive_types(S)]
pub struct ExMultiMap<K, V, S>(MultiMap<K, V, S>);

/// What an arena of frame graph nodes holds.
pub uninterp spec fn frame_nodes(arena: Arena<FrameNode>) -> Map<NodeIndex, FrameNode>;

/// What an arena of frame graph edges holds.
pub uninterp spec fn frame_edges(arena: Arena<FrameEdge>) -> Map<NodeIndex, FrameEdge>;

/// The generation an arena of frame graph nodes gives the entries it stores
/// next.
pub uninterp spec fn frame_node_generation(arena: Arena<FrameNode>) -> u64;

/// The generation an arena of frame graph edges gives the entries it stores
/// next.
pub uninterp spec fn frame_edge_generation(arena: Arena<FrameEdge>) -> u64;

/// What a multimap of traversed nodes holds: the list of each level, in the
/// order the nodes were inserted.
pub uninterp spec fn level_lists(m: MultiMap<usize, TraversedGraphNode>) -> Map<usize, Seq<TraversedGraphNode>>;

/// `Arena::with_capacity` for nodes: an empty arena, at generation zero.
#[verifier::external_body]
pub(crate) fn frame_node_arena(capacity: usize) -> (fresh: Arena<FrameNode>)
    ensures
        frame_nodes(fresh) =~= Map::empty(),
        frame_node_generation(fresh) == 0,
{
    Arena::with_capacity(capacity)
}

/// `Arena::with_capacity` for edges: an empty arena, at generation zero.
#[verifier::external_body]
pub(crate) fn frame_edge_arena(capacity: usize) -> (fresh: Arena<FrameEdge>)
    ensures
        frame_edges(fresh) =~= Map::empty(),
        frame_edge_generation(fresh) == 0,
{
    Arena::with_capacity(capacity)
}

/// `Arena::insert` for nodes: stored under an index that held nothing, of
/// the arena's current generation, which stays as it was.
#[verifier::external_body]
pub(crate) fn frame_node_insert(arena: &mut Arena<FrameNode>, value: FrameNode) -> (i: NodeIndex)
    ensures
        !frame_nodes(*old(arena)).contains_key(i),
        i.generation == frame_node_generation(*old(arena)),
        frame_node_generation(*final(arena)) == frame_node_generation(*old(arena)),
        frame_nodes(*final(arena)) == frame_nodes(*old(arena)).insert(i, value),
{
    let (slot, generation) = arena.insert(value).into_raw_parts();
    NodeIndex { slot, generation }
}

/// `Arena::insert` for edges: stored under an index that held nothing, of
/// the arena's current generation, which stays as it was.
#[verifier::external_body]
pub(crate) fn frame_edge_insert(arena: &mut Arena<FrameEdge>, value: FrameEdge) -> (i: NodeIndex)
    ensures
        !frame_edges(*old(arena)).contains_key(i),
        i.generation == frame_edge_generation(*old(arena)),
        frame_edge_generation(*final(arena)) == frame_edge_generation(*old(arena)),
        frame_edges(*final(arena)) == frame_edges(*old(arena)).insert(i, value),
{
    let (slot, generation) = arena.insert(value).into_raw_parts();
    NodeIndex { slot, generation }
}

/// `Arena::get` for nodes.
#[verifier::external_body]
pub(crate) fn frame_node_get(arena: &Arena<FrameNode>, i: NodeIndex) -> (r: Option<&FrameNode>)
    ensures
        r is Some <==> frame_nodes(*arena).contains_key(i),
        r is Some ==> *r.unwrap() == frame_nodes(*arena)[i],
{
    arena.get(Index::from_raw_parts(i.slot, i.generation))
}

/// `Arena::get` for edges.
#[verifier::external_body]
pub(crate) fn frame_edge_get(arena: &Arena<FrameEdge>, i: NodeIndex) -> (r: Option<&FrameEdge>)
    ensures
        r is Some <==> frame_edges(*arena).contains_key(i),
        r is Some ==> *r.unwrap() == frame_edges(*arena)[i],
{
    arena.get(Index::from_raw_parts(i.slot, i.generation))
}

/// `Arena::get_mut` for nodes: the node, to change in place; the
/// generation stays as it was.
#[verifier::external_body]
pub(crate) fn frame_node_get_mut(arena: &mut Arena<FrameNode>, i: NodeIndex) -> (r: Option<&mut FrameNode>)
    ensures
        frame_node_generation(*final(arena)) == frame_node_generation(*old(arena)),
        r is Some <==> frame_nodes(*old(arena)).contains_key(i),
        match r {
            Some(m) => *m == frame_nodes(*old(arena))[i]
                && frame_nodes(*final(arena)) == frame_nodes(*old(arena)).insert(i, *final(m)),
            None => frame_nodes(*final(arena)) == frame_nodes(*old(arena)),
        },
{
    arena.get_mut(Index::from_raw_parts(i.slot, i.generation))
}

/// `Arena::clear` for nodes: nothing is left; when something was there, the
/// generation goes up by one (at the last generation that addition
/// overflows, so it is left out).
#[verifier::external_body]
pub(crate) fn frame_node_clear(arena: &mut Arena<FrameNode>)
    requires
        frame_node_generation(*old(arena)) < u64::MAX,
    ensures
        frame_nodes(*final(arena)) =~= Map::empty(),
        frame_node_generation(*final(arena)) == if frame_nodes(*old(arena)).dom() =~= Set::empty() {
            frame_node_generation(*old(arena))
        } else {
            (frame_node_generation(*old(arena)) + 1) as u64
        },
{
    arena.clear();
}

/// `Arena::clear` for edges: nothing is left; when something was there, the
/// generation goes up by one (at the last generation that addition
/// overflows, so it is left out).
#[verifier::external_body]
pub(crate) fn frame_edge_clear(arena: &mut Arena<FrameEdge>)
    requires
        frame_edge_generation(*old(arena)) < u64::MAX,
    ensures
        frame_edges(*final(arena)) =~= Map::empty(),
        frame_edge_generation(*final(arena)) == if frame_edges(*old(arena)).dom() =~= Set::empty() {
            frame_edge_generation(*old(arena))
        } else {
            (frame_edge_generation(*old(arena)) + 1) as u64
        },
{
    arena.clear();
}

/// `MultiMap::with_capacity`: an empty multimap.
#[verifier::external_body]
pub(crate) fn levels_with_capacity(capacity: usize) -> (fresh: MultiMap<usize, TraversedGraphNode>)
    ensures
        level_lists(fresh) =~= Map::empty(),
{
    MultiMap::with_capacity(capacity)
}

/// `MultiMap::clear`: nothing is left.
#[verifier::external_body]
pub(crate) fn levels_clear(m: &mut MultiMap<usize, TraversedGraphNode>)
    ensures
        level_lists(*final(m)) =~= Map::empty(),
{
    m.clear();
}

/// `MultiMap::insert`: the value goes to the end of its key's list (a new
/// list for a new key).
#[verifier::external_body]
pub(crate) fn levels_insert(m: &mut MultiMap<usize, TraversedGraphNode>, k: usize, v: TraversedGraphNode)
    ensures
        level_lists(*final(m)) == level_lists(*old(m)).insert(
            k,
            if level_lists(*old(m)).contains_key(k) { level_lists(*old(m))[k].push(v) } else { seq![v] },
        ),
{
    m.insert(k, v);
}

/// `MultiMap::keys`, collected: each key once, in an order the hash map
/// decides.
#[verifier::external_body]
pub(crate) fn levels_keys(m: &MultiMap<usize, TraversedGraphNode>) -> (r: Vec<usize>)
    ensures
        r@.no_duplicates(),
        r@.to_set() == level_lists(*m).dom(),
{
    m.keys().copied().collect()
}

/// `MultiMap::get_vec`, copied: the list of a key, if there is one.
#[verifier::external_body]
pub(crate) fn levels_get(m: &MultiMap<usize, TraversedGraphNode>, k: usize) -> (r: Option<Vec<TraversedGraphNode>>)
    ensures
        r is Some <==> level_lists(*m).contains_key(k),
        r is Some ==> r.unwrap()@ == level_lists(*m)[k],
{
    m.get_vec(&k).map(|v| v.clone())
}

/// `slice::sort_unstable_by_key` on traversed nodes by their index (slot,
/// then generation): the same nodes, ordered by index; the order of nodes
/// with the same index is left open.
#[verifier::external_body]
pub(crate) fn sort_by_index(v: &mut Vec<TraversedGraphNode>)
    ensures
        final(v)@.to_multiset() == old(v)@.to_multiset(),
        forall|i: int, j: int| 0 <= i < j < final(v)@.len() ==> index_le(final(v)@[i].index, final(v)@[j].index),
{
    v.sort_unstable_by_key(|x| (x.index.slot, x.index.generation));
}

/// `slice::sort_unstable` on level numbers: the same numbers, ascending.
#[verifier::external_body]
pub(crate) fn sort_levels(v: &mut Vec<usize>)
    ensures
        final(v)@.to_multiset() == old(v)@.to_multiset(),
        forall|i: int, j: int| 0 <= i < j < final(v)@.len() ==> final(v)@[i] <= final(v)@[j],
{
    v.sort_unstable();
}

/// Indices are ordered by slot, then by generation.
pub open spec fn index_le(a: NodeIndex, b: NodeIndex) -> bool {
    a.slot < b.slot || (a.slot == b.slot && a.generation <= b.generation)
}

} // verus!
