//! The node storage of the shader graph: a `generational_arena::Arena`,
//! reached through the trusted items below.
use vstd::prelude::*;
use generational_arena::{Arena, Index};
use crate::shader_graph::GraphNode;

verus! {

#[verifier::external_type_specification]
#[verifier::external_body]
#[verifier::reject_recursive_types(T)]
pub struct ExArena<T>(Arena<T>);

/// Identifies a node of a graph: the slot it occupies in the arena and the
/// generation that slot had when the node was put there.
#[derive(Clone, Copy, Debug, PartialEq, Eq, Structural)]
pub struct NodeIndex {
    pub slot: usize,
    pub generation: u64,
}

/// What an arena of graph nodes holds: each live index with its node.
pub uninterp spec fn arena_nodes(arena: Arena<GraphNode>) -> Map<NodeIndex, GraphNode>;

/// `Arena::with_capacity`: a new arena holds nothing.
#[verifier::external_body]
pub(crate) fn node_arena_with_capacity(capacity: usize) -> (fresh: Arena<GraphNode>)
    ensures
        arena_nodes(fresh) =~= Map::empty(),
{
    Arena::with_capacity(capacity)
}

/// `Arena::insert`: the value is stored under an index that held nothing
/// before, and every other entry is kept.
#[verifier::external_body]
pub(crate) fn node_arena_insert(arena: &mut Arena<GraphNode>, value: GraphNode) -> (i: NodeIndex)
    ensures
        !arena_nodes(*old(arena)).contains_key(i),
        arena_nodes(*final(arena)) == arena_nodes(*old(arena)).insert(i, value),
{
    let (slot, generation) = arena.insert(value).into_raw_parts();
    NodeIndex { slot, generation }
}

/// `Arena::get`: the node stored under the index, if there is one.
#[verifier::external_body]
pub(crate) fn node_arena_get(arena: &Arena<GraphNode>, i: NodeIndex) -> (r: Option<&GraphNode>)
    ensures
        r is Some <==> arena_nodes(*arena).contains_key(i),
        r is Some ==> *r.unwrap() == arena_nodes(*arena)[i],
{
    arena.get(Index::from_raw_parts(i.slot, i.generation))
}

/// `Arena::iter`: the index of every node the arena holds, each once.
#[verifier::external_body]
pub(crate) fn node_arena_indices(arena: &Arena<GraphNode>) -> (r: Vec<NodeIndex>)
    ensures
        r@.no_duplicates(),
        forall|i: NodeIndex| arena_nodes(*arena).contains_key(i) <==> r@.contains(i),
{
    let mut r = Vec::new();
    for (index, _) in arena.iter() {
        let (slot, generation) = index.into_raw_parts();
        r.push(NodeIndex { slot, generation });
    }
    r
}

/// `Arena::get_mut`: the node stored under the index, to change in place.
#[verifier::external_body]
pub(crate) fn node_arena_get_mut(arena: &mut Arena<GraphNode>, i: NodeIndex) -> (r: Option<&mut GraphNode>)
    ensures
        r is Some <==> arena_nodes(*old(arena)).contains_key(i),
        match r {
            Some(m) => *m == arena_nodes(*old(arena))[i]
                && arena_nodes(*final(arena)) == arena_nodes(*old(arena)).insert(i, *final(m)),
            None => arena_nodes(*final(arena)) == arena_nodes(*old(arena)),
        },
{
    arena.get_mut(Index::from_raw_parts(i.slot, i.generation))
}

} // verus!
