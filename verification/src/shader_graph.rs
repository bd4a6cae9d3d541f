//! The shader graph: nodes connected output-to-input, from which a vertex and
//! a fragment shader are planned.
use vstd::prelude::*;
use generational_arena::Arena;
use crate::arena::{
    arena_nodes, node_arena_get, node_arena_get_mut, node_arena_indices, node_arena_insert, node_arena_with_capacity,
    NodeIndex,
};
use crate::graph_spec::{
    cleanup, cleanup_each, cleanup_from, closed_below, fed_below, dedup, shared_each, walks, shared_below, shared_inputs, input_at, lemma_preorder_fuel, node_closed, preorder,
    preorder_inputs, same_shape, slots_complete, with_input,
};
use crate::glsl::{var_name, var_name_string};
use crate::graph_spec::{build_witness, buildable, lemma_dedup, lemma_shared_each_in};
use crate::shader_build::{
    assignment_lines, attribute_lines, declaration_lines, main_close, main_open, push_attribute_lines,
    push_color_lines, push_shared_section, push_texture_blocks, push_uniform_blocks, shared_lines,
    shared_model, color_lines, texture_blocks, uniform_blocks, version_text, BuiltShaderBindGroup,
    BuiltShaderGraph, BuiltTexture, BuiltUniform, ShaderBuildPlan,
};
use crate::shader_type::{copy_types, ShaderType, VertexAttribute};
use crate::text::push_str;

verus! {

/// How many nodes the graph's storage is prepared for up front.
pub const MAX_NODES: usize = 128;
/// How many inputs (and outputs) a node can have.
pub const MAX_INPUT_OUTPUTS_PER_NODE: usize = 16;

/// Where an input of a node takes its value from: an output of another node.
#[derive(Clone, Copy, Debug, PartialEq, Eq, Structural)]
pub struct Input {
    pub owner_node_index: NodeIndex,
    pub owner_node_output: usize,
}

/// A node as the graph sees it: its connected inputs, whether it only passes
/// its inputs through, and the types of its outputs.
pub struct GraphNode {
    pub inputs: [Option<Input>; MAX_INPUT_OUTPUTS_PER_NODE],
    pub passthrough: bool,
    pub outputs: Vec<ShaderType>,
}

/// What a node is to the graph's model: its input slots, its kind and the
/// types of its outputs.
pub ghost struct NodeView {
    pub inputs: Seq<Option<Input>>,
    pub passthrough: bool,
    pub outputs: Seq<ShaderType>,
}

impl View for GraphNode {
    type V = NodeView;

    open spec fn view(&self) -> NodeView {
        NodeView { inputs: self.inputs@, passthrough: self.passthrough, outputs: self.outputs@ }
    }
}

impl Clone for GraphNode {
    fn clone(&self) -> (r: GraphNode)
        ensures
            r@ == self@,
    {
        GraphNode { inputs: self.inputs, passthrough: self.passthrough, outputs: copy_types(&self.outputs) }
    }
}

/// Why a connection was refused.
#[derive(Clone, Copy, Debug, PartialEq, Eq, Structural)]
pub enum GraphConnectError {
    /// The target node has reached its input limit.
    MaximumInputsReached,
    /// The source node has reached its outputs limit.
    MaximumOutputsReached,
    /// The target node does not exist.
    InvalidDestination,
    /// The target node's input is already connected.
    AlreadyConnected,
}

/// A color output of the fragment shader: its name, its type and its node.
pub struct ColorOutput {
    pub name: String,
    pub ty: ShaderType,
    pub node: NodeIndex,
}

impl Clone for ColorOutput {
    fn clone(&self) -> (r: ColorOutput)
        ensures
            r == *self,
    {
        ColorOutput { name: self.name.clone(), ty: self.ty, node: self.node }
    }
}

/// A uniform block used by the graph.
pub struct Uniform {
    pub id: u128,
    pub ty_id: u128,
    pub node_index: NodeIndex,
    pub name: String,
    pub attributes: Vec<(String, ShaderType)>,
}

/// A sampled texture used by the graph.
pub struct Texture {
    pub id: u128,
    pub name: String,
    pub node_index: NodeIndex,
}

pub struct ShaderGraph {
    vertex_attributes: Vec<VertexAttribute>,
    vertex_output_node: Option<NodeIndex>,
    color_outputs: Vec<ColorOutput>,
    uniforms: Vec<Uniform>,
    textures: Vec<Texture>,
    nodes: Arena<GraphNode>,
}

/// The model of an arena's nodes.
pub open spec fn view_nodes(m: Map<NodeIndex, GraphNode>) -> Map<NodeIndex, NodeView> {
    m.map_values(|n: GraphNode| n@)
}

proof fn lemma_view_insert(m: Map<NodeIndex, GraphNode>, i: NodeIndex, n: GraphNode)
    ensures
        view_nodes(m.insert(i, n)) == view_nodes(m).insert(i, n@),
{
    assert(view_nodes(m.insert(i, n)) =~= view_nodes(m).insert(i, n@));
}

impl ShaderGraph {
    /// The nodes of the graph, by index.
    pub closed spec fn nodes(&self) -> Map<NodeIndex, NodeView> {
        view_nodes(arena_nodes(self.nodes))
    }

    pub closed spec fn vertex_output(&self) -> Option<NodeIndex> {
        self.vertex_output_node
    }

    pub closed spec fn color_output_list(&self) -> Seq<ColorOutput> {
        self.color_outputs@
    }

    pub closed spec fn uniform_list(&self) -> Seq<Uniform> {
        self.uniforms@
    }

    pub closed spec fn texture_list(&self) -> Seq<Texture> {
        self.textures@
    }

    pub closed spec fn attribute_list(&self) -> Seq<VertexAttribute> {
        self.vertex_attributes@
    }

    /// An empty graph.
    pub fn new() -> (g: ShaderGraph)
        ensures
            g.well_formed(),
            g.nodes() == Map::<NodeIndex, NodeView>::empty(),
            g.vertex_output() is None,
            g.color_output_list() == Seq::<ColorOutput>::empty(),
            g.uniform_list() == Seq::<Uniform>::empty(),
            g.texture_list() == Seq::<Texture>::empty(),
            g.attribute_list() == Seq::<VertexAttribute>::empty(),
    {
        ShaderGraph {
            nodes: node_arena_with_capacity(MAX_NODES),
            color_outputs: Vec::new(),
            vertex_attributes: Vec::new(),
            uniforms: Vec::new(),
            textures: Vec::new(),
            vertex_output_node: None,
        }
    }

    /// Connects one node's output to another node's input.
    pub fn connect(
        &mut self,
        source: NodeIndex,
        source_output: usize,
        destination: NodeIndex,
        destination_input: usize,
    ) -> (r: Result<(), GraphConnectError>)
        ensures
            old(self).well_formed() ==> final(self).well_formed(),
            destination_input >= MAX_INPUT_OUTPUTS_PER_NODE
                ==> r matches Err(GraphConnectError::MaximumInputsReached),
            destination_input < MAX_INPUT_OUTPUTS_PER_NODE && source_output >= MAX_INPUT_OUTPUTS_PER_NODE
                ==> r matches Err(GraphConnectError::MaximumOutputsReached),
            destination_input < MAX_INPUT_OUTPUTS_PER_NODE && source_output < MAX_INPUT_OUTPUTS_PER_NODE
                && !old(self).nodes().contains_key(destination)
                ==> r matches Err(GraphConnectError::InvalidDestination),
            destination_input < MAX_INPUT_OUTPUTS_PER_NODE && source_output < MAX_INPUT_OUTPUTS_PER_NODE
                && old(self).nodes().contains_key(destination)
                && old(self).nodes()[destination].inputs[destination_input as int] is Some
                ==> r matches Err(GraphConnectError::AlreadyConnected),
            r is Ok <==> (destination_input < MAX_INPUT_OUTPUTS_PER_NODE
                && source_output < MAX_INPUT_OUTPUTS_PER_NODE
                && old(self).nodes().contains_key(destination)
                && old(self).nodes()[destination].inputs[destination_input as int] is None),
            r is Ok ==> final(self).nodes() == old(self).nodes().insert(
                destination,
                with_input(
                    old(self).nodes()[destination],
                    destination_input as int,
                    Some(Input { owner_node_index: source, owner_node_output: source_output }),
                ),
            ),
            r is Err ==> final(self).nodes() == old(self).nodes(),
            final(self).vertex_output() == old(self).vertex_output(),
            final(self).color_output_list() == old(self).color_output_list(),
            final(self).uniform_list() == old(self).uniform_list(),
            final(self).texture_list() == old(self).texture_list(),
            final(self).attribute_list() == old(self).attribute_list(),
    {
        if destination_input >= MAX_INPUT_OUTPUTS_PER_NODE {
            return Err(GraphConnectError::MaximumInputsReached);
        }
        if source_output >= MAX_INPUT_OUTPUTS_PER_NODE {
            return Err(GraphConnectError::MaximumOutputsReached);
        }
        let destination_node = match node_arena_get_mut(&mut self.nodes, destination) {
            Some(n) => n,
            None => return Err(GraphConnectError::InvalidDestination),
        };
        if destination_node.inputs[destination_input].is_some() {
            return Err(GraphConnectError::AlreadyConnected);
        }
        destination_node.inputs[destination_input] =
            Some(Input { owner_node_index: source, owner_node_output: source_output });
        proof {
            lemma_view_insert(arena_nodes(old(self).nodes), destination, *destination_node);
            assert(destination_node@ =~= with_input(
                old(self).nodes()[destination],
                destination_input as int,
                Some(Input { owner_node_index: source, owner_node_output: source_output }),
            ));
        }
        Ok(())
    }

    /// Appends the depth-first walk from `index` to `output`.
    fn traverse(
        &self,
        index: NodeIndex,
        output: &mut Vec<NodeIndex>,
        Ghost(s): Ghost<Set<NodeIndex>>,
        Ghost(rank): Ghost<spec_fn(NodeIndex) -> nat>,
    )
        requires
            closed_below(self.nodes(), s, rank),
            s.contains(index),
        ensures
            final(output)@ == old(output)@ + preorder(self.nodes(), index, rank(index) + 1),
        decreases rank(index),
    {
        let ghost nodes = self.nodes();
        let node = node_arena_get(&self.nodes, index).unwrap();
        let ghost ins = node@.inputs;
        let ghost f = rank(index);
        output.push(index);
        let mut k: usize = 0;
        while k < MAX_INPUT_OUTPUTS_PER_NODE
            invariant
                k <= MAX_INPUT_OUTPUTS_PER_NODE,
                nodes == self.nodes(),
                closed_below(nodes, s, rank),
                s.contains(index),
                ins == nodes[index].inputs,
                node@ == nodes[index],
                f == rank(index),
                old(output)@ + seq![index] + preorder_inputs(nodes, ins, 0, f)
                    == output@ + preorder_inputs(nodes, ins, k as nat, f),
            decreases MAX_INPUT_OUTPUTS_PER_NODE - k,
        {
            let ghost before = output@;
            match node.inputs[k] {
                Some(input) => {
                    proof {
                        assert(input_at(nodes, index, k as int) is Some);
                        lemma_preorder_fuel(
                            nodes, s, rank, input.owner_node_index,
                            f, (rank(input.owner_node_index) + 1) as nat,
                        );
                    }
                    self.traverse(input.owner_node_index, output, Ghost(s), Ghost(rank));
                    assert(preorder_inputs(nodes, ins, k as nat, f)
                        == preorder(nodes, input.owner_node_index, f) + preorder_inputs(nodes, ins, (k + 1) as nat, f));
                    assert(output@ + preorder_inputs(nodes, ins, (k + 1) as nat, f)
                        =~= before + preorder_inputs(nodes, ins, k as nat, f));
                },
                None => {
                    assert(preorder_inputs(nodes, ins, k as nat, f) == preorder_inputs(nodes, ins, (k + 1) as nat, f));
                },
            }
            k = k + 1;
        }
        assert(preorder_inputs(nodes, ins, k as nat, f) == Seq::<NodeIndex>::empty());
        assert(output@ =~= old(output)@ + preorder(nodes, index, rank(index) + 1));
    }

    /// Every node of the model has all its input slots.
    proof fn lemma_slots(&self)
        ensures
            slots_complete(self.nodes()),
    {
        assert forall|n: NodeIndex| #[trigger] self.nodes().contains_key(n) implies self.nodes()[n].inputs.len()
            == MAX_INPUT_OUTPUTS_PER_NODE by {
            assert(self.nodes()[n] == arena_nodes(self.nodes)[n]@);
        }
    }

    /// Removes passthrough nodes below `index` (see [`cleanup`]).
    fn cleanup_passthrough(
        &mut self,
        index: NodeIndex,
        Ghost(s): Ghost<Set<NodeIndex>>,
        Ghost(t): Ghost<Set<NodeIndex>>,
        Ghost(rank): Ghost<spec_fn(NodeIndex) -> nat>,
    )
        requires
            closed_below(old(self).nodes(), s, rank),
            fed_below(old(self).nodes(), t),
            s.contains(index),
            t.contains(index),
        ensures
            final(self).nodes() == cleanup(old(self).nodes(), rank, index),
            same_shape(old(self).nodes(), final(self).nodes()),
            closed_below(final(self).nodes(), s, rank),
            fed_below(final(self).nodes(), t),
            forall|n: NodeIndex| !(s.contains(n) && rank(n) <= rank(index)) && old(self).nodes().contains_key(n)
                ==> #[trigger] final(self).nodes()[n] == old(self).nodes()[n],
            final(self).vertex_output() == old(self).vertex_output(),
            final(self).color_output_list() == old(self).color_output_list(),
            final(self).uniform_list() == old(self).uniform_list(),
            final(self).texture_list() == old(self).texture_list(),
            final(self).attribute_list() == old(self).attribute_list(),
        decreases rank(index),
    {
        let ghost m0 = self.nodes();
        proof { self.lemma_slots(); }
        let node = node_arena_get(&self.nodes, index).unwrap().clone();
        let mut new_inputs = node.inputs;
        let ghost mut pending: NodeView = m0[index];
        let mut k: usize = 0;
        while k < MAX_INPUT_OUTPUTS_PER_NODE
            invariant
                k <= MAX_INPUT_OUTPUTS_PER_NODE,
                s.contains(index),
                t.contains(index),
                closed_below(self.nodes(), s, rank),
                fed_below(self.nodes(), t),
                same_shape(m0, self.nodes()),
                slots_complete(m0),
                node@ == m0[index],
                self.nodes()[index] == m0[index],
                forall|n: NodeIndex| !(s.contains(n) && rank(n) <= rank(index)) && m0.contains_key(n)
                    ==> #[trigger] self.nodes()[n] == m0[n],
                pending.inputs == new_inputs@,
                pending.passthrough == m0[index].passthrough,
                pending.outputs == m0[index].outputs,
                forall|j: int| k <= j < MAX_INPUT_OUTPUTS_PER_NODE ==> #[trigger] pending.inputs[j] == m0[index].inputs[j],
                forall|j: int| 0 <= j < k && m0[index].inputs[j] is Some ==> {
                    let new = #[trigger] pending.inputs[j];
                    &&& new is Some
                    &&& s.contains(new.unwrap().owner_node_index)
                    &&& t.contains(new.unwrap().owner_node_index)
                    &&& rank(new.unwrap().owner_node_index) < rank(index)
                    &&& new.unwrap().owner_node_output < MAX_INPUT_OUTPUTS_PER_NODE
                    &&& m0[new.unwrap().owner_node_index].passthrough
                        ==> m0[new.unwrap().owner_node_index].inputs[new.unwrap().owner_node_output as int] is Some
                },
                forall|j: int| 0 <= j < k && m0[index].inputs[j] is None ==> #[trigger] pending.inputs[j] is None,
                cleanup(m0, rank, index) == cleanup_from(self.nodes(), rank, index, pending, k as nat),
                self.vertex_output_node == old(self).vertex_output_node,
                self.color_outputs@ == old(self).color_outputs@,
                self.uniforms@ == old(self).uniforms@,
                self.textures@ == old(self).textures@,
                self.vertex_attributes@ == old(self).vertex_attributes@,
            decreases MAX_INPUT_OUTPUTS_PER_NODE - k,
        {
            let ghost mk = self.nodes();
            if let Some(input) = node.inputs[k] {
                assert(input_at(m0, index, k as int) is Some);
                assert(input_at(mk, index, k as int) is Some);
                assert(t.contains(input.owner_node_index));
                proof { self.lemma_slots(); }
                let target_node = node_arena_get(&self.nodes, input.owner_node_index).unwrap();
                if target_node.passthrough {
                    let replacement = target_node.inputs[input.owner_node_output].unwrap();
                    proof {
                        assert(input_at(mk, input.owner_node_index, input.owner_node_output as int) is Some);
                        assert(node_closed(mk, s, rank, input.owner_node_index));
                        assert(t.contains(replacement.owner_node_index));
                    }
                    new_inputs[k] = Some(replacement);
                    proof {
                        pending = with_input(pending, k as int, Some(replacement));
                    }
                }
                self.cleanup_passthrough(input.owner_node_index, Ghost(s), Ghost(t), Ghost(rank));
            }
            k = k + 1;
        }
        let ghost mk_end = self.nodes();
        let ghost arena_end = arena_nodes(self.nodes);
        let node_mut = node_arena_get_mut(&mut self.nodes, index).unwrap();
        node_mut.inputs = new_inputs;
        proof {
            lemma_view_insert(arena_end, index, *node_mut);
            assert(self.nodes().remove(index).insert(index, m0[index]) =~= mk_end);
            Self::lemma_closed_after_rewrite(m0, self.nodes(), s, t, rank, index);
        }
    }

    /// Replacing the inputs of `index` by ones that keep the connected slots,
    /// stay inside `s` below its rank, keeps the graph closed.
    proof fn lemma_closed_after_rewrite(
        m0: Map<NodeIndex, NodeView>,
        m1: Map<NodeIndex, NodeView>,
        s: Set<NodeIndex>,
        t: Set<NodeIndex>,
        rank: spec_fn(NodeIndex) -> nat,
        index: NodeIndex,
    )
        requires
            s.contains(index),
            t.contains(index),
            slots_complete(m0),
            m1.contains_key(index),
            m1[index].passthrough == m0[index].passthrough,
            m1[index].outputs == m0[index].outputs,
            m1[index].inputs.len() == MAX_INPUT_OUTPUTS_PER_NODE,
            same_shape(m0, m1.remove(index).insert(index, m0[index])),
            closed_below(m1.remove(index).insert(index, m0[index]), s, rank),
            fed_below(m1.remove(index).insert(index, m0[index]), t),
            forall|j: int| 0 <= j < MAX_INPUT_OUTPUTS_PER_NODE && m0[index].inputs[j] is Some ==> {
                let new = #[trigger] m1[index].inputs[j];
                &&& new is Some
                &&& s.contains(new.unwrap().owner_node_index)
                &&& t.contains(new.unwrap().owner_node_index)
                &&& rank(new.unwrap().owner_node_index) < rank(index)
                &&& new.unwrap().owner_node_output < MAX_INPUT_OUTPUTS_PER_NODE
                &&& m0[new.unwrap().owner_node_index].passthrough
                    ==> m0[new.unwrap().owner_node_index].inputs[new.unwrap().owner_node_output as int] is Some
            },
            forall|j: int| 0 <= j < MAX_INPUT_OUTPUTS_PER_NODE && m0[index].inputs[j] is None
                ==> #[trigger] m1[index].inputs[j] is None,
        ensures
            same_shape(m0, m1),
            closed_below(m1, s, rank),
            fed_below(m1, t),
    {
        let mk = m1.remove(index).insert(index, m0[index]);
        assert(m1.dom() =~= mk.dom());
        assert forall|n: NodeIndex| #[trigger] m0.contains_key(n) implies {
            &&& m1[n].passthrough == m0[n].passthrough
            &&& m1[n].outputs == m0[n].outputs
            &&& m1[n].inputs.len() == m0[n].inputs.len()
            &&& forall|k: int| 0 <= k < m0[n].inputs.len() ==>
                (#[trigger] m1[n].inputs[k] is Some) == m0[n].inputs[k] is Some
        } by {
            if n != index {
                assert(mk[n] == m1[n]);
            }
        }
        assert forall|n: NodeIndex| #[trigger] s.contains(n) implies m1.contains_key(n) && node_closed(m1, s, rank, n) by {
            assert(mk.contains_key(n) && node_closed(mk, s, rank, n));
            assert forall|k: int|
                0 <= k < MAX_INPUT_OUTPUTS_PER_NODE && (#[trigger] input_at(m1, n, k)) is Some implies {
                    let inp = input_at(m1, n, k).unwrap();
                    &&& s.contains(inp.owner_node_index)
                    &&& rank(inp.owner_node_index) < rank(n)
                    &&& inp.owner_node_output < MAX_INPUT_OUTPUTS_PER_NODE
                } by {
                let inp = input_at(m1, n, k).unwrap();
                if n == index {
                    assert(m0[index].inputs[k] is Some);
                    assert(m0.contains_key(inp.owner_node_index));
                    assert(mk.contains_key(inp.owner_node_index));
                } else {
                    assert(mk[n] == m1[n]);
                    assert(input_at(mk, n, k) is Some);
                    assert(mk.contains_key(inp.owner_node_index));
                }
            }
        }
        assert forall|n: NodeIndex| #[trigger] t.contains(n) implies m1.contains_key(n) by {
            assert(mk.contains_key(n));
        }
        assert forall|n: NodeIndex, k: int|
            #![trigger t.contains(n), input_at(m1, n, k)]
            t.contains(n) && 0 <= k < MAX_INPUT_OUTPUTS_PER_NODE && input_at(m1, n, k) is Some implies {
                let inp = input_at(m1, n, k).unwrap();
                &&& t.contains(inp.owner_node_index)
                &&& m1[inp.owner_node_index].passthrough ==> inp.owner_node_output < MAX_INPUT_OUTPUTS_PER_NODE
                    && input_at(m1, inp.owner_node_index, inp.owner_node_output as int) is Some
            } by {
            let inp = input_at(m1, n, k).unwrap();
            if n == index {
                assert(m0[index].inputs[k] is Some);
            } else {
                assert(mk[n] == m1[n]);
                assert(input_at(mk, n, k) is Some);
                assert(t.contains(inp.owner_node_index));
            }
            let o = inp.owner_node_index;
            if n != index {
                assert(mk[o].passthrough ==> inp.owner_node_output < MAX_INPUT_OUTPUTS_PER_NODE
                    && input_at(mk, o, inp.owner_node_output as int) is Some);
            }
            assert(mk.contains_key(o));
            assert(m0.contains_key(o));
            {
                if o != index {
                    assert(mk[o] == m1[o]);
                }
                if m1[o].passthrough && 0 <= inp.owner_node_output < MAX_INPUT_OUTPUTS_PER_NODE {
                    assert(m0[o].inputs[inp.owner_node_output as int] is Some);
                    assert(m1[o].inputs[inp.owner_node_output as int] is Some);
                }
            }
        }
    }

    /// `list` without repetitions, keeping first occurrences in order.
    fn dedup_unordered(list: &Vec<NodeIndex>) -> (r: Vec<NodeIndex>)
        ensures
            r@ == dedup(list@),
    {
        let mut deduped: Vec<NodeIndex> = Vec::new();
        let mut i: usize = 0;
        while i < list.len()
            invariant
                i <= list.len(),
                deduped@ == dedup(list@.take(i as int)),
            decreases list.len() - i,
        {
            let item = list[i];
            assert(list@.take(i + 1).drop_last() =~= list@.take(i as int));
            if !contains_index(&deduped, item) {
                deduped.push(item);
            }
            i = i + 1;
        }
        assert(list@.take(i as int) =~= list@);
        deduped
    }

    /// Appends [`shared_below`] for `current` to `shared`.
    fn traverse_subtree(
        &self,
        nodes_source: &Vec<NodeIndex>,
        nodes_target: &Vec<NodeIndex>,
        shared: &mut Vec<NodeIndex>,
        current: NodeIndex,
        Ghost(s): Ghost<Set<NodeIndex>>,
        Ghost(rank): Ghost<spec_fn(NodeIndex) -> nat>,
    )
        requires
            closed_below(self.nodes(), s, rank),
            s.contains(current),
        ensures
            final(shared)@ == old(shared)@ + shared_below(self.nodes(), rank, nodes_source@, nodes_target@, current),
        decreases rank(current),
    {
        let ghost nodes = self.nodes();
        proof { self.lemma_slots(); }
        let node = node_arena_get(&self.nodes, current).unwrap();
        let mut k: usize = 0;
        while k < MAX_INPUT_OUTPUTS_PER_NODE
            invariant
                k <= MAX_INPUT_OUTPUTS_PER_NODE,
                nodes == self.nodes(),
                slots_complete(nodes),
                closed_below(nodes, s, rank),
                s.contains(current),
                node@ == nodes[current],
                old(shared)@ + shared_inputs(nodes, rank, nodes_source@, nodes_target@, current, 0)
                    == shared@ + shared_inputs(nodes, rank, nodes_source@, nodes_target@, current, k as nat),
            decreases MAX_INPUT_OUTPUTS_PER_NODE - k,
        {
            let ghost before = shared@;
            let ghost rest = shared_inputs(nodes, rank, nodes_source@, nodes_target@, current, (k + 1) as nat);
            if let Some(input) = node.inputs[k] {
                let target = input.owner_node_index;
                assert(input_at(nodes, current, k as int) is Some);
                if contains_index(nodes_source, target) && contains_index(nodes_target, target) {
                    shared.push(target);
                    assert(shared@ + rest =~= before + (seq![target] + rest));
                } else {
                    self.traverse_subtree(nodes_source, nodes_target, shared, target, Ghost(s), Ghost(rank));
                    assert(shared@ + rest =~= before + (shared_below(nodes, rank, nodes_source@, nodes_target@, target) + rest));
                }
            }
            k = k + 1;
        }
        assert(shared@ =~= old(shared)@ + shared_below(nodes, rank, nodes_source@, nodes_target@, current));
    }
}

/// Whether `x` occurs in `list`.
pub fn contains_index(list: &Vec<NodeIndex>, x: NodeIndex) -> (r: bool)
    ensures
        r == list@.contains(x),
{
    let mut i: usize = 0;
    while i < list.len()
        invariant
            i <= list.len(),
            forall|j: int| 0 <= j < i ==> list@[j] != x,
        decreases list.len() - i,
    {
        if list[i] == x {
            assert(list@[i as int] == x);
            return true;
        }
        i = i + 1;
    }
    false
}

impl ShaderGraph {
    /// The nodes of the color outputs, in order.
    pub open spec fn color_nodes(&self) -> Seq<NodeIndex> {
        self.color_output_list().map_values(|c: ColorOutput| c.node)
    }

    /// The nodes the graph refers to by role: the vertex output, then the
    /// nodes of the uniforms, the textures and the color outputs.
    pub open spec fn special_nodes(&self) -> Seq<NodeIndex> {
        (match self.vertex_output() {
            Some(v) => seq![v],
            None => Seq::empty(),
        }) + uniform_nodes(self.uniform_list()) + texture_nodes(self.texture_list()) + self.color_nodes()
    }

    /// Every node referred to by role exists, and no node has two roles.
    pub open spec fn well_formed(&self) -> bool {
        &&& self.special_nodes().no_duplicates()
        &&& forall|i: int| 0 <= i < self.special_nodes().len() ==> self.nodes().contains_key(#[trigger] self.special_nodes()[i])
    }

    /// Removes passthrough nodes below the requested outputs and the vertex
    /// output, then walks the vertex shader, the fragment shader and the
    /// nodes both of them share.
    fn plan_traversals(
        &mut self,
        outputs: &[NodeIndex],
        Ghost(s): Ghost<Set<NodeIndex>>,
        Ghost(t): Ghost<Set<NodeIndex>>,
        Ghost(rank): Ghost<spec_fn(NodeIndex) -> nat>,
    ) -> (r: (Vec<NodeIndex>, Vec<NodeIndex>, Vec<NodeIndex>))
        requires
            closed_below(old(self).nodes(), s, rank),
            fed_below(old(self).nodes(), t),
            old(self).vertex_output() is Some,
            s.contains(old(self).vertex_output().unwrap()),
            t.contains(old(self).vertex_output().unwrap()),
            forall|i: int| 0 <= i < outputs@.len() ==> s.contains(#[trigger] outputs@[i]),
            forall|i: int| 0 <= i < outputs@.len() ==> t.contains(#[trigger] outputs@[i]),
            forall|i: int| 0 <= i < old(self).color_nodes().len() ==> s.contains(#[trigger] old(self).color_nodes()[i]),
        ensures
            final(self).nodes() == cleanup_each(old(self).nodes(), rank, outputs@.push(old(self).vertex_output().unwrap())),
            closed_below(final(self).nodes(), s, rank),
            same_shape(old(self).nodes(), final(self).nodes()),
            r.0@ == dedup(preorder(final(self).nodes(), old(self).vertex_output().unwrap(),
                rank(old(self).vertex_output().unwrap()) + 1)),
            r.1@ == dedup(walks(final(self).nodes(), rank, outputs@)),
            r.2@ == dedup(shared_each(final(self).nodes(), rank, r.0@, r.1@, old(self).color_nodes())),
            final(self).vertex_output() == old(self).vertex_output(),
            final(self).color_output_list() == old(self).color_output_list(),
            final(self).uniform_list() == old(self).uniform_list(),
            final(self).texture_list() == old(self).texture_list(),
            final(self).attribute_list() == old(self).attribute_list(),
    {
        let ghost m0 = self.nodes();
        let ghost vo = self.vertex_output().unwrap();
        let mut i: usize = 0;
        while i < outputs.len()
            invariant
                i <= outputs@.len(),
                closed_below(self.nodes(), s, rank),
                fed_below(self.nodes(), t),
                t.contains(vo),
                same_shape(m0, self.nodes()),
                self.nodes() == cleanup_each(m0, rank, outputs@.take(i as int)),
                forall|j: int| 0 <= j < outputs@.len() ==> s.contains(#[trigger] outputs@[j]),
                forall|j: int| 0 <= j < outputs@.len() ==> t.contains(#[trigger] outputs@[j]),
                self.vertex_output_node == old(self).vertex_output_node,
                self.color_outputs@ == old(self).color_outputs@,
                self.uniforms@ == old(self).uniforms@,
                self.textures@ == old(self).textures@,
                self.vertex_attributes@ == old(self).vertex_attributes@,
            decreases outputs@.len() - i,
        {
            let ghost before = self.nodes();
            assert(outputs@.take(i + 1).drop_last() =~= outputs@.take(i as int));
            self.cleanup_passthrough(outputs[i], Ghost(s), Ghost(t), Ghost(rank));
            proof { Self::lemma_same_shape_trans(m0, before, self.nodes()); }
            i = i + 1;
        }
        assert(outputs@.take(i as int) =~= outputs@);
        let vertex_output = self.vertex_output_node.unwrap();
        let ghost before = self.nodes();
        assert(outputs@.push(vo).drop_last() =~= outputs@);
        self.cleanup_passthrough(vertex_output, Ghost(s), Ghost(t), Ghost(rank));
        proof { Self::lemma_same_shape_trans(m0, before, self.nodes()); }

        let mut vertex_nodes: Vec<NodeIndex> = Vec::new();
        self.traverse(vertex_output, &mut vertex_nodes, Ghost(s), Ghost(rank));
        assert(vertex_nodes@ =~= preorder(self.nodes(), vo, rank(vo) + 1));
        let traversed_vertex_shader = Self::dedup_unordered(&vertex_nodes);

        let mut fragment_nodes: Vec<NodeIndex> = Vec::new();
        let mut i: usize = 0;
        while i < outputs.len()
            invariant
                i <= outputs@.len(),
                closed_below(self.nodes(), s, rank),
                forall|j: int| 0 <= j < outputs@.len() ==> s.contains(#[trigger] outputs@[j]),
                fragment_nodes@ == walks(self.nodes(), rank, outputs@.take(i as int)),
            decreases outputs@.len() - i,
        {
            assert(outputs@.take(i + 1).drop_last() =~= outputs@.take(i as int));
            self.traverse(outputs[i], &mut fragment_nodes, Ghost(s), Ghost(rank));
            i = i + 1;
        }
        assert(outputs@.take(i as int) =~= outputs@);
        let traversed_fragment_shader = Self::dedup_unordered(&fragment_nodes);

        let mut shared_nodes: Vec<NodeIndex> = Vec::new();
        let ghost colors = self.color_nodes();
        assert(colors =~= old(self).color_nodes());
        let mut i: usize = 0;
        while i < self.color_outputs.len()
            invariant
                i <= self.color_outputs@.len(),
                colors == self.color_nodes(),
                closed_below(self.nodes(), s, rank),
                forall|j: int| 0 <= j < colors.len() ==> s.contains(#[trigger] colors[j]),
                shared_nodes@ == shared_each(self.nodes(), rank, traversed_vertex_shader@,
                    traversed_fragment_shader@, colors.take(i as int)),
            decreases self.color_outputs@.len() - i,
        {
            assert(colors.take(i + 1).drop_last() =~= colors.take(i as int));
            assert(colors[i as int] == self.color_outputs@[i as int].node);
            self.traverse_subtree(
                &traversed_vertex_shader,
                &traversed_fragment_shader,
                &mut shared_nodes,
                self.color_outputs[i].node,
                Ghost(s),
                Ghost(rank),
            );
            i = i + 1;
        }
        assert(colors.take(i as int) =~= colors);
        let shared = Self::dedup_unordered(&shared_nodes);
        (traversed_vertex_shader, traversed_fragment_shader, shared)
    }

    proof fn lemma_same_shape_trans(a: Map<NodeIndex, NodeView>, b: Map<NodeIndex, NodeView>, c: Map<NodeIndex, NodeView>)
        requires
            same_shape(a, b),
            same_shape(b, c),
        ensures
            same_shape(a, c),
    {
        assert forall|n: NodeIndex| #[trigger] a.contains_key(n) implies {
            &&& c[n].passthrough == a[n].passthrough
            &&& c[n].outputs == a[n].outputs
            &&& c[n].inputs.len() == a[n].inputs.len()
            &&& forall|k: int| 0 <= k < a[n].inputs.len() ==>
                (#[trigger] c[n].inputs[k] is Some) == a[n].inputs[k] is Some
        } by {
            assert(b.contains_key(n));
            assert forall|k: int| 0 <= k < a[n].inputs.len() implies
                (#[trigger] c[n].inputs[k] is Some) == a[n].inputs[k] is Some by {
                assert(b[n].inputs[k] is Some == a[n].inputs[k] is Some);
            }
        }
    }
}

/// The nodes of the uniforms, in order.
pub open spec fn uniform_nodes(us: Seq<Uniform>) -> Seq<NodeIndex> {
    Seq::new(us.len(), |i: int| us[i].node_index)
}

/// The nodes of the textures, in order.
pub open spec fn texture_nodes(ts: Seq<Texture>) -> Seq<NodeIndex> {
    Seq::new(ts.len(), |i: int| ts[i].node_index)
}

/// The shared attributes of node `n`: one per output, named after the
/// variable that holds it.
pub open spec fn node_attrs(n: NodeIndex, outputs: Seq<ShaderType>) -> Seq<(ShaderType, Seq<char>)> {
    Seq::new(outputs.len(), |j: int| (outputs[j], var_name(n.slot as nat, j as nat)))
}

/// The attributes handed from the vertex to the fragment shader: those of
/// each shared node in order, except uniform and texture nodes (`skip`).
pub open spec fn shared_attrs(
    nodes: Map<NodeIndex, NodeView>,
    skip: Seq<NodeIndex>,
    shared: Seq<NodeIndex>,
) -> Seq<(ShaderType, Seq<char>)>
    decreases shared.len(),
{
    if shared.len() == 0 {
        Seq::empty()
    } else {
        let n = shared.last();
        shared_attrs(nodes, skip, shared.drop_last()) + if skip.contains(n) {
            Seq::empty()
        } else {
            node_attrs(n, nodes[n].outputs)
        }
    }
}

/// `list` without the nodes for which `drop` holds... here: without the
/// nodes that are uniform nodes and shared at the same time.
pub open spec fn without_shared_uniforms(
    list: Seq<NodeIndex>,
    unodes: Seq<NodeIndex>,
    shared: Seq<NodeIndex>,
) -> Seq<NodeIndex>
    decreases list.len(),
{
    if list.len() == 0 {
        list
    } else {
        let n = list.last();
        without_shared_uniforms(list.drop_last(), unodes, shared) + if unodes.contains(n) && shared.contains(n) {
            Seq::empty()
        } else {
            seq![n]
        }
    }
}

/// `list` without uniform nodes.
pub open spec fn without_uniforms(list: Seq<NodeIndex>, unodes: Seq<NodeIndex>) -> Seq<NodeIndex>
    decreases list.len(),
{
    if list.len() == 0 {
        list
    } else {
        let n = list.last();
        without_uniforms(list.drop_last(), unodes) + if unodes.contains(n) {
            Seq::empty()
        } else {
            seq![n]
        }
    }
}

/// What a build works out: the graph after removing passthrough nodes, the
/// nodes of each shader and the nodes the shaders share.
pub ghost struct BuildModel {
    pub nodes: Map<NodeIndex, NodeView>,
    pub vertex: Seq<NodeIndex>,
    pub fragment: Seq<NodeIndex>,
    pub shared: Seq<NodeIndex>,
    pub attrs: Seq<(ShaderType, Seq<char>)>,
}

/// `b` is the built form of uniform `u` at position `i`.
pub open spec fn built_uniform_ok(
    b: BuiltUniform,
    i: int,
    u: Uniform,
    vertex: Seq<NodeIndex>,
    fragment: Seq<NodeIndex>,
    shared: Seq<NodeIndex>,
) -> bool {
    &&& b.binding == i
    &&& b.ty_id == u.ty_id
    &&& b.id == u.id
    &&& b.name@ == u.name@
    &&& b.attributes@ == u.attributes@
    &&& b.in_vs == vertex.contains(u.node_index)
    &&& b.in_fs == (fragment.contains(u.node_index) && !shared.contains(u.node_index))
}

/// `b` is the built form of texture `t` bound at `binding`.
pub open spec fn built_texture_ok(
    b: BuiltTexture,
    binding: int,
    t: Texture,
    vertex: Seq<NodeIndex>,
    fragment: Seq<NodeIndex>,
    shared: Seq<NodeIndex>,
) -> bool {
    &&& b.binding == binding
    &&& b.id == t.id
    &&& b.name@ == t.name@
    &&& b.in_vs == vertex.contains(t.node_index)
    &&& b.in_fs == (fragment.contains(t.node_index) && !shared.contains(t.node_index))
}

/// A copy of a list of named members.
pub fn copy_members(v: &Vec<(String, ShaderType)>) -> (r: Vec<(String, ShaderType)>)
    ensures
        r@ == v@,
{
    let mut r: Vec<(String, ShaderType)> = Vec::new();
    let mut i: usize = 0;
    while i < v.len()
        invariant
            i <= v@.len(),
            r@ == v@.take(i as int),
        decreases v@.len() - i,
    {
        r.push((v[i].0.clone(), v[i].1));
        assert(r@ =~= v@.take(i + 1));
        i = i + 1;
    }
    assert(v@.take(i as int) =~= v@);
    r
}

impl ShaderGraph {
    /// The nodes a build starts from: the requested outputs, the vertex
    /// output and every color output.
    pub open spec fn build_roots(&self, outputs: Seq<NodeIndex>) -> Set<NodeIndex> {
        outputs.to_set().insert(self.vertex_output().unwrap()).union(self.color_nodes().to_set())
    }

    /// The nodes whose passthrough inputs a build removes: the requested
    /// outputs and the vertex output.
    pub open spec fn cleanup_roots(&self, outputs: Seq<NodeIndex>) -> Set<NodeIndex> {
        outputs.to_set().insert(self.vertex_output().unwrap())
    }

    /// What a build of `outputs` works out (see [`BuildModel`]).
    pub open spec fn build_model(&self, outputs: Seq<NodeIndex>) -> BuildModel {
        let rank = build_witness(self.nodes(), self.build_roots(outputs), self.cleanup_roots(outputs)).2;
        let vo = self.vertex_output().unwrap();
        let cleaned = cleanup_each(self.nodes(), rank, outputs.push(vo));
        let vertex = dedup(preorder(cleaned, vo, rank(vo) + 1));
        let fragment = dedup(walks(cleaned, rank, outputs));
        let shared = dedup(shared_each(cleaned, rank, vertex, fragment, self.color_nodes()));
        BuildModel {
            nodes: cleaned,
            vertex,
            fragment,
            shared,
            attrs: shared_attrs(
                cleaned,
                uniform_nodes(self.uniform_list()) + texture_nodes(self.texture_list()),
                shared,
            ),
        }
    }

    /// Whether `n` is the node of one of the uniforms.
    fn uniform_has_node(&self, n: NodeIndex) -> (r: bool)
        ensures
            r == uniform_nodes(self.uniform_list()).contains(n),
    {
        let mut i: usize = 0;
        while i < self.uniforms.len()
            invariant
                i <= self.uniforms@.len(),
                forall|j: int| 0 <= j < i ==> self.uniforms@[j].node_index != n,
            decreases self.uniforms@.len() - i,
        {
            if self.uniforms[i].node_index == n {
                assert(uniform_nodes(self.uniform_list())[i as int] == n);
                return true;
            }
            i = i + 1;
        }
        false
    }

    /// Whether `n` is the node of one of the textures.
    fn texture_has_node(&self, n: NodeIndex) -> (r: bool)
        ensures
            r == texture_nodes(self.texture_list()).contains(n),
    {
        let mut i: usize = 0;
        while i < self.textures.len()
            invariant
                i <= self.textures@.len(),
                forall|j: int| 0 <= j < i ==> self.textures@[j].node_index != n,
            decreases self.textures@.len() - i,
        {
            if self.textures[i].node_index == n {
                assert(texture_nodes(self.texture_list())[i as int] == n);
                return true;
            }
            i = i + 1;
        }
        false
    }

    /// The attributes handed from the vertex to the fragment shader.
    fn shared_attributes(&self, shared: &Vec<NodeIndex>) -> (r: Vec<(ShaderType, String)>)
        requires
            forall|i: int| 0 <= i < shared@.len() ==> self.nodes().contains_key(#[trigger] shared@[i]),
        ensures
            shared_model(r@) == shared_attrs(
                self.nodes(),
                uniform_nodes(self.uniform_list()) + texture_nodes(self.texture_list()),
                shared@,
            ),
    {
        let ghost skip = uniform_nodes(self.uniform_list()) + texture_nodes(self.texture_list());
        let mut attributes: Vec<(ShaderType, String)> = Vec::new();
        let mut i: usize = 0;
        while i < shared.len()
            invariant
                i <= shared@.len(),
                skip == uniform_nodes(self.uniform_list()) + texture_nodes(self.texture_list()),
                forall|i: int| 0 <= i < shared@.len() ==> self.nodes().contains_key(#[trigger] shared@[i]),
                shared_model(attributes@) == shared_attrs(self.nodes(), skip, shared@.take(i as int)),
            decreases shared@.len() - i,
        {
            let node_index = shared[i];
            let ghost before = attributes@;
            assert(shared@.take(i + 1).drop_last() =~= shared@.take(i as int));
            let is_uniform = self.uniform_has_node(node_index);
            let is_texture = self.texture_has_node(node_index);
            proof {
                assert(skip.contains(node_index) == (is_uniform || is_texture)) by {
                    let un = uniform_nodes(self.uniform_list());
                    let tn = texture_nodes(self.texture_list());
                    if un.contains(node_index) {
                        let j = choose|j: int| 0 <= j < un.len() && un[j] == node_index;
                        assert(skip[j] == node_index);
                    }
                    if tn.contains(node_index) {
                        let j = choose|j: int| 0 <= j < tn.len() && tn[j] == node_index;
                        assert(skip[un.len() + j] == node_index);
                    }
                    if skip.contains(node_index) {
                        let j = choose|j: int| 0 <= j < skip.len() && skip[j] == node_index;
                        if j < un.len() {
                            assert(un[j] == node_index);
                        } else {
                            assert(tn[j - un.len()] == node_index);
                        }
                    }
                }
            }
            if !is_uniform && !is_texture {
                let node = node_arena_get(&self.nodes, node_index).unwrap();
                let ghost outs = self.nodes()[node_index].outputs;
                assert(node@.outputs == outs);
                let mut j: usize = 0;
                while j < node.outputs.len()
                    invariant
                        j <= node.outputs@.len(),
                        node.outputs@ == outs,
                        shared_model(attributes@) == shared_model(before) + node_attrs(node_index, outs).take(j as int),
                    decreases node.outputs@.len() - j,
                {
                    let name = var_name_string(node_index.slot, j);
                    let ghost prev = attributes@;
                    attributes.push((node.outputs[j], name));
                    assert(shared_model(attributes@) =~= shared_model(prev).push((outs[j as int], var_name(node_index.slot as nat, j as nat))));
                    assert(node_attrs(node_index, outs).take(j + 1) =~= node_attrs(node_index, outs).take(j as int).push((outs[j as int], var_name(node_index.slot as nat, j as nat))));
                    assert(shared_model(attributes@) =~= shared_model(before) + node_attrs(node_index, outs).take(j + 1));
                    j = j + 1;
                }
                assert(node_attrs(node_index, outs).take(j as int) =~= node_attrs(node_index, outs));
            } else {
                assert(shared_model(attributes@) =~= shared_model(before) + Seq::<(ShaderType, Seq<char>)>::empty());
            }
            i = i + 1;
        }
        assert(shared@.take(i as int) =~= shared@);
        attributes
    }

    /// The uniforms as a build binds them.
    fn built_uniforms(&self, vertex: &Vec<NodeIndex>, fragment: &Vec<NodeIndex>, shared: &Vec<NodeIndex>)
        -> (r: Vec<BuiltUniform>)
        ensures
            r@.len() == self.uniform_list().len(),
            forall|i: int| 0 <= i < r@.len() ==> built_uniform_ok(
                #[trigger] r@[i], i, self.uniform_list()[i], vertex@, fragment@, shared@),
    {
        let mut r: Vec<BuiltUniform> = Vec::new();
        let mut i: usize = 0;
        while i < self.uniforms.len()
            invariant
                i <= self.uniforms@.len(),
                r@.len() == i,
                forall|j: int| 0 <= j < i ==> built_uniform_ok(
                    #[trigger] r@[j], j, self.uniforms@[j], vertex@, fragment@, shared@),
            decreases self.uniforms@.len() - i,
        {
            let uniform = &self.uniforms[i];
            let in_fs = contains_index(fragment, uniform.node_index) && !contains_index(shared, uniform.node_index);
            r.push(BuiltUniform {
                id: uniform.id,
                ty_id: uniform.ty_id,
                binding: i,
                name: uniform.name.clone(),
                attributes: copy_members(&uniform.attributes),
                in_vs: contains_index(vertex, uniform.node_index),
                in_fs,
            });
            i = i + 1;
        }
        r
    }

    /// The textures as a build binds them, after `base` uniforms.
    fn built_textures(&self, base: usize, vertex: &Vec<NodeIndex>, fragment: &Vec<NodeIndex>, shared: &Vec<NodeIndex>)
        -> (r: Vec<BuiltTexture>)
        requires
            base + self.texture_list().len() <= usize::MAX,
        ensures
            r@.len() == self.texture_list().len(),
            forall|i: int| 0 <= i < r@.len() ==> built_texture_ok(
                #[trigger] r@[i], base + i, self.texture_list()[i], vertex@, fragment@, shared@),
    {
        let mut r: Vec<BuiltTexture> = Vec::new();
        let mut i: usize = 0;
        while i < self.textures.len()
            invariant
                i <= self.textures@.len(),
                base + self.textures@.len() <= usize::MAX,
                r@.len() == i,
                forall|j: int| 0 <= j < i ==> built_texture_ok(
                    #[trigger] r@[j], base + j, self.textures@[j], vertex@, fragment@, shared@),
            decreases self.textures@.len() - i,
        {
            let texture = &self.textures[i];
            let in_fs = contains_index(fragment, texture.node_index) && !contains_index(shared, texture.node_index);
            r.push(BuiltTexture {
                name: texture.name.clone(),
                id: texture.id,
                binding: base + i,
                in_vs: contains_index(vertex, texture.node_index),
                in_fs,
            });
            i = i + 1;
        }
        r
    }

    /// `list` without the uniform nodes that are also shared.
    fn drop_shared_uniforms(&self, list: &Vec<NodeIndex>, shared: &Vec<NodeIndex>) -> (r: Vec<NodeIndex>)
        ensures
            r@ == without_shared_uniforms(list@, uniform_nodes(self.uniform_list()), shared@),
    {
        let mut r: Vec<NodeIndex> = Vec::new();
        let mut i: usize = 0;
        while i < list.len()
            invariant
                i <= list@.len(),
                r@ == without_shared_uniforms(list@.take(i as int), uniform_nodes(self.uniform_list()), shared@),
            decreases list@.len() - i,
        {
            assert(list@.take(i + 1).drop_last() =~= list@.take(i as int));
            let n = list[i];
            if !(self.uniform_has_node(n) && contains_index(shared, n)) {
                r.push(n);
            }
            assert(r@ =~= without_shared_uniforms(list@.take(i + 1), uniform_nodes(self.uniform_list()), shared@));
            i = i + 1;
        }
        assert(list@.take(i as int) =~= list@);
        r
    }

    /// `list` without uniform nodes.
    fn drop_uniforms(&self, list: &Vec<NodeIndex>) -> (r: Vec<NodeIndex>)
        ensures
            r@ == without_uniforms(list@, uniform_nodes(self.uniform_list())),
    {
        let mut r: Vec<NodeIndex> = Vec::new();
        let mut i: usize = 0;
        while i < list.len()
            invariant
                i <= list@.len(),
                r@ == without_uniforms(list@.take(i as int), uniform_nodes(self.uniform_list())),
            decreases list@.len() - i,
        {
            assert(list@.take(i + 1).drop_last() =~= list@.take(i as int));
            let n = list[i];
            if !self.uniform_has_node(n) {
                r.push(n);
            }
            assert(r@ =~= without_uniforms(list@.take(i + 1), uniform_nodes(self.uniform_list())));
            i = i + 1;
        }
        assert(list@.take(i as int) =~= list@);
        r
    }

    /// Plans the vertex shader (from the vertex output) and the fragment
    /// shader (from the color outputs in `outputs`): passthrough nodes are
    /// removed first, nodes that both shaders compute are computed once in the
    /// vertex shader and handed over, and each uniform and texture gets a set.
    pub fn build(&mut self, outputs: &[NodeIndex]) -> (plan: ShaderBuildPlan)
        requires
            old(self).vertex_output() is Some,
            buildable(old(self).nodes(), old(self).build_roots(outputs@), old(self).cleanup_roots(outputs@)),
            old(self).uniform_list().len() + old(self).texture_list().len() <= usize::MAX,
        ensures
            old(self).well_formed() ==> final(self).well_formed(),
            ({
                let m = old(self).build_model(outputs@);
                let us = old(self).uniform_list();
                let ts = old(self).texture_list();
                let un = uniform_nodes(us);
                &&& final(self).nodes() == m.nodes
                &&& plan.vertex_nodes@ == m.vertex
                &&& plan.fragment_nodes@ == without_shared_uniforms(m.fragment, un, m.shared)
                &&& plan.fragment_skipped@ == without_uniforms(m.vertex, un)
                &&& plan.uniforms@.len() == us.len()
                &&& (forall|i: int| 0 <= i < us.len() ==> built_uniform_ok(
                    #[trigger] plan.uniforms@[i], i, us[i], m.vertex, m.fragment, m.shared))
                &&& plan.textures@.len() == ts.len()
                &&& (forall|i: int| 0 <= i < ts.len() ==> built_texture_ok(
                    #[trigger] plan.textures@[i], us.len() + i, ts[i], m.vertex, m.fragment, m.shared))
                &&& plan.vertex_head@ == version_text() + attribute_lines(old(self).attribute_list())
                    + shared_lines(m.attrs, "out"@) + uniform_blocks(plan.uniforms@, false)
                &&& plan.vertex_main_tail@ == assignment_lines(m.attrs) + main_close()
                &&& plan.fragment_head@ == version_text() + shared_lines(m.attrs, "in"@)
                    + color_lines(old(self).color_output_list(), outputs@) + uniform_blocks(plan.uniforms@, true)
                    + texture_blocks(plan.textures@)
                &&& plan.fragment_main_head@ == main_open() + declaration_lines(m.attrs)
            }),
            final(self).vertex_output() == old(self).vertex_output(),
            final(self).color_output_list() == old(self).color_output_list(),
            final(self).uniform_list() == old(self).uniform_list(),
            final(self).texture_list() == old(self).texture_list(),
            final(self).attribute_list() == old(self).attribute_list(),
    {
        let ghost roots = self.build_roots(outputs@);
        let ghost fed = self.cleanup_roots(outputs@);
        let ghost nodes0 = self.nodes();
        proof {
            let (s0, t0, r0) = choose|s: Set<NodeIndex>, t: Set<NodeIndex>, rank: spec_fn(NodeIndex) -> nat|
                #![trigger closed_below(nodes0, s, rank), fed_below(nodes0, t)]
                roots.subset_of(s) && fed.subset_of(t) && closed_below(nodes0, s, rank) && fed_below(nodes0, t);
            let p = (s0, t0, r0);
            assert(roots.subset_of(p.0) && fed.subset_of(p.1) && closed_below(nodes0, p.0, p.2) && fed_below(nodes0, p.1));
        }
        let ghost w = build_witness(nodes0, roots, fed);
        let ghost s = w.0;
        let ghost t = w.1;
        let ghost rank = w.2;
        let ghost vo = self.vertex_output().unwrap();
        let ghost colors = self.color_nodes();
        proof {
            assert(roots.subset_of(s) && fed.subset_of(t) && closed_below(nodes0, s, rank) && fed_below(nodes0, t));
            assert forall|i: int| 0 <= i < outputs@.len() implies s.contains(#[trigger] outputs@[i]) && t.contains(outputs@[i]) by {
                assert(outputs@.to_set().contains(outputs@[i]));
                assert(roots.contains(outputs@[i]));
                assert(fed.contains(outputs@[i]));
            }
            assert(roots.contains(vo));
            assert(fed.contains(vo));
            assert forall|i: int| 0 <= i < colors.len() implies s.contains(#[trigger] colors[i]) by {
                assert(colors.to_set().contains(colors[i]));
                assert(roots.contains(colors[i]));
            }
        }
        let (traversed_vertex_shader, traversed_fragment_shader, shared_nodes) =
            self.plan_traversals(outputs, Ghost(s), Ghost(t), Ghost(rank));
        proof {
            let sh = shared_each(self.nodes(), rank, traversed_vertex_shader@, traversed_fragment_shader@, colors);
            lemma_shared_each_in(self.nodes(), s, rank, traversed_vertex_shader@, traversed_fragment_shader@, colors);
            lemma_dedup(sh);
            assert forall|i: int| 0 <= i < shared_nodes@.len() implies self.nodes().contains_key(#[trigger] shared_nodes@[i]) by {
                assert(shared_nodes@.contains(shared_nodes@[i]));
                assert(sh.contains(shared_nodes@[i]));
                assert(s.contains(shared_nodes@[i]));
            }
        }
        let shared_attributes = self.shared_attributes(&shared_nodes);
        let uniforms = self.built_uniforms(&traversed_vertex_shader, &traversed_fragment_shader, &shared_nodes);
        let textures = self.built_textures(
            uniforms.len(), &traversed_vertex_shader, &traversed_fragment_shader, &shared_nodes);
        let fragment_nodes = self.drop_shared_uniforms(&traversed_fragment_shader, &shared_nodes);
        let fragment_skipped = self.drop_uniforms(&traversed_vertex_shader);

        proof {
            reveal_strlit("#version 450\n\n");
            reveal_strlit("out");
            reveal_strlit("in");
            reveal_strlit("");
            reveal_strlit("}\n");
            reveal_strlit("void main() {\n");
        }
        let mut vertex_head = String::new();
        push_str(&mut vertex_head, "#version 450\n\n");
        push_attribute_lines(&mut vertex_head, &self.vertex_attributes);
        push_shared_section(&mut vertex_head, &shared_attributes, 0, "out");
        push_uniform_blocks(&mut vertex_head, &uniforms, false);

        let mut vertex_main_tail = String::new();
        push_shared_section(&mut vertex_main_tail, &shared_attributes, 1, "");
        push_str(&mut vertex_main_tail, "}\n");

        let mut fragment_head = String::new();
        push_str(&mut fragment_head, "#version 450\n\n");
        push_shared_section(&mut fragment_head, &shared_attributes, 0, "in");
        push_color_lines(&mut fragment_head, &self.color_outputs, outputs);
        push_uniform_blocks(&mut fragment_head, &uniforms, true);
        push_texture_blocks(&mut fragment_head, &textures);

        let mut fragment_main_head = String::new();
        push_str(&mut fragment_main_head, "void main() {\n");
        push_shared_section(&mut fragment_main_head, &shared_attributes, 2, "");

        proof {
            assert(vertex_head@ =~= version_text() + attribute_lines(old(self).attribute_list())
                + shared_lines(shared_model(shared_attributes@), "out"@) + uniform_blocks(uniforms@, false));
            assert(vertex_main_tail@ =~= assignment_lines(shared_model(shared_attributes@)) + main_close());
            assert(fragment_head@ =~= version_text() + shared_lines(shared_model(shared_attributes@), "in"@)
                + color_lines(old(self).color_output_list(), outputs@) + uniform_blocks(uniforms@, true)
                + texture_blocks(textures@));
            assert(fragment_main_head@ =~= main_open() + declaration_lines(shared_model(shared_attributes@)));
        }
        ShaderBuildPlan {
            vertex_nodes: traversed_vertex_shader,
            fragment_nodes,
            fragment_skipped,
            vertex_head,
            vertex_main_tail,
            fragment_head,
            fragment_main_head,
            uniforms,
            textures,
        }
    }
}

/// A node with no input connected, of the given kind and output types.
pub open spec fn unconnected(passthrough: bool, outputs: Seq<ShaderType>) -> NodeView {
    NodeView {
        inputs: Seq::new(MAX_INPUT_OUTPUTS_PER_NODE as nat, |k: int| None::<Input>),
        passthrough,
        outputs,
    }
}

/// The shader types of a list of vertex attributes, in order.
pub open spec fn attribute_types(attrs: Seq<VertexAttribute>) -> Seq<ShaderType> {
    Seq::new(attrs.len(), |i: int| crate::shader_type::format_shader_type(attrs[i].format))
}

/// The types of a list of named members, in order.
pub open spec fn member_types(members: Seq<(String, ShaderType)>) -> Seq<ShaderType> {
    Seq::new(members.len(), |i: int| members[i].1)
}

/// A fresh random identifier from `uuid::Uuid::new_v4`, as its 128 bits.
/// The only thing claimed of it is the version field of a random UUID,
/// which the crate sets on every value.
#[verifier::external_body]
fn new_random_id() -> (id: u128)
    ensures
        (id >> 76u128) & 0xfu128 == 4u128,
{
    uuid::Uuid::new_v4().as_u128()
}

impl ShaderGraph {
    /// Adds a node of the given kind and output types, with no input
    /// connected, and returns its index.
    pub fn add_node(&mut self, passthrough: bool, outputs: Vec<ShaderType>) -> (i: NodeIndex)
        ensures
            old(self).well_formed() ==> final(self).well_formed(),
            !old(self).nodes().contains_key(i),
            final(self).nodes() == old(self).nodes().insert(i, unconnected(passthrough, outputs@)),
            final(self).vertex_output() == old(self).vertex_output(),
            final(self).color_output_list() == old(self).color_output_list(),
            final(self).uniform_list() == old(self).uniform_list(),
            final(self).texture_list() == old(self).texture_list(),
            final(self).attribute_list() == old(self).attribute_list(),
    {
        let inputs: [Option<Input>; MAX_INPUT_OUTPUTS_PER_NODE] = [
            None, None, None, None, None, None, None, None, None, None, None, None, None, None, None, None,
        ];
        assert(inputs@ =~= Seq::new(MAX_INPUT_OUTPUTS_PER_NODE as nat, |k: int| None::<Input>));
        let node = GraphNode { inputs, passthrough, outputs };
        let ghost before = arena_nodes(self.nodes);
        let i = node_arena_insert(&mut self.nodes, node);
        proof {
            lemma_view_insert(before, i, node);
            assert(node@ =~= unconnected(passthrough, outputs@));
        }
        i
    }

    /// The color outputs: name, type and node of each, in the order added.
    pub fn get_color_outputs(&self) -> (r: &Vec<ColorOutput>)
        ensures
            r@ == self.color_output_list(),
    {
        &self.color_outputs
    }

    /// Sets the vertex attributes and adds the node that reads them (one
    /// output per attribute) and the vertex output node; returns both.
    pub fn add_vertex_attributes(&mut self, attributes: Vec<VertexAttribute>) -> (r: (NodeIndex, NodeIndex))
        ensures
            old(self).well_formed() ==> final(self).well_formed(),
            !old(self).nodes().contains_key(r.0),
            !old(self).nodes().contains_key(r.1),
            r.0 != r.1,
            final(self).nodes() == old(self).nodes()
                .insert(r.0, unconnected(false, attribute_types(attributes@)))
                .insert(r.1, unconnected(false, Seq::empty())),
            final(self).vertex_output() == Some(r.1),
            final(self).attribute_list() == attributes@,
            final(self).color_output_list() == old(self).color_output_list(),
            final(self).uniform_list() == old(self).uniform_list(),
            final(self).texture_list() == old(self).texture_list(),
    {
        let mut types: Vec<ShaderType> = Vec::new();
        let mut k: usize = 0;
        while k < attributes.len()
            invariant
                k <= attributes@.len(),
                types@ == attribute_types(attributes@).take(k as int),
            decreases attributes@.len() - k,
        {
            types.push(ShaderType::from_format(attributes[k].format));
            assert(types@ =~= attribute_types(attributes@).take(k + 1));
            k = k + 1;
        }
        assert(types@ =~= attribute_types(attributes@));
        self.vertex_attributes = attributes;
        let index = self.add_node(false, types);
        let output_node = self.add_node(false, Vec::new());
        self.vertex_output_node = Some(output_node);
        proof {
            if old(self).well_formed() {
                let old_v = match old(self).vertex_output() { Some(v) => seq![v], None => Seq::<NodeIndex>::empty() };
                let y = uniform_nodes(old(self).uniform_list()) + texture_nodes(old(self).texture_list()) + old(self).color_nodes();
                assert(old(self).special_nodes() =~= old_v + y);
                assert(y =~= old(self).special_nodes().skip(old_v.len() as int));
                assert(y.no_duplicates()) by {
                    assert forall|i: int, j: int| 0 <= i < y.len() && 0 <= j < y.len() && i != j implies y[i] != y[j] by {
                        assert(y[i] == old(self).special_nodes()[i + old_v.len()]);
                        assert(y[j] == old(self).special_nodes()[j + old_v.len()]);
                    }
                }
                assert forall|i: int| 0 <= i < (Seq::<NodeIndex>::empty() + y).len() implies old(self).nodes().contains_key(#[trigger] (Seq::<NodeIndex>::empty() + y)[i]) by {
                    assert((Seq::<NodeIndex>::empty() + y)[i] == old(self).special_nodes()[i + old_v.len()]);
                }
                assert(Seq::<NodeIndex>::empty() + y =~= y);
                assert(self.color_nodes() =~= old(self).color_nodes());
                assert(self.special_nodes() =~= Seq::<NodeIndex>::empty() + seq![output_node] + y);
                lemma_roles_with_fresh(Seq::empty(), y, output_node, old(self).nodes(), self.nodes());
            }
        }
        (index, output_node)
    }

    /// Adds the vertex output node (and no vertex attributes).
    pub fn add_vertex_output_only(&mut self) -> (i: NodeIndex)
        ensures
            old(self).well_formed() ==> final(self).well_formed(),
            !old(self).nodes().contains_key(i),
            final(self).nodes() == old(self).nodes().insert(i, unconnected(false, Seq::empty())),
            final(self).vertex_output() == Some(i),
            final(self).attribute_list() == old(self).attribute_list(),
            final(self).color_output_list() == old(self).color_output_list(),
            final(self).uniform_list() == old(self).uniform_list(),
            final(self).texture_list() == old(self).texture_list(),
    {
        let output_node = self.add_node(false, Vec::new());
        self.vertex_output_node = Some(output_node);
        proof {
            if old(self).well_formed() {
                let old_v = match old(self).vertex_output() { Some(v) => seq![v], None => Seq::<NodeIndex>::empty() };
                let y = uniform_nodes(old(self).uniform_list()) + texture_nodes(old(self).texture_list()) + old(self).color_nodes();
                assert(old(self).special_nodes() =~= old_v + y);
                assert(y =~= old(self).special_nodes().skip(old_v.len() as int));
                assert(y.no_duplicates()) by {
                    assert forall|i: int, j: int| 0 <= i < y.len() && 0 <= j < y.len() && i != j implies y[i] != y[j] by {
                        assert(y[i] == old(self).special_nodes()[i + old_v.len()]);
                        assert(y[j] == old(self).special_nodes()[j + old_v.len()]);
                    }
                }
                assert forall|i: int| 0 <= i < (Seq::<NodeIndex>::empty() + y).len() implies old(self).nodes().contains_key(#[trigger] (Seq::<NodeIndex>::empty() + y)[i]) by {
                    assert((Seq::<NodeIndex>::empty() + y)[i] == old(self).special_nodes()[i + old_v.len()]);
                }
                assert(Seq::<NodeIndex>::empty() + y =~= y);
                assert(self.color_nodes() =~= old(self).color_nodes());
                assert(self.special_nodes() =~= Seq::<NodeIndex>::empty() + seq![output_node] + y);
                lemma_roles_with_fresh(Seq::empty(), y, output_node, old(self).nodes(), self.nodes());
            }
        }
        output_node
    }

    /// Adds a color output node called `name` with the given format.
    pub fn add_color_output(&mut self, name: &str, format: ShaderType) -> (i: NodeIndex)
        ensures
            old(self).well_formed() ==> final(self).well_formed(),
            !old(self).nodes().contains_key(i),
            final(self).nodes() == old(self).nodes().insert(i, unconnected(false, Seq::empty())),
            final(self).color_output_list().len() == old(self).color_output_list().len() + 1,
            final(self).color_output_list().drop_last() == old(self).color_output_list(),
            final(self).color_output_list().last().name@ == name@,
            final(self).color_output_list().last().ty == format,
            final(self).color_output_list().last().node == i,
            final(self).vertex_output() == old(self).vertex_output(),
            final(self).attribute_list() == old(self).attribute_list(),
            final(self).uniform_list() == old(self).uniform_list(),
            final(self).texture_list() == old(self).texture_list(),
    {
        let index = self.add_node(false, Vec::new());
        self.color_outputs.push(ColorOutput { name: String::from_str(name), ty: format, node: index });
        assert(self.color_outputs@.drop_last() =~= old(self).color_outputs@);
        proof {
            if old(self).well_formed() {
                let x = old(self).special_nodes();
                assert(self.color_nodes() =~= old(self).color_nodes().push(index));
                assert(uniform_nodes(self.uniform_list()) == uniform_nodes(old(self).uniform_list()));
                assert(texture_nodes(self.texture_list()) == texture_nodes(old(self).texture_list()));
                assert(self.special_nodes() =~= x + seq![index] + Seq::<NodeIndex>::empty());
                assert(x + Seq::<NodeIndex>::empty() =~= x);
                lemma_roles_with_fresh(x, Seq::empty(), index, old(self).nodes(), self.nodes());
            }
        }
        index
    }

    /// Adds a uniform node called `name` (one output per member) for a
    /// uniform type with identifier `ty_id` and block name `block_name`;
    /// returns the uniform's fresh identifier and its node.
    pub fn add_uniform(
        &mut self,
        name: &str,
        ty_id: u128,
        block_name: String,
        attributes: Vec<(String, ShaderType)>,
    ) -> (r: (u128, NodeIndex))
        ensures
            old(self).well_formed() ==> final(self).well_formed(),
            !old(self).nodes().contains_key(r.1),
            final(self).nodes() == old(self).nodes().insert(r.1, unconnected(false, member_types(attributes@))),
            final(self).uniform_list().len() == old(self).uniform_list().len() + 1,
            final(self).uniform_list().drop_last() == old(self).uniform_list(),
            final(self).uniform_list().last().id == r.0,
            (r.0 >> 76u128) & 0xfu128 == 4u128,
            final(self).uniform_list().last().ty_id == ty_id,
            final(self).uniform_list().last().node_index == r.1,
            final(self).uniform_list().last().name@ == block_name@,
            final(self).uniform_list().last().attributes@ == attributes@,
            final(self).vertex_output() == old(self).vertex_output(),
            final(self).attribute_list() == old(self).attribute_list(),
            final(self).color_output_list() == old(self).color_output_list(),
            final(self).texture_list() == old(self).texture_list(),
    {
        let mut types: Vec<ShaderType> = Vec::new();
        let mut k: usize = 0;
        while k < attributes.len()
            invariant
                k <= attributes@.len(),
                types@ == member_types(attributes@).take(k as int),
            decreases attributes@.len() - k,
        {
            types.push(attributes[k].1);
            assert(types@ =~= member_types(attributes@).take(k + 1));
            k = k + 1;
        }
        assert(types@ =~= member_types(attributes@));
        let index = self.add_node(false, types);
        let id = new_random_id();
        self.uniforms.push(Uniform { id, ty_id, node_index: index, name: block_name, attributes });
        assert(self.uniforms@.drop_last() =~= old(self).uniforms@);
        proof {
            if old(self).well_formed() {
                let v = match old(self).vertex_output() { Some(v) => seq![v], None => Seq::<NodeIndex>::empty() };
                let x = v + uniform_nodes(old(self).uniform_list());
                let y = texture_nodes(old(self).texture_list()) + old(self).color_nodes();
                assert(uniform_nodes(self.uniform_list()) =~= uniform_nodes(old(self).uniform_list()).push(index));
                assert(self.color_nodes() =~= old(self).color_nodes());
                assert(self.special_nodes() =~= x + seq![index] + y);
                assert(x + y =~= old(self).special_nodes());
                lemma_roles_with_fresh(x, y, index, old(self).nodes(), self.nodes());
            }
        }
        (id, index)
    }

    /// Adds a sampled texture node called `name` (one output); returns its
    /// node and the texture's fresh identifier.
    pub fn add_sampled_texture(&mut self, name: &str) -> (r: (NodeIndex, u128))
        ensures
            old(self).well_formed() ==> final(self).well_formed(),
            !old(self).nodes().contains_key(r.0),
            final(self).nodes() == old(self).nodes().insert(r.0, unconnected(false, seq![ShaderType::Float])),
            final(self).texture_list().len() == old(self).texture_list().len() + 1,
            final(self).texture_list().drop_last() == old(self).texture_list(),
            final(self).texture_list().last().id == r.1,
            (r.1 >> 76u128) & 0xfu128 == 4u128,
            final(self).texture_list().last().node_index == r.0,
            final(self).texture_list().last().name@ == name@,
            final(self).vertex_output() == old(self).vertex_output(),
            final(self).attribute_list() == old(self).attribute_list(),
            final(self).color_output_list() == old(self).color_output_list(),
            final(self).uniform_list() == old(self).uniform_list(),
    {
        let id = new_random_id();
        let mut outputs: Vec<ShaderType> = Vec::new();
        outputs.push(ShaderType::Float);
        assert(outputs@ =~= seq![ShaderType::Float]);
        let node_index = self.add_node(false, outputs);
        self.textures.push(Texture { id, node_index, name: String::from_str(name) });
        assert(self.textures@.drop_last() =~= old(self).textures@);
        proof {
            if old(self).well_formed() {
                let v = match old(self).vertex_output() { Some(v) => seq![v], None => Seq::<NodeIndex>::empty() };
                let x = v + uniform_nodes(old(self).uniform_list()) + texture_nodes(old(self).texture_list());
                let y = old(self).color_nodes();
                assert(texture_nodes(self.texture_list()) =~= texture_nodes(old(self).texture_list()).push(node_index));
                assert(self.color_nodes() =~= old(self).color_nodes());
                assert(self.special_nodes() =~= x + seq![node_index] + y);
                assert(x + y =~= old(self).special_nodes());
                lemma_roles_with_fresh(x, y, node_index, old(self).nodes(), self.nodes());
            }
        }
        (node_index, id)
    }

    /// The names of the values a node receives: for each input slot, the
    /// variable of the connected output, if any.
    pub fn input_names(&self, index: NodeIndex) -> (r: Vec<Option<String>>)
        requires
            self.nodes().contains_key(index),
        ensures
            r@.len() == MAX_INPUT_OUTPUTS_PER_NODE,
            forall|k: int| 0 <= k < MAX_INPUT_OUTPUTS_PER_NODE ==> match #[trigger] self.nodes()[index].inputs[k] {
                Some(inp) => r@[k] is Some && r@[k].unwrap()@ == var_name(
                    inp.owner_node_index.slot as nat, inp.owner_node_output as nat),
                None => r@[k] is None,
            },
    {
        let node = node_arena_get(&self.nodes, index).unwrap();
        let mut r: Vec<Option<String>> = Vec::new();
        let mut k: usize = 0;
        while k < MAX_INPUT_OUTPUTS_PER_NODE
            invariant
                k <= MAX_INPUT_OUTPUTS_PER_NODE,
                node@ == self.nodes()[index],
                r@.len() == k,
                forall|j: int| 0 <= j < k ==> match #[trigger] self.nodes()[index].inputs[j] {
                    Some(inp) => r@[j] is Some && r@[j].unwrap()@ == var_name(
                        inp.owner_node_index.slot as nat, inp.owner_node_output as nat),
                    None => r@[j] is None,
                },
            decreases MAX_INPUT_OUTPUTS_PER_NODE - k,
        {
            match node.inputs[k] {
                Some(input) => {
                    r.push(Some(var_name_string(input.owner_node_index.slot, input.owner_node_output)));
                },
                None => {
                    r.push(None);
                },
            }
            k = k + 1;
        }
        r
    }

    /// The names of the values a node produces: one variable per output slot.
    pub fn output_names(index: NodeIndex) -> (r: Vec<Option<String>>)
        ensures
            r@.len() == MAX_INPUT_OUTPUTS_PER_NODE,
            forall|k: int| 0 <= k < MAX_INPUT_OUTPUTS_PER_NODE ==> #[trigger] r@[k] is Some
                && r@[k].unwrap()@ == var_name(index.slot as nat, k as nat),
    {
        let mut r: Vec<Option<String>> = Vec::new();
        let mut k: usize = 0;
        while k < MAX_INPUT_OUTPUTS_PER_NODE
            invariant
                k <= MAX_INPUT_OUTPUTS_PER_NODE,
                r@.len() == k,
                forall|j: int| 0 <= j < k ==> #[trigger] r@[j] is Some
                    && r@[j].unwrap()@ == var_name(index.slot as nat, j as nat),
            decreases MAX_INPUT_OUTPUTS_PER_NODE - k,
        {
            r.push(Some(var_name_string(index.slot, k)));
            k = k + 1;
        }
        r
    }
}

/// A role list made of nodes that existed, without repeats, with one new
/// node put in is still without repeats and covered by the grown node set.
impl ShaderGraph {
    /// The vertex output node, if the graph has one.
    pub fn vertex_output_index(&self) -> (r: Option<NodeIndex>)
        ensures
            r == self.vertex_output(),
    {
        self.vertex_output_node
    }

    /// The uniforms, in the order added.
    pub fn uniforms_ref(&self) -> (r: &Vec<Uniform>)
        ensures
            r@ == self.uniform_list(),
    {
        &self.uniforms
    }

    /// The textures, in the order added.
    pub fn textures_ref(&self) -> (r: &Vec<Texture>)
        ensures
            r@ == self.texture_list(),
    {
        &self.textures
    }

    /// The node stored under `i`.
    pub(crate) fn node_ref(&self, i: NodeIndex) -> (r: &GraphNode)
        requires
            self.nodes().contains_key(i),
        ensures
            r@ == self.nodes()[i],
    {
        node_arena_get(&self.nodes, i).unwrap()
    }

    /// The index of every node of the graph, each once.
    pub(crate) fn node_indices(&self) -> (r: Vec<NodeIndex>)
        ensures
            r@.no_duplicates(),
            forall|i: NodeIndex| self.nodes().contains_key(i) <==> r@.contains(i),
    {
        node_arena_indices(&self.nodes)
    }

    /// Stores `node` under a fresh index, with no role.
    pub(crate) fn insert_node(&mut self, node: GraphNode) -> (i: NodeIndex)
        ensures
            old(self).well_formed() ==> final(self).well_formed(),
            !old(self).nodes().contains_key(i),
            final(self).nodes() == old(self).nodes().insert(i, node@),
            final(self).vertex_output() == old(self).vertex_output(),
            final(self).color_output_list() == old(self).color_output_list(),
            final(self).uniform_list() == old(self).uniform_list(),
            final(self).texture_list() == old(self).texture_list(),
            final(self).attribute_list() == old(self).attribute_list(),
    {
        let ghost before = arena_nodes(self.nodes);
        let i = node_arena_insert(&mut self.nodes, node);
        proof {
            lemma_view_insert(before, i, node);
        }
        i
    }

    /// Replaces the inputs of node `i`.
    pub(crate) fn set_node_inputs(&mut self, i: NodeIndex, inputs: [Option<Input>; MAX_INPUT_OUTPUTS_PER_NODE])
        requires
            old(self).nodes().contains_key(i),
        ensures
            old(self).well_formed() ==> final(self).well_formed(),
            final(self).nodes() == old(self).nodes().insert(
                i,
                NodeView { inputs: inputs@, ..old(self).nodes()[i] },
            ),
            final(self).vertex_output() == old(self).vertex_output(),
            final(self).color_output_list() == old(self).color_output_list(),
            final(self).uniform_list() == old(self).uniform_list(),
            final(self).texture_list() == old(self).texture_list(),
            final(self).attribute_list() == old(self).attribute_list(),
    {
        let n = node_arena_get_mut(&mut self.nodes, i).unwrap();
        n.inputs = inputs;
        proof {
            lemma_view_insert(arena_nodes(old(self).nodes), i, *n);
            assert(n@ =~= NodeView { inputs: inputs@, ..old(self).nodes()[i] });
        }
    }

    /// Appends a uniform whose node already exists and has no role yet.
    pub(crate) fn push_uniform(&mut self, u: Uniform)
        requires
            old(self).well_formed(),
            old(self).nodes().contains_key(u.node_index),
            !old(self).special_nodes().contains(u.node_index),
        ensures
            final(self).well_formed(),
            final(self).uniform_list() == old(self).uniform_list().push(u),
            final(self).nodes() == old(self).nodes(),
            final(self).vertex_output() == old(self).vertex_output(),
            final(self).color_output_list() == old(self).color_output_list(),
            final(self).texture_list() == old(self).texture_list(),
            final(self).attribute_list() == old(self).attribute_list(),
    {
        let ghost n = u.node_index;
        self.uniforms.push(u);
        proof {
            let v = match old(self).vertex_output() { Some(v) => seq![v], None => Seq::<NodeIndex>::empty() };
            let x = v + uniform_nodes(old(self).uniform_list());
            let y = texture_nodes(old(self).texture_list()) + old(self).color_nodes();
            assert(uniform_nodes(self.uniform_list()) =~= uniform_nodes(old(self).uniform_list()).push(n));
            assert(self.color_nodes() =~= old(self).color_nodes());
            assert(self.special_nodes() =~= x + seq![n] + y);
            assert(x + y =~= old(self).special_nodes());
            lemma_roles_with_role(x, y, n, self.nodes());
        }
    }

    /// Appends a texture whose node already exists and has no role yet.
    pub(crate) fn push_texture(&mut self, t: Texture)
        requires
            old(self).well_formed(),
            old(self).nodes().contains_key(t.node_index),
            !old(self).special_nodes().contains(t.node_index),
        ensures
            final(self).well_formed(),
            final(self).texture_list() == old(self).texture_list().push(t),
            final(self).nodes() == old(self).nodes(),
            final(self).vertex_output() == old(self).vertex_output(),
            final(self).color_output_list() == old(self).color_output_list(),
            final(self).uniform_list() == old(self).uniform_list(),
            final(self).attribute_list() == old(self).attribute_list(),
    {
        let ghost n = t.node_index;
        self.textures.push(t);
        proof {
            let v = match old(self).vertex_output() { Some(v) => seq![v], None => Seq::<NodeIndex>::empty() };
            let x = v + uniform_nodes(old(self).uniform_list()) + texture_nodes(old(self).texture_list());
            let y = old(self).color_nodes();
            assert(texture_nodes(self.texture_list()) =~= texture_nodes(old(self).texture_list()).push(n));
            assert(self.color_nodes() =~= old(self).color_nodes());
            assert(self.special_nodes() =~= x + seq![n] + y);
            assert(x + y =~= old(self).special_nodes());
            lemma_roles_with_role(x, y, n, self.nodes());
        }
    }

    /// Appends a color output whose node already exists and has no role yet.
    pub(crate) fn push_color_output(&mut self, c: ColorOutput)
        requires
            old(self).well_formed(),
            old(self).nodes().contains_key(c.node),
            !old(self).special_nodes().contains(c.node),
        ensures
            final(self).well_formed(),
            final(self).color_output_list() == old(self).color_output_list().push(c),
            final(self).nodes() == old(self).nodes(),
            final(self).vertex_output() == old(self).vertex_output(),
            final(self).uniform_list() == old(self).uniform_list(),
            final(self).texture_list() == old(self).texture_list(),
            final(self).attribute_list() == old(self).attribute_list(),
    {
        let ghost n = c.node;
        self.color_outputs.push(c);
        proof {
            let x = old(self).special_nodes();
            assert(self.color_nodes() =~= old(self).color_nodes().push(n));
            assert(self.special_nodes() =~= x + seq![n] + Seq::<NodeIndex>::empty());
            assert(x + Seq::<NodeIndex>::empty() =~= x);
            lemma_roles_with_role(x, Seq::empty(), n, self.nodes());
        }
    }
}

/// Giving a role to a node that exists and has none keeps the roles apart.
proof fn lemma_roles_with_role(x: Seq<NodeIndex>, y: Seq<NodeIndex>, n: NodeIndex, nodes: Map<NodeIndex, NodeView>)
    requires
        (x + y).no_duplicates(),
        forall|i: int| 0 <= i < (x + y).len() ==> nodes.contains_key(#[trigger] (x + y)[i]),
        !(x + y).contains(n),
        nodes.contains_key(n),
    ensures
        (x + seq![n] + y).no_duplicates(),
        forall|i: int| 0 <= i < (x + seq![n] + y).len() ==> nodes.contains_key(#[trigger] (x + seq![n] + y)[i]),
{
    let z = x + seq![n] + y;
    assert forall|i: int| 0 <= i < z.len() implies nodes.contains_key(#[trigger] z[i]) by {
        if i < x.len() {
            assert(z[i] == (x + y)[i]);
        } else if i > x.len() {
            assert(z[i] == (x + y)[i - 1]);
        }
    }
    assert forall|i: int, j: int| 0 <= i < z.len() && 0 <= j < z.len() && i != j implies z[i] != z[j] by {
        let f = |k: int| if k < x.len() { k } else { k - 1 };
        if i != x.len() && j != x.len() {
            assert(z[i] == (x + y)[f(i)]);
            assert(z[j] == (x + y)[f(j)]);
        } else if i == x.len() {
            assert(z[j] == (x + y)[f(j)]);
        } else {
            assert(z[i] == (x + y)[f(i)]);
        }
    }
}

proof fn lemma_roles_with_fresh(
    x: Seq<NodeIndex>,
    y: Seq<NodeIndex>,
    fresh: NodeIndex,
    before: Map<NodeIndex, NodeView>,
    after: Map<NodeIndex, NodeView>,
)
    requires
        (x + y).no_duplicates(),
        forall|i: int| 0 <= i < (x + y).len() ==> before.contains_key(#[trigger] (x + y)[i]),
        !before.contains_key(fresh),
        forall|n: NodeIndex| before.contains_key(n) ==> after.contains_key(n),
        after.contains_key(fresh),
    ensures
        (x + seq![fresh] + y).no_duplicates(),
        forall|i: int| 0 <= i < (x + seq![fresh] + y).len() ==> after.contains_key(#[trigger] (x + seq![fresh] + y)[i]),
{
    let z = x + seq![fresh] + y;
    assert forall|i: int| 0 <= i < z.len() implies after.contains_key(#[trigger] z[i]) by {
        if i < x.len() {
            assert(z[i] == (x + y)[i]);
        } else if i > x.len() {
            assert(z[i] == (x + y)[i - 1]);
        }
    }
    assert forall|i: int, j: int| 0 <= i < z.len() && 0 <= j < z.len() && i != j implies z[i] != z[j] by {
        let f = |k: int| if k < x.len() { k } else { k - 1 };
        if i != x.len() && j != x.len() {
            assert(z[i] == (x + y)[f(i)]);
            assert(z[j] == (x + y)[f(j)]);
        } else if i == x.len() {
            assert(z[j] == (x + y)[f(j)]);
            assert(before.contains_key((x + y)[f(j)]));
        } else {
            assert(z[i] == (x + y)[f(i)]);
            assert(before.contains_key((x + y)[f(i)]));
        }
    }
}

} // verus!
