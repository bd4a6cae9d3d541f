//! The shader graph of the physically based shading node: a graph used as a
//! sub graph only, whose input passthrough node takes the PBR inputs and
//! whose vertex and color outputs carry the projected position and the lit
//! color.
use vstd::prelude::*;
use crate::arena::NodeIndex;
use crate::scene::PBRShaderNode;
use crate::shader_graph::{unconnected, Input, NodeView, ShaderGraph, MAX_INPUT_OUTPUTS_PER_NODE};
use crate::shader_nodes::{Construct, ConvertHomgenous, Deconstruct, InputPassthroughNode, Multiply, Vector3Upgrade};
use crate::shader_type::ShaderType;

verus! {

/// What a uniform type hands a shader graph: its type identifier, the name
/// of its block, and its members in order (member `i` is output `i` of the
/// uniform's node).
pub struct UniformLayout {
    pub ty_id: u128,
    pub block_name: String,
    pub attributes: Vec<(String, ShaderType)>,
}

/// `j` is the first member of `members` called `name`.
pub open spec fn first_member(members: Seq<(String, ShaderType)>, name: Seq<char>, j: int) -> bool {
    &&& 0 <= j < members.len()
    &&& members[j].0@ == name
    &&& forall|l: int| 0 <= l < j ==> members[l].0@ != name
}

/// The output of a uniform's node that carries its member `name`.
pub open spec fn member_output(members: Seq<(String, ShaderType)>, name: Seq<char>) -> usize {
    (choose|j: int| first_member(members, name, j)) as usize
}

/// `members` has a member called `name`, among the first outputs a node can
/// have.
pub open spec fn member_in_reach(members: Seq<(String, ShaderType)>, name: Seq<char>) -> bool {
    exists|j: int| first_member(members, name, j) && j < MAX_INPUT_OUTPUTS_PER_NODE
}

/// The position of the first member of `members` called `name`.
pub fn member_index(members: &Vec<(String, ShaderType)>, name: &String) -> (r: Option<usize>)
    ensures
        match r {
            Some(j) => first_member(members@, name@, j as int),
            None => forall|j: int| 0 <= j < members@.len() ==> members@[j].0@ != name@,
        },
{
    let mut i: usize = 0;
    while i < members.len()
        invariant
            i <= members@.len(),
            forall|l: int| 0 <= l < i ==> members@[l].0@ != name@,
        decreases members@.len() - i,
    {
        if members[i].0 == *name {
            return Some(i);
        }
        i = i + 1;
    }
    None
}

/// The nodes of the PBR graph.
pub ghost struct PbrNodes {
    pub vertex_out: NodeIndex,
    pub color_out: NodeIndex,
    pub input: NodeIndex,
    pub camera: NodeIndex,
    pub model: NodeIndex,
    pub lights: NodeIndex,
    pub matrix_multiply: NodeIndex,
    pub pos_multiply: NodeIndex,
    pub world_pos_homo: NodeIndex,
    pub upgrade: NodeIndex,
    pub dir_light: NodeIndex,
    pub mat_prepare: NodeIndex,
    pub pixel: NodeIndex,
    pub normal: NodeIndex,
    pub alpha_color: NodeIndex,
    pub base_color: NodeIndex,
    pub alpha_discard: NodeIndex,
}

/// The nodes of `n` in the order they are added.
pub open spec fn pbr_order(n: PbrNodes) -> Seq<NodeIndex> {
    seq![
        n.vertex_out, n.color_out, n.input, n.camera, n.model, n.lights, n.matrix_multiply, n.pos_multiply,
        n.world_pos_homo, n.upgrade, n.dir_light, n.mat_prepare, n.pixel, n.normal, n.alpha_color,
        n.base_color, n.alpha_discard,
    ]
}

/// Output `output` of node `node`.
pub open spec fn from(node: NodeIndex, output: usize) -> Input {
    Input { owner_node_index: node, owner_node_output: output }
}

/// A node that is not a passthrough, with output types `outputs` and the
/// inputs `links` connected.
pub open spec fn wired(outputs: Seq<ShaderType>, links: Map<int, Input>) -> NodeView {
    NodeView {
        inputs: Seq::new(
            MAX_INPUT_OUTPUTS_PER_NODE as nat,
            |q: int| if links.contains_key(q) { Some(links[q]) } else { None },
        ),
        passthrough: false,
        outputs,
    }
}

/// The member types of a uniform, as the output types of its node.
pub open spec fn layout_outputs(members: Seq<(String, ShaderType)>) -> Seq<ShaderType> {
    Seq::new(members.len(), |i: int| members[i].1)
}

/// Every node of the PBR graph with its connections. The uniforms' outputs
/// are picked by member name: the camera's `view`, `position` and
/// `projection_view`, the model's `matrix` and the lights'
/// `directional_lights`.
pub open spec fn pbr_nodes(
    n: PbrNodes,
    camera: Seq<(String, ShaderType)>,
    model: Seq<(String, ShaderType)>,
    lights: Seq<(String, ShaderType)>,
) -> Map<NodeIndex, NodeView> {
    let cam_view = member_output(camera, "view"@);
    let cam_position = member_output(camera, "position"@);
    let cam_projection_view = member_output(camera, "projection_view"@);
    let model_matrix = member_output(model, "matrix"@);
    let directional = member_output(lights, "directional_lights"@);
    map![
        n.vertex_out => wired(Seq::empty(), map![0int => from(n.matrix_multiply, 0)]),
        n.color_out => wired(Seq::empty(), map![0int => from(n.alpha_color, 0)]),
        n.input => unconnected(true, Seq::empty()),
        n.camera => unconnected(false, layout_outputs(camera)),
        n.model => unconnected(false, layout_outputs(model)),
        n.lights => unconnected(false, layout_outputs(lights)),
        n.matrix_multiply => wired(seq![ShaderType::Float4], map![
            0int => from(n.camera, cam_projection_view),
            1int => from(n.pos_multiply, 0),
        ]),
        n.pos_multiply => wired(seq![ShaderType::Float4], map![
            0int => from(n.model, model_matrix),
            1int => from(n.upgrade, 0),
        ]),
        n.world_pos_homo => wired(seq![ShaderType::Float3], map![0int => from(n.pos_multiply, 0)]),
        n.upgrade => wired(seq![ShaderType::Float4], map![0int => from(n.input, 0)]),
        n.dir_light => wired(seq![ShaderType::Float3], map![
            0int => from(n.lights, directional),
            1int => from(n.pixel, 0),
            2int => from(n.mat_prepare, 1),
            3int => from(n.mat_prepare, 0),
            4int => from(n.mat_prepare, 2),
        ]),
        n.mat_prepare => wired(seq![ShaderType::Float3, ShaderType::Float3, ShaderType::Float], map![
            0int => from(n.world_pos_homo, 0),
            1int => from(n.camera, cam_position),
            2int => from(n.normal, 0),
            3int => from(n.normal, 1),
            4int => from(n.normal, 2),
            5int => from(n.input, 7),
        ]),
        n.pixel => wired(seq![ShaderType::Struct("Pixel")], map![
            0int => from(n.input, 4),
            1int => from(n.input, 5),
            2int => from(n.input, 6),
        ]),
        n.normal => wired(Seq::empty(), map![
            0int => from(n.camera, cam_view),
            1int => from(n.model, model_matrix),
            2int => from(n.input, 1),
            3int => from(n.input, 2),
            4int => from(n.input, 3),
            5int => from(n.world_pos_homo, 0),
        ]),
        n.alpha_color => wired(seq![ShaderType::Float4], map![
            0int => from(n.dir_light, 0),
            1int => from(n.alpha_discard, 0),
        ]),
        n.base_color => wired(Seq::new(4, |i: int| ShaderType::Float), map![0int => from(n.input, 4)]),
        n.alpha_discard => wired(Seq::empty(), map![0int => from(n.base_color, 3)]),
    ]
}

/// `g` is the PBR graph with nodes `n` for uniforms of types `camera`,
/// `model` and `lights`, added in that order: a vertex output, one color
/// output `color` of four floats, no vertex attributes and no textures.
pub open spec fn pbr_graph(g: ShaderGraph, n: PbrNodes, camera: UniformLayout, model: UniformLayout, lights: UniformLayout) -> bool {
    &&& g.well_formed()
    &&& pbr_order(n).no_duplicates()
    &&& g.nodes() == pbr_nodes(n, camera.attributes@, model.attributes@, lights.attributes@)
    &&& g.vertex_output() == Some(n.vertex_out)
    &&& g.attribute_list().len() == 0
    &&& g.texture_list().len() == 0
    &&& g.color_output_list().len() == 1
    &&& g.color_output_list()[0].name@ == "color"@
    &&& g.color_output_list()[0].ty == ShaderType::Float4
    &&& g.color_output_list()[0].node == n.color_out
    &&& g.uniform_list().len() == 3
    &&& g.uniform_list()[0].ty_id == camera.ty_id && g.uniform_list()[0].node_index == n.camera
        && g.uniform_list()[0].name@ == camera.block_name@ && g.uniform_list()[0].attributes@ == camera.attributes@
    &&& g.uniform_list()[1].ty_id == model.ty_id && g.uniform_list()[1].node_index == n.model
        && g.uniform_list()[1].name@ == model.block_name@ && g.uniform_list()[1].attributes@ == model.attributes@
    &&& g.uniform_list()[2].ty_id == lights.ty_id && g.uniform_list()[2].node_index == n.lights
        && g.uniform_list()[2].name@ == lights.block_name@ && g.uniform_list()[2].attributes@ == lights.attributes@
}

/// The first member called `name` is the only one.
proof fn lemma_first_member_unique(members: Seq<(String, ShaderType)>, name: Seq<char>, j: int)
    requires
        first_member(members, name, j),
        j <= usize::MAX,
    ensures
        member_output(members, name) == j,
{
    let k = choose|k: int| first_member(members, name, k);
    assert(first_member(members, name, k));
    if k < j {
        assert(members[k].0@ != name);
    }
    if j < k {
        assert(members[j].0@ != name);
    }
}

/// The output of the uniform member `name`, which `members` has within reach.
fn member_output_of(members: &Vec<(String, ShaderType)>, name: &str) -> (r: usize)
    requires
        member_in_reach(members@, name@),
    ensures
        r == member_output(members@, name@),
        r < MAX_INPUT_OUTPUTS_PER_NODE,
{
    let wanted = String::from_str(name);
    let found = member_index(members, &wanted);
    proof {
        let j = choose|j: int| first_member(members@, name@, j) && j < MAX_INPUT_OUTPUTS_PER_NODE;
        if found is None {
            assert(members@[j].0@ != name@);
        }
        lemma_first_member_unique(members@, name@, found.unwrap() as int);
        lemma_first_member_unique(members@, name@, j);
    }
    found.unwrap()
}

impl PBRShaderNode {
    /// The graph of the PBR node, to be used as a sub graph, for the camera,
    /// model and lights uniform types given; returns it with its input
    /// passthrough node (see [`pbr_graph`]).
    #[verifier::rlimit(50)]
    pub fn build_graph(camera: UniformLayout, model: UniformLayout, lights: UniformLayout) -> (r: (ShaderGraph, NodeIndex))
        requires
            member_in_reach(camera.attributes@, "view"@),
            member_in_reach(camera.attributes@, "position"@),
            member_in_reach(camera.attributes@, "projection_view"@),
            member_in_reach(model.attributes@, "matrix"@),
            member_in_reach(lights.attributes@, "directional_lights"@),
        ensures
            exists|n: PbrNodes| n.input == r.1 && pbr_graph(r.0, n, camera, model, lights),
    {
        let ghost camera0 = camera;
        let ghost model0 = model;
        let ghost lights0 = lights;
        let cam_view = member_output_of(&camera.attributes, "view");
        let cam_position = member_output_of(&camera.attributes, "position");
        let cam_projection_view = member_output_of(&camera.attributes, "projection_view");
        let model_matrix = member_output_of(&model.attributes, "matrix");
        let directional = member_output_of(&lights.attributes, "directional_lights");

        let mut graph = ShaderGraph::new();
        let vertex_out = graph.add_vertex_output_only();
        let color_out = graph.add_color_output("color", ShaderType::Float4);

        let passthrough = InputPassthroughNode::new()
            .add_input(ShaderType::Float3, "vec3(0, 0, 0)")
            .add_input(ShaderType::Float3, "vec3(0, 0, 0)")
            .add_input(ShaderType::Float3, "vec3(0, 0, 0)")
            .add_input(ShaderType::Float3, "vec3(0, 0, 0)")
            .add_input(ShaderType::Float4, "vec4(0, 0, 0, 0)")
            .add_input(ShaderType::Float, "0.0")
            .add_input(ShaderType::Float, "0.0")
            .add_input(ShaderType::Float3, "vec3(0, 1.0, 0)");
        let input_index = graph.add_node(passthrough.is_passthrough(), Vec::new());

        let (_, camera_in) = graph.add_uniform("camera", camera.ty_id, camera.block_name, camera.attributes);
        let (_, model_in) = graph.add_uniform("model", model.ty_id, model.block_name, model.attributes);
        let (_, lights_in) = graph.add_uniform("lights", lights.ty_id, lights.block_name, lights.attributes);

        let matrix_multiply = graph.add_node(false, Multiply::new(ShaderType::Float4).get_outputs());
        let pos_multiply = graph.add_node(false, Multiply::new(ShaderType::Float4).get_outputs());
        let world_pos_homo = graph.add_node(false, ConvertHomgenous::new().get_outputs());
        let upgrade = graph.add_node(false, Vector3Upgrade.get_outputs());
        let dir_light = graph.add_node(false, vec![ShaderType::Float3]);
        let mat_prepare = graph.add_node(false, vec![ShaderType::Float3, ShaderType::Float3, ShaderType::Float]);
        let pixel = graph.add_node(false, vec![ShaderType::Struct("Pixel")]);
        let normal = graph.add_node(false, Vec::new());
        let alpha_color = graph.add_node(false, Construct::new(ShaderType::Float4).unwrap().get_outputs());
        let base_color = graph.add_node(false, Deconstruct::new(ShaderType::Float4).unwrap().get_outputs());
        let alpha_discard = graph.add_node(false, Vec::new());

        // Normal transform.
        graph.connect(input_index, PBRShaderNode::INPUT_VNORMAL, normal, 2).unwrap();
        graph.connect(input_index, PBRShaderNode::INPUT_VTANGENT, normal, 3).unwrap();
        graph.connect(input_index, PBRShaderNode::INPUT_VBITANGENT, normal, 4).unwrap();
        graph.connect(camera_in, cam_view, normal, 0).unwrap();
        graph.connect(model_in, model_matrix, normal, 1).unwrap();
        graph.connect(world_pos_homo, ConvertHomgenous::OUTPUT, normal, 5).unwrap();

        // Material.
        graph.connect(camera_in, cam_position, mat_prepare, 1).unwrap();
        graph.connect(world_pos_homo, ConvertHomgenous::OUTPUT, mat_prepare, 0).unwrap();
        graph.connect(normal, 0, mat_prepare, 2).unwrap();
        graph.connect(normal, 1, mat_prepare, 3).unwrap();
        graph.connect(normal, 2, mat_prepare, 4).unwrap();
        graph.connect(input_index, PBRShaderNode::INPUT_NORMAL, mat_prepare, 5).unwrap();

        // Pixel.
        graph.connect(input_index, PBRShaderNode::INPUT_BASE_COLOR, pixel, 0).unwrap();
        graph.connect(input_index, PBRShaderNode::INPUT_METALLIC, pixel, 1).unwrap();
        graph.connect(input_index, PBRShaderNode::INPUT_ROUGHNESS, pixel, 2).unwrap();

        // Light.
        graph.connect(lights_in, directional, dir_light, 0).unwrap();
        graph.connect(pixel, 0, dir_light, 1).unwrap();
        graph.connect(mat_prepare, 1, dir_light, 2).unwrap();
        graph.connect(mat_prepare, 0, dir_light, 3).unwrap();
        graph.connect(mat_prepare, 2, dir_light, 4).unwrap();

        // Color to the color output.
        graph.connect(input_index, PBRShaderNode::INPUT_BASE_COLOR, base_color, Deconstruct::INPUT).unwrap();
        graph.connect(base_color, Deconstruct::OUTPUT_W, alpha_discard, 0).unwrap();
        graph.connect(dir_light, 0, alpha_color, Construct::INPUT_X).unwrap();
        graph.connect(alpha_discard, 0, alpha_color, Construct::INPUT_Y).unwrap();
        graph.connect(alpha_color, Construct::OUTPUT, color_out, 0).unwrap();

        // Position.
        graph.connect(input_index, PBRShaderNode::INPUT_POSITION, upgrade, Vector3Upgrade::INPUT).unwrap();
        graph.connect(model_in, model_matrix, pos_multiply, Multiply::INPUT_A).unwrap();
        graph.connect(upgrade, Vector3Upgrade::OUTPUT, pos_multiply, Multiply::INPUT_B).unwrap();
        graph.connect(pos_multiply, Multiply::OUTPUT, world_pos_homo, ConvertHomgenous::INPUT).unwrap();

        // Projected position.
        graph.connect(camera_in, cam_projection_view, matrix_multiply, Multiply::INPUT_A).unwrap();
        graph.connect(pos_multiply, Multiply::OUTPUT, matrix_multiply, Multiply::INPUT_B).unwrap();
        graph.connect(matrix_multiply, Multiply::OUTPUT, vertex_out, 0).unwrap();

        proof {
            let n = PbrNodes {
                vertex_out, color_out, input: input_index, camera: camera_in, model: model_in, lights: lights_in,
                matrix_multiply, pos_multiply, world_pos_homo, upgrade, dir_light, mat_prepare, pixel, normal,
                alpha_color, base_color, alpha_discard,
            };
            let expected = pbr_nodes(n, camera0.attributes@, model0.attributes@, lights0.attributes@);
            assert(pbr_order(n).no_duplicates());
            let g = graph.nodes();
            assert(g.dom() =~= expected.dom());
            assert(g[vertex_out].inputs =~= expected[vertex_out].inputs);
            assert(g[vertex_out].outputs =~= expected[vertex_out].outputs);
            assert(g[vertex_out] == expected[vertex_out]);
            assert(g[color_out].inputs =~= expected[color_out].inputs);
            assert(g[color_out].outputs =~= expected[color_out].outputs);
            assert(g[color_out] == expected[color_out]);
            assert(g[input_index] =~= expected[input_index]);
            assert(g[camera_in] =~= expected[camera_in]);
            assert(g[model_in] =~= expected[model_in]);
            assert(g[lights_in] =~= expected[lights_in]);
            assert(g[matrix_multiply].inputs =~= expected[matrix_multiply].inputs);
            assert(g[matrix_multiply].outputs =~= expected[matrix_multiply].outputs);
            assert(g[matrix_multiply] == expected[matrix_multiply]);
            assert(g[pos_multiply].inputs =~= expected[pos_multiply].inputs);
            assert(g[pos_multiply].outputs =~= expected[pos_multiply].outputs);
            assert(g[pos_multiply] == expected[pos_multiply]);
            assert(g[world_pos_homo].inputs =~= expected[world_pos_homo].inputs);
            assert(g[world_pos_homo].outputs =~= expected[world_pos_homo].outputs);
            assert(g[world_pos_homo] == expected[world_pos_homo]);
            assert(g[upgrade].inputs =~= expected[upgrade].inputs);
            assert(g[upgrade].outputs =~= expected[upgrade].outputs);
            assert(g[upgrade] == expected[upgrade]);
            assert(g[dir_light].inputs =~= expected[dir_light].inputs);
            assert(g[dir_light].outputs =~= expected[dir_light].outputs);
            assert(g[dir_light] == expected[dir_light]);
            assert(g[mat_prepare].inputs =~= expected[mat_prepare].inputs);
            assert(g[mat_prepare].outputs =~= expected[mat_prepare].outputs);
            assert(g[mat_prepare] == expected[mat_prepare]);
            assert(g[pixel].inputs =~= expected[pixel].inputs);
            assert(g[pixel].outputs =~= expected[pixel].outputs);
            assert(g[pixel] == expected[pixel]);
            assert(g[normal].inputs =~= expected[normal].inputs);
            assert(g[normal].outputs =~= expected[normal].outputs);
            assert(g[normal] == expected[normal]);
            assert(g[alpha_color].inputs =~= expected[alpha_color].inputs);
            assert(g[alpha_color].outputs =~= expected[alpha_color].outputs);
            assert(g[alpha_color] == expected[alpha_color]);
            assert(g[base_color].inputs =~= expected[base_color].inputs);
            assert(g[base_color].outputs =~= expected[base_color].outputs);
            assert(g[base_color] == expected[base_color]);
            assert(g[alpha_discard].inputs =~= expected[alpha_discard].inputs);
            assert(g[alpha_discard].outputs =~= expected[alpha_discard].outputs);
            assert(g[alpha_discard] == expected[alpha_discard]);
            assert forall|k: NodeIndex| #[trigger] g.contains_key(k) implies g[k] == expected[k] by {
                assert(pbr_order(n).contains(k));
            }
            assert(g =~= expected);
            assert(pbr_graph(graph, n, camera0, model0, lights0));
            assert(n.input == input_index);
            assert(exists|m: PbrNodes| m.input == input_index && pbr_graph(graph, m, camera0, model0, lights0));
        }
        let r = (graph, input_index);
        assert(r.0 == graph);
        assert(exists|m: PbrNodes| m.input == r.1 && pbr_graph(r.0, m, camera0, model0, lights0));
        r
    }
}


/// Each input of the PBR node reaches the node input of the same meaning:
/// the vertex normal, tangent and bitangent feed the normal transform
/// (inputs 2, 3, 4), the material normal feeds the material preparation
/// (input 5), the base color, metallic and roughness feed the pixel
/// preparation (inputs 0, 1, 2), the base color also feeds the splitter
/// whose alpha is tested, and the position feeds the upgrade to a `vec4`.
pub proof fn law_pbr_inputs_keep_their_meaning(
    g: ShaderGraph,
    n: PbrNodes,
    camera: UniformLayout,
    model: UniformLayout,
    lights: UniformLayout,
)
    requires
        pbr_graph(g, n, camera, model, lights),
    ensures
        g.nodes()[n.normal].inputs[2] == Some(from(n.input, PBRShaderNode::INPUT_VNORMAL)),
        g.nodes()[n.normal].inputs[3] == Some(from(n.input, PBRShaderNode::INPUT_VTANGENT)),
        g.nodes()[n.normal].inputs[4] == Some(from(n.input, PBRShaderNode::INPUT_VBITANGENT)),
        g.nodes()[n.mat_prepare].inputs[5] == Some(from(n.input, PBRShaderNode::INPUT_NORMAL)),
        g.nodes()[n.pixel].inputs[0] == Some(from(n.input, PBRShaderNode::INPUT_BASE_COLOR)),
        g.nodes()[n.pixel].inputs[1] == Some(from(n.input, PBRShaderNode::INPUT_METALLIC)),
        g.nodes()[n.pixel].inputs[2] == Some(from(n.input, PBRShaderNode::INPUT_ROUGHNESS)),
        g.nodes()[n.base_color].inputs[Deconstruct::INPUT as int] == Some(from(n.input, PBRShaderNode::INPUT_BASE_COLOR)),
        g.nodes()[n.alpha_discard].inputs[0] == Some(from(n.base_color, Deconstruct::OUTPUT_W)),
        g.nodes()[n.upgrade].inputs[Vector3Upgrade::INPUT as int] == Some(from(n.input, PBRShaderNode::INPUT_POSITION)),
        forall|q: int| 0 <= q < MAX_INPUT_OUTPUTS_PER_NODE ==> #[trigger] g.nodes()[n.input].inputs[q] is None,
{
}

} // verus!
