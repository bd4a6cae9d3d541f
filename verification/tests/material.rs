use moonwave::material::UniformLayout;
use moonwave::{PBRShaderNode, ShaderType};

fn members(names: &[&str], ty: ShaderType) -> Vec<(String, ShaderType)> {
    names.iter().map(|n| (n.to_string(), ty)).collect()
}

fn layouts() -> (UniformLayout, UniformLayout, UniformLayout) {
    let mut camera_members = members(&["projection", "view", "projection_view"], ShaderType::Matrix4);
    camera_members.push(("position".to_string(), ShaderType::Float3));
    let camera = UniformLayout { ty_id: 11, block_name: "camera_uniform".to_string(), attributes: camera_members };
    let model = UniformLayout {
        ty_id: 12,
        block_name: "model_uniform".to_string(),
        attributes: members(&["matrix"], ShaderType::Matrix4),
    };
    let lights = UniformLayout {
        ty_id: 13,
        block_name: "lights_uniform".to_string(),
        attributes: vec![("directional_lights".to_string(), ShaderType::Array("DirectionalLightUniform", 4))],
    };
    (camera, model, lights)
}

#[test]
fn pbr_graph_has_its_outputs_and_uniforms() {
    let (camera, model, lights) = layouts();
    let (graph, input) = PBRShaderNode::build_graph(camera, model, lights);
    let colors = graph.get_color_outputs();
    assert_eq!(colors.len(), 1);
    assert_eq!(colors[0].name, "color");
    assert!(matches!(colors[0].ty, ShaderType::Float4));
    let uniforms = graph.uniforms_ref();
    assert_eq!(uniforms.len(), 3);
    assert_eq!(uniforms[0].ty_id, 11);
    assert_eq!(uniforms[1].ty_id, 12);
    assert_eq!(uniforms[2].ty_id, 13);
    assert_eq!(uniforms[0].name, "camera_uniform");
    assert!(graph.textures_ref().is_empty());
    // The passthrough input node takes nothing inside the graph itself.
    assert!(graph.input_names(input).iter().all(|x| x.is_none()));
}

fn source(name: &Option<String>) -> (moonwave::NodeIndex, usize) {
    let text = name.as_ref().unwrap();
    let parts: Vec<&str> = text.split('_').collect();
    assert_eq!(parts[0], "var");
    (moonwave::NodeIndex { slot: parts[1].parse().unwrap(), generation: 0 }, parts[2].parse().unwrap())
}

#[test]
fn pbr_graph_projects_the_position_with_the_camera() {
    let (camera, model, lights) = layouts();
    let (graph, input) = PBRShaderNode::build_graph(camera, model, lights);
    let camera_node = graph.uniforms_ref()[0].node_index;
    let model_node = graph.uniforms_ref()[1].node_index;
    let vertex_out = graph.vertex_output_index().unwrap();
    let vertex_inputs = graph.input_names(vertex_out);
    assert!(vertex_inputs[1].is_none());
    let (matrix_multiply, out) = source(&vertex_inputs[0]);
    assert_eq!(out, 0);
    let mm_inputs = graph.input_names(matrix_multiply);
    assert_eq!(source(&mm_inputs[0]), (camera_node, 2));
    let (pos_multiply, out) = source(&mm_inputs[1]);
    assert_eq!(out, 0);
    let pm_inputs = graph.input_names(pos_multiply);
    assert_eq!(source(&pm_inputs[0]), (model_node, 0));
    let (upgrade, _) = source(&pm_inputs[1]);
    assert_eq!(source(&graph.input_names(upgrade)[0]), (input, PBRShaderNode::INPUT_POSITION));
}

#[test]
fn pbr_graph_colors_with_the_directional_light_and_the_alpha() {
    let (camera, model, lights) = layouts();
    let (graph, input) = PBRShaderNode::build_graph(camera, model, lights);
    let camera_node = graph.uniforms_ref()[0].node_index;
    let lights_node = graph.uniforms_ref()[2].node_index;
    let color_inputs = graph.input_names(graph.get_color_outputs()[0].node);
    let (alpha_color, _) = source(&color_inputs[0]);
    let construct_inputs = graph.input_names(alpha_color);
    let (dir_light, _) = source(&construct_inputs[0]);
    let (alpha_discard, _) = source(&construct_inputs[1]);
    let (base_color, w) = source(&graph.input_names(alpha_discard)[0]);
    assert_eq!(w, 3);
    assert_eq!(source(&graph.input_names(base_color)[0]), (input, PBRShaderNode::INPUT_BASE_COLOR));
    let light_inputs = graph.input_names(dir_light);
    assert_eq!(source(&light_inputs[0]), (lights_node, 0));
    let (mat_prepare, nov) = source(&light_inputs[4]);
    assert_eq!(nov, 2);
    let material_inputs = graph.input_names(mat_prepare);
    assert_eq!(source(&material_inputs[1]), (camera_node, 3));
    assert_eq!(source(&material_inputs[5]), (input, PBRShaderNode::INPUT_NORMAL));
    let (normal, _) = source(&material_inputs[2]);
    assert_eq!(source(&graph.input_names(normal)[0]), (camera_node, 1));
}
