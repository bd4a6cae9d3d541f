use moonwave::{GraphConnectError, NodeIndex, ShaderGraph, ShaderType, VertexAttribute, VertexAttributeFormat};

fn position() -> VertexAttribute {
    VertexAttribute { name: "position".to_string(), offset: 0, format: VertexAttributeFormat::Float3, location: 0 }
}

fn camera_members() -> Vec<(String, ShaderType)> {
    vec![("view".to_string(), ShaderType::Matrix4)]
}

#[test]
fn connect_reports_each_refusal() {
    let mut g = ShaderGraph::new();
    let a = g.add_node(false, vec![ShaderType::Float]);
    let b = g.add_node(false, vec![ShaderType::Float]);
    assert_eq!(g.connect(a, 0, b, 16), Err(GraphConnectError::MaximumInputsReached));
    assert_eq!(g.connect(a, 16, b, 0), Err(GraphConnectError::MaximumOutputsReached));
    assert_eq!(g.connect(a, 16, b, 16), Err(GraphConnectError::MaximumInputsReached));
    let missing = NodeIndex { slot: 99, generation: 0 };
    assert_eq!(g.connect(a, 0, missing, 0), Err(GraphConnectError::InvalidDestination));
    assert_eq!(g.connect(a, 0, b, 3), Ok(()));
    assert_eq!(g.connect(a, 0, b, 3), Err(GraphConnectError::AlreadyConnected));
}

#[test]
fn input_and_output_names_follow_the_connections() {
    let mut g = ShaderGraph::new();
    let a = g.add_node(false, vec![ShaderType::Float, ShaderType::Float]);
    let b = g.add_node(false, vec![ShaderType::Float]);
    g.connect(a, 1, b, 2).unwrap();
    let ins = g.input_names(b);
    assert_eq!(ins.len(), 16);
    assert_eq!(ins[2], Some(format!("var_{}_1", a.slot)));
    assert_eq!(ins[0], None);
    let outs = ShaderGraph::output_names(b);
    assert_eq!(outs.len(), 16);
    assert_eq!(outs[5], Some(format!("var_{}_5", b.slot)));
}

#[test]
fn uniform_ids_are_random_uuids() {
    let mut g = ShaderGraph::new();
    let (id, node) = g.add_uniform("camera", 7, "Camera".to_string(), camera_members());
    assert_eq!((id >> 76) & 0xf, 4);
    let (id2, _) = g.add_uniform("light", 8, "Light".to_string(), Vec::new());
    assert_ne!(id, id2);
    let us = g.uniforms_ref();
    assert_eq!(us.len(), 2);
    assert_eq!(us[0].ty_id, 7);
    assert_eq!(us[0].node_index, node);
    assert_eq!(us[0].name, "Camera");
    let (tnode, tid) = g.add_sampled_texture("albedo");
    assert_eq!((tid >> 76) & 0xf, 4);
    assert_eq!(g.textures_ref()[0].node_index, tnode);
    assert_eq!(g.textures_ref()[0].name, "albedo");
}

#[test]
fn build_plans_both_shaders() {
    let mut g = ShaderGraph::new();
    let (attrs, vo) = g.add_vertex_attributes(vec![position()]);
    g.connect(attrs, 0, vo, 0).unwrap();
    let color = g.add_color_output("color", ShaderType::Float4);
    g.connect(attrs, 0, color, 0).unwrap();
    let plan = g.build(&[color]);
    assert_eq!(plan.vertex_nodes, vec![vo, attrs]);
    assert_eq!(plan.fragment_nodes[0], color);
    assert!(plan.vertex_head.starts_with("#version 450\n\nlayout (location = 0) in vec3 a_position;\n"));
    assert!(plan.fragment_head.starts_with("#version 450\n\n"));
    assert!(plan.fragment_head.contains("layout (location = 0) out vec4 f_color;\n"));
    assert!(plan.fragment_main_head.starts_with("void main() {\n"));
    assert!(plan.vertex_main_tail.ends_with("}\n"));
    assert!(plan.uniforms.is_empty());
    assert!(plan.textures.is_empty());
}

#[test]
fn build_binds_uniforms_then_textures() {
    let mut g = ShaderGraph::new();
    let (attrs, vo) = g.add_vertex_attributes(vec![position()]);
    g.connect(attrs, 0, vo, 0).unwrap();
    let (_, cam) = g.add_uniform("camera", 7, "Camera".to_string(), camera_members());
    g.connect(cam, 0, vo, 1).unwrap();
    let (tex, _) = g.add_sampled_texture("albedo");
    let color = g.add_color_output("color", ShaderType::Float4);
    g.connect(tex, 0, color, 0).unwrap();
    let plan = g.build(&[color]);
    assert_eq!(plan.uniforms.len(), 1);
    assert_eq!(plan.uniforms[0].binding, 0);
    assert!(plan.uniforms[0].in_vs);
    assert!(!plan.uniforms[0].in_fs);
    assert_eq!(plan.textures.len(), 1);
    assert_eq!(plan.textures[0].binding, 1);
    assert!(!plan.textures[0].in_vs);
    assert!(plan.textures[0].in_fs);
    assert!(plan.vertex_head.contains("layout (set = 0, binding = 0) uniform Camera_block {\n\tmat4 view;\n} Camera;\n"));
    assert!(plan.fragment_head.contains("layout (set = 1, binding = 0) uniform texture2D t_albedo;\n"));
    let built = plan.finish("vs".to_string(), "fs".to_string());
    assert_eq!(built.vs, "vs");
    assert_eq!(built.fs, "fs");
    assert_eq!(built.bind_groups.len(), 2);
}

#[test]
fn sub_graph_reuses_a_uniform_of_the_same_type() {
    let mut main = ShaderGraph::new();
    let (_, main_cam) = main.add_uniform("camera", 7, "Camera".to_string(), camera_members());
    let mut sub = ShaderGraph::new();
    let (_, sub_cam) = sub.add_uniform("camera", 7, "Camera".to_string(), camera_members());
    let user = sub.add_node(false, vec![ShaderType::Float4]);
    sub.connect(sub_cam, 0, user, 0).unwrap();
    let (input, output) = main.add_sub_graph(&sub, Some(user), Some(sub_cam));
    assert_eq!(output, Some(main_cam));
    let copied = input.unwrap();
    assert_ne!(copied, main_cam);
    assert_eq!(main.uniforms_ref().len(), 1);
    assert_eq!(main.input_names(copied)[0], Some(format!("var_{}_0", main_cam.slot)));
}

#[test]
fn sub_graph_overrides_a_color_output_of_the_same_name() {
    let mut main = ShaderGraph::new();
    let (attrs, vo) = main.add_vertex_attributes(vec![position()]);
    main.connect(attrs, 0, vo, 0).unwrap();
    let color = main.add_color_output("color", ShaderType::Float4);
    let mut sub = ShaderGraph::new();
    sub.add_vertex_output_only();
    let sub_color = sub.add_color_output("color", ShaderType::Float4);
    let tint = sub.add_node(false, vec![ShaderType::Float4]);
    sub.connect(tint, 0, sub_color, 0).unwrap();
    let (input, output, pairs) = main.add_sub_graph_mapped(&sub, None, None);
    assert_eq!(input, None);
    assert_eq!(output, None);
    assert_eq!(pairs.len(), 3);
    let tint_copy = pairs.iter().find(|p| p.0 == tint).unwrap().1;
    assert_eq!(pairs.iter().find(|p| p.0 == sub_color).unwrap().1, color);
    assert_eq!(main.get_color_outputs().len(), 1);
    assert_eq!(main.input_names(color)[0], Some(format!("var_{}_0", tint_copy.slot)));
    // The vertex output kept its own connection, which is redirected like
    // every other: the index it holds is read as one of the merged graph,
    // whose vertex output sat there.
    let sub_vo = pairs.iter().find(|p| p.1 == vo).unwrap().0;
    assert_eq!(sub_vo, attrs);
    assert_eq!(main.input_names(vo)[0], Some(format!("var_{}_0", vo.slot)));
}

#[test]
fn sub_graph_adds_roles_the_graph_lacks() {
    let mut main = ShaderGraph::new();
    main.add_sampled_texture("albedo");
    let mut sub = ShaderGraph::new();
    let (normal, _) = sub.add_sampled_texture("normal");
    let extra = sub.add_color_output("extra", ShaderType::Float);
    sub.connect(normal, 0, extra, 0).unwrap();
    let (_, out, pairs) = main.add_sub_graph_mapped(&sub, None, Some(extra));
    let new_normal = pairs.iter().find(|p| p.0 == normal).unwrap().1;
    let new_extra = out.unwrap();
    assert_eq!(main.textures_ref().len(), 2);
    assert_eq!(main.textures_ref()[1].name, "normal");
    assert_eq!(main.textures_ref()[1].node_index, new_normal);
    assert_eq!(main.get_color_outputs().len(), 1);
    assert_eq!(main.get_color_outputs()[0].node, new_extra);
    assert_eq!(main.input_names(new_extra)[0], Some(format!("var_{}_0", new_normal.slot)));
}

#[test]
fn test_basic_shader() {
    // Build shader structure
    let mut shader = ShaderGraph::new();
    let (vertex_in, vertex_out) = shader.add_vertex_attributes(vec![
        VertexAttribute { name: "position".to_string(), offset: 0, format: VertexAttributeFormat::Float3, location: 0 },
        VertexAttribute { name: "uv".to_string(), offset: 12, format: VertexAttributeFormat::Float2, location: 1 },
    ]);
    let color = shader.add_color_output("color", ShaderType::Float4);
    let normal = shader.add_color_output("normal", ShaderType::Float4);

    // Build graph (constants, a multiply, a deconstruct and a construct).
    let const0 = shader.add_node(false, vec![ShaderType::Float]);
    let const1 = shader.add_node(false, vec![ShaderType::Float3]);
    let const2 = shader.add_node(false, vec![ShaderType::Float4]);
    let multiply = shader.add_node(false, vec![ShaderType::Float3]);
    let deconstruct = shader.add_node(false, vec![ShaderType::Float; 4]);
    let construct = shader.add_node(false, vec![ShaderType::Float4]);

    shader.connect(vertex_in, 0, multiply, 0).unwrap();
    shader.connect(const1, 0, multiply, 1).unwrap();
    shader.connect(multiply, 0, deconstruct, 0).unwrap();
    shader.connect(deconstruct, 0, construct, 0).unwrap();
    shader.connect(deconstruct, 1, construct, 1).unwrap();
    shader.connect(deconstruct, 2, construct, 2).unwrap();
    shader.connect(const0, 0, construct, 3).unwrap();
    shader.connect(construct, 0, vertex_out, 0).unwrap();
    shader.connect(construct, 0, color, 0).unwrap();
    shader.connect(const2, 0, normal, 0).unwrap();

    let vertex = vec![vertex_out, construct, deconstruct, multiply, vertex_in, const1, const0];
    let attributes = "#version 450\n\nlayout (location = 0) in vec3 a_position;\nlayout (location = 1) in vec2 a_uv;\n";
    let shared_out = format!("layout (location = 0) out vec4 vs_var_{}_0;\n", construct.slot);
    let shared_in = format!("layout (location = 0) in vec4 vs_var_{}_0;\n", construct.slot);

    // Full build
    let plan = shader.build(&[color, normal]);
    assert_eq!(plan.vertex_nodes, vertex);
    assert_eq!(
        plan.fragment_nodes,
        vec![color, construct, deconstruct, multiply, vertex_in, const1, const0, normal, const2]
    );
    assert_eq!(plan.fragment_skipped, vertex);
    assert_eq!(plan.vertex_head, format!("{}{}", attributes, shared_out));
    assert_eq!(
        plan.fragment_head,
        format!(
            "#version 450\n\n{}layout (location = 0) out vec4 f_color;\nlayout (location = 1) out vec4 f_normal;\n",
            shared_in
        )
    );
    assert_eq!(
        plan.vertex_main_tail,
        format!("vs_var_{0}_0 = var_{0}_0;\n}}\n", construct.slot)
    );
    assert_eq!(
        plan.fragment_main_head,
        format!("void main() {{\nvec4 var_{0}_0 = vs_var_{0}_0;\n", construct.slot)
    );

    // Color only build
    let plan = shader.build(&[color]);
    assert_eq!(plan.vertex_nodes, vertex);
    assert_eq!(plan.fragment_nodes, vec![color, construct, deconstruct, multiply, vertex_in, const1, const0]);
    assert_eq!(plan.vertex_head, format!("{}{}", attributes, shared_out));
    assert_eq!(plan.fragment_head, format!("#version 450\n\n{}layout (location = 0) out vec4 f_color;\n", shared_in));

    // Normal only build
    let plan = shader.build(&[normal]);
    assert_eq!(plan.vertex_nodes, vertex);
    assert_eq!(plan.fragment_nodes, vec![normal, const2]);
    assert_eq!(plan.vertex_head, attributes);
    assert_eq!(plan.fragment_head, "#version 450\n\nlayout (location = 0) out vec4 f_normal;\n");
    assert_eq!(plan.vertex_main_tail, "}\n");
    assert_eq!(plan.fragment_main_head, "void main() {\n");
}

#[test]
fn merged_roles_are_the_union_without_repeats() {
    let mut main = ShaderGraph::new();
    main.add_uniform("camera", 7, "Camera".to_string(), camera_members());
    main.add_sampled_texture("albedo");
    main.add_color_output("color", ShaderType::Float4);
    let mut sub = ShaderGraph::new();
    sub.add_uniform("camera", 7, "Camera".to_string(), camera_members());
    sub.add_uniform("light", 8, "Light".to_string(), Vec::new());
    sub.add_sampled_texture("albedo");
    sub.add_sampled_texture("normal");
    sub.add_color_output("color", ShaderType::Float4);
    sub.add_color_output("normal", ShaderType::Float4);
    main.add_sub_graph(&sub, None, None);
    let types: Vec<u128> = main.uniforms_ref().iter().map(|u| u.ty_id).collect();
    assert_eq!(types, vec![7, 8]);
    let textures: Vec<String> = main.textures_ref().iter().map(|t| t.name.clone()).collect();
    assert_eq!(textures, vec!["albedo".to_string(), "normal".to_string()]);
    let colors: Vec<String> = main.get_color_outputs().iter().map(|c| c.name.clone()).collect();
    assert_eq!(colors, vec!["color".to_string(), "normal".to_string()]);
}

#[test]
fn a_graph_without_vertex_output_cannot_be_built() {
    let g = ShaderGraph::new();
    assert!(!g.can_build(&[]));
}

#[test]
fn an_acyclic_graph_can_be_built() {
    let mut g = ShaderGraph::new();
    let vo = g.add_vertex_output_only();
    let color = g.add_color_output("color", ShaderType::Float4);
    let a = g.add_node(false, vec![ShaderType::Float4]);
    g.connect(a, 0, vo, 0).unwrap();
    g.connect(a, 0, color, 0).unwrap();
    assert!(g.can_build(&[color]));
}

#[test]
fn a_cycle_cannot_be_built() {
    let mut g = ShaderGraph::new();
    let vo = g.add_vertex_output_only();
    let a = g.add_node(false, vec![ShaderType::Float4]);
    let b = g.add_node(false, vec![ShaderType::Float4]);
    g.connect(a, 0, b, 0).unwrap();
    g.connect(b, 0, a, 0).unwrap();
    g.connect(b, 0, vo, 0).unwrap();
    assert!(!g.can_build(&[]));
}

#[test]
fn an_unfed_passthrough_input_cannot_be_built() {
    let mut g = ShaderGraph::new();
    let vo = g.add_vertex_output_only();
    let pass = g.add_node(true, Vec::new());
    g.connect(pass, 0, vo, 0).unwrap();
    assert!(!g.can_build(&[]));
    let a = g.add_node(false, vec![ShaderType::Float4]);
    g.connect(a, 0, pass, 0).unwrap();
    assert!(g.can_build(&[]));
}

#[test]
fn a_dangling_connection_cannot_be_built_or_merged() {
    let mut g = ShaderGraph::new();
    let vo = g.add_vertex_output_only();
    let missing = NodeIndex { slot: 40, generation: 3 };
    g.connect(missing, 0, vo, 0).unwrap();
    assert!(!g.can_build(&[]));
    let main = ShaderGraph::new();
    assert!(!main.can_take(&g));
}

#[test]
fn repeated_roles_are_found() {
    let mut g = ShaderGraph::new();
    g.add_color_output("color", ShaderType::Float4);
    assert!(g.has_distinct_roles());
    g.add_color_output("color", ShaderType::Float4);
    assert!(!g.has_distinct_roles());
    let main = ShaderGraph::new();
    assert!(!main.can_take(&g));
    let mut u = ShaderGraph::new();
    u.add_uniform("a", 7, "A".to_string(), Vec::new());
    u.add_uniform("b", 7, "B".to_string(), Vec::new());
    assert!(!u.has_distinct_roles());
}

#[test]
fn a_matched_role_connected_outside_the_merged_graph_cannot_be_merged() {
    let mut main = ShaderGraph::new();
    let color = main.add_color_output("color", ShaderType::Float4);
    let own = main.add_node(false, vec![ShaderType::Float4]);
    main.connect(own, 0, color, 0).unwrap();
    let mut sub = ShaderGraph::new();
    sub.add_color_output("color", ShaderType::Float4);
    assert!(!main.can_take(&sub));
    let mut other = ShaderGraph::new();
    other.add_color_output("normal", ShaderType::Float4);
    assert!(main.can_take(&other));
}
