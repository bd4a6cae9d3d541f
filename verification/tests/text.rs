use moonwave::glsl::{push_attribute_line, push_texture_block, push_uniform_block, var_name_string};
use moonwave::text::{owned, push_decimal};
use moonwave::{invert_option_result, Construct, Multiply, MyActor, MyComponent, ShaderType, VertexAttribute, VertexAttributeFormat};

#[test]
fn decimals_are_written_in_full() {
    let mut s = String::from("n=");
    push_decimal(&mut s, 0);
    push_decimal(&mut s, 1207);
    assert_eq!(s, "n=01207");
    assert_eq!(owned("abc"), "abc");
}

#[test]
fn variable_names() {
    assert_eq!(var_name_string(3, 0), "var_3_0");
    assert_eq!(var_name_string(12, 5), "var_12_5");
}

#[test]
fn glsl_lines() {
    let mut s = String::new();
    let attr = VertexAttribute { name: "normal".to_string(), offset: 12, format: VertexAttributeFormat::Float3, location: 1 };
    push_attribute_line(&mut s, &attr);
    assert_eq!(s, "layout (location = 1) in vec3 a_normal;\n");
    let mut t = String::new();
    push_texture_block(&mut t, 2, "albedo");
    assert_eq!(t, "layout (set = 2, binding = 0) uniform texture2D t_albedo;\nlayout (set = 2, binding = 1) uniform sampler s_albedo;\n");
    let mut u = String::new();
    push_uniform_block(&mut u, 0, "Camera", &vec![("view".to_string(), ShaderType::Matrix4), ("pos".to_string(), ShaderType::Float3)]);
    assert_eq!(u, "layout (set = 0, binding = 0) uniform Camera_block {\n\tmat4 view;\n\tvec3 pos;\n} Camera;\n");
}

#[test]
fn multiply_node_code() {
    let mut out = String::new();
    Multiply::new(ShaderType::Float4).generate(
        &[Some("a".to_string()), Some("b".to_string())],
        &[Some("c".to_string())],
        &mut out,
    );
    assert_eq!(out, "vec4 c = a * b;\n");
}

#[test]
fn construct_only_for_vectors() {
    assert!(Construct::new(ShaderType::Float3).is_some());
    assert!(Construct::new(ShaderType::Matrix4).is_none());
}

#[test]
fn invert_option_result_cases() {
    assert_eq!(invert_option_result::<u8, u8>(None), Ok(None));
    assert_eq!(invert_option_result::<u8, u8>(Some(Ok(3))), Ok(Some(3)));
    assert_eq!(invert_option_result::<u8, u8>(Some(Err(4))), Err(4));
}

#[test]
fn design_examples() {
    assert_eq!(MyActor::new().foo, 12);
    let c = MyComponent::new().text("hello").number(5);
    assert_eq!(c.text, "");
    assert_eq!(c.number, 0);
}
