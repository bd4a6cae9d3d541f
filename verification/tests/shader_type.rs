use moonwave::{ShaderType, VertexAttributeFormat};

#[test]
fn glsl_type_names() {
    assert_eq!(ShaderType::Matrix4.get_glsl_type(), "mat4");
    assert_eq!(ShaderType::Float4.get_glsl_type(), "vec4");
    assert_eq!(ShaderType::UInt2.get_glsl_type(), "uvec2");
    assert_eq!(ShaderType::Struct("Light").get_glsl_type(), "Light");
    assert_eq!(ShaderType::Array("Light", 4).get_glsl_type(), "Light");
}

#[test]
fn glsl_var_of_array_carries_length() {
    assert_eq!(ShaderType::Array("Light", 16).get_glsl_var("lights"), "lights[16]");
    assert_eq!(ShaderType::Float.get_glsl_var("x"), "x");
}

#[test]
fn shader_type_from_format() {
    assert!(matches!(ShaderType::from(VertexAttributeFormat::Float3), ShaderType::Float3));
    assert!(matches!(ShaderType::from(VertexAttributeFormat::UInt), ShaderType::UInt));
}
