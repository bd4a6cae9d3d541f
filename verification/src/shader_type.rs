//! Types that shaders work with, and the vertex attribute descriptions that
//! feed a vertex shader.
use vstd::prelude::*;
use crate::text::{decimal, owned, push_decimal, push_str};

verus! {

/// Describes a type available within shaders.
#[derive(Clone, Copy, Debug)]
pub enum ShaderType {
    Matrix4,
    Float4,
    Float3,
    Float2,
    Float,
    UInt4,
    UInt3,
    UInt2,
    UInt,
    Struct(&'static str),
    Array(&'static str, usize),
}

/// The GLSL spelling of a shader type.
pub open spec fn glsl_type(ty: ShaderType) -> Seq<char> {
    match ty {
        ShaderType::Matrix4 => seq!['m', 'a', 't', '4'],
        ShaderType::Float4 => seq!['v', 'e', 'c', '4'],
        ShaderType::Float3 => seq!['v', 'e', 'c', '3'],
        ShaderType::Float2 => seq!['v', 'e', 'c', '2'],
        ShaderType::Float => seq!['f', 'l', 'o', 'a', 't'],
        ShaderType::UInt4 => seq!['u', 'v', 'e', 'c', '4'],
        ShaderType::UInt3 => seq!['u', 'v', 'e', 'c', '3'],
        ShaderType::UInt2 => seq!['u', 'v', 'e', 'c', '2'],
        ShaderType::UInt => seq!['u', 'i', 'n', 't'],
        ShaderType::Struct(name) => name@,
        ShaderType::Array(name, _) => name@,
    }
}

/// How a variable called `name` of this type is declared in GLSL: arrays
/// carry their length in brackets after the name.
pub open spec fn glsl_var(ty: ShaderType, name: Seq<char>) -> Seq<char> {
    match ty {
        ShaderType::Array(_, size) => name + seq!['['] + decimal(size as nat) + seq![']'],
        _ => name,
    }
}

impl ShaderType {
    /// Returns the type name in GLSL.
    pub fn get_glsl_type(&self) -> (r: String)
        ensures
            r@ == glsl_type(*self),
    {
        match self {
            ShaderType::Matrix4 => {
                proof { reveal_strlit("mat4"); }
                owned("mat4")
            },
            ShaderType::Float4 => {
                proof { reveal_strlit("vec4"); }
                owned("vec4")
            },
            ShaderType::Float3 => {
                proof { reveal_strlit("vec3"); }
                owned("vec3")
            },
            ShaderType::Float2 => {
                proof { reveal_strlit("vec2"); }
                owned("vec2")
            },
            ShaderType::Float => {
                proof { reveal_strlit("float"); }
                owned("float")
            },
            ShaderType::UInt4 => {
                proof { reveal_strlit("uvec4"); }
                owned("uvec4")
            },
            ShaderType::UInt3 => {
                proof { reveal_strlit("uvec3"); }
                owned("uvec3")
            },
            ShaderType::UInt2 => {
                proof { reveal_strlit("uvec2"); }
                owned("uvec2")
            },
            ShaderType::UInt => {
                proof { reveal_strlit("uint"); }
                owned("uint")
            },
            ShaderType::Struct(name) => owned(name),
            ShaderType::Array(name, _size) => owned(name),
        }
    }

    /// Returns how a variable called `name` of this type is declared.
    pub fn get_glsl_var(&self, name: &str) -> (r: String)
        ensures
            r@ == glsl_var(*self, name@),
    {
        match self {
            ShaderType::Array(_name, size) => {
                let mut out = owned(name);
                proof { reveal_strlit("["); reveal_strlit("]"); }
                push_str(&mut out, "[");
                push_decimal(&mut out, *size);
                push_str(&mut out, "]");
                out
            },
            _ => owned(name),
        }
    }

    /// The shader type that holds one vertex attribute of the given format.
    pub fn from_format(org: VertexAttributeFormat) -> (r: ShaderType)
        ensures
            r == format_shader_type(org),
    {
        match org {
            VertexAttributeFormat::Float4 => ShaderType::Float4,
            VertexAttributeFormat::Float3 => ShaderType::Float3,
            VertexAttributeFormat::Float2 => ShaderType::Float2,
            VertexAttributeFormat::Float => ShaderType::Float,
            VertexAttributeFormat::UInt4 => ShaderType::UInt4,
            VertexAttributeFormat::UInt3 => ShaderType::UInt3,
            VertexAttributeFormat::UInt2 => ShaderType::UInt2,
            VertexAttributeFormat::UInt => ShaderType::UInt,
        }
    }
}

/// The shader type of a vertex attribute format: the one with the same name.
pub open spec fn format_shader_type(f: VertexAttributeFormat) -> ShaderType {
    match f {
        VertexAttributeFormat::Float4 => ShaderType::Float4,
        VertexAttributeFormat::Float3 => ShaderType::Float3,
        VertexAttributeFormat::Float2 => ShaderType::Float2,
        VertexAttributeFormat::Float => ShaderType::Float,
        VertexAttributeFormat::UInt4 => ShaderType::UInt4,
        VertexAttributeFormat::UInt3 => ShaderType::UInt3,
        VertexAttributeFormat::UInt2 => ShaderType::UInt2,
        VertexAttributeFormat::UInt => ShaderType::UInt,
    }
}

/// A vertex attribute is declared in the shader with the type of the same
/// kind and width as its format: each float format gives the float type of
/// its width and each unsigned format the unsigned type of its width (and so
/// the GLSL spelling `uvec4` for `UInt4`, `vec3` for `Float3`, ...).
pub proof fn law_attribute_type_matches_format(f: VertexAttributeFormat)
    ensures
        (f == VertexAttributeFormat::Float4) <==> (ShaderType::Float4 == format_shader_type(f)),
        (f == VertexAttributeFormat::Float3) <==> (ShaderType::Float3 == format_shader_type(f)),
        (f == VertexAttributeFormat::Float2) <==> (ShaderType::Float2 == format_shader_type(f)),
        (f == VertexAttributeFormat::Float) <==> (ShaderType::Float == format_shader_type(f)),
        (f == VertexAttributeFormat::UInt4) <==> (ShaderType::UInt4 == format_shader_type(f)),
        (f == VertexAttributeFormat::UInt3) <==> (ShaderType::UInt3 == format_shader_type(f)),
        (f == VertexAttributeFormat::UInt2) <==> (ShaderType::UInt2 == format_shader_type(f)),
        (f == VertexAttributeFormat::UInt) <==> (ShaderType::UInt == format_shader_type(f)),
        f == VertexAttributeFormat::UInt4 ==> glsl_type(format_shader_type(f)) == seq!['u', 'v', 'e', 'c', '4'],
        f == VertexAttributeFormat::UInt3 ==> glsl_type(format_shader_type(f)) == seq!['u', 'v', 'e', 'c', '3'],
        f == VertexAttributeFormat::UInt2 ==> glsl_type(format_shader_type(f)) == seq!['u', 'v', 'e', 'c', '2'],
        f == VertexAttributeFormat::UInt ==> glsl_type(format_shader_type(f)) == seq!['u', 'i', 'n', 't'],
        f == VertexAttributeFormat::Float4 ==> glsl_type(format_shader_type(f)) == seq!['v', 'e', 'c', '4'],
        f == VertexAttributeFormat::Float ==> glsl_type(format_shader_type(f)) == seq!['f', 'l', 'o', 'a', 't'],
{
}

impl From<VertexAttributeFormat> for ShaderType {
    fn from(org: VertexAttributeFormat) -> (r: ShaderType) {
        ShaderType::from_format(org)
    }
}

impl vstd::std_specs::convert::FromSpecImpl<VertexAttributeFormat> for ShaderType {
    open spec fn obeys_from_spec() -> bool {
        true
    }

    open spec fn from_spec(org: VertexAttributeFormat) -> ShaderType {
        format_shader_type(org)
    }
}

/// A copy of a list of shader types.
pub fn copy_types(types: &Vec<ShaderType>) -> (r: Vec<ShaderType>)
    ensures
        r@ == types@,
{
    let mut r: Vec<ShaderType> = Vec::new();
    for i in 0..types.len()
        invariant
            r@ == types@.subrange(0, i as int),
    {
        r.push(types[i]);
    }
    assert(r@ =~= types@);
    r
}

/// The format of one vertex attribute.
#[derive(Clone, Copy, Debug)]
pub enum VertexAttributeFormat {
    Float4,
    Float3,
    Float2,
    Float,
    UInt4,
    UInt3,
    UInt2,
    UInt,
}

/// One attribute of a vertex buffer layout.
pub struct VertexAttribute {
    pub name: String,
    pub offset: u64,
    pub format: VertexAttributeFormat,
    pub location: usize,
}

impl Clone for VertexAttribute {
    fn clone(&self) -> (r: VertexAttribute)
        ensures
            r == *self,
    {
        VertexAttribute {
            name: self.name.clone(),
            offset: self.offset,
            format: self.format,
            location: self.location,
        }
    }
}

/// The layout of a vertex buffer: its stride and its attributes.
pub struct VertexBuffer {
    pub stride: u64,
    pub attributes: Vec<VertexAttribute>,
}

} // verus!
