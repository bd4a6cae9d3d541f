//! The GLSL text that a shader build writes around the code of its nodes:
//! what each declaration line is, and functions that append exactly that.
use vstd::prelude::*;
use crate::shader_type::{glsl_type, ShaderType, VertexAttribute};
use crate::text::{decimal, push_decimal, push_str};

verus! {

/// The variable that holds output `j` of the node in arena slot `slot`.
pub open spec fn var_name(slot: nat, j: nat) -> Seq<char> {
    seq!['v', 'a', 'r', '_'] + decimal(slot) + seq!['_'] + decimal(j)
}

/// Appends [`var_name`] to `out`.
pub fn push_var_name(out: &mut String, slot: usize, j: usize)
    ensures
        final(out)@ == old(out)@ + var_name(slot as nat, j as nat),
{
    proof { reveal_strlit("var_"); reveal_strlit("_"); }
    push_str(out, "var_");
    push_decimal(out, slot);
    push_str(out, "_");
    push_decimal(out, j);
    assert(final(out)@ =~= old(out)@ + var_name(slot as nat, j as nat));
}

/// The name of [`var_name`] as a fresh string.
pub fn var_name_string(slot: usize, j: usize) -> (r: String)
    ensures
        r@ == var_name(slot as nat, j as nat),
{
    let mut out = String::new();
    push_var_name(&mut out, slot, j);
    out
}

/// `layout (location = L) in T a_NAME;` for a vertex attribute.
pub open spec fn attribute_line(attr: VertexAttribute) -> Seq<char> {
    "layout (location = "@ + decimal(attr.location as nat) + ") in "@
        + glsl_type(crate::shader_type::format_shader_type(attr.format)) + " a_"@ + attr.name@ + ";\n"@
}

/// `layout (location = I) DIR T vs_NAME;` for an attribute shared between
/// the two shaders; `DIR` is `out` in the vertex shader and `in` in the
/// fragment shader.
pub open spec fn shared_line(i: nat, dir: Seq<char>, ty: ShaderType, name: Seq<char>) -> Seq<char> {
    "layout (location = "@ + decimal(i) + ") "@ + dir + " "@ + glsl_type(ty) + " vs_"@ + name + ";\n"@
}

/// `layout (location = I) out T f_NAME;` for a color output.
pub open spec fn color_line(i: nat, name: Seq<char>, ty: ShaderType) -> Seq<char> {
    "layout (location = "@ + decimal(i) + ") out "@ + glsl_type(ty) + " f_"@ + name + ";\n"@
}

/// One member line of a uniform block.
pub open spec fn member_line(name: Seq<char>, ty: ShaderType) -> Seq<char> {
    "\t"@ + glsl_type(ty) + " "@ + name + ";\n"@
}

/// The member lines of a uniform block, one per member in order.
pub open spec fn member_lines(members: Seq<(String, ShaderType)>) -> Seq<char>
    decreases members.len(),
{
    if members.len() == 0 {
        Seq::empty()
    } else {
        member_lines(members.drop_last()) + member_line(members.last().0@, members.last().1)
    }
}

/// A uniform block bound at set `binding`.
pub open spec fn uniform_block(binding: nat, name: Seq<char>, members: Seq<(String, ShaderType)>) -> Seq<char> {
    "layout (set = "@ + decimal(binding) + ", binding = 0) uniform "@ + name + "_block {\n"@
        + member_lines(members)
        + "} "@ + name + ";\n"@
}

/// The texture and sampler of a sampled texture bound at set `binding`.
pub open spec fn texture_block(binding: nat, name: Seq<char>) -> Seq<char> {
    "layout (set = "@ + decimal(binding) + ", binding = 0) uniform texture2D t_"@ + name + ";\n"@
        + "layout (set = "@ + decimal(binding) + ", binding = 1) uniform sampler s_"@ + name + ";\n"@
}

/// `vs_NAME = NAME;` hands a shared value to the fragment shader.
pub open spec fn assignment_line(name: Seq<char>) -> Seq<char> {
    "vs_"@ + name + " = "@ + name + ";\n"@
}

/// `T NAME = vs_NAME;` takes a shared value in the fragment shader.
pub open spec fn declaration_line(ty: ShaderType, name: Seq<char>) -> Seq<char> {
    glsl_type(ty) + " "@ + name + " = vs_"@ + name + ";\n"@
}

/// Appends the GLSL spelling of `ty`.
pub fn push_type(out: &mut String, ty: ShaderType)
    ensures
        final(out)@ == old(out)@ + glsl_type(ty),
{
    let t = ty.get_glsl_type();
    push_str(out, t.as_str());
}

/// Appends [`attribute_line`].
pub fn push_attribute_line(out: &mut String, attr: &VertexAttribute)
    ensures
        final(out)@ == old(out)@ + attribute_line(*attr),
{
    proof {
        reveal_strlit("layout (location = ");
        reveal_strlit(") in ");
        reveal_strlit(" a_");
        reveal_strlit(";\n");
    }
    push_str(out, "layout (location = ");
    push_decimal(out, attr.location);
    push_str(out, ") in ");
    push_type(out, ShaderType::from_format(attr.format));
    push_str(out, " a_");
    push_str(out, attr.name.as_str());
    push_str(out, ";\n");
    assert(final(out)@ =~= old(out)@ + attribute_line(*attr));
}

/// Appends [`shared_line`].
pub fn push_shared_line(out: &mut String, i: usize, dir: &str, ty: ShaderType, name: &str)
    ensures
        final(out)@ == old(out)@ + shared_line(i as nat, dir@, ty, name@),
{
    proof {
        reveal_strlit("layout (location = ");
        reveal_strlit(") ");
        reveal_strlit(" ");
        reveal_strlit(" vs_");
        reveal_strlit(";\n");
    }
    push_str(out, "layout (location = ");
    push_decimal(out, i);
    push_str(out, ") ");
    push_str(out, dir);
    push_str(out, " ");
    push_type(out, ty);
    push_str(out, " vs_");
    push_str(out, name);
    push_str(out, ";\n");
    assert(final(out)@ =~= old(out)@ + shared_line(i as nat, dir@, ty, name@));
}

/// Appends [`color_line`].
pub fn push_color_line(out: &mut String, i: usize, name: &str, ty: ShaderType)
    ensures
        final(out)@ == old(out)@ + color_line(i as nat, name@, ty),
{
    proof {
        reveal_strlit("layout (location = ");
        reveal_strlit(") out ");
        reveal_strlit(" f_");
        reveal_strlit(";\n");
    }
    push_str(out, "layout (location = ");
    push_decimal(out, i);
    push_str(out, ") out ");
    push_type(out, ty);
    push_str(out, " f_");
    push_str(out, name);
    push_str(out, ";\n");
    assert(final(out)@ =~= old(out)@ + color_line(i as nat, name@, ty));
}

/// Appends [`uniform_block`].
pub fn push_uniform_block(out: &mut String, binding: usize, name: &str, members: &Vec<(String, ShaderType)>)
    ensures
        final(out)@ == old(out)@ + uniform_block(binding as nat, name@, members@),
{
    proof {
        reveal_strlit("layout (set = ");
        reveal_strlit(", binding = 0) uniform ");
        reveal_strlit("_block {\n");
        reveal_strlit("\t");
        reveal_strlit(" ");
        reveal_strlit(";\n");
        reveal_strlit("} ");
    }
    let ghost start = out@;
    push_str(out, "layout (set = ");
    push_decimal(out, binding);
    push_str(out, ", binding = 0) uniform ");
    push_str(out, name);
    push_str(out, "_block {\n");
    let ghost head = out@;
    let mut i: usize = 0;
    while i < members.len()
        invariant
            i <= members@.len(),
            out@ == head + member_lines(members@.take(i as int)),
        decreases members@.len() - i,
    {
        assert(members@.take(i + 1).drop_last() =~= members@.take(i as int));
        push_str(out, "\t");
        push_type(out, members[i].1);
        push_str(out, " ");
        push_str(out, members[i].0.as_str());
        push_str(out, ";\n");
        assert(out@ =~= head + member_lines(members@.take(i + 1)));
        i = i + 1;
    }
    assert(members@.take(i as int) =~= members@);
    push_str(out, "} ");
    push_str(out, name);
    push_str(out, ";\n");
    assert(final(out)@ =~= old(out)@ + uniform_block(binding as nat, name@, members@));
}

/// Appends [`texture_block`].
pub fn push_texture_block(out: &mut String, binding: usize, name: &str)
    ensures
        final(out)@ == old(out)@ + texture_block(binding as nat, name@),
{
    proof {
        reveal_strlit("layout (set = ");
        reveal_strlit(", binding = 0) uniform texture2D t_");
        reveal_strlit(", binding = 1) uniform sampler s_");
        reveal_strlit(";\n");
    }
    push_str(out, "layout (set = ");
    push_decimal(out, binding);
    push_str(out, ", binding = 0) uniform texture2D t_");
    push_str(out, name);
    push_str(out, ";\n");
    push_str(out, "layout (set = ");
    push_decimal(out, binding);
    push_str(out, ", binding = 1) uniform sampler s_");
    push_str(out, name);
    push_str(out, ";\n");
    assert(final(out)@ =~= old(out)@ + texture_block(binding as nat, name@));
}

/// Appends [`assignment_line`].
pub fn push_assignment_line(out: &mut String, name: &str)
    ensures
        final(out)@ == old(out)@ + assignment_line(name@),
{
    proof {
        reveal_strlit("vs_");
        reveal_strlit(" = ");
        reveal_strlit(";\n");
    }
    push_str(out, "vs_");
    push_str(out, name);
    push_str(out, " = ");
    push_str(out, name);
    push_str(out, ";\n");
    assert(final(out)@ =~= old(out)@ + assignment_line(name@));
}

/// Appends [`declaration_line`].
pub fn push_declaration_line(out: &mut String, ty: ShaderType, name: &str)
    ensures
        final(out)@ == old(out)@ + declaration_line(ty, name@),
{
    proof {
        reveal_strlit(" ");
        reveal_strlit(" = vs_");
        reveal_strlit(";\n");
    }
    push_type(out, ty);
    push_str(out, " ");
    push_str(out, name);
    push_str(out, " = vs_");
    push_str(out, name);
    push_str(out, ";\n");
    assert(final(out)@ =~= old(out)@ + declaration_line(ty, name@));
}

} // verus!
