//! What a shader build produces: the uniforms and textures it binds, and the
//! plan of the two shaders' sources around the code of their nodes.
use vstd::prelude::*;
use crate::arena::NodeIndex;
use crate::glsl::{
    assignment_line, attribute_line, color_line, declaration_line, push_assignment_line,
    push_attribute_line, push_color_line, push_declaration_line, push_shared_line,
    push_texture_block, push_uniform_block, shared_line, texture_block, uniform_block,
};
use crate::shader_graph::ColorOutput;
use crate::shader_type::{ShaderType, VertexAttribute};
use crate::text::push_str;

verus! {

/// A uniform block as bound by a built shader.
pub struct BuiltUniform {
    pub binding: usize,
    pub ty_id: u128,
    pub id: u128,
    pub name: String,
    pub attributes: Vec<(String, ShaderType)>,
    pub in_vs: bool,
    pub in_fs: bool,
}

/// A sampled texture as bound by a built shader.
pub struct BuiltTexture {
    pub name: String,
    pub binding: usize,
    pub id: u128,
    pub in_vs: bool,
    pub in_fs: bool,
}

/// One bind group of a built shader.
pub enum BuiltShaderBindGroup {
    SampledTexture(BuiltTexture),
    Uniform(BuiltUniform),
}

/// The two shaders of a build, apart from the code that the nodes
/// themselves write: the nodes to generate, in order, and the text around
/// them.
pub struct ShaderBuildPlan {
    /// The nodes of the vertex shader; their code is written last to first.
    pub vertex_nodes: Vec<NodeIndex>,
    /// The nodes of the fragment shader; their code is written last to first.
    pub fragment_nodes: Vec<NodeIndex>,
    /// Nodes of the fragment list whose values come from the vertex shader.
    pub fragment_skipped: Vec<NodeIndex>,
    /// Version, inputs, outputs and uniforms of the vertex shader.
    pub vertex_head: String,
    /// What the vertex shader's `main` ends with.
    pub vertex_main_tail: String,
    /// Version, inputs, outputs, uniforms and textures of the fragment shader.
    pub fragment_head: String,
    /// What the fragment shader's `main` starts with.
    pub fragment_main_head: String,
    /// The uniforms the shaders bind, at sets 0, 1, ...
    pub uniforms: Vec<BuiltUniform>,
    /// The textures the fragment shader binds, at the sets after the uniforms.
    pub textures: Vec<BuiltTexture>,
}

/// A built shader: its two sources and its bind groups.
pub struct BuiltShaderGraph {
    pub vs: String,
    pub fs: String,
    pub bind_groups: Vec<BuiltShaderBindGroup>,
}

/// The version line every shader starts with.
pub open spec fn version_text() -> Seq<char> {
    "#version 450\n\n"@
}

/// The start of a `main` function.
pub open spec fn main_open() -> Seq<char> {
    "void main() {\n"@
}

/// The end of a `main` function.
pub open spec fn main_close() -> Seq<char> {
    "}\n"@
}

/// One line per vertex attribute.
pub open spec fn attribute_lines(attrs: Seq<VertexAttribute>) -> Seq<char>
    decreases attrs.len(),
{
    if attrs.len() == 0 {
        Seq::empty()
    } else {
        attribute_lines(attrs.drop_last()) + attribute_line(attrs.last())
    }
}

/// One line per shared attribute, numbered by position.
pub open spec fn shared_lines(attrs: Seq<(ShaderType, Seq<char>)>, dir: Seq<char>) -> Seq<char>
    decreases attrs.len(),
{
    if attrs.len() == 0 {
        Seq::empty()
    } else {
        shared_lines(attrs.drop_last(), dir)
            + shared_line((attrs.len() - 1) as nat, dir, attrs.last().0, attrs.last().1)
    }
}

/// One assignment per shared attribute.
pub open spec fn assignment_lines(attrs: Seq<(ShaderType, Seq<char>)>) -> Seq<char>
    decreases attrs.len(),
{
    if attrs.len() == 0 {
        Seq::empty()
    } else {
        assignment_lines(attrs.drop_last()) + assignment_line(attrs.last().1)
    }
}

/// One declaration per shared attribute.
pub open spec fn declaration_lines(attrs: Seq<(ShaderType, Seq<char>)>) -> Seq<char>
    decreases attrs.len(),
{
    if attrs.len() == 0 {
        Seq::empty()
    } else {
        declaration_lines(attrs.drop_last()) + declaration_line(attrs.last().0, attrs.last().1)
    }
}

/// How many of `outs` are among `selected`.
pub open spec fn selected_count(outs: Seq<ColorOutput>, selected: Seq<NodeIndex>) -> nat
    decreases outs.len(),
{
    if outs.len() == 0 {
        0
    } else {
        selected_count(outs.drop_last(), selected) + if selected.contains(outs.last().node) { 1nat } else { 0nat }
    }
}

/// One line per color output among `selected`, numbered among those.
pub open spec fn color_lines(outs: Seq<ColorOutput>, selected: Seq<NodeIndex>) -> Seq<char>
    decreases outs.len(),
{
    if outs.len() == 0 {
        Seq::empty()
    } else {
        color_lines(outs.drop_last(), selected) + if selected.contains(outs.last().node) {
            color_line(selected_count(outs.drop_last(), selected), outs.last().name@, outs.last().ty)
        } else {
            Seq::empty()
        }
    }
}

/// The blocks of the uniforms used by one stage (the fragment stage when
/// `fragment`, else the vertex stage).
pub open spec fn uniform_blocks(us: Seq<BuiltUniform>, fragment: bool) -> Seq<char>
    decreases us.len(),
{
    if us.len() == 0 {
        Seq::empty()
    } else {
        let u = us.last();
        uniform_blocks(us.drop_last(), fragment) + if (if fragment { u.in_fs } else { u.in_vs }) {
            uniform_block(u.binding as nat, u.name@, u.attributes@)
        } else {
            Seq::empty()
        }
    }
}

/// The blocks of the textures used by the fragment stage.
pub open spec fn texture_blocks(ts: Seq<BuiltTexture>) -> Seq<char>
    decreases ts.len(),
{
    if ts.len() == 0 {
        Seq::empty()
    } else {
        let t = ts.last();
        texture_blocks(ts.drop_last()) + if t.in_fs {
            texture_block(t.binding as nat, t.name@)
        } else {
            Seq::empty()
        }
    }
}

/// Appends [`attribute_lines`].
pub fn push_attribute_lines(out: &mut String, attrs: &Vec<VertexAttribute>)
    ensures
        final(out)@ == old(out)@ + attribute_lines(attrs@),
{
    let ghost start = out@;
    let mut i: usize = 0;
    while i < attrs.len()
        invariant
            i <= attrs@.len(),
            out@ == start + attribute_lines(attrs@.take(i as int)),
        decreases attrs@.len() - i,
    {
        assert(attrs@.take(i + 1).drop_last() =~= attrs@.take(i as int));
        push_attribute_line(out, &attrs[i]);
        assert(out@ =~= start + attribute_lines(attrs@.take(i + 1)));
        i = i + 1;
    }
    assert(attrs@.take(i as int) =~= attrs@);
}

/// The model of a list of shared attributes.
pub open spec fn shared_model(attrs: Seq<(ShaderType, String)>) -> Seq<(ShaderType, Seq<char>)> {
    Seq::new(attrs.len(), |i: int| (attrs[i].0, attrs[i].1@))
}

/// Appends [`shared_lines`], [`assignment_lines`] or [`declaration_lines`]
/// (`kind` 0, 1 or 2) for `attrs`.
pub fn push_shared_section(out: &mut String, attrs: &Vec<(ShaderType, String)>, kind: u8, dir: &str)
    ensures
        kind == 0 ==> final(out)@ == old(out)@ + shared_lines(shared_model(attrs@), dir@),
        kind == 1 ==> final(out)@ == old(out)@ + assignment_lines(shared_model(attrs@)),
        kind != 0 && kind != 1 ==> final(out)@ == old(out)@ + declaration_lines(shared_model(attrs@)),
{
    let ghost start = out@;
    let ghost m = shared_model(attrs@);
    let mut i: usize = 0;
    while i < attrs.len()
        invariant
            i <= attrs@.len(),
            m == shared_model(attrs@),
            kind == 0 ==> out@ == start + shared_lines(m.take(i as int), dir@),
            kind == 1 ==> out@ == start + assignment_lines(m.take(i as int)),
            kind != 0 && kind != 1 ==> out@ == start + declaration_lines(m.take(i as int)),
        decreases attrs@.len() - i,
    {
        assert(m.take(i + 1).drop_last() =~= m.take(i as int));
        assert(m.take(i + 1).last() == (attrs@[i as int].0, attrs@[i as int].1@));
        if kind == 0 {
            push_shared_line(out, i, dir, attrs[i].0, attrs[i].1.as_str());
        } else if kind == 1 {
            push_assignment_line(out, attrs[i].1.as_str());
        } else {
            push_declaration_line(out, attrs[i].0, attrs[i].1.as_str());
        }
        assert(kind == 0 ==> out@ =~= start + shared_lines(m.take(i + 1), dir@));
        assert(kind == 1 ==> out@ =~= start + assignment_lines(m.take(i + 1)));
        assert(kind != 0 && kind != 1 ==> out@ =~= start + declaration_lines(m.take(i + 1)));
        i = i + 1;
    }
    assert(m.take(i as int) =~= m);
}

/// Appends [`color_lines`].
pub fn push_color_lines(out: &mut String, outs: &Vec<ColorOutput>, selected: &[NodeIndex])
    ensures
        final(out)@ == old(out)@ + color_lines(outs@, selected@),
{
    let ghost start = out@;
    let mut count: usize = 0;
    let mut i: usize = 0;
    while i < outs.len()
        invariant
            i <= outs@.len(),
            count == selected_count(outs@.take(i as int), selected@),
            count <= i,
            out@ == start + color_lines(outs@.take(i as int), selected@),
        decreases outs@.len() - i,
    {
        assert(outs@.take(i + 1).drop_last() =~= outs@.take(i as int));
        if slice_contains(selected, outs[i].node) {
            push_color_line(out, count, outs[i].name.as_str(), outs[i].ty);
            count = count + 1;
        }
        assert(out@ =~= start + color_lines(outs@.take(i + 1), selected@));
        i = i + 1;
    }
    assert(outs@.take(i as int) =~= outs@);
}

/// Whether `x` occurs in `list`.
pub fn slice_contains(list: &[NodeIndex], x: NodeIndex) -> (r: bool)
    ensures
        r == list@.contains(x),
{
    let mut i: usize = 0;
    while i < list.len()
        invariant
            i <= list@.len(),
            forall|j: int| 0 <= j < i ==> list@[j] != x,
        decreases list@.len() - i,
    {
        if list[i] == x {
            assert(list@[i as int] == x);
            return true;
        }
        i = i + 1;
    }
    false
}

/// Appends [`uniform_blocks`] for one stage.
pub fn push_uniform_blocks(out: &mut String, us: &Vec<BuiltUniform>, fragment: bool)
    ensures
        final(out)@ == old(out)@ + uniform_blocks(us@, fragment),
{
    let ghost start = out@;
    let mut i: usize = 0;
    while i < us.len()
        invariant
            i <= us@.len(),
            out@ == start + uniform_blocks(us@.take(i as int), fragment),
        decreases us@.len() - i,
    {
        assert(us@.take(i + 1).drop_last() =~= us@.take(i as int));
        let u = &us[i];
        if (fragment && u.in_fs) || (!fragment && u.in_vs) {
            push_uniform_block(out, u.binding, u.name.as_str(), &u.attributes);
        }
        assert(out@ =~= start + uniform_blocks(us@.take(i + 1), fragment));
        i = i + 1;
    }
    assert(us@.take(i as int) =~= us@);
}

/// Appends [`texture_blocks`].
pub fn push_texture_blocks(out: &mut String, ts: &Vec<BuiltTexture>)
    ensures
        final(out)@ == old(out)@ + texture_blocks(ts@),
{
    let ghost start = out@;
    let mut i: usize = 0;
    while i < ts.len()
        invariant
            i <= ts@.len(),
            out@ == start + texture_blocks(ts@.take(i as int)),
        decreases ts@.len() - i,
    {
        assert(ts@.take(i + 1).drop_last() =~= ts@.take(i as int));
        let t = &ts[i];
        if t.in_fs {
            push_texture_block(out, t.binding, t.name.as_str());
        }
        assert(out@ =~= start + texture_blocks(ts@.take(i + 1)));
        i = i + 1;
    }
    assert(ts@.take(i as int) =~= ts@);
}

impl ShaderBuildPlan {
    /// The vertex shader's source, given what its nodes wrote outside and
    /// inside `main`.
    pub fn vertex_source(&self, global: &str, body: &str) -> (r: String)
        ensures
            r@ == self.vertex_head@ + global@ + main_open() + body@ + self.vertex_main_tail@,
    {
        proof { reveal_strlit("void main() {\n"); }
        let mut out = self.vertex_head.clone();
        push_str(&mut out, global);
        push_str(&mut out, "void main() {\n");
        push_str(&mut out, body);
        push_str(&mut out, self.vertex_main_tail.as_str());
        out
    }

    /// The fragment shader's source, given what its nodes wrote outside and
    /// inside `main`.
    pub fn fragment_source(&self, global: &str, body: &str) -> (r: String)
        ensures
            r@ == self.fragment_head@ + global@ + self.fragment_main_head@ + body@ + main_close(),
    {
        proof { reveal_strlit("}\n"); }
        let mut out = self.fragment_head.clone();
        push_str(&mut out, global);
        push_str(&mut out, self.fragment_main_head.as_str());
        push_str(&mut out, body);
        push_str(&mut out, "}\n");
        out
    }

    /// The built shader: the two sources and the bind groups, uniforms first,
    /// then textures.
    pub fn finish(self, vs: String, fs: String) -> (r: BuiltShaderGraph)
        ensures
            r.vs == vs,
            r.fs == fs,
            r.bind_groups@.len() == self.uniforms@.len() + self.textures@.len(),
            forall|i: int| 0 <= i < self.uniforms@.len()
                ==> #[trigger] r.bind_groups@[i] == BuiltShaderBindGroup::Uniform(self.uniforms@[i]),
            forall|i: int| 0 <= i < self.textures@.len()
                ==> #[trigger] r.bind_groups@[self.uniforms@.len() + i]
                    == BuiltShaderBindGroup::SampledTexture(self.textures@[i]),
    {
        let ghost us = self.uniforms@;
        let ghost ts = self.textures@;
        let mut uniforms = self.uniforms;
        let mut textures = self.textures;
        let mut bind_groups: Vec<BuiltShaderBindGroup> = Vec::new();
        while uniforms.len() > 0
            invariant
                bind_groups@.len() <= us.len(),
                uniforms@ == us.skip(bind_groups@.len() as int),
                forall|i: int| 0 <= i < bind_groups@.len()
                    ==> #[trigger] bind_groups@[i] == BuiltShaderBindGroup::Uniform(us[i]),
            decreases uniforms@.len(),
        {
            let ghost k = bind_groups@.len() as int;
            let u = uniforms.remove(0);
            assert(uniforms@ =~= us.skip(k + 1));
            bind_groups.push(BuiltShaderBindGroup::Uniform(u));
        }
        while textures.len() > 0
            invariant
                us.len() <= bind_groups@.len() <= us.len() + ts.len(),
                textures@ == ts.skip(bind_groups@.len() - us.len()),
                forall|i: int| 0 <= i < us.len()
                    ==> #[trigger] bind_groups@[i] == BuiltShaderBindGroup::Uniform(us[i]),
                forall|i: int| 0 <= i < bind_groups@.len() - us.len()
                    ==> #[trigger] bind_groups@[us.len() + i] == BuiltShaderBindGroup::SampledTexture(ts[i]),
            decreases textures@.len(),
        {
            let ghost k = bind_groups@.len() - us.len();
            let t = textures.remove(0);
            assert(textures@ =~= ts.skip(k + 1));
            bind_groups.push(BuiltShaderBindGroup::SampledTexture(t));
        }
        BuiltShaderGraph { vs, fs, bind_groups }
    }
}

} // verus!
