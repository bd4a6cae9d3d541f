//! The library's shader nodes: what each one outputs and the GLSL it writes.
//! A node writes into `output` given the variable names of its inputs and
//! outputs (see `ShaderGraph::input_names` and `ShaderGraph::output_names`).
use vstd::prelude::*;
use crate::shader_type::{copy_types, format_shader_type, glsl_type, ShaderType, VertexAttribute};
use crate::text::{decimal, owned, push_decimal, push_str};
use crate::glsl::push_type;

verus! {

/// The name held in slot `k` of a list of variable names.
pub open spec fn slot(names: Seq<Option<String>>, k: int) -> Seq<char> {
    names[k].unwrap()@
}

/// Slot `k` of `names` holds a name.
pub open spec fn named(names: Seq<Option<String>>, k: int) -> bool {
    0 <= k < names.len() && names[k] is Some
}

fn push_slot(out: &mut String, names: &[Option<String>], k: usize)
    requires
        named(names@, k as int),
    ensures
        final(out)@ == old(out)@ + slot(names@, k as int),
{
    match &names[k] {
        Some(name) => push_str(out, name.as_str()),
        None => {},
    }
}

/// Reads the vertex attributes: one output per attribute.
pub struct VertexAttributesNode {
    pub attributes: Vec<VertexAttribute>,
}

/// One line per attribute: `T OUT_i = a_NAME;`.
pub open spec fn vertex_attribute_code(attrs: Seq<VertexAttribute>, outputs: Seq<Option<String>>) -> Seq<char>
    decreases attrs.len(),
{
    if attrs.len() == 0 {
        Seq::empty()
    } else {
        let i = attrs.len() - 1;
        vertex_attribute_code(attrs.drop_last(), outputs) + glsl_type(format_shader_type(attrs.last().format))
            + " "@ + slot(outputs, i) + " = a_"@ + attrs.last().name@ + ";\n"@
    }
}

impl VertexAttributesNode {
    /// Used by the vertex stage only.
    pub fn get_available_stages(&self) -> (r: (bool, bool))
        ensures
            r == (true, false),
    {
        (true, false)
    }

    /// One output per attribute, of the attribute's type.
    pub fn get_outputs(&self) -> (r: Vec<ShaderType>)
        ensures
            r@.len() == self.attributes@.len(),
            forall|i: int| 0 <= i < r@.len() ==> #[trigger] r@[i] == format_shader_type(self.attributes@[i].format),
    {
        let mut r: Vec<ShaderType> = Vec::new();
        let mut i: usize = 0;
        while i < self.attributes.len()
            invariant
                i <= self.attributes@.len(),
                r@.len() == i,
                forall|j: int| 0 <= j < i ==> #[trigger] r@[j] == format_shader_type(self.attributes@[j].format),
            decreases self.attributes@.len() - i,
        {
            r.push(ShaderType::from_format(self.attributes[i].format));
            i = i + 1;
        }
        r
    }

    pub fn generate(&self, inputs: &[Option<String>], outputs: &[Option<String>], output: &mut String)
        requires
            forall|i: int| 0 <= i < self.attributes@.len() ==> named(outputs@, i),
        ensures
            final(output)@ == old(output)@ + vertex_attribute_code(self.attributes@, outputs@),
    {
        proof {
            reveal_strlit(" ");
            reveal_strlit(" = a_");
            reveal_strlit(";\n");
        }
        let ghost start = output@;
        let mut i: usize = 0;
        while i < self.attributes.len()
            invariant
                i <= self.attributes@.len(),
                forall|i: int| 0 <= i < self.attributes@.len() ==> named(outputs@, i),
                output@ == start + vertex_attribute_code(self.attributes@.take(i as int), outputs@),
            decreases self.attributes@.len() - i,
        {
            assert(self.attributes@.take(i + 1).drop_last() =~= self.attributes@.take(i as int));
            push_type(output, ShaderType::from_format(self.attributes[i].format));
            push_str(output, " ");
            push_slot(output, outputs, i);
            push_str(output, " = a_");
            push_str(output, self.attributes[i].name.as_str());
            push_str(output, ";\n");
            assert(output@ =~= start + vertex_attribute_code(self.attributes@.take(i + 1), outputs@));
            i = i + 1;
        }
        assert(self.attributes@.take(i as int) =~= self.attributes@);
    }
}

/// Takes the vertex position: `gl_Position = IN_0;`.
pub struct VertexShaderOutputNode;

impl VertexShaderOutputNode {
    /// Used by the vertex stage only.
    pub fn get_available_stages(&self) -> (r: (bool, bool))
        ensures
            r == (true, false),
    {
        (true, false)
    }

    /// Every input is expected to be a `vec4`.
    pub fn get_type_expectation(&self, index: usize) -> (r: Option<ShaderType>)
        ensures
            r == Some(ShaderType::Float4),
    {
        Some(ShaderType::Float4)
    }

    pub fn generate(&self, inputs: &[Option<String>], outputs: &[Option<String>], output: &mut String)
        requires
            named(inputs@, 0),
        ensures
            final(output)@ == old(output)@ + "gl_Position = "@ + slot(inputs@, 0) + ";\n"@,
    {
        proof {
            reveal_strlit("gl_Position = ");
            reveal_strlit(";\n");
        }
        push_str(output, "gl_Position = ");
        push_slot(output, inputs, 0);
        push_str(output, ";\n");
        assert(final(output)@ =~= old(output)@ + "gl_Position = "@ + slot(inputs@, 0) + ";\n"@);
    }
}

/// Writes a color output: `f_NAME = IN_0;`.
pub struct ColorOutputNode {
    pub name: String,
}

impl ColorOutputNode {
    /// Used by the fragment stage only.
    pub fn get_available_stages(&self) -> (r: (bool, bool))
        ensures
            r == (false, true),
    {
        (false, true)
    }

    /// Every input is expected to be a `vec4`.
    pub fn get_type_expectation(&self, index: usize) -> (r: Option<ShaderType>)
        ensures
            r == Some(ShaderType::Float4),
    {
        Some(ShaderType::Float4)
    }

    pub fn generate(&self, inputs: &[Option<String>], outputs: &[Option<String>], output: &mut String)
        requires
            named(inputs@, 0),
        ensures
            final(output)@ == old(output)@ + "f_"@ + self.name@ + " = "@ + slot(inputs@, 0) + ";\n"@,
    {
        proof {
            reveal_strlit("f_");
            reveal_strlit(" = ");
            reveal_strlit(";\n");
        }
        push_str(output, "f_");
        push_str(output, self.name.as_str());
        push_str(output, " = ");
        push_slot(output, inputs, 0);
        push_str(output, ";\n");
        assert(final(output)@ =~= old(output)@ + "f_"@ + self.name@ + " = "@ + slot(inputs@, 0) + ";\n"@);
    }
}

/// Reads the members of a uniform block: one output per member.
pub struct UniformNode {
    pub name: String,
    pub attributes: Vec<(String, ShaderType)>,
}

/// One line per member: `T OUT_i = NAME_uniform.MEMBER;`.
pub open spec fn uniform_code(name: Seq<char>, attrs: Seq<(String, ShaderType)>, outputs: Seq<Option<String>>) -> Seq<char>
    decreases attrs.len(),
{
    if attrs.len() == 0 {
        Seq::empty()
    } else {
        let i = attrs.len() - 1;
        uniform_code(name, attrs.drop_last(), outputs) + glsl_type(attrs.last().1) + " "@ + slot(outputs, i)
            + " = "@ + name + "_uniform."@ + attrs.last().0@ + ";\n"@
    }
}

impl UniformNode {
    /// One output per member, of the member's type.
    pub fn get_outputs(&self) -> (r: Vec<ShaderType>)
        ensures
            r@.len() == self.attributes@.len(),
            forall|i: int| 0 <= i < r@.len() ==> #[trigger] r@[i] == self.attributes@[i].1,
    {
        let mut r: Vec<ShaderType> = Vec::new();
        let mut i: usize = 0;
        while i < self.attributes.len()
            invariant
                i <= self.attributes@.len(),
                r@.len() == i,
                forall|j: int| 0 <= j < i ==> #[trigger] r@[j] == self.attributes@[j].1,
            decreases self.attributes@.len() - i,
        {
            r.push(self.attributes[i].1);
            i = i + 1;
        }
        r
    }

    pub fn generate(&self, inputs: &[Option<String>], outputs: &[Option<String>], output: &mut String)
        requires
            forall|i: int| 0 <= i < self.attributes@.len() ==> named(outputs@, i),
        ensures
            final(output)@ == old(output)@ + uniform_code(self.name@, self.attributes@, outputs@),
    {
        proof {
            reveal_strlit(" ");
            reveal_strlit(" = ");
            reveal_strlit("_uniform.");
            reveal_strlit(";\n");
        }
        let ghost start = output@;
        let mut i: usize = 0;
        while i < self.attributes.len()
            invariant
                i <= self.attributes@.len(),
                forall|i: int| 0 <= i < self.attributes@.len() ==> named(outputs@, i),
                output@ == start + uniform_code(self.name@, self.attributes@.take(i as int), outputs@),
            decreases self.attributes@.len() - i,
        {
            assert(self.attributes@.take(i + 1).drop_last() =~= self.attributes@.take(i as int));
            push_type(output, self.attributes[i].1);
            push_str(output, " ");
            push_slot(output, outputs, i);
            push_str(output, " = ");
            push_str(output, self.name.as_str());
            push_str(output, "_uniform.");
            push_str(output, self.attributes[i].0.as_str());
            push_str(output, ";\n");
            assert(output@ =~= start + uniform_code(self.name@, self.attributes@.take(i + 1), outputs@));
            i = i + 1;
        }
        assert(self.attributes@.take(i as int) =~= self.attributes@);
    }
}

/// A sampled texture: defines the function that samples it.
pub struct TextureNode {
    pub name: String,
}

/// The sampling function of texture `name`, named after `out`.
pub open spec fn texture_sample_fn(out: Seq<char>, name: Seq<char>) -> Seq<char> {
    "\n      vec4 sample_fn_"@ + out + "(vec2 uv) {\n        return texture(sampler2D(t_"@ + name + ", s_"@
        + name + "), uv);\n      }\n      "@
}

impl TextureNode {
    /// A single output.
    pub fn get_outputs(&self) -> (r: Vec<ShaderType>)
        ensures
            r@ == seq![ShaderType::Float],
    {
        let mut r: Vec<ShaderType> = Vec::new();
        r.push(ShaderType::Float);
        assert(r@ =~= seq![ShaderType::Float]);
        r
    }

    /// Writes nothing inside `main`.
    pub fn generate(&self, inputs: &[Option<String>], outputs: &[Option<String>], output: &mut String)
        ensures
            final(output)@ == old(output)@,
    {
    }

    pub fn generate_global_code(&self, inputs: &[Option<String>], outputs: &[Option<String>], output: &mut String)
        requires
            named(outputs@, 0),
        ensures
            final(output)@ == old(output)@ + texture_sample_fn(slot(outputs@, 0), self.name@),
    {
        proof {
            reveal_strlit("\n      vec4 sample_fn_");
            reveal_strlit("(vec2 uv) {\n        return texture(sampler2D(t_");
            reveal_strlit(", s_");
            reveal_strlit("), uv);\n      }\n      ");
        }
        push_str(output, "\n      vec4 sample_fn_");
        push_slot(output, outputs, 0);
        push_str(output, "(vec2 uv) {\n        return texture(sampler2D(t_");
        push_str(output, self.name.as_str());
        push_str(output, ", s_");
        push_str(output, self.name.as_str());
        push_str(output, "), uv);\n      }\n      ");
        assert(final(output)@ =~= old(output)@ + texture_sample_fn(slot(outputs@, 0), self.name@));
    }
}

/// Samples a texture at a coordinate.
pub struct TextureSampleNode;

impl TextureSampleNode {
    pub const INPUT_TEXTURE: usize = 0;
    pub const INPUT_UV: usize = 1;
    pub const OUTPUT_COLOR: usize = 0;

    pub fn new() -> (r: TextureSampleNode)
        ensures
            r == TextureSampleNode,
    {
        TextureSampleNode
    }

    pub fn generate(&self, inputs: &[Option<String>], outputs: &[Option<String>], output: &mut String)
        requires
            named(outputs@, 0),
            named(inputs@, 0),
            named(inputs@, 1),
        ensures
            final(output)@ == old(output)@ + "vec4 "@ + slot(outputs@, 0) + " = sample_fn_"@ + slot(inputs@, 0)
                + "("@ + slot(inputs@, 1) + ");\n"@,
    {
        proof {
            reveal_strlit("vec4 ");
            reveal_strlit(" = sample_fn_");
            reveal_strlit("(");
            reveal_strlit(");\n");
        }
        push_str(output, "vec4 ");
        push_slot(output, outputs, 0);
        push_str(output, " = sample_fn_");
        push_slot(output, inputs, 0);
        push_str(output, "(");
        push_slot(output, inputs, 1);
        push_str(output, ");\n");
        assert(final(output)@ =~= old(output)@ + "vec4 "@ + slot(outputs@, 0) + " = sample_fn_"@
            + slot(inputs@, 0) + "("@ + slot(inputs@, 1) + ");\n"@);
    }
}

/// A node that only passes its inputs on; a build removes it.
pub struct InputPassthroughNode {
    pub inputs: Vec<(ShaderType, String)>,
}

impl InputPassthroughNode {
    pub fn new() -> (r: InputPassthroughNode)
        ensures
            r.inputs@ == Seq::<(ShaderType, String)>::empty(),
    {
        InputPassthroughNode { inputs: Vec::new() }
    }

    /// Adds an input of type `ty` with the given default expression.
    pub fn add_input(self, ty: ShaderType, default: &str) -> (r: InputPassthroughNode)
        ensures
            r.inputs@.len() == self.inputs@.len() + 1,
            r.inputs@.drop_last() == self.inputs@,
            r.inputs@.last().0 == ty,
            r.inputs@.last().1@ == default@,
    {
        let mut s = self;
        let ghost before = s.inputs@;
        s.inputs.push((ty, owned(default)));
        assert(s.inputs@.drop_last() =~= before);
        s
    }

    /// It only passes values through.
    pub fn is_passthrough(&self) -> (r: bool)
        ensures
            r,
    {
        true
    }
}

/// Multiplies two values of one type.
pub struct Multiply(pub ShaderType);

impl Multiply {
    pub const INPUT_A: usize = 0;
    pub const INPUT_B: usize = 1;
    pub const OUTPUT: usize = 0;

    pub fn new(ty: ShaderType) -> (r: Multiply)
        ensures
            r.0 == ty,
    {
        Multiply(ty)
    }

    /// One output, of the node's type.
    pub fn get_outputs(&self) -> (r: Vec<ShaderType>)
        ensures
            r@ == seq![self.0],
    {
        let mut r: Vec<ShaderType> = Vec::new();
        r.push(self.0);
        assert(r@ =~= seq![self.0]);
        r
    }

    pub fn generate(&self, inputs: &[Option<String>], outputs: &[Option<String>], output: &mut String)
        requires
            named(outputs@, 0),
            named(inputs@, 0),
            named(inputs@, 1),
        ensures
            final(output)@ == old(output)@ + glsl_type(self.0) + " "@ + slot(outputs@, 0) + " = "@
                + slot(inputs@, 0) + " * "@ + slot(inputs@, 1) + ";\n"@,
    {
        proof {
            reveal_strlit(" ");
            reveal_strlit(" = ");
            reveal_strlit(" * ");
            reveal_strlit(";\n");
        }
        push_type(output, self.0);
        push_str(output, " ");
        push_slot(output, outputs, 0);
        push_str(output, " = ");
        push_slot(output, inputs, 0);
        push_str(output, " * ");
        push_slot(output, inputs, 1);
        push_str(output, ";\n");
        assert(final(output)@ =~= old(output)@ + glsl_type(self.0) + " "@ + slot(outputs@, 0) + " = "@
            + slot(inputs@, 0) + " * "@ + slot(inputs@, 1) + ";\n"@);
    }
}

/// Turns a homogeneous `vec4` into a `vec3` by dividing by `w`.
pub struct ConvertHomgenous;

impl ConvertHomgenous {
    pub const INPUT: usize = 0;
    pub const OUTPUT: usize = 0;

    pub fn new() -> (r: ConvertHomgenous)
        ensures
            r == ConvertHomgenous,
    {
        ConvertHomgenous
    }

    /// One `vec3` output.
    pub fn get_outputs(&self) -> (r: Vec<ShaderType>)
        ensures
            r@ == seq![ShaderType::Float3],
    {
        let mut r: Vec<ShaderType> = Vec::new();
        r.push(ShaderType::Float3);
        assert(r@ =~= seq![ShaderType::Float3]);
        r
    }

    pub fn generate(&self, inputs: &[Option<String>], outputs: &[Option<String>], output: &mut String)
        requires
            named(outputs@, 0),
            named(inputs@, 0),
        ensures
            final(output)@ == old(output)@ + "vec3 "@ + slot(outputs@, 0) + " = "@ + slot(inputs@, 0) + ".xyz / "@
                + slot(inputs@, 0) + ".w;\n"@,
    {
        proof {
            reveal_strlit("vec3 ");
            reveal_strlit(" = ");
            reveal_strlit(".xyz / ");
            reveal_strlit(".w;\n");
        }
        push_str(output, "vec3 ");
        push_slot(output, outputs, 0);
        push_str(output, " = ");
        push_slot(output, inputs, 0);
        push_str(output, ".xyz / ");
        push_slot(output, inputs, 0);
        push_str(output, ".w;\n");
        assert(final(output)@ =~= old(output)@ + "vec3 "@ + slot(outputs@, 0) + " = "@ + slot(inputs@, 0)
            + ".xyz / "@ + slot(inputs@, 0) + ".w;\n"@);
    }
}

/// The component count of a float vector type (`None` for other types).
pub open spec fn vector_width(ty: ShaderType) -> Option<nat> {
    match ty {
        ShaderType::Float4 => Some(4nat),
        ShaderType::Float3 => Some(3nat),
        ShaderType::Float2 => Some(2nat),
        _ => None,
    }
}

fn floats(n: usize) -> (r: Vec<ShaderType>)
    ensures
        r@ == Seq::new(n as nat, |i: int| ShaderType::Float),
{
    let mut r: Vec<ShaderType> = Vec::new();
    let mut i: usize = 0;
    while i < n
        invariant
            i <= n,
            r@ == Seq::new(i as nat, |j: int| ShaderType::Float),
        decreases n - i,
    {
        r.push(ShaderType::Float);
        assert(r@ =~= Seq::new((i + 1) as nat, |j: int| ShaderType::Float));
        i = i + 1;
    }
    r
}

/// Builds a float vector from its components.
pub struct Construct(pub Vec<ShaderType>, pub ShaderType);

/// The names of the connected inputs among the first `n` slots, joined with
/// commas.
pub open spec fn joined_inputs(inputs: Seq<Option<String>>, n: nat) -> Seq<char>
    decreases n,
{
    if n == 0 {
        Seq::empty()
    } else {
        let before = joined_inputs(inputs, (n - 1) as nat);
        match inputs[n - 1] {
            None => before,
            Some(s) => if before.len() == 0 && !any_named(inputs, (n - 1) as nat) {
                s@
            } else {
                before + ","@ + s@
            },
        }
    }
}

/// Some slot among the first `n` holds a name.
pub open spec fn any_named(inputs: Seq<Option<String>>, n: nat) -> bool {
    exists|i: int| 0 <= i < n && inputs[i] is Some
}

impl Construct {
    pub const INPUT_X: usize = 0;
    pub const INPUT_Y: usize = 1;
    pub const INPUT_Z: usize = 2;
    pub const INPUT_W: usize = 3;
    pub const OUTPUT: usize = 0;

    /// A constructor for `vec4`, `vec3` or `vec2` (one float input per
    /// component); `None` for other types.
    pub fn new(ty: ShaderType) -> (r: Option<Construct>)
        ensures
            r is Some <==> vector_width(ty) is Some,
            r matches Some(c) ==> c.1 == ty && c.0@ == Seq::new(vector_width(ty).unwrap(), |i: int| ShaderType::Float),
    {
        match ty {
            ShaderType::Float4 => Some(Construct(floats(4), ShaderType::Float4)),
            ShaderType::Float3 => Some(Construct(floats(3), ShaderType::Float3)),
            ShaderType::Float2 => Some(Construct(floats(2), ShaderType::Float2)),
            _ => None,
        }
    }

    /// One output, of the constructed type.
    pub fn get_outputs(&self) -> (r: Vec<ShaderType>)
        ensures
            r@ == seq![self.1],
    {
        let mut r: Vec<ShaderType> = Vec::new();
        r.push(self.1);
        assert(r@ =~= seq![self.1]);
        r
    }

    pub fn generate(&self, inputs: &[Option<String>], outputs: &[Option<String>], output: &mut String)
        requires
            named(outputs@, 0),
            self.0@.len() <= inputs@.len(),
        ensures
            final(output)@ == old(output)@ + glsl_type(self.1) + " "@ + slot(outputs@, 0) + " = "@ + glsl_type(self.1)
                + "("@ + joined_inputs(inputs@, self.0@.len()) + ");\n"@,
    {
        proof {
            reveal_strlit(" ");
            reveal_strlit(" = ");
            reveal_strlit("(");
            reveal_strlit(",");
            reveal_strlit(");\n");
        }
        push_type(output, self.1);
        push_str(output, " ");
        push_slot(output, outputs, 0);
        push_str(output, " = ");
        push_type(output, self.1);
        push_str(output, "(");
        let ghost head = output@;
        let mut first = true;
        let mut i: usize = 0;
        while i < self.0.len()
            invariant
                i <= self.0@.len(),
                self.0@.len() <= inputs@.len(),
                first == !any_named(inputs@, i as nat),
                output@ == head + joined_inputs(inputs@, i as nat),
                first ==> joined_inputs(inputs@, i as nat).len() == 0,
            decreases self.0@.len() - i,
        {
            match &inputs[i] {
                Some(name) => {
                    if !first {
                        push_str(output, ",");
                    }
                    push_str(output, name.as_str());
                    first = false;
                    assert(any_named(inputs@, (i + 1) as nat)) by {
                        assert(inputs@[i as int] is Some);
                    }
                },
                None => {
                    assert(any_named(inputs@, (i + 1) as nat) == any_named(inputs@, i as nat)) by {
                        if any_named(inputs@, (i + 1) as nat) {
                            let j = choose|j: int| 0 <= j < i + 1 && inputs@[j] is Some;
                            assert(j < i);
                        }
                    }
                },
            }
            assert(output@ =~= head + joined_inputs(inputs@, (i + 1) as nat));
            i = i + 1;
        }
        push_str(output, ");\n");
        assert(final(output)@ =~= old(output)@ + glsl_type(self.1) + " "@ + slot(outputs@, 0) + " = "@
            + glsl_type(self.1) + "("@ + joined_inputs(inputs@, self.0@.len()) + ");\n"@);
    }
}

/// Splits a float vector into its components.
pub struct Deconstruct(pub Vec<ShaderType>, pub ShaderType);

/// One line per component whose output slot holds a name:
/// `T OUT_i = IN_0[i];`.
pub open spec fn deconstruct_code(tys: Seq<ShaderType>, inputs: Seq<Option<String>>, outputs: Seq<Option<String>>) -> Seq<char>
    decreases tys.len(),
{
    if tys.len() == 0 {
        Seq::empty()
    } else {
        let i = tys.len() - 1;
        deconstruct_code(tys.drop_last(), inputs, outputs) + if outputs[i] is Some {
            glsl_type(tys.last()) + " "@ + slot(outputs, i) + " = "@ + slot(inputs, 0) + "["@ + decimal(i as nat)
                + "];\n"@
        } else {
            Seq::empty()
        }
    }
}

/// The code of a splitter grows component by component: component `k`, when
/// its output is named, adds the line `T OUT_k = IN[k];`, indexing the input
/// with `k` itself; an unnamed component adds nothing.
pub proof fn law_deconstruct_component_line(
    tys: Seq<ShaderType>,
    inputs: Seq<Option<String>>,
    outputs: Seq<Option<String>>,
    k: int,
)
    requires
        0 <= k < tys.len(),
    ensures
        outputs[k] is Some ==> deconstruct_code(tys.take(k + 1), inputs, outputs)
            == deconstruct_code(tys.take(k), inputs, outputs) + glsl_type(tys[k]) + " "@ + slot(outputs, k)
                + " = "@ + slot(inputs, 0) + "["@ + decimal(k as nat) + "];\n"@,
        outputs[k] is None ==> deconstruct_code(tys.take(k + 1), inputs, outputs)
            == deconstruct_code(tys.take(k), inputs, outputs),
{
    assert(tys.take(k + 1).drop_last() =~= tys.take(k));
    assert(tys.take(k + 1).last() == tys[k]);
}

/// Splitting a `vec4` with every output named gives its four components in
/// order: the first output reads element 0, the second element 1, the third
/// element 2 and the fourth element 3.
pub proof fn law_vec4_split(inputs: Seq<Option<String>>, outputs: Seq<Option<String>>)
    requires
        outputs.len() >= 4,
        outputs[0] is Some,
        outputs[1] is Some,
        outputs[2] is Some,
        outputs[3] is Some,
    ensures
        deconstruct_code(Seq::new(4, |i: int| ShaderType::Float), inputs, outputs)
            == glsl_type(ShaderType::Float) + " "@ + slot(outputs, 0) + " = "@ + slot(inputs, 0) + "["@ + seq!['0'] + "];\n"@
            + glsl_type(ShaderType::Float) + " "@ + slot(outputs, 1) + " = "@ + slot(inputs, 0) + "["@ + seq!['1'] + "];\n"@
            + glsl_type(ShaderType::Float) + " "@ + slot(outputs, 2) + " = "@ + slot(inputs, 0) + "["@ + seq!['2'] + "];\n"@
            + glsl_type(ShaderType::Float) + " "@ + slot(outputs, 3) + " = "@ + slot(inputs, 0) + "["@ + seq!['3'] + "];\n"@,
{
    let tys = Seq::new(4, |i: int| ShaderType::Float);
    assert(tys.take(0) =~= Seq::<ShaderType>::empty());
    assert(tys.take(4) =~= tys);
    law_deconstruct_component_line(tys, inputs, outputs, 0);
    law_deconstruct_component_line(tys, inputs, outputs, 1);
    law_deconstruct_component_line(tys, inputs, outputs, 2);
    law_deconstruct_component_line(tys, inputs, outputs, 3);
    assert(decimal(0) == seq!['0']);
    assert(decimal(1) == seq!['1']);
    assert(decimal(2) == seq!['2']);
    assert(decimal(3) == seq!['3']);
    let z = deconstruct_code(tys.take(0), inputs, outputs);
    assert(z =~= Seq::<char>::empty());
    let l0 = glsl_type(ShaderType::Float) + " "@ + slot(outputs, 0) + " = "@ + slot(inputs, 0) + "["@ + seq!['0'] + "];\n"@;
    let l1 = glsl_type(ShaderType::Float) + " "@ + slot(outputs, 1) + " = "@ + slot(inputs, 0) + "["@ + seq!['1'] + "];\n"@;
    let l2 = glsl_type(ShaderType::Float) + " "@ + slot(outputs, 2) + " = "@ + slot(inputs, 0) + "["@ + seq!['2'] + "];\n"@;
    let l3 = glsl_type(ShaderType::Float) + " "@ + slot(outputs, 3) + " = "@ + slot(inputs, 0) + "["@ + seq!['3'] + "];\n"@;
    assert(deconstruct_code(tys.take(1), inputs, outputs) =~= l0);
    assert(deconstruct_code(tys.take(2), inputs, outputs) =~= l0 + l1);
    assert(deconstruct_code(tys.take(3), inputs, outputs) =~= l0 + l1 + l2);
    assert(deconstruct_code(tys.take(4), inputs, outputs) =~= l0 + l1 + l2 + l3);
}

impl Deconstruct {
    pub const INPUT: usize = 0;
    pub const OUTPUT_X: usize = 0;
    pub const OUTPUT_Y: usize = 1;
    pub const OUTPUT_Z: usize = 2;
    pub const OUTPUT_W: usize = 3;

    /// A splitter for `vec4`, `vec3` or `vec2` (one float output per
    /// component); `None` for other types.
    pub fn new(ty: ShaderType) -> (r: Option<Deconstruct>)
        ensures
            r is Some <==> vector_width(ty) is Some,
            r matches Some(c) ==> c.1 == ty && c.0@ == Seq::new(vector_width(ty).unwrap(), |i: int| ShaderType::Float),
    {
        match ty {
            ShaderType::Float4 => Some(Deconstruct(floats(4), ShaderType::Float4)),
            ShaderType::Float3 => Some(Deconstruct(floats(3), ShaderType::Float3)),
            ShaderType::Float2 => Some(Deconstruct(floats(2), ShaderType::Float2)),
            _ => None,
        }
    }

    /// One output per component.
    pub fn get_outputs(&self) -> (r: Vec<ShaderType>)
        ensures
            r@ == self.0@,
    {
        copy_types(&self.0)
    }

    pub fn generate(&self, inputs: &[Option<String>], outputs: &[Option<String>], output: &mut String)
        requires
            self.0@.len() <= outputs@.len(),
            (exists|i: int| 0 <= i < self.0@.len() && outputs@[i] is Some) ==> named(inputs@, 0),
        ensures
            final(output)@ == old(output)@ + deconstruct_code(self.0@, inputs@, outputs@),
    {
        proof {
            reveal_strlit(" ");
            reveal_strlit(" = ");
            reveal_strlit("[");
            reveal_strlit("];\n");
        }
        let ghost start = output@;
        let mut i: usize = 0;
        while i < self.0.len()
            invariant
                i <= self.0@.len(),
                self.0@.len() <= outputs@.len(),
                (exists|i: int| 0 <= i < self.0@.len() && outputs@[i] is Some) ==> named(inputs@, 0),
                output@ == start + deconstruct_code(self.0@.take(i as int), inputs@, outputs@),
            decreases self.0@.len() - i,
        {
            assert(self.0@.take(i + 1).drop_last() =~= self.0@.take(i as int));
            if let Some(output_name) = &outputs[i] {
                assert(outputs@[i as int] is Some);
                push_type(output, self.0[i]);
                push_str(output, " ");
                push_str(output, output_name.as_str());
                push_str(output, " = ");
                push_slot(output, inputs, 0);
                push_str(output, "[");
                push_decimal(output, i);
                push_str(output, "];\n");
            }
            assert(output@ =~= start + deconstruct_code(self.0@.take(i + 1), inputs@, outputs@));
            i = i + 1;
        }
        assert(self.0@.take(i as int) =~= self.0@);
    }
}

/// Extends a `vec3` to a `vec4` with `w` set to one.
pub struct Vector3Upgrade;

impl Vector3Upgrade {
    pub const INPUT: usize = 0;
    pub const OUTPUT: usize = 0;

    /// One `vec4` output.
    pub fn get_outputs(&self) -> (r: Vec<ShaderType>)
        ensures
            r@ == seq![ShaderType::Float4],
    {
        let mut r: Vec<ShaderType> = Vec::new();
        r.push(ShaderType::Float4);
        assert(r@ =~= seq![ShaderType::Float4]);
        r
    }

    pub fn generate(&self, inputs: &[Option<String>], outputs: &[Option<String>], output: &mut String)
        requires
            named(outputs@, 0),
            named(inputs@, 0),
        ensures
            final(output)@ == old(output)@ + "vec4 "@ + slot(outputs@, 0) + " = vec4("@ + slot(inputs@, 0)
                + ", 1.0);\n"@,
    {
        proof {
            reveal_strlit("vec4 ");
            reveal_strlit(" = vec4(");
            reveal_strlit(", 1.0);\n");
        }
        push_str(output, "vec4 ");
        push_slot(output, outputs, 0);
        push_str(output, " = vec4(");
        push_slot(output, inputs, 0);
        push_str(output, ", 1.0);\n");
        assert(final(output)@ =~= old(output)@ + "vec4 "@ + slot(outputs@, 0) + " = vec4("@ + slot(inputs@, 0)
            + ", 1.0);\n"@);
    }
}

/// Reads one element of an array.
pub struct ArrayAccess {
    pub output: ShaderType,
}

impl ArrayAccess {
    pub const INPUT_ARRAY: usize = 0;
    pub const INPUT_INDEX: usize = 1;
    pub const OUTPUT: usize = 0;

    pub fn new(ty: ShaderType) -> (r: ArrayAccess)
        ensures
            r.output == ty,
    {
        ArrayAccess { output: ty }
    }

    /// One output, of the element type.
    pub fn get_outputs(&self) -> (r: Vec<ShaderType>)
        ensures
            r@ == seq![self.output],
    {
        let mut r: Vec<ShaderType> = Vec::new();
        r.push(self.output);
        assert(r@ =~= seq![self.output]);
        r
    }

    /// Writes `T OUT = ARRAY[INDEX]` (without a closing semicolon).
    pub fn generate(&self, inputs: &[Option<String>], outputs: &[Option<String>], output: &mut String)
        requires
            named(outputs@, 0),
            named(inputs@, 0),
            named(inputs@, 1),
        ensures
            final(output)@ == old(output)@ + glsl_type(self.output) + " "@ + slot(outputs@, 0) + " = "@
                + slot(inputs@, 0) + "["@ + slot(inputs@, 1) + "]"@,
    {
        proof {
            reveal_strlit(" ");
            reveal_strlit(" = ");
            reveal_strlit("[");
            reveal_strlit("]");
        }
        push_type(output, self.output);
        push_str(output, " ");
        push_slot(output, outputs, 0);
        push_str(output, " = ");
        push_slot(output, inputs, 0);
        push_str(output, "[");
        push_slot(output, inputs, 1);
        push_str(output, "]");
        assert(final(output)@ =~= old(output)@ + glsl_type(self.output) + " "@ + slot(outputs@, 0) + " = "@
            + slot(inputs@, 0) + "["@ + slot(inputs@, 1) + "]"@);
    }
}

/// Reads one member of a struct.
pub struct MemberAccess {
    pub output: ShaderType,
    pub name: String,
}

impl MemberAccess {
    pub const INPUT_STRUCT: usize = 0;
    pub const INPUT_NAME: usize = 1;
    pub const OUTPUT: usize = 0;

    pub fn new(name: String, output: ShaderType) -> (r: MemberAccess)
        ensures
            r.name == name,
            r.output == output,
    {
        MemberAccess { name, output }
    }

    /// One output, of the member's type.
    pub fn get_outputs(&self) -> (r: Vec<ShaderType>)
        ensures
            r@ == seq![self.output],
    {
        let mut r: Vec<ShaderType> = Vec::new();
        r.push(self.output);
        assert(r@ =~= seq![self.output]);
        r
    }

    /// Writes `T OUT = STRUCT.NAME` (without a closing semicolon).
    pub fn generate(&self, inputs: &[Option<String>], outputs: &[Option<String>], output: &mut String)
        requires
            named(outputs@, 0),
            named(inputs@, 0),
        ensures
            final(output)@ == old(output)@ + glsl_type(self.output) + " "@ + slot(outputs@, 0) + " = "@
                + slot(inputs@, 0) + "."@ + self.name@,
    {
        proof {
            reveal_strlit(" ");
            reveal_strlit(" = ");
            reveal_strlit(".");
        }
        push_type(output, self.output);
        push_str(output, " ");
        push_slot(output, outputs, 0);
        push_str(output, " = ");
        push_slot(output, inputs, 0);
        push_str(output, ".");
        push_str(output, self.name.as_str());
        assert(final(output)@ =~= old(output)@ + glsl_type(self.output) + " "@ + slot(outputs@, 0) + " = "@
            + slot(inputs@, 0) + "."@ + self.name@);
    }
}

/// The type of a float constant with `len` components: `vec4`, `vec3` or
/// `vec2` for four, three or two, and `float` for any other count.
pub open spec fn constant_type(len: nat) -> ShaderType {
    if len == 4 {
        ShaderType::Float4
    } else if len == 3 {
        ShaderType::Float3
    } else if len == 2 {
        ShaderType::Float2
    } else {
        ShaderType::Float
    }
}

/// The shader type of a constant with `len` components (see [`constant_type`]).
pub fn constant_type_for(len: usize) -> (r: ShaderType)
    ensures
        r == constant_type(len as nat),
{
    if len == 4 {
        ShaderType::Float4
    } else if len == 3 {
        ShaderType::Float3
    } else if len == 2 {
        ShaderType::Float2
    } else {
        ShaderType::Float
    }
}

} // verus!
