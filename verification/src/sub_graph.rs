//! Merging one shader graph into another.
//!
//! The nodes of the merged graph are copied over, except those that play a
//! role the receiving graph already fills: its vertex output, a uniform of
//! the same type, a texture or a color output of the same name. Those are
//! matched to the receiving graph's node, whose inputs the merged node
//! overrides where it connects them. Every copied or matched node then has
//! its connections redirected through the same mapping.
use vstd::prelude::*;
use crate::arena::NodeIndex;
use crate::shader_graph::{
    contains_index, copy_members, texture_nodes, uniform_nodes, ColorOutput, GraphNode, Input, NodeView, ShaderGraph, Texture, Uniform, MAX_INPUT_OUTPUTS_PER_NODE,
};

verus! {

/// The first elements of the pairs of an association list.
pub open spec fn keys(v: Seq<(NodeIndex, NodeIndex)>) -> Seq<NodeIndex> {
    v.map_values(|p: (NodeIndex, NodeIndex)| p.0)
}

/// The second elements of the pairs of an association list.
pub open spec fn targets(v: Seq<(NodeIndex, NodeIndex)>) -> Seq<NodeIndex> {
    v.map_values(|p: (NodeIndex, NodeIndex)| p.1)
}

/// The map an association list describes.
pub open spec fn pair_map(v: Seq<(NodeIndex, NodeIndex)>) -> Map<NodeIndex, NodeIndex>
    decreases v.len(),
{
    if v.len() == 0 {
        Map::empty()
    } else {
        pair_map(v.drop_last()).insert(v.last().0, v.last().1)
    }
}

proof fn lemma_pair_map(v: Seq<(NodeIndex, NodeIndex)>)
    requires
        keys(v).no_duplicates(),
    ensures
        forall|k: NodeIndex| pair_map(v).contains_key(k) <==> keys(v).contains(k),
        forall|j: int| 0 <= j < v.len() ==> pair_map(v)[#[trigger] keys(v)[j]] == v[j].1,
    decreases v.len(),
{
    if v.len() > 0 {
        let w = v.drop_last();
        assert(keys(w) =~= keys(v).drop_last());
        assert(keys(w).no_duplicates()) by {
            assert forall|i: int, j: int| 0 <= i < keys(w).len() && 0 <= j < keys(w).len() && i != j
                implies keys(w)[i] != keys(w)[j] by {
                assert(keys(w)[i] == keys(v)[i]);
                assert(keys(w)[j] == keys(v)[j]);
            }
        }
        lemma_pair_map(w);
        assert forall|k: NodeIndex| pair_map(v).contains_key(k) <==> keys(v).contains(k) by {
            if keys(v).contains(k) {
                let j = choose|j: int| 0 <= j < keys(v).len() && keys(v)[j] == k;
                if j < w.len() {
                    assert(keys(w)[j] == k);
                }
            }
            if keys(w).contains(k) {
                let j = choose|j: int| 0 <= j < keys(w).len() && keys(w)[j] == k;
                assert(keys(v)[j] == k);
            }
            assert(keys(v)[v.len() - 1] == v.last().0);
        }
        assert forall|j: int| 0 <= j < v.len() implies pair_map(v)[#[trigger] keys(v)[j]] == v[j].1 by {
            if j < v.len() - 1 {
                assert(keys(w)[j] == keys(v)[j]);
                assert(keys(v)[j] != keys(v)[v.len() - 1]);
            }
        }
    }
}

/// Whatever `w` extends `v` with, the keys of `v` keep their targets.
proof fn lemma_pair_map_prefix(v: Seq<(NodeIndex, NodeIndex)>, w: Seq<(NodeIndex, NodeIndex)>)
    requires
        keys(w).no_duplicates(),
        v.len() <= w.len(),
        w.take(v.len() as int) == v,
    ensures
        forall|k: NodeIndex| #[trigger] pair_map(v).contains_key(k) ==> pair_map(w).contains_key(k) && pair_map(w)[k] == pair_map(v)[k],
{
    assert(keys(v) =~= keys(w).take(v.len() as int));
    assert(keys(v).no_duplicates()) by {
        assert forall|i: int, j: int| 0 <= i < keys(v).len() && 0 <= j < keys(v).len() && i != j
            implies keys(v)[i] != keys(v)[j] by {
            assert(keys(v)[i] == keys(w)[i]);
            assert(keys(v)[j] == keys(w)[j]);
        }
    }
    lemma_pair_map(v);
    lemma_pair_map(w);
    assert forall|k: NodeIndex| #[trigger] pair_map(v).contains_key(k) implies pair_map(w).contains_key(k) && pair_map(w)[k] == pair_map(v)[k] by {
        assert(keys(v).contains(k));
        let j = choose|j: int| 0 <= j < keys(v).len() && keys(v)[j] == k;
        assert(0 <= j < v.len());
        assert(v[j] == w.take(v.len() as int)[j]);
        assert(keys(w)[j] == k);
        assert(keys(w).contains(k));
        assert(pair_map(w)[keys(w)[j]] == w[j].1);
        assert(pair_map(v)[keys(v)[j]] == v[j].1);
    }
}

/// The inputs of `n` that are connected take their values from nodes in `d`.
pub open spec fn inputs_within(n: NodeView, d: Set<NodeIndex>) -> bool {
    forall|q: int| 0 <= q < n.inputs.len() && (#[trigger] n.inputs[q]) is Some
        ==> d.contains(n.inputs[q].unwrap().owner_node_index)
}

/// Every connection of the graph comes from a node of the graph.
pub open spec fn connections_closed(g: ShaderGraph) -> bool {
    forall|k: NodeIndex| #[trigger] g.nodes().contains_key(k) ==> inputs_within(g.nodes()[k], g.nodes().dom())
}

/// A connection redirected through `m`.
pub open spec fn remap_input(x: Option<Input>, m: Map<NodeIndex, NodeIndex>) -> Option<Input> {
    match x {
        Some(i) => Some(Input { owner_node_index: m[i.owner_node_index], owner_node_output: i.owner_node_output }),
        None => None,
    }
}

/// `n` with every connection redirected through `m`.
pub open spec fn remap_node(n: NodeView, m: Map<NodeIndex, NodeIndex>) -> NodeView {
    NodeView {
        inputs: n.inputs.map_values(|x: Option<Input>| remap_input(x, m)),
        passthrough: n.passthrough,
        outputs: n.outputs,
    }
}

/// `base` with each input that `top` connects taken from `top`.
pub open spec fn overlay(base: NodeView, top: NodeView) -> NodeView {
    NodeView {
        inputs: Seq::new(base.inputs.len(), |q: int| if top.inputs[q] is Some { top.inputs[q] } else { base.inputs[q] }),
        passthrough: base.passthrough,
        outputs: base.outputs,
    }
}

/// How many places the vertex output takes among the roles of `s` (0 or 1).
pub open spec fn vo_len(s: ShaderGraph) -> int {
    if s.vertex_output() is Some { 1 } else { 0 }
}

/// `j` is the first uniform of `us` of type `ty`.
pub open spec fn first_ty(us: Seq<Uniform>, ty: u128, j: int) -> bool {
    &&& 0 <= j < us.len()
    &&& us[j].ty_id == ty
    &&& forall|l: int| 0 <= l < j ==> us[l].ty_id != ty
}

/// `j` is the first texture of `ts` called `name`.
pub open spec fn first_texture(ts: Seq<Texture>, name: Seq<char>, j: int) -> bool {
    &&& 0 <= j < ts.len()
    &&& ts[j].name@ == name
    &&& forall|l: int| 0 <= l < j ==> ts[l].name@ != name
}

/// `j` is the first color output of `cs` called `name`.
pub open spec fn first_color(cs: Seq<ColorOutput>, name: Seq<char>, j: int) -> bool {
    &&& 0 <= j < cs.len()
    &&& cs[j].name@ == name
    &&& forall|l: int| 0 <= l < j ==> cs[l].name@ != name
}

/// Node `k` is the node of uniform `a` of `g`, whose type `s` first uses at `j`.
pub open spec fn uniform_match(s: ShaderGraph, g: ShaderGraph, k: NodeIndex, a: int, j: int) -> bool {
    &&& 0 <= a < g.uniform_list().len()
    &&& g.uniform_list()[a].node_index == k
    &&& first_ty(s.uniform_list(), g.uniform_list()[a].ty_id, j)
}

/// Node `k` is the node of texture `a` of `g`, whose name `s` first uses at `j`.
pub open spec fn texture_match(s: ShaderGraph, g: ShaderGraph, k: NodeIndex, a: int, j: int) -> bool {
    &&& 0 <= a < g.texture_list().len()
    &&& g.texture_list()[a].node_index == k
    &&& first_texture(s.texture_list(), g.texture_list()[a].name@, j)
}

/// Node `k` is the node of color output `a` of `g`, whose name `s` first uses at `j`.
pub open spec fn color_match(s: ShaderGraph, g: ShaderGraph, k: NodeIndex, a: int, j: int) -> bool {
    &&& 0 <= a < g.color_output_list().len()
    &&& g.color_output_list()[a].node == k
    &&& first_color(s.color_output_list(), g.color_output_list()[a].name@, j)
}

/// Where among the roles of `s` (see `special_nodes`) the node `k` of `g`
/// is matched, or -1 when it is copied as a new node.
pub open spec fn target_pos(s: ShaderGraph, g: ShaderGraph, k: NodeIndex) -> int {
    let vl = vo_len(s);
    let nu = s.uniform_list().len() as int;
    let nt = s.texture_list().len() as int;
    if g.vertex_output() == Some(k) && s.vertex_output() is Some {
        0
    } else if exists|a: int, j: int| uniform_match(s, g, k, a, j) {
        vl + (choose|a: int, j: int| uniform_match(s, g, k, a, j)).1
    } else if exists|a: int, j: int| texture_match(s, g, k, a, j) {
        vl + nu + (choose|a: int, j: int| texture_match(s, g, k, a, j)).1
    } else if exists|a: int, j: int| color_match(s, g, k, a, j) {
        vl + nu + nt + (choose|a: int, j: int| color_match(s, g, k, a, j)).1
    } else {
        -1
    }
}

/// What the matched node of `s` for node `k` of `g` holds before the
/// connections are redirected: the vertex output and the color outputs take
/// the inputs `k` connects; uniforms and textures stay as they are.
pub open spec fn expected(s: ShaderGraph, g: ShaderGraph, k: NodeIndex) -> NodeView {
    let t = s.special_nodes()[target_pos(s, g, k)];
    if g.vertex_output() == Some(k) || g.color_nodes().contains(k) {
        overlay(s.nodes()[t], g.nodes()[k])
    } else {
        s.nodes()[t]
    }
}

/// Some uniform of `us` has type `ty`.
pub open spec fn has_ty(us: Seq<Uniform>, ty: u128) -> bool {
    exists|j: int| 0 <= j < us.len() && us[j].ty_id == ty
}

/// Some texture of `ts` is called `name`.
pub open spec fn has_texture(ts: Seq<Texture>, name: Seq<char>) -> bool {
    exists|j: int| 0 <= j < ts.len() && ts[j].name@ == name
}

/// Some color output of `cs` is called `name`.
pub open spec fn has_color(cs: Seq<ColorOutput>, name: Seq<char>) -> bool {
    exists|j: int| 0 <= j < cs.len() && cs[j].name@ == name
}

/// The uniforms of `g` whose type `s` does not use, in order.
pub open spec fn new_uniforms(s: Seq<Uniform>, g: Seq<Uniform>) -> Seq<Uniform>
    decreases g.len(),
{
    if g.len() == 0 {
        Seq::empty()
    } else {
        new_uniforms(s, g.drop_last()) + if has_ty(s, g.last().ty_id) { Seq::empty() } else { seq![g.last()] }
    }
}

/// The textures of `g` whose name `s` does not use, in order.
pub open spec fn new_textures(s: Seq<Texture>, g: Seq<Texture>) -> Seq<Texture>
    decreases g.len(),
{
    if g.len() == 0 {
        Seq::empty()
    } else {
        new_textures(s, g.drop_last()) + if has_texture(s, g.last().name@) { Seq::empty() } else { seq![g.last()] }
    }
}

/// The color outputs of `g` whose name `s` does not use, in order.
pub open spec fn new_colors(s: Seq<ColorOutput>, g: Seq<ColorOutput>) -> Seq<ColorOutput>
    decreases g.len(),
{
    if g.len() == 0 {
        Seq::empty()
    } else {
        new_colors(s, g.drop_last()) + if has_color(s, g.last().name@) { Seq::empty() } else { seq![g.last()] }
    }
}

/// `a` is uniform `b` moved to node `node`.
pub open spec fn uniform_moved(a: Uniform, b: Uniform, node: NodeIndex) -> bool {
    &&& a.id == b.id
    &&& a.ty_id == b.ty_id
    &&& a.node_index == node
    &&& a.name@ == b.name@
    &&& a.attributes@ == b.attributes@
}

/// Texture `t` moved to the node `m` maps its node to.
pub open spec fn texture_moved(t: Texture, m: Map<NodeIndex, NodeIndex>) -> Texture {
    Texture { id: t.id, name: t.name, node_index: m[t.node_index] }
}

/// Color output `c` moved to the node `m` maps its node to.
pub open spec fn color_moved(c: ColorOutput, m: Map<NodeIndex, NodeIndex>) -> ColorOutput {
    ColorOutput { name: c.name, ty: c.ty, node: m[c.node] }
}

/// No two uniforms of `us` share a type.
pub open spec fn types_distinct(us: Seq<Uniform>) -> bool {
    forall|a: int, b: int| 0 <= a < us.len() && 0 <= b < us.len() && a != b
        ==> (#[trigger] us[a]).ty_id != (#[trigger] us[b]).ty_id
}

/// No two textures of `ts` share a name.
pub open spec fn texture_names_distinct(ts: Seq<Texture>) -> bool {
    forall|a: int, b: int| 0 <= a < ts.len() && 0 <= b < ts.len() && a != b
        ==> (#[trigger] ts[a]).name@ != (#[trigger] ts[b]).name@
}

/// No two color outputs of `cs` share a name.
pub open spec fn color_names_distinct(cs: Seq<ColorOutput>) -> bool {
    forall|a: int, b: int| 0 <= a < cs.len() && 0 <= b < cs.len() && a != b
        ==> (#[trigger] cs[a]).name@ != (#[trigger] cs[b]).name@
}

/// No two uniforms of `g` share a type, and no two textures or two color
/// outputs share a name.
pub open spec fn distinct_roles(g: ShaderGraph) -> bool {
    &&& types_distinct(g.uniform_list())
    &&& texture_names_distinct(g.texture_list())
    &&& color_names_distinct(g.color_output_list())
}

/// A matched node stands among the roles of `s`.
proof fn lemma_tp_bounds(s: ShaderGraph, g: ShaderGraph, k: NodeIndex)
    ensures
        target_pos(s, g, k) < s.special_nodes().len(),
        target_pos(s, g, k) >= -1,
{
    lemma_special_index(s);
    if g.vertex_output() == Some(k) && s.vertex_output() is Some {
    } else if exists|a: int, j: int| uniform_match(s, g, k, a, j) {
        let (a, j) = choose|a: int, j: int| uniform_match(s, g, k, a, j);
    } else if exists|a: int, j: int| texture_match(s, g, k, a, j) {
        let (a, j) = choose|a: int, j: int| texture_match(s, g, k, a, j);
    } else if exists|a: int, j: int| color_match(s, g, k, a, j) {
        let (a, j) = choose|a: int, j: int| color_match(s, g, k, a, j);
    }
}

/// The node of uniform `a` of `g` is matched to the first uniform of `s` of
/// its type, or copied when `s` has none.
proof fn lemma_tp_uniform(s: ShaderGraph, g: ShaderGraph, a: int)
    requires
        g.well_formed(),
        0 <= a < g.uniform_list().len(),
    ensures
        forall|j: int| first_ty(s.uniform_list(), g.uniform_list()[a].ty_id, j)
            ==> target_pos(s, g, g.uniform_list()[a].node_index) == vo_len(s) + j,
        !has_ty(s.uniform_list(), g.uniform_list()[a].ty_id) ==> target_pos(s, g, g.uniform_list()[a].node_index) == -1,
        g.vertex_output() != Some(g.uniform_list()[a].node_index),
        !g.color_nodes().contains(g.uniform_list()[a].node_index),
{
    lemma_special_index(g);
    let k = g.uniform_list()[a].node_index;
    let sp = g.special_nodes();
    let vl = vo_len(g);
    let nu = g.uniform_list().len() as int;
    let nt = g.texture_list().len() as int;
    assert(sp[vl + a] == k);
    if g.vertex_output() == Some(k) {
        assert(sp[0] == k);
    }
    assert forall|a2: int, j2: int| uniform_match(s, g, k, a2, j2) implies a2 == a by {
        assert(sp[vl + a2] == k);
    }
    assert forall|b: int, j2: int| !texture_match(s, g, k, b, j2) by {
        if texture_match(s, g, k, b, j2) {
            assert(sp[vl + nu + b] == k);
        }
    }
    assert forall|c: int, j2: int| !color_match(s, g, k, c, j2) by {
        if color_match(s, g, k, c, j2) {
            assert(sp[vl + nu + nt + c] == k);
        }
    }
    assert forall|j: int| first_ty(s.uniform_list(), g.uniform_list()[a].ty_id, j)
        implies target_pos(s, g, k) == vo_len(s) + j by {
        assert(uniform_match(s, g, k, a, j));
        let (a2, j2) = choose|a2: int, j2: int| uniform_match(s, g, k, a2, j2);
        assert(a2 == a);
        if j2 < j {
            assert(s.uniform_list()[j2].ty_id != g.uniform_list()[a].ty_id);
        }
        if j < j2 {
            assert(s.uniform_list()[j].ty_id != g.uniform_list()[a].ty_id);
        }
    }
    if !has_ty(s.uniform_list(), g.uniform_list()[a].ty_id) {
        assert forall|a2: int, j2: int| !uniform_match(s, g, k, a2, j2) by {
            if uniform_match(s, g, k, a2, j2) {
                assert(a2 == a);
            }
        }
    }
    if g.color_nodes().contains(k) {
        let c = choose|c: int| 0 <= c < g.color_nodes().len() && g.color_nodes()[c] == k;
        assert(sp[vl + nu + nt + c] == k);
    }
}

/// The node of texture `a` of `g` is matched to the first texture of `s`
/// of its name, or copied when `s` has none.
proof fn lemma_tp_texture(s: ShaderGraph, g: ShaderGraph, a: int)
    requires
        g.well_formed(),
        0 <= a < g.texture_list().len(),
    ensures
        forall|j: int| first_texture(s.texture_list(), g.texture_list()[a].name@, j)
            ==> target_pos(s, g, g.texture_list()[a].node_index) == vo_len(s) + s.uniform_list().len() + j,
        !has_texture(s.texture_list(), g.texture_list()[a].name@)
            ==> target_pos(s, g, g.texture_list()[a].node_index) == -1,
        g.vertex_output() != Some(g.texture_list()[a].node_index),
        !g.color_nodes().contains(g.texture_list()[a].node_index),
{
    lemma_special_index(g);
    let k = g.texture_list()[a].node_index;
    let sp = g.special_nodes();
    let vl = vo_len(g);
    let nu = g.uniform_list().len() as int;
    let nt = g.texture_list().len() as int;
    assert(sp[vl + nu + a] == k);
    if g.vertex_output() == Some(k) {
        assert(sp[0] == k);
    }
    assert forall|b: int, j2: int| !uniform_match(s, g, k, b, j2) by {
        if uniform_match(s, g, k, b, j2) {
            assert(sp[vl + b] == k);
        }
    }
    assert forall|a2: int, j2: int| texture_match(s, g, k, a2, j2) implies a2 == a by {
        assert(sp[vl + nu + a2] == k);
    }
    assert forall|c: int, j2: int| !color_match(s, g, k, c, j2) by {
        if color_match(s, g, k, c, j2) {
            assert(sp[vl + nu + nt + c] == k);
        }
    }
    assert forall|j: int| first_texture(s.texture_list(), g.texture_list()[a].name@, j)
        implies target_pos(s, g, k) == vo_len(s) + s.uniform_list().len() + j by {
        assert(texture_match(s, g, k, a, j));
        let (a2, j2) = choose|a2: int, j2: int| texture_match(s, g, k, a2, j2);
        assert(a2 == a);
        if j2 < j {
            assert(s.texture_list()[j2].name@ != g.texture_list()[a].name@);
        }
        if j < j2 {
            assert(s.texture_list()[j].name@ != g.texture_list()[a].name@);
        }
    }
    if !has_texture(s.texture_list(), g.texture_list()[a].name@) {
        assert forall|a2: int, j2: int| !texture_match(s, g, k, a2, j2) by {
            if texture_match(s, g, k, a2, j2) {
                assert(a2 == a);
            }
        }
    }
    if g.color_nodes().contains(k) {
        let c = choose|c: int| 0 <= c < g.color_nodes().len() && g.color_nodes()[c] == k;
        assert(sp[vl + nu + nt + c] == k);
    }
}

/// The node of color output `a` of `g` is matched to the first color output
/// of `s` of its name, or copied when `s` has none.
proof fn lemma_tp_color(s: ShaderGraph, g: ShaderGraph, a: int)
    requires
        g.well_formed(),
        0 <= a < g.color_output_list().len(),
    ensures
        forall|j: int| first_color(s.color_output_list(), g.color_output_list()[a].name@, j)
            ==> target_pos(s, g, g.color_output_list()[a].node)
                == vo_len(s) + s.uniform_list().len() + s.texture_list().len() + j,
        !has_color(s.color_output_list(), g.color_output_list()[a].name@)
            ==> target_pos(s, g, g.color_output_list()[a].node) == -1,
        g.vertex_output() != Some(g.color_output_list()[a].node),
        g.color_nodes().contains(g.color_output_list()[a].node),
{
    lemma_special_index(g);
    let k = g.color_output_list()[a].node;
    let sp = g.special_nodes();
    let vl = vo_len(g);
    let nu = g.uniform_list().len() as int;
    let nt = g.texture_list().len() as int;
    assert(sp[vl + nu + nt + a] == k);
    if g.vertex_output() == Some(k) {
        assert(sp[0] == k);
    }
    assert forall|b: int, j2: int| !uniform_match(s, g, k, b, j2) by {
        if uniform_match(s, g, k, b, j2) {
            assert(sp[vl + b] == k);
        }
    }
    assert forall|b: int, j2: int| !texture_match(s, g, k, b, j2) by {
        if texture_match(s, g, k, b, j2) {
            assert(sp[vl + nu + b] == k);
        }
    }
    assert forall|a2: int, j2: int| color_match(s, g, k, a2, j2) implies a2 == a by {
        assert(sp[vl + nu + nt + a2] == k);
    }
    assert forall|j: int| first_color(s.color_output_list(), g.color_output_list()[a].name@, j)
        implies target_pos(s, g, k) == vo_len(s) + s.uniform_list().len() + s.texture_list().len() + j by {
        assert(color_match(s, g, k, a, j));
        let (a2, j2) = choose|a2: int, j2: int| color_match(s, g, k, a2, j2);
        assert(a2 == a);
        if j2 < j {
            assert(s.color_output_list()[j2].name@ != g.color_output_list()[a].name@);
        }
        if j < j2 {
            assert(s.color_output_list()[j].name@ != g.color_output_list()[a].name@);
        }
    }
    if !has_color(s.color_output_list(), g.color_output_list()[a].name@) {
        assert forall|a2: int, j2: int| !color_match(s, g, k, a2, j2) by {
            if color_match(s, g, k, a2, j2) {
                assert(a2 == a);
            }
        }
    }
    assert(g.color_nodes()[a] == k);
}

/// The vertex output of `g` is matched to that of `s`, or copied when `s`
/// has none.
proof fn lemma_tp_vertex(s: ShaderGraph, g: ShaderGraph)
    requires
        g.well_formed(),
        g.vertex_output() is Some,
    ensures
        s.vertex_output() is Some ==> target_pos(s, g, g.vertex_output().unwrap()) == 0,
        s.vertex_output() is None ==> target_pos(s, g, g.vertex_output().unwrap()) == -1,
{
    lemma_special_index(g);
    let k = g.vertex_output().unwrap();
    let sp = g.special_nodes();
    let nu = g.uniform_list().len() as int;
    let nt = g.texture_list().len() as int;
    assert(sp[0] == k);
    assert forall|b: int, j2: int| !uniform_match(s, g, k, b, j2) by {
        if uniform_match(s, g, k, b, j2) {
            assert(sp[1 + b] == k);
        }
    }
    assert forall|b: int, j2: int| !texture_match(s, g, k, b, j2) by {
        if texture_match(s, g, k, b, j2) {
            assert(sp[1 + nu + b] == k);
        }
    }
    assert forall|b: int, j2: int| !color_match(s, g, k, b, j2) by {
        if color_match(s, g, k, b, j2) {
            assert(sp[1 + nu + nt + b] == k);
        }
    }
}

/// Two different nodes of `g` are never matched to the same role of `s`.
proof fn lemma_tp_injective(s: ShaderGraph, g: ShaderGraph, k1: NodeIndex, k2: NodeIndex)
    requires
        distinct_roles(g),
        k1 != k2,
        target_pos(s, g, k1) >= 0,
        target_pos(s, g, k2) >= 0,
    ensures
        target_pos(s, g, k1) != target_pos(s, g, k2),
{
    let vl = vo_len(s);
    let nu = s.uniform_list().len() as int;
    let nt = s.texture_list().len() as int;
    let p1 = target_pos(s, g, k1);
    let p2 = target_pos(s, g, k2);
    if p1 == p2 {
        if g.vertex_output() == Some(k1) && s.vertex_output() is Some {
            if g.vertex_output() == Some(k2) && s.vertex_output() is Some {
            } else if exists|a: int, j: int| uniform_match(s, g, k2, a, j) {
                let (a, j) = choose|a: int, j: int| uniform_match(s, g, k2, a, j);
            } else if exists|a: int, j: int| texture_match(s, g, k2, a, j) {
                let (a, j) = choose|a: int, j: int| texture_match(s, g, k2, a, j);
            } else if exists|a: int, j: int| color_match(s, g, k2, a, j) {
                let (a, j) = choose|a: int, j: int| color_match(s, g, k2, a, j);
            }
        } else if exists|a: int, j: int| uniform_match(s, g, k1, a, j) {
            let (a1, j1) = choose|a: int, j: int| uniform_match(s, g, k1, a, j);
            if g.vertex_output() == Some(k2) && s.vertex_output() is Some {
            } else if exists|a: int, j: int| uniform_match(s, g, k2, a, j) {
                let (a2, j2) = choose|a: int, j: int| uniform_match(s, g, k2, a, j);
                assert(j1 == j2);
                if a1 != a2 {
                    assert(g.uniform_list()[a1].ty_id != g.uniform_list()[a2].ty_id);
                }
            } else if exists|a: int, j: int| texture_match(s, g, k2, a, j) {
                let (a, j) = choose|a: int, j: int| texture_match(s, g, k2, a, j);
            } else if exists|a: int, j: int| color_match(s, g, k2, a, j) {
                let (a, j) = choose|a: int, j: int| color_match(s, g, k2, a, j);
            }
        } else if exists|a: int, j: int| texture_match(s, g, k1, a, j) {
            let (a1, j1) = choose|a: int, j: int| texture_match(s, g, k1, a, j);
            if g.vertex_output() == Some(k2) && s.vertex_output() is Some {
            } else if exists|a: int, j: int| uniform_match(s, g, k2, a, j) {
                let (a, j) = choose|a: int, j: int| uniform_match(s, g, k2, a, j);
            } else if exists|a: int, j: int| texture_match(s, g, k2, a, j) {
                let (a2, j2) = choose|a: int, j: int| texture_match(s, g, k2, a, j);
                assert(j1 == j2);
                if a1 != a2 {
                    assert(g.texture_list()[a1].name@ != g.texture_list()[a2].name@);
                }
            } else if exists|a: int, j: int| color_match(s, g, k2, a, j) {
                let (a, j) = choose|a: int, j: int| color_match(s, g, k2, a, j);
            }
        } else if exists|a: int, j: int| color_match(s, g, k1, a, j) {
            let (a1, j1) = choose|a: int, j: int| color_match(s, g, k1, a, j);
            if g.vertex_output() == Some(k2) && s.vertex_output() is Some {
            } else if exists|a: int, j: int| uniform_match(s, g, k2, a, j) {
                let (a, j) = choose|a: int, j: int| uniform_match(s, g, k2, a, j);
            } else if exists|a: int, j: int| texture_match(s, g, k2, a, j) {
                let (a, j) = choose|a: int, j: int| texture_match(s, g, k2, a, j);
            } else if exists|a: int, j: int| color_match(s, g, k2, a, j) {
                let (a2, j2) = choose|a: int, j: int| color_match(s, g, k2, a, j);
                assert(j1 == j2);
                if a1 != a2 {
                    assert(g.color_output_list()[a1].name@ != g.color_output_list()[a2].name@);
                }
            }
        }
    }
}

/// The node that `key` is paired with, if any.
fn lookup(v: &Vec<(NodeIndex, NodeIndex)>, key: NodeIndex) -> (r: Option<NodeIndex>)
    requires
        keys(v@).no_duplicates(),
    ensures
        r is Some <==> pair_map(v@).contains_key(key),
        r is Some ==> r.unwrap() == pair_map(v@)[key],
{
    proof {
        lemma_pair_map(v@);
    }
    let mut i: usize = 0;
    while i < v.len()
        invariant
            i <= v@.len(),
            keys(v@).no_duplicates(),
            forall|j: int| 0 <= j < i ==> keys(v@)[j] != key,
        decreases v@.len() - i,
    {
        if v[i].0 == key {
            proof {
                lemma_pair_map(v@);
                assert(keys(v@)[i as int] == key);
                assert(keys(v@).contains(key));
            }
            return Some(v[i].1);
        }
        assert(keys(v@)[i as int] == v@[i as int].0);
        i = i + 1;
    }
    proof {
        lemma_pair_map(v@);
        if keys(v@).contains(key) {
            let j = choose|j: int| 0 <= j < keys(v@).len() && keys(v@)[j] == key;
        }
    }
    None
}

/// `base` with each input that `top` connects taken from `top`.
fn overlay_inputs(
    base: &[Option<Input>; MAX_INPUT_OUTPUTS_PER_NODE],
    top: &[Option<Input>; MAX_INPUT_OUTPUTS_PER_NODE],
) -> (r: [Option<Input>; MAX_INPUT_OUTPUTS_PER_NODE])
    ensures
        r@ =~= Seq::new(base@.len(), |q: int| if top@[q] is Some { top@[q] } else { base@[q] }),
{
    let mut r = *base;
    let mut q: usize = 0;
    while q < MAX_INPUT_OUTPUTS_PER_NODE
        invariant
            q <= MAX_INPUT_OUTPUTS_PER_NODE,
            r@.len() == MAX_INPUT_OUTPUTS_PER_NODE,
            base@.len() == MAX_INPUT_OUTPUTS_PER_NODE,
            top@.len() == MAX_INPUT_OUTPUTS_PER_NODE,
            forall|p: int| 0 <= p < q ==> r@[p] == if top@[p] is Some { top@[p] } else { base@[p] },
            forall|p: int| q <= p < MAX_INPUT_OUTPUTS_PER_NODE ==> r@[p] == base@[p],
        decreases MAX_INPUT_OUTPUTS_PER_NODE - q,
    {
        if top[q].is_some() {
            r[q] = top[q];
        }
        q = q + 1;
    }
    r
}

/// `inputs` with every connection redirected through the pairs `v`.
fn remap_inputs(
    inputs: &[Option<Input>; MAX_INPUT_OUTPUTS_PER_NODE],
    v: &Vec<(NodeIndex, NodeIndex)>,
) -> (r: [Option<Input>; MAX_INPUT_OUTPUTS_PER_NODE])
    requires
        keys(v@).no_duplicates(),
        forall|q: int| 0 <= q < inputs@.len() && (#[trigger] inputs@[q]) is Some
            ==> pair_map(v@).contains_key(inputs@[q].unwrap().owner_node_index),
    ensures
        r@ =~= inputs@.map_values(|x: Option<Input>| remap_input(x, pair_map(v@))),
{
    let mut r = *inputs;
    let mut q: usize = 0;
    while q < MAX_INPUT_OUTPUTS_PER_NODE
        invariant
            q <= MAX_INPUT_OUTPUTS_PER_NODE,
            r@.len() == MAX_INPUT_OUTPUTS_PER_NODE,
            inputs@.len() == MAX_INPUT_OUTPUTS_PER_NODE,
            keys(v@).no_duplicates(),
            forall|p: int| 0 <= p < inputs@.len() && (#[trigger] inputs@[p]) is Some
                ==> pair_map(v@).contains_key(inputs@[p].unwrap().owner_node_index),
            forall|p: int| 0 <= p < q ==> r@[p] == remap_input(inputs@[p], pair_map(v@)),
            forall|p: int| q <= p < MAX_INPUT_OUTPUTS_PER_NODE ==> r@[p] == inputs@[p],
        decreases MAX_INPUT_OUTPUTS_PER_NODE - q,
    {
        match inputs[q] {
            Some(x) => {
                assert(inputs@[q as int] is Some);
                let owner = lookup(v, x.owner_node_index).unwrap();
                r[q] = Some(Input { owner_node_index: owner, owner_node_output: x.owner_node_output });
            },
            None => {},
        }
        q = q + 1;
    }
    r
}

/// The nodes `nodes` after the targets of the pairs `v` have each had their
/// connections redirected through `v`.
pub open spec fn rewired(nodes: Map<NodeIndex, NodeView>, v: Seq<(NodeIndex, NodeIndex)>) -> Map<NodeIndex, NodeView> {
    Map::new(
        |i: NodeIndex| nodes.contains_key(i),
        |i: NodeIndex| if targets(v).contains(i) { remap_node(nodes[i], pair_map(v)) } else { nodes[i] },
    )
}

/// Redirects the connections of every target of the pairs `v`, once each.
fn rewire(dst: &mut ShaderGraph, v: &Vec<(NodeIndex, NodeIndex)>)
    requires
        keys(v@).no_duplicates(),
        forall|j: int| 0 <= j < v@.len() ==> old(dst).nodes().contains_key(#[trigger] targets(v@)[j]),
        forall|j: int| 0 <= j < v@.len()
            ==> inputs_within(old(dst).nodes()[#[trigger] targets(v@)[j]], pair_map(v@).dom()),
    ensures
        old(dst).well_formed() ==> final(dst).well_formed(),
        final(dst).nodes() == rewired(old(dst).nodes(), v@),
        final(dst).vertex_output() == old(dst).vertex_output(),
        final(dst).color_output_list() == old(dst).color_output_list(),
        final(dst).uniform_list() == old(dst).uniform_list(),
        final(dst).texture_list() == old(dst).texture_list(),
        final(dst).attribute_list() == old(dst).attribute_list(),
{
    let ghost n0 = dst.nodes();
    let ghost m = pair_map(v@);
    let mut done: Vec<NodeIndex> = Vec::new();
    let mut j: usize = 0;
    while j < v.len()
        invariant
            j <= v@.len(),
            n0 == old(dst).nodes(),
            m == pair_map(v@),
            keys(v@).no_duplicates(),
            forall|l: int| 0 <= l < v@.len() ==> n0.contains_key(#[trigger] targets(v@)[l]),
            forall|l: int| 0 <= l < v@.len() ==> inputs_within(n0[#[trigger] targets(v@)[l]], m.dom()),
            forall|x: NodeIndex| done@.contains(x) <==> targets(v@).take(j as int).contains(x),
            dst.nodes() == Map::new(
                |i: NodeIndex| n0.contains_key(i),
                |i: NodeIndex| if done@.contains(i) { remap_node(n0[i], m) } else { n0[i] },
            ),
            old(dst).well_formed() ==> dst.well_formed(),
            dst.vertex_output() == old(dst).vertex_output(),
            dst.color_output_list() == old(dst).color_output_list(),
            dst.uniform_list() == old(dst).uniform_list(),
            dst.texture_list() == old(dst).texture_list(),
            dst.attribute_list() == old(dst).attribute_list(),
        decreases v@.len() - j,
    {
        let t = v[j].1;
        assert(targets(v@)[j as int] == t);
        assert forall|x: NodeIndex| targets(v@).take(j + 1).contains(x)
            <==> (targets(v@).take(j as int).contains(x) || x == t) by {
            let a = targets(v@).take(j + 1);
            let b = targets(v@).take(j as int);
            if a.contains(x) {
                let l = choose|l: int| 0 <= l < a.len() && a[l] == x;
                if l < j {
                    assert(b[l] == x);
                }
            }
            if b.contains(x) {
                let l = choose|l: int| 0 <= l < b.len() && b[l] == x;
                assert(a[l] == x);
            }
            if x == t {
                assert(a[j as int] == x);
            }
        }
        let ghost done0 = done@;
        if !contains_index(&done, t) {
            let ghost before = dst.nodes();
            assert(n0.contains_key(t));
            assert(before[t] == n0[t]);
            let node = dst.node_ref(t);
            assert(node@ == n0[t]);
            assert forall|q: int| 0 <= q < node.inputs@.len() && (#[trigger] node.inputs@[q]) is Some
                implies pair_map(v@).contains_key(node.inputs@[q].unwrap().owner_node_index) by {
                assert(inputs_within(n0[targets(v@)[j as int]], m.dom()));
                assert(n0[t].inputs[q] == node.inputs@[q]);
            }
            let inputs = remap_inputs(&node.inputs, v);
            dst.set_node_inputs(t, inputs);
            done.push(t);
            proof {
                assert forall|x: NodeIndex| done@.contains(x) <==> (done0.contains(x) || x == t) by {
                    if done@.contains(x) {
                        let l = choose|l: int| 0 <= l < done@.len() && done@[l] == x;
                        if l < done0.len() {
                            assert(done0[l] == x);
                        }
                    }
                    if done0.contains(x) {
                        let l = choose|l: int| 0 <= l < done0.len() && done0[l] == x;
                        assert(done@[l] == x);
                    }
                    if x == t {
                        assert(done@[done0.len() as int] == x);
                    }
                }
                assert(inputs@ =~= n0[t].inputs.map_values(|x: Option<Input>| remap_input(x, m)));
                assert(NodeView { inputs: inputs@, ..before[t] } == remap_node(n0[t], m));
                assert(dst.nodes() =~= Map::new(
                    |i: NodeIndex| n0.contains_key(i),
                    |i: NodeIndex| if done@.contains(i) { remap_node(n0[i], m) } else { n0[i] },
                ));
            }
        }
        assert forall|x: NodeIndex| done@.contains(x) <==> targets(v@).take(j + 1).contains(x) by {
            assert(targets(v@).take(j + 1).contains(x) <==> (targets(v@).take(j as int).contains(x) || x == t));
            assert(done0.contains(x) <==> targets(v@).take(j as int).contains(x));
            if done0.contains(t) {
                assert(done@ == done0);
            }
            assert(done@.contains(x) <==> (done0.contains(x) || x == t));
        }
        j = j + 1;
    }
    proof {
        assert(targets(v@).take(v@.len() as int) =~= targets(v@));
        assert(dst.nodes() =~= rewired(n0, v@));
    }
}

/// The pair `p` made so far puts node `p.0` of `g` where it belongs: on its
/// matched role of `s0`, holding what that role should hold before the
/// connections are redirected, or on a node `s0` did not have, holding a copy
/// of the node.
pub open spec fn pair_ok(s0: ShaderGraph, g: ShaderGraph, nodes: Map<NodeIndex, NodeView>, p: (NodeIndex, NodeIndex)) -> bool {
    let pos = target_pos(s0, g, p.0);
    if pos >= 0 {
        p.1 == s0.special_nodes()[pos] && nodes[p.1] == expected(s0, g, p.0)
    } else {
        !s0.nodes().contains_key(p.1) && nodes[p.1] == g.nodes()[p.0]
    }
}

/// A merge of `g` into `s0`, now at `cur`, has made the pairs `v` so far.
pub open spec fn merge_ok(s0: ShaderGraph, g: ShaderGraph, cur: ShaderGraph, v: Seq<(NodeIndex, NodeIndex)>) -> bool {
    &&& keys(v).no_duplicates()
    &&& targets(v).no_duplicates()
    &&& forall|j: int| 0 <= j < v.len() ==> g.nodes().contains_key(#[trigger] keys(v)[j])
    &&& forall|j: int| 0 <= j < v.len() ==> cur.nodes().contains_key(#[trigger] targets(v)[j])
    &&& forall|j: int| 0 <= j < v.len() ==> pair_ok(s0, g, cur.nodes(), #[trigger] v[j])
    &&& forall|i: NodeIndex| #[trigger] cur.nodes().contains_key(i) <==> (s0.nodes().contains_key(i) || targets(v).contains(i))
    &&& forall|i: NodeIndex| s0.nodes().contains_key(i) && !targets(v).contains(i) ==> #[trigger] cur.nodes()[i] == s0.nodes()[i]
    &&& cur.well_formed()
    &&& cur.vertex_output() == s0.vertex_output()
    &&& cur.attribute_list() == s0.attribute_list()
}

/// Appending a pair to a list keeps the earlier ones and adds it.
proof fn lemma_push_pair(v: Seq<(NodeIndex, NodeIndex)>, p: (NodeIndex, NodeIndex))
    ensures
        keys(v.push(p)) == keys(v).push(p.0),
        targets(v.push(p)) == targets(v).push(p.1),
        pair_map(v.push(p)) == pair_map(v).insert(p.0, p.1),
        forall|x: NodeIndex| keys(v.push(p)).contains(x) <==> (keys(v).contains(x) || x == p.0),
        forall|x: NodeIndex| targets(v.push(p)).contains(x) <==> (targets(v).contains(x) || x == p.1),
{
    assert(keys(v.push(p)) =~= keys(v).push(p.0));
    assert(targets(v.push(p)) =~= targets(v).push(p.1));
    assert(v.push(p).drop_last() =~= v);
    assert forall|x: NodeIndex| keys(v.push(p)).contains(x) <==> (keys(v).contains(x) || x == p.0) by {
        let a = keys(v.push(p));
        if a.contains(x) {
            let l = choose|l: int| 0 <= l < a.len() && a[l] == x;
            if l < v.len() {
                assert(keys(v)[l] == x);
            }
        }
        if keys(v).contains(x) {
            let l = choose|l: int| 0 <= l < keys(v).len() && keys(v)[l] == x;
            assert(a[l] == x);
        }
        if x == p.0 {
            assert(a[v.len() as int] == x);
        }
    }
    assert forall|x: NodeIndex| targets(v.push(p)).contains(x) <==> (targets(v).contains(x) || x == p.1) by {
        let a = targets(v.push(p));
        if a.contains(x) {
            let l = choose|l: int| 0 <= l < a.len() && a[l] == x;
            if l < v.len() {
                assert(targets(v)[l] == x);
            }
        }
        if targets(v).contains(x) {
            let l = choose|l: int| 0 <= l < targets(v).len() && targets(v)[l] == x;
            assert(a[l] == x);
        }
        if x == p.1 {
            assert(a[v.len() as int] == x);
        }
    }
}

/// Pairing a node of `g` with a fresh copy of it keeps the merge in order.
proof fn lemma_push_fresh(
    s0: ShaderGraph,
    g: ShaderGraph,
    c0: ShaderGraph,
    c1: ShaderGraph,
    v: Seq<(NodeIndex, NodeIndex)>,
    k: NodeIndex,
    t: NodeIndex,
)
    requires
        merge_ok(s0, g, c0, v),
        g.nodes().contains_key(k),
        !keys(v).contains(k),
        target_pos(s0, g, k) < 0,
        !c0.nodes().contains_key(t),
        c1.nodes() == c0.nodes().insert(t, g.nodes()[k]),
        c1.well_formed(),
        c1.vertex_output() == s0.vertex_output(),
        c1.attribute_list() == s0.attribute_list(),
    ensures
        merge_ok(s0, g, c1, v.push((k, t))),
{
    let w = v.push((k, t));
    lemma_push_pair(v, (k, t));
    assert(!targets(v).contains(t));
    assert forall|j: int| 0 <= j < w.len() implies pair_ok(s0, g, c1.nodes(), #[trigger] w[j]) by {
        if j < v.len() {
            assert(w[j] == v[j]);
            assert(pair_ok(s0, g, c0.nodes(), v[j]));
            assert(targets(v)[j] == v[j].1);
        }
    }
    assert forall|j: int| 0 <= j < w.len() implies g.nodes().contains_key(#[trigger] keys(w)[j]) by {
        if j < v.len() {
            assert(keys(w)[j] == keys(v)[j]);
        }
    }
    assert forall|j: int| 0 <= j < w.len() implies c1.nodes().contains_key(#[trigger] targets(w)[j]) by {
        if j < v.len() {
            assert(targets(w)[j] == targets(v)[j]);
        }
    }
    assert forall|i: NodeIndex| s0.nodes().contains_key(i) && !targets(w).contains(i)
        implies #[trigger] c1.nodes()[i] == s0.nodes()[i] by {
        assert(c0.nodes()[i] == s0.nodes()[i]);
    }
}

/// Pairing a node of `g` with its matched role of `s0`, once that node holds
/// what it should, keeps the merge in order.
proof fn lemma_push_matched(
    s0: ShaderGraph,
    g: ShaderGraph,
    c0: ShaderGraph,
    c1: ShaderGraph,
    v: Seq<(NodeIndex, NodeIndex)>,
    k: NodeIndex,
)
    requires
        s0.well_formed(),
        merge_ok(s0, g, c0, v),
        g.nodes().contains_key(k),
        !keys(v).contains(k),
        target_pos(s0, g, k) >= 0,
        forall|j: int| 0 <= j < v.len() ==> target_pos(s0, g, #[trigger] keys(v)[j]) != target_pos(s0, g, k),
        c1.nodes() == c0.nodes().insert(s0.special_nodes()[target_pos(s0, g, k)], expected(s0, g, k)),
        c1.well_formed(),
        c1.vertex_output() == s0.vertex_output(),
        c1.attribute_list() == s0.attribute_list(),
    ensures
        merge_ok(s0, g, c1, v.push((k, s0.special_nodes()[target_pos(s0, g, k)]))),
{
    lemma_tp_bounds(s0, g, k);
    let pos = target_pos(s0, g, k);
    let t = s0.special_nodes()[pos];
    let w = v.push((k, t));
    lemma_push_pair(v, (k, t));
    assert(s0.nodes().contains_key(t));
    assert(c0.nodes().contains_key(t));
    assert(!targets(v).contains(t)) by {
        if targets(v).contains(t) {
            let j = choose|j: int| 0 <= j < targets(v).len() && targets(v)[j] == t;
            assert(pair_ok(s0, g, c0.nodes(), v[j]));
            assert(targets(v)[j] == v[j].1);
            assert(keys(v)[j] == v[j].0);
            lemma_tp_bounds(s0, g, v[j].0);
        }
    }
    assert forall|j: int| 0 <= j < w.len() implies pair_ok(s0, g, c1.nodes(), #[trigger] w[j]) by {
        if j < v.len() {
            assert(w[j] == v[j]);
            assert(pair_ok(s0, g, c0.nodes(), v[j]));
            assert(targets(v)[j] == v[j].1);
        }
    }
    assert forall|j: int| 0 <= j < w.len() implies g.nodes().contains_key(#[trigger] keys(w)[j]) by {
        if j < v.len() {
            assert(keys(w)[j] == keys(v)[j]);
        }
    }
    assert forall|j: int| 0 <= j < w.len() implies c1.nodes().contains_key(#[trigger] targets(w)[j]) by {
        if j < v.len() {
            assert(targets(w)[j] == targets(v)[j]);
        }
    }
    assert forall|i: NodeIndex| s0.nodes().contains_key(i) && !targets(w).contains(i)
        implies #[trigger] c1.nodes()[i] == s0.nodes()[i] by {
        assert(c0.nodes()[i] == s0.nodes()[i]);
    }
}

/// The node of `g`'s vertex output, when both graphs have one.
pub open spec fn vo_keys(s0: ShaderGraph, g: ShaderGraph) -> Seq<NodeIndex> {
    if g.vertex_output() is Some && s0.vertex_output() is Some {
        seq![g.vertex_output().unwrap()]
    } else {
        Seq::empty()
    }
}

/// The nodes of `g` that a merge into `s0` handles by their role.
pub open spec fn role_keys(s0: ShaderGraph, g: ShaderGraph) -> Seq<NodeIndex> {
    vo_keys(s0, g) + uniform_nodes(g.uniform_list()) + texture_nodes(g.texture_list()) + g.color_nodes()
}

/// Each uniform `new_uniforms` keeps is one of `g`.
proof fn lemma_new_uniforms_from(s: Seq<Uniform>, g: Seq<Uniform>)
    ensures
        forall|p: int| 0 <= p < new_uniforms(s, g).len()
            ==> exists|a: int| 0 <= a < g.len() && g[a] == #[trigger] new_uniforms(s, g)[p],
    decreases g.len(),
{
    if g.len() > 0 {
        lemma_new_uniforms_from(s, g.drop_last());
        let prev = new_uniforms(s, g.drop_last());
        assert forall|p: int| 0 <= p < new_uniforms(s, g).len()
            implies exists|a: int| 0 <= a < g.len() && g[a] == #[trigger] new_uniforms(s, g)[p] by {
            if p < prev.len() {
                assert(new_uniforms(s, g)[p] == prev[p]);
                let a = choose|a: int| 0 <= a < g.drop_last().len() && g.drop_last()[a] == prev[p];
                assert(g[a] == prev[p]);
            } else {
                assert(new_uniforms(s, g)[p] == g[g.len() - 1]);
            }
        }
    }
}

/// Each texture `new_textures` keeps is one of `g`.
proof fn lemma_new_textures_from(s: Seq<Texture>, g: Seq<Texture>)
    ensures
        forall|p: int| 0 <= p < new_textures(s, g).len()
            ==> exists|a: int| 0 <= a < g.len() && g[a] == #[trigger] new_textures(s, g)[p],
    decreases g.len(),
{
    if g.len() > 0 {
        lemma_new_textures_from(s, g.drop_last());
        let prev = new_textures(s, g.drop_last());
        assert forall|p: int| 0 <= p < new_textures(s, g).len()
            implies exists|a: int| 0 <= a < g.len() && g[a] == #[trigger] new_textures(s, g)[p] by {
            if p < prev.len() {
                assert(new_textures(s, g)[p] == prev[p]);
                let a = choose|a: int| 0 <= a < g.drop_last().len() && g.drop_last()[a] == prev[p];
                assert(g[a] == prev[p]);
            } else {
                assert(new_textures(s, g)[p] == g[g.len() - 1]);
            }
        }
    }
}

/// Each color output `new_colors` keeps is one of `g`.
proof fn lemma_new_colors_from(s: Seq<ColorOutput>, g: Seq<ColorOutput>)
    ensures
        forall|p: int| 0 <= p < new_colors(s, g).len()
            ==> exists|a: int| 0 <= a < g.len() && g[a] == #[trigger] new_colors(s, g)[p],
    decreases g.len(),
{
    if g.len() > 0 {
        lemma_new_colors_from(s, g.drop_last());
        let prev = new_colors(s, g.drop_last());
        assert forall|p: int| 0 <= p < new_colors(s, g).len()
            implies exists|a: int| 0 <= a < g.len() && g[a] == #[trigger] new_colors(s, g)[p] by {
            if p < prev.len() {
                assert(new_colors(s, g)[p] == prev[p]);
                let a = choose|a: int| 0 <= a < g.drop_last().len() && g.drop_last()[a] == prev[p];
                assert(g[a] == prev[p]);
            } else {
                assert(new_colors(s, g)[p] == g[g.len() - 1]);
            }
        }
    }
}

/// The role `k` is matched to is free so far, and holds what `s0` had there.
proof fn lemma_target_free(s0: ShaderGraph, g: ShaderGraph, c0: ShaderGraph, v: Seq<(NodeIndex, NodeIndex)>, k: NodeIndex)
    requires
        s0.well_formed(),
        merge_ok(s0, g, c0, v),
        target_pos(s0, g, k) >= 0,
        forall|j: int| 0 <= j < v.len() ==> target_pos(s0, g, #[trigger] keys(v)[j]) != target_pos(s0, g, k),
    ensures
        s0.nodes().contains_key(s0.special_nodes()[target_pos(s0, g, k)]),
        !targets(v).contains(s0.special_nodes()[target_pos(s0, g, k)]),
        c0.nodes()[s0.special_nodes()[target_pos(s0, g, k)]] == s0.nodes()[s0.special_nodes()[target_pos(s0, g, k)]],
{
    lemma_tp_bounds(s0, g, k);
    let t = s0.special_nodes()[target_pos(s0, g, k)];
    if targets(v).contains(t) {
        let j = choose|j: int| 0 <= j < targets(v).len() && targets(v)[j] == t;
        assert(pair_ok(s0, g, c0.nodes(), v[j]));
        assert(targets(v)[j] == v[j].1);
        assert(keys(v)[j] == v[j].0);
        lemma_tp_bounds(s0, g, v[j].0);
    }
}

/// Distinct nodes of `g` not yet paired are matched to different roles.
proof fn lemma_tp_fresh_key(s0: ShaderGraph, g: ShaderGraph, v: Seq<(NodeIndex, NodeIndex)>, k: NodeIndex)
    requires
        distinct_roles(g),
        !keys(v).contains(k),
        target_pos(s0, g, k) >= 0,
    ensures
        forall|j: int| 0 <= j < v.len() ==> target_pos(s0, g, #[trigger] keys(v)[j]) != target_pos(s0, g, k),
{
    assert forall|j: int| 0 <= j < v.len() implies target_pos(s0, g, #[trigger] keys(v)[j]) != target_pos(s0, g, k) by {
        assert(keys(v)[j] != k);
        if target_pos(s0, g, keys(v)[j]) >= 0 {
            lemma_tp_injective(s0, g, keys(v)[j], k);
        }
    }
}

/// Pairs the vertex output of `g` with that of `dst`, which takes the
/// inputs it connects.
fn merge_vertex_output(dst: &mut ShaderGraph, g: &ShaderGraph, Ghost(s0): Ghost<ShaderGraph>) -> (v: Vec<(NodeIndex, NodeIndex)>)
    requires
        *old(dst) == s0,
        s0.well_formed(),
        g.well_formed(),
    ensures
        merge_ok(s0, *g, *final(dst), v@),
        keys(v@) == vo_keys(s0, *g),
        final(dst).uniform_list() == s0.uniform_list(),
        final(dst).texture_list() == s0.texture_list(),
        final(dst).color_output_list() == s0.color_output_list(),
{
    let mut v: Vec<(NodeIndex, NodeIndex)> = Vec::new();
    proof {
        assert(keys(v@) =~= Seq::<NodeIndex>::empty());
        assert(targets(v@) =~= Seq::<NodeIndex>::empty());
        assert(merge_ok(s0, *g, *dst, v@));
    }
    match (g.vertex_output_index(), dst.vertex_output_index()) {
        (Some(output), Some(current)) => {
            let ghost c0 = *dst;
            proof {
                lemma_tp_vertex(s0, *g);
                lemma_special_index(s0);
                lemma_special_index(*g);
                assert(g.special_nodes()[0] == output);
                assert(s0.special_nodes()[0] == current);
                assert(keys(v@) =~= Seq::<NodeIndex>::empty());
                lemma_target_free(s0, *g, c0, v@, output);
            }
            let base = dst.node_ref(current);
            let top = g.node_ref(output);
            let inputs = overlay_inputs(&base.inputs, &top.inputs);
            dst.set_node_inputs(current, inputs);
            proof {
                assert(expected(s0, *g, output) == overlay(s0.nodes()[current], g.nodes()[output]));
                assert(NodeView { inputs: inputs@, ..c0.nodes()[current] } =~= overlay(s0.nodes()[current], g.nodes()[output]));
                lemma_push_matched(s0, *g, c0, *dst, v@, output);
                lemma_push_pair(v@, (output, current));
                assert(keys(v@.push((output, current))) =~= vo_keys(s0, *g));
            }
            v.push((output, current));
        },
        _ => {
            assert(keys(v@) =~= vo_keys(s0, *g));
        },
    }
    v
}

/// The first of the first `n` uniforms of `us` of type `ty`.
fn find_uniform(us: &Vec<Uniform>, n: usize, ty: u128) -> (r: Option<usize>)
    requires
        n <= us@.len(),
    ensures
        match r {
            Some(j) => first_ty(us@.take(n as int), ty, j as int),
            None => !has_ty(us@.take(n as int), ty),
        },
{
    let mut i: usize = 0;
    while i < n
        invariant
            i <= n,
            n <= us@.len(),
            forall|l: int| 0 <= l < i ==> us@[l].ty_id != ty,
        decreases n - i,
    {
        if us[i].ty_id == ty {
            assert(first_ty(us@.take(n as int), ty, i as int));
            return Some(i);
        }
        i = i + 1;
    }
    proof {
        if has_ty(us@.take(n as int), ty) {
            let j = choose|j: int| 0 <= j < us@.take(n as int).len() && us@.take(n as int)[j].ty_id == ty;
            assert(us@[j].ty_id == ty);
        }
    }
    None
}

/// The uniforms of `g` added to `dst` so far: those `s0` did not use, each
/// moved to the node the merge paired it with.
pub open spec fn uniforms_merged(s0: Seq<Uniform>, gus: Seq<Uniform>, fin: Seq<Uniform>, m: Map<NodeIndex, NodeIndex>) -> bool {
    &&& fin.len() == s0.len() + new_uniforms(s0, gus).len()
    &&& fin.take(s0.len() as int) == s0
    &&& forall|p: int| 0 <= p < new_uniforms(s0, gus).len()
        ==> uniform_moved(fin[s0.len() + p], #[trigger] new_uniforms(s0, gus)[p], m[new_uniforms(s0, gus)[p].node_index])
}

/// Pairs each uniform node of `g` with the node of the first uniform of
/// `dst` of the same type, or with a copy that becomes a new uniform.
fn merge_uniforms(dst: &mut ShaderGraph, g: &ShaderGraph, v: &mut Vec<(NodeIndex, NodeIndex)>, Ghost(s0): Ghost<ShaderGraph>)
    requires
        s0.well_formed(),
        g.well_formed(),
        distinct_roles(*g),
        merge_ok(s0, *g, *old(dst), old(v)@),
        keys(old(v)@) == vo_keys(s0, *g),
        old(dst).uniform_list() == s0.uniform_list(),
        old(dst).texture_list() == s0.texture_list(),
        old(dst).color_output_list() == s0.color_output_list(),
    ensures
        merge_ok(s0, *g, *final(dst), final(v)@),
        keys(final(v)@) == vo_keys(s0, *g) + uniform_nodes(g.uniform_list()),
        uniforms_merged(s0.uniform_list(), g.uniform_list(), final(dst).uniform_list(), pair_map(final(v)@)),
        final(dst).texture_list() == s0.texture_list(),
        final(dst).color_output_list() == s0.color_output_list(),
{
    let n0 = dst.uniforms_ref().len();
    let gus = g.uniforms_ref();
    let mut a: usize = 0;
    proof {
        assert(g.uniform_list().take(0) =~= Seq::<Uniform>::empty());
        assert(uniform_nodes(g.uniform_list().take(0)) =~= Seq::<NodeIndex>::empty());
        assert(vo_keys(s0, *g) + Seq::<NodeIndex>::empty() =~= vo_keys(s0, *g));
        assert(dst.uniform_list().take(n0 as int) =~= s0.uniform_list());
    }
    while a < gus.len()
        invariant
            a <= gus@.len(),
            gus@ == g.uniform_list(),
            n0 == s0.uniform_list().len(),
            s0.well_formed(),
            g.well_formed(),
            distinct_roles(*g),
            merge_ok(s0, *g, *dst, v@),
            keys(v@) == vo_keys(s0, *g) + uniform_nodes(g.uniform_list().take(a as int)),
            uniforms_merged(s0.uniform_list(), g.uniform_list().take(a as int), dst.uniform_list(), pair_map(v@)),
            dst.texture_list() == s0.texture_list(),
            dst.color_output_list() == s0.color_output_list(),
        decreases gus@.len() - a,
    {
        let u = &gus[a];
        let k = u.node_index;
        let ghost c0 = *dst;
        let ghost v0 = v@;
        let ghost ga = g.uniform_list().take(a as int);
        let ghost ga1 = g.uniform_list().take(a + 1);
        proof {
            lemma_tp_uniform(s0, *g, a as int);
            lemma_special_index(*g);
            assert(g.special_nodes()[vo_len(*g) + a] == k);
            assert(g.nodes().contains_key(k));
            assert(!keys(v0).contains(k)) by {
                if keys(v0).contains(k) {
                    let j = choose|j: int| 0 <= j < keys(v0).len() && keys(v0)[j] == k;
                    let vk = vo_keys(s0, *g);
                    if j >= vk.len() {
                        let a2 = j - vk.len();
                        assert(uniform_nodes(ga)[a2] == k);
                        assert(g.special_nodes()[vo_len(*g) + a2] == k);
                    }
                }
            }
            assert(ga1.drop_last() =~= ga);
            assert(ga1.last() == *u);
            assert(uniform_nodes(ga1) =~= uniform_nodes(ga).push(k));
            lemma_new_uniforms_from(s0.uniform_list(), ga);
            lemma_push_pair(v0, (k, k));
            assert(dst.uniform_list().take(n0 as int) == s0.uniform_list());
        }
        let found = find_uniform(dst.uniforms_ref(), n0, u.ty_id);
        match found {
            Some(j) => {
                let t = dst.uniforms_ref()[j].node_index;
                proof {
                    assert(first_ty(s0.uniform_list(), u.ty_id, j as int));
                    lemma_special_index(s0);
                    assert(s0.uniform_list()[j as int] == dst.uniform_list()[j as int]);
                    assert(target_pos(s0, *g, k) == vo_len(s0) + j);
                    assert(s0.special_nodes()[vo_len(s0) + j] == t);
                    lemma_tp_fresh_key(s0, *g, v0, k);
                    lemma_target_free(s0, *g, c0, v0, k);
                    assert(expected(s0, *g, k) == s0.nodes()[t]);
                    assert(c0.nodes().insert(t, expected(s0, *g, k)) =~= c0.nodes());
                    lemma_push_matched(s0, *g, c0, *dst, v0, k);
                    assert(has_ty(s0.uniform_list(), u.ty_id));
                    assert(new_uniforms(s0.uniform_list(), ga1) =~= new_uniforms(s0.uniform_list(), ga));
                }
                v.push((k, t));
                proof {
                    lemma_push_pair(v0, (k, t));
                    let nu = new_uniforms(s0.uniform_list(), ga);
                    assert forall|p: int| 0 <= p < nu.len() implies
                        pair_map(v@)[#[trigger] nu[p].node_index] == pair_map(v0)[nu[p].node_index] by {
                        let a2 = choose|a2: int| 0 <= a2 < ga.len() && ga[a2] == nu[p];
                        assert(uniform_nodes(ga)[a2] == nu[p].node_index);
                        assert(g.special_nodes()[vo_len(*g) + a2] == nu[p].node_index);
                    }
                }
            },
            None => {
                proof {
                    assert(!has_ty(s0.uniform_list(), u.ty_id));
                    assert(target_pos(s0, *g, k) == -1);
                }
                let node = g.node_ref(k).clone();
                let t = dst.insert_node(node);
                let ghost c_mid = *dst;
                proof {
                    if dst.special_nodes().contains(t) {
                        let i = choose|i: int| 0 <= i < c0.special_nodes().len() && c0.special_nodes()[i] == t;
                        assert(c0.nodes().contains_key(c0.special_nodes()[i]));
                    }
                }
                dst.push_uniform(Uniform {
                    id: u.id,
                    ty_id: u.ty_id,
                    node_index: t,
                    name: u.name.clone(),
                    attributes: copy_members(&u.attributes),
                });
                proof {
                    lemma_push_fresh(s0, *g, c0, *dst, v0, k, t);
                    assert(new_uniforms(s0.uniform_list(), ga1) =~= new_uniforms(s0.uniform_list(), ga).push(*u));
                }
                v.push((k, t));
                proof {
                    lemma_push_pair(v0, (k, t));
                    let nu = new_uniforms(s0.uniform_list(), ga);
                    assert forall|p: int| 0 <= p < nu.len() implies
                        pair_map(v@)[#[trigger] nu[p].node_index] == pair_map(v0)[nu[p].node_index] by {
                        let a2 = choose|a2: int| 0 <= a2 < ga.len() && ga[a2] == nu[p];
                        assert(uniform_nodes(ga)[a2] == nu[p].node_index);
                        assert(g.special_nodes()[vo_len(*g) + a2] == nu[p].node_index);
                    }
                    assert(dst.uniform_list().take(n0 as int) =~= c0.uniform_list().take(n0 as int));
                }
            },
        }
        a = a + 1;
    }
    proof {
        assert(g.uniform_list().take(a as int) =~= g.uniform_list());
    }
}

/// The first of the first `n` textures of `ts` called `name`.
fn find_texture(ts: &Vec<Texture>, n: usize, name: &String) -> (r: Option<usize>)
    requires
        n <= ts@.len(),
    ensures
        match r {
            Some(j) => first_texture(ts@.take(n as int), name@, j as int),
            None => !has_texture(ts@.take(n as int), name@),
        },
{
    let mut i: usize = 0;
    while i < n
        invariant
            i <= n,
            n <= ts@.len(),
            forall|l: int| 0 <= l < i ==> ts@[l].name@ != name@,
        decreases n - i,
    {
        if ts[i].name == *name {
            assert(first_texture(ts@.take(n as int), name@, i as int));
            return Some(i);
        }
        i = i + 1;
    }
    proof {
        if has_texture(ts@.take(n as int), name@) {
            let j = choose|j: int| 0 <= j < ts@.take(n as int).len() && ts@.take(n as int)[j].name@ == name@;
            assert(ts@[j].name@ == name@);
        }
    }
    None
}

/// The first of the first `n` color outputs of `cs` called `name`.
fn find_color(cs: &Vec<ColorOutput>, n: usize, name: &String) -> (r: Option<usize>)
    requires
        n <= cs@.len(),
    ensures
        match r {
            Some(j) => first_color(cs@.take(n as int), name@, j as int),
            None => !has_color(cs@.take(n as int), name@),
        },
{
    let mut i: usize = 0;
    while i < n
        invariant
            i <= n,
            n <= cs@.len(),
            forall|l: int| 0 <= l < i ==> cs@[l].name@ != name@,
        decreases n - i,
    {
        if cs[i].name == *name {
            assert(first_color(cs@.take(n as int), name@, i as int));
            return Some(i);
        }
        i = i + 1;
    }
    proof {
        if has_color(cs@.take(n as int), name@) {
            let j = choose|j: int| 0 <= j < cs@.take(n as int).len() && cs@.take(n as int)[j].name@ == name@;
            assert(cs@[j].name@ == name@);
        }
    }
    None
}

/// Pairs each texture node of `g` with the node of the first texture of
/// `dst` of the same name, or with a copy that becomes a new texture.
fn merge_textures(dst: &mut ShaderGraph, g: &ShaderGraph, v: &mut Vec<(NodeIndex, NodeIndex)>, Ghost(s0): Ghost<ShaderGraph>)
    requires
        s0.well_formed(),
        g.well_formed(),
        distinct_roles(*g),
        merge_ok(s0, *g, *old(dst), old(v)@),
        keys(old(v)@) == vo_keys(s0, *g) + uniform_nodes(g.uniform_list()),
        old(dst).texture_list() == s0.texture_list(),
        old(dst).color_output_list() == s0.color_output_list(),
    ensures
        merge_ok(s0, *g, *final(dst), final(v)@),
        keys(final(v)@) == vo_keys(s0, *g) + uniform_nodes(g.uniform_list()) + texture_nodes(g.texture_list()),
        final(v)@.len() >= old(v)@.len(),
        final(v)@.take(old(v)@.len() as int) == old(v)@,
        final(dst).texture_list() == s0.texture_list()
            + new_textures(s0.texture_list(), g.texture_list()).map_values(|t: Texture| texture_moved(t, pair_map(final(v)@))),
        final(dst).uniform_list() == old(dst).uniform_list(),
        final(dst).color_output_list() == s0.color_output_list(),
{
    let n0 = dst.textures_ref().len();
    let gts = g.textures_ref();
    let ghost vstart = v@;
    let ghost us = dst.uniform_list();
    let mut b: usize = 0;
    proof {
        assert(g.texture_list().take(0) =~= Seq::<Texture>::empty());
        assert(texture_nodes(g.texture_list().take(0)) =~= Seq::<NodeIndex>::empty());
        assert(keys(v@) + Seq::<NodeIndex>::empty() =~= keys(v@));
        assert(dst.texture_list() =~= s0.texture_list() + new_textures(s0.texture_list(), g.texture_list().take(0))
            .map_values(|t: Texture| texture_moved(t, pair_map(v@))));
        assert(v@.take(vstart.len() as int) =~= vstart);
    }
    while b < gts.len()
        invariant
            b <= gts@.len(),
            gts@ == g.texture_list(),
            n0 == s0.texture_list().len(),
            s0.well_formed(),
            g.well_formed(),
            distinct_roles(*g),
            merge_ok(s0, *g, *dst, v@),
            keys(v@) == vo_keys(s0, *g) + uniform_nodes(g.uniform_list()) + texture_nodes(g.texture_list().take(b as int)),
            v@.len() >= vstart.len(),
            v@.take(vstart.len() as int) == vstart,
            dst.texture_list() == s0.texture_list()
                + new_textures(s0.texture_list(), g.texture_list().take(b as int)).map_values(|t: Texture| texture_moved(t, pair_map(v@))),
            dst.uniform_list() == us,
            dst.color_output_list() == s0.color_output_list(),
        decreases gts@.len() - b,
    {
        let tx = &gts[b];
        let k = tx.node_index;
        let ghost c0 = *dst;
        let ghost v0 = v@;
        let ghost gb = g.texture_list().take(b as int);
        let ghost gb1 = g.texture_list().take(b + 1);
        let ghost nu = g.uniform_list().len() as int;
        proof {
            lemma_tp_texture(s0, *g, b as int);
            lemma_special_index(*g);
            assert(g.special_nodes()[vo_len(*g) + nu + b] == k);
            assert(g.nodes().contains_key(k));
            assert(!keys(v0).contains(k)) by {
                if keys(v0).contains(k) {
                    let j = choose|j: int| 0 <= j < keys(v0).len() && keys(v0)[j] == k;
                    let vk = vo_keys(s0, *g);
                    if vk.len() <= j < vk.len() + nu {
                        let a2 = j - vk.len();
                        assert(uniform_nodes(g.uniform_list())[a2] == k);
                        assert(g.special_nodes()[vo_len(*g) + a2] == k);
                    } else if j >= vk.len() + nu {
                        let b2 = j - vk.len() - nu;
                        assert(texture_nodes(gb)[b2] == k);
                        assert(g.special_nodes()[vo_len(*g) + nu + b2] == k);
                    }
                }
            }
            assert(gb1.drop_last() =~= gb);
            assert(gb1.last() == *tx);
            assert(texture_nodes(gb1) =~= texture_nodes(gb).push(k));
            lemma_new_textures_from(s0.texture_list(), gb);
            assert(dst.texture_list().take(n0 as int) =~= s0.texture_list());
        }
        let found = find_texture(dst.textures_ref(), n0, &tx.name);
        match found {
            Some(j) => {
                let t = dst.textures_ref()[j].node_index;
                proof {
                    assert(first_texture(s0.texture_list(), tx.name@, j as int));
                    lemma_special_index(s0);
                    assert(s0.texture_list()[j as int] == dst.texture_list()[j as int]);
                    assert(target_pos(s0, *g, k) == vo_len(s0) + s0.uniform_list().len() + j);
                    assert(s0.special_nodes()[vo_len(s0) + s0.uniform_list().len() + j] == t);
                    lemma_tp_fresh_key(s0, *g, v0, k);
                    lemma_target_free(s0, *g, c0, v0, k);
                    assert(expected(s0, *g, k) == s0.nodes()[t]);
                    assert(c0.nodes().insert(t, expected(s0, *g, k)) =~= c0.nodes());
                    lemma_push_matched(s0, *g, c0, *dst, v0, k);
                    assert(has_texture(s0.texture_list(), tx.name@));
                    assert(new_textures(s0.texture_list(), gb1) =~= new_textures(s0.texture_list(), gb));
                }
                v.push((k, t));
                proof {
                    lemma_push_pair(v0, (k, t));
                    let nt = new_textures(s0.texture_list(), gb);
                    assert forall|p: int| 0 <= p < nt.len() implies
                        pair_map(v@)[#[trigger] nt[p].node_index] == pair_map(v0)[nt[p].node_index] by {
                        let b2 = choose|b2: int| 0 <= b2 < gb.len() && gb[b2] == nt[p];
                        assert(texture_nodes(gb)[b2] == nt[p].node_index);
                        assert(g.special_nodes()[vo_len(*g) + nu + b2] == nt[p].node_index);
                    }
                    assert(nt.map_values(|t: Texture| texture_moved(t, pair_map(v@)))
                        =~= nt.map_values(|t: Texture| texture_moved(t, pair_map(v0))));
                    assert(v@.take(vstart.len() as int) =~= v0.take(vstart.len() as int));
                }
            },
            None => {
                proof {
                    assert(!has_texture(s0.texture_list(), tx.name@));
                    assert(target_pos(s0, *g, k) == -1);
                }
                let node = g.node_ref(k).clone();
                let t = dst.insert_node(node);
                proof {
                    if dst.special_nodes().contains(t) {
                        let i = choose|i: int| 0 <= i < c0.special_nodes().len() && c0.special_nodes()[i] == t;
                        assert(c0.nodes().contains_key(c0.special_nodes()[i]));
                    }
                }
                let moved = Texture { id: tx.id, name: tx.name.clone(), node_index: t };
                dst.push_texture(moved);
                proof {
                    lemma_push_fresh(s0, *g, c0, *dst, v0, k, t);
                    assert(new_textures(s0.texture_list(), gb1) =~= new_textures(s0.texture_list(), gb).push(*tx));
                }
                v.push((k, t));
                proof {
                    lemma_push_pair(v0, (k, t));
                    let nt = new_textures(s0.texture_list(), gb);
                    assert forall|p: int| 0 <= p < nt.len() implies
                        pair_map(v@)[#[trigger] nt[p].node_index] == pair_map(v0)[nt[p].node_index] by {
                        let b2 = choose|b2: int| 0 <= b2 < gb.len() && gb[b2] == nt[p];
                        assert(texture_nodes(gb)[b2] == nt[p].node_index);
                        assert(g.special_nodes()[vo_len(*g) + nu + b2] == nt[p].node_index);
                    }
                    assert(texture_moved(*tx, pair_map(v@)) == moved);
                    assert(nt.push(*tx).map_values(|t: Texture| texture_moved(t, pair_map(v@)))
                        =~= nt.map_values(|t: Texture| texture_moved(t, pair_map(v0))).push(moved));
                    assert(dst.texture_list() =~= s0.texture_list()
                        + nt.push(*tx).map_values(|t: Texture| texture_moved(t, pair_map(v@))));
                    assert(v@.take(vstart.len() as int) =~= v0.take(vstart.len() as int));
                }
            },
        }
        b = b + 1;
    }
    proof {
        assert(g.texture_list().take(b as int) =~= g.texture_list());
    }
}

/// Pairs each color output node of `g` with the node of the first color
/// output of `dst` of the same name, which takes the inputs it connects, or
/// with a copy that becomes a new color output.
fn merge_colors(dst: &mut ShaderGraph, g: &ShaderGraph, v: &mut Vec<(NodeIndex, NodeIndex)>, Ghost(s0): Ghost<ShaderGraph>)
    requires
        s0.well_formed(),
        g.well_formed(),
        distinct_roles(*g),
        merge_ok(s0, *g, *old(dst), old(v)@),
        keys(old(v)@) == vo_keys(s0, *g) + uniform_nodes(g.uniform_list()) + texture_nodes(g.texture_list()),
        old(dst).color_output_list() == s0.color_output_list(),
    ensures
        merge_ok(s0, *g, *final(dst), final(v)@),
        keys(final(v)@) == role_keys(s0, *g),
        final(v)@.len() >= old(v)@.len(),
        final(v)@.take(old(v)@.len() as int) == old(v)@,
        final(dst).color_output_list() == s0.color_output_list()
            + new_colors(s0.color_output_list(), g.color_output_list()).map_values(|c: ColorOutput| color_moved(c, pair_map(final(v)@))),
        final(dst).uniform_list() == old(dst).uniform_list(),
        final(dst).texture_list() == old(dst).texture_list(),
{
    let n0 = dst.get_color_outputs().len();
    let gcs = g.get_color_outputs();
    let ghost vstart = v@;
    let ghost us = dst.uniform_list();
    let ghost ts = dst.texture_list();
    let ghost pre = vo_keys(s0, *g) + uniform_nodes(g.uniform_list()) + texture_nodes(g.texture_list());
    let mut c: usize = 0;
    proof {
        assert(g.color_output_list().take(0) =~= Seq::<ColorOutput>::empty());
        assert(g.color_output_list().take(0).map_values(|x: ColorOutput| x.node) =~= Seq::<NodeIndex>::empty());
        assert(keys(v@) + Seq::<NodeIndex>::empty() =~= keys(v@));
        assert(dst.color_output_list() =~= s0.color_output_list() + new_colors(s0.color_output_list(), g.color_output_list().take(0))
            .map_values(|x: ColorOutput| color_moved(x, pair_map(v@))));
        assert(v@.take(vstart.len() as int) =~= vstart);
    }
    while c < gcs.len()
        invariant
            c <= gcs@.len(),
            gcs@ == g.color_output_list(),
            n0 == s0.color_output_list().len(),
            s0.well_formed(),
            g.well_formed(),
            distinct_roles(*g),
            merge_ok(s0, *g, *dst, v@),
            pre == vo_keys(s0, *g) + uniform_nodes(g.uniform_list()) + texture_nodes(g.texture_list()),
            keys(v@) == pre + g.color_output_list().take(c as int).map_values(|x: ColorOutput| x.node),
            v@.len() >= vstart.len(),
            v@.take(vstart.len() as int) == vstart,
            dst.color_output_list() == s0.color_output_list()
                + new_colors(s0.color_output_list(), g.color_output_list().take(c as int)).map_values(|x: ColorOutput| color_moved(x, pair_map(v@))),
            dst.uniform_list() == us,
            dst.texture_list() == ts,
        decreases gcs@.len() - c,
    {
        let co = &gcs[c];
        let k = co.node;
        let ghost c0 = *dst;
        let ghost v0 = v@;
        let ghost gc = g.color_output_list().take(c as int);
        let ghost gc1 = g.color_output_list().take(c + 1);
        let ghost nu = g.uniform_list().len() as int;
        let ghost nt = g.texture_list().len() as int;
        proof {
            lemma_tp_color(s0, *g, c as int);
            lemma_special_index(*g);
            assert(g.special_nodes()[vo_len(*g) + nu + nt + c] == k);
            assert(g.nodes().contains_key(k));
            assert(!keys(v0).contains(k)) by {
                if keys(v0).contains(k) {
                    let j = choose|j: int| 0 <= j < keys(v0).len() && keys(v0)[j] == k;
                    let vk = vo_keys(s0, *g);
                    if vk.len() <= j < vk.len() + nu {
                        let a2 = j - vk.len();
                        assert(uniform_nodes(g.uniform_list())[a2] == k);
                        assert(g.special_nodes()[vo_len(*g) + a2] == k);
                    } else if vk.len() + nu <= j < vk.len() + nu + nt {
                        let b2 = j - vk.len() - nu;
                        assert(texture_nodes(g.texture_list())[b2] == k);
                        assert(g.special_nodes()[vo_len(*g) + nu + b2] == k);
                    } else if j >= vk.len() + nu + nt {
                        let c2 = j - vk.len() - nu - nt;
                        assert(gc.map_values(|x: ColorOutput| x.node)[c2] == k);
                        assert(g.special_nodes()[vo_len(*g) + nu + nt + c2] == k);
                    }
                }
            }
            assert(gc1.drop_last() =~= gc);
            assert(gc1.last() == *co);
            assert(gc1.map_values(|x: ColorOutput| x.node) =~= gc.map_values(|x: ColorOutput| x.node).push(k));
            lemma_new_colors_from(s0.color_output_list(), gc);
            assert(dst.color_output_list().take(n0 as int) =~= s0.color_output_list());
        }
        let found = find_color(dst.get_color_outputs(), n0, &co.name);
        match found {
            Some(j) => {
                let t = dst.get_color_outputs()[j].node;
                proof {
                    assert(first_color(s0.color_output_list(), co.name@, j as int));
                    lemma_special_index(s0);
                    assert(s0.color_output_list()[j as int] == dst.color_output_list()[j as int]);
                    assert(target_pos(s0, *g, k) == vo_len(s0) + s0.uniform_list().len() + s0.texture_list().len() + j);
                    assert(s0.special_nodes()[vo_len(s0) + s0.uniform_list().len() + s0.texture_list().len() + j] == t);
                    lemma_tp_fresh_key(s0, *g, v0, k);
                    lemma_target_free(s0, *g, c0, v0, k);
                    assert(expected(s0, *g, k) == overlay(s0.nodes()[t], g.nodes()[k]));
                }
                let base = dst.node_ref(t);
                let top = g.node_ref(k);
                let inputs = overlay_inputs(&base.inputs, &top.inputs);
                dst.set_node_inputs(t, inputs);
                proof {
                    assert(NodeView { inputs: inputs@, ..c0.nodes()[t] } =~= overlay(s0.nodes()[t], g.nodes()[k]));
                    lemma_push_matched(s0, *g, c0, *dst, v0, k);
                    assert(has_color(s0.color_output_list(), co.name@));
                    assert(new_colors(s0.color_output_list(), gc1) =~= new_colors(s0.color_output_list(), gc));
                }
                v.push((k, t));
                proof {
                    lemma_push_pair(v0, (k, t));
                    let ncs = new_colors(s0.color_output_list(), gc);
                    assert forall|p: int| 0 <= p < ncs.len() implies
                        pair_map(v@)[#[trigger] ncs[p].node] == pair_map(v0)[ncs[p].node] by {
                        let c2 = choose|c2: int| 0 <= c2 < gc.len() && gc[c2] == ncs[p];
                        assert(gc.map_values(|x: ColorOutput| x.node)[c2] == ncs[p].node);
                        assert(g.special_nodes()[vo_len(*g) + nu + nt + c2] == ncs[p].node);
                    }
                    assert(ncs.map_values(|x: ColorOutput| color_moved(x, pair_map(v@)))
                        =~= ncs.map_values(|x: ColorOutput| color_moved(x, pair_map(v0))));
                    assert(v@.take(vstart.len() as int) =~= v0.take(vstart.len() as int));
                }
            },
            None => {
                proof {
                    assert(!has_color(s0.color_output_list(), co.name@));
                    assert(target_pos(s0, *g, k) == -1);
                }
                let node = g.node_ref(k).clone();
                let t = dst.insert_node(node);
                proof {
                    if dst.special_nodes().contains(t) {
                        let i = choose|i: int| 0 <= i < c0.special_nodes().len() && c0.special_nodes()[i] == t;
                        assert(c0.nodes().contains_key(c0.special_nodes()[i]));
                    }
                }
                let moved = ColorOutput { name: co.name.clone(), ty: co.ty, node: t };
                dst.push_color_output(moved);
                proof {
                    lemma_push_fresh(s0, *g, c0, *dst, v0, k, t);
                    assert(new_colors(s0.color_output_list(), gc1) =~= new_colors(s0.color_output_list(), gc).push(*co));
                }
                v.push((k, t));
                proof {
                    lemma_push_pair(v0, (k, t));
                    let ncs = new_colors(s0.color_output_list(), gc);
                    assert forall|p: int| 0 <= p < ncs.len() implies
                        pair_map(v@)[#[trigger] ncs[p].node] == pair_map(v0)[ncs[p].node] by {
                        let c2 = choose|c2: int| 0 <= c2 < gc.len() && gc[c2] == ncs[p];
                        assert(gc.map_values(|x: ColorOutput| x.node)[c2] == ncs[p].node);
                        assert(g.special_nodes()[vo_len(*g) + nu + nt + c2] == ncs[p].node);
                    }
                    assert(color_moved(*co, pair_map(v@)) == moved);
                    assert(ncs.push(*co).map_values(|x: ColorOutput| color_moved(x, pair_map(v@)))
                        =~= ncs.map_values(|x: ColorOutput| color_moved(x, pair_map(v0))).push(moved));
                    assert(dst.color_output_list() =~= s0.color_output_list()
                        + ncs.push(*co).map_values(|x: ColorOutput| color_moved(x, pair_map(v@))));
                    assert(v@.take(vstart.len() as int) =~= v0.take(vstart.len() as int));
                }
            },
        }
        c = c + 1;
    }
    proof {
        assert(g.color_output_list().take(c as int) =~= g.color_output_list());
        assert(g.color_nodes() =~= g.color_output_list().map_values(|x: ColorOutput| x.node));
    }
}

/// A node of `g` that a merge does not handle by its role is copied.
proof fn lemma_tp_unkeyed(s: ShaderGraph, g: ShaderGraph, k: NodeIndex)
    requires
        !role_keys(s, g).contains(k),
    ensures
        target_pos(s, g, k) == -1,
{
    let vk = vo_keys(s, g);
    let un = uniform_nodes(g.uniform_list());
    let tn = texture_nodes(g.texture_list());
    let cn = g.color_nodes();
    let rk = role_keys(s, g);
    if g.vertex_output() == Some(k) && s.vertex_output() is Some {
        assert(rk[0] == k);
    }
    assert forall|a: int, j: int| !uniform_match(s, g, k, a, j) by {
        if uniform_match(s, g, k, a, j) {
            assert(un[a] == k);
            assert(rk[vk.len() + a] == k);
        }
    }
    assert forall|a: int, j: int| !texture_match(s, g, k, a, j) by {
        if texture_match(s, g, k, a, j) {
            assert(tn[a] == k);
            assert(rk[vk.len() + un.len() + a] == k);
        }
    }
    assert forall|a: int, j: int| !color_match(s, g, k, a, j) by {
        if color_match(s, g, k, a, j) {
            assert(cn[a] == k);
            assert(rk[vk.len() + un.len() + tn.len() + a] == k);
        }
    }
}

/// A prefix of a prefix is a prefix.
proof fn lemma_prefix_trans(a: Seq<(NodeIndex, NodeIndex)>, b: Seq<(NodeIndex, NodeIndex)>, c: Seq<(NodeIndex, NodeIndex)>)
    requires
        a.len() <= b.len() <= c.len(),
        b.take(a.len() as int) == a,
        c.take(b.len() as int) == b,
    ensures
        c.take(a.len() as int) == a,
{
    assert forall|i: int| 0 <= i < a.len() implies c.take(a.len() as int)[i] == a[i] by {
        assert(a[i] == b.take(a.len() as int)[i]);
        assert(b[i] == c.take(b.len() as int)[i]);
    }
    assert(c.take(a.len() as int) =~= a);
}

/// Pairs every node of `g` not paired yet with a copy of it.
fn merge_rest(dst: &mut ShaderGraph, g: &ShaderGraph, v: &mut Vec<(NodeIndex, NodeIndex)>, Ghost(s0): Ghost<ShaderGraph>)
    requires
        s0.well_formed(),
        g.well_formed(),
        merge_ok(s0, *g, *old(dst), old(v)@),
        keys(old(v)@) == role_keys(s0, *g),
    ensures
        merge_ok(s0, *g, *final(dst), final(v)@),
        final(v)@.len() >= old(v)@.len(),
        final(v)@.take(old(v)@.len() as int) == old(v)@,
        forall|k: NodeIndex| g.nodes().contains_key(k) ==> keys(final(v)@).contains(k),
        final(dst).uniform_list() == old(dst).uniform_list(),
        final(dst).texture_list() == old(dst).texture_list(),
        final(dst).color_output_list() == old(dst).color_output_list(),
{
    let all = g.node_indices();
    let ghost vstart = v@;
    let ghost rk = role_keys(s0, *g);
    let mut i: usize = 0;
    proof {
        assert(v@.take(vstart.len() as int) =~= vstart);
        assert forall|x: NodeIndex| rk.contains(x) implies keys(v@).contains(x) by {}
    }
    while i < all.len()
        invariant
            i <= all@.len(),
            forall|x: NodeIndex| g.nodes().contains_key(x) <==> all@.contains(x),
            s0.well_formed(),
            g.well_formed(),
            merge_ok(s0, *g, *dst, v@),
            rk == role_keys(s0, *g),
            forall|x: NodeIndex| rk.contains(x) ==> keys(v@).contains(x),
            forall|l: int| 0 <= l < i ==> keys(v@).contains(#[trigger] all@[l]),
            v@.len() >= vstart.len(),
            v@.take(vstart.len() as int) == vstart,
            dst.uniform_list() == old(dst).uniform_list(),
            dst.texture_list() == old(dst).texture_list(),
            dst.color_output_list() == old(dst).color_output_list(),
        decreases all@.len() - i,
    {
        let k = all[i];
        let ghost v0 = v@;
        let ghost c0 = *dst;
        proof {
            assert(all@.contains(k));
            lemma_pair_map(v0);
        }
        if lookup(v, k).is_none() {
            proof {
                assert(!keys(v0).contains(k));
                assert(!rk.contains(k));
                lemma_tp_unkeyed(s0, *g, k);
            }
            let node = g.node_ref(k).clone();
            let t = dst.insert_node(node);
            proof {
                lemma_push_fresh(s0, *g, c0, *dst, v0, k, t);
            }
            v.push((k, t));
            proof {
                lemma_push_pair(v0, (k, t));
                assert(v@.take(vstart.len() as int) =~= v0.take(vstart.len() as int));
            }
        }
        proof {
            assert(keys(v@).contains(k));
        }
        i = i + 1;
    }
    proof {
        assert forall|k: NodeIndex| g.nodes().contains_key(k) implies keys(v@).contains(k) by {
            assert(all@.contains(k));
            let l = choose|l: int| 0 <= l < all@.len() && all@[l] == k;
        }
    }
}

/// Node `k` of `g` has found its place in the merged nodes `fin` under
/// the mapping `m`: on its matched role of `s0`, holding what that role
/// should hold, or on a node `s0` did not have, holding a copy of `k`; either
/// way with every connection redirected through `m`.
pub open spec fn placed(s0: ShaderGraph, g: ShaderGraph, fin: Map<NodeIndex, NodeView>, m: Map<NodeIndex, NodeIndex>, k: NodeIndex) -> bool {
    let pos = target_pos(s0, g, k);
    if pos >= 0 {
        m[k] == s0.special_nodes()[pos] && fin[m[k]] == remap_node(expected(s0, g, k), m)
    } else {
        !s0.nodes().contains_key(m[k]) && fin[m[k]] == remap_node(g.nodes()[k], m)
    }
}

/// `fin` is `s0` with `g` merged in through the pairs `v`.
pub open spec fn sub_graph_merged(s0: ShaderGraph, g: ShaderGraph, fin: ShaderGraph, v: Seq<(NodeIndex, NodeIndex)>) -> bool {
    let m = pair_map(v);
    &&& keys(v).no_duplicates()
    &&& targets(v).no_duplicates()
    &&& forall|k: NodeIndex| #[trigger] m.contains_key(k) <==> g.nodes().contains_key(k)
    &&& forall|k: NodeIndex| #[trigger] g.nodes().contains_key(k) ==> placed(s0, g, fin.nodes(), m, k)
    &&& forall|i: NodeIndex| #[trigger] fin.nodes().contains_key(i) <==> (s0.nodes().contains_key(i) || targets(v).contains(i))
    &&& forall|i: NodeIndex| s0.nodes().contains_key(i) && !targets(v).contains(i) ==> #[trigger] fin.nodes()[i] == s0.nodes()[i]
    &&& fin.well_formed()
    &&& fin.vertex_output() == s0.vertex_output()
    &&& fin.attribute_list() == s0.attribute_list()
    &&& uniforms_merged(s0.uniform_list(), g.uniform_list(), fin.uniform_list(), m)
    &&& fin.texture_list() == s0.texture_list()
        + new_textures(s0.texture_list(), g.texture_list()).map_values(|t: Texture| texture_moved(t, m))
    &&& fin.color_output_list() == s0.color_output_list()
        + new_colors(s0.color_output_list(), g.color_output_list()).map_values(|c: ColorOutput| color_moved(c, m))
}

/// What a merge may rely on: both graphs well formed, the merged graph's
/// roles told apart by type and name, its connections within itself, and the
/// roles it is matched to connected only to nodes it has.
pub open spec fn can_merge(s0: ShaderGraph, g: ShaderGraph) -> bool {
    &&& s0.well_formed()
    &&& g.well_formed()
    &&& distinct_roles(g)
    &&& connections_closed(g)
    &&& forall|k: NodeIndex| #[trigger] g.nodes().contains_key(k) && target_pos(s0, g, k) >= 0
        ==> inputs_within(expected(s0, g, k), g.nodes().dom())
}

impl ShaderGraph {
    /// Merges `graph` into this graph (see the module documentation) and
    /// returns where `input_node` and `output_node` of `graph` ended up,
    /// together with the pairs of old and new index of every node of `graph`.
    #[verifier::spinoff_prover]
    pub fn add_sub_graph_mapped(
        &mut self,
        graph: &ShaderGraph,
        input_node: Option<NodeIndex>,
        output_node: Option<NodeIndex>,
    ) -> (r: (Option<NodeIndex>, Option<NodeIndex>, Vec<(NodeIndex, NodeIndex)>))
        requires
            can_merge(*old(self), *graph),
            input_node is Some ==> graph.nodes().contains_key(input_node.unwrap()),
            output_node is Some ==> graph.nodes().contains_key(output_node.unwrap()),
        ensures
            sub_graph_merged(*old(self), *graph, *final(self), r.2@),
            r.0 == match input_node {
                Some(i) => Some(pair_map(r.2@)[i]),
                None => None,
            },
            r.1 == match output_node {
                Some(i) => Some(pair_map(r.2@)[i]),
                None => None,
            },
    {
        let ghost s0 = *self;
        let mut mapped = merge_vertex_output(self, graph, Ghost(s0));
        merge_uniforms(self, graph, &mut mapped, Ghost(s0));
        let ghost v2 = mapped@;
        merge_textures(self, graph, &mut mapped, Ghost(s0));
        let ghost v3 = mapped@;
        merge_colors(self, graph, &mut mapped, Ghost(s0));
        let ghost v4 = mapped@;
        merge_rest(self, graph, &mut mapped, Ghost(s0));
        let ghost v5 = mapped@;
        let ghost pre = self.nodes();
        let ghost m = pair_map(v5);
        proof {
            lemma_pair_map(v5);
            assert(m.dom() =~= graph.nodes().dom()) by {
                assert forall|k: NodeIndex| m.contains_key(k) <==> graph.nodes().contains_key(k) by {
                    if keys(v5).contains(k) {
                        let j = choose|j: int| 0 <= j < keys(v5).len() && keys(v5)[j] == k;
                    }
                }
            }
            assert forall|j: int| 0 <= j < v5.len() implies inputs_within(pre[#[trigger] targets(v5)[j]], m.dom()) by {
                assert(pair_ok(s0, *graph, pre, v5[j]));
                assert(targets(v5)[j] == v5[j].1);
                assert(keys(v5)[j] == v5[j].0);
                assert(graph.nodes().contains_key(v5[j].0));
            }
        }
        rewire(self, &mapped);
        proof {
            let fin = self.nodes();
            assert forall|k: NodeIndex| #[trigger] graph.nodes().contains_key(k) implies placed(s0, *graph, fin, m, k) by {
                assert(keys(v5).contains(k));
                let j = choose|j: int| 0 <= j < keys(v5).len() && keys(v5)[j] == k;
                assert(pair_ok(s0, *graph, pre, v5[j]));
                assert(v5[j].0 == k);
                assert(m[k] == v5[j].1);
                assert(targets(v5)[j] == v5[j].1);
                assert(targets(v5).contains(m[k]));
            }
            // the lists were settled by earlier pairs, which keep their targets
            lemma_prefix_trans(v3, v4, v5);
            lemma_prefix_trans(v2, v3, v5);
            lemma_pair_map_prefix(v2, v5);
            lemma_pair_map_prefix(v3, v5);
            lemma_pair_map_prefix(v4, v5);
            lemma_pair_map(v2);
            lemma_pair_map(v3);
            lemma_pair_map(v4);
            let nu = new_uniforms(s0.uniform_list(), graph.uniform_list());
            lemma_new_uniforms_from(s0.uniform_list(), graph.uniform_list());
            assert forall|p: int| 0 <= p < nu.len() implies m[#[trigger] nu[p].node_index] == pair_map(v2)[nu[p].node_index] by {
                let a = choose|a: int| 0 <= a < graph.uniform_list().len() && graph.uniform_list()[a] == nu[p];
                let vk = vo_keys(s0, *graph);
                assert(keys(v2)[vk.len() + a] == nu[p].node_index);
                assert(keys(v2).contains(nu[p].node_index));
            }
            let nt = new_textures(s0.texture_list(), graph.texture_list());
            lemma_new_textures_from(s0.texture_list(), graph.texture_list());
            assert forall|p: int| 0 <= p < nt.len() implies m[#[trigger] nt[p].node_index] == pair_map(v3)[nt[p].node_index] by {
                let a = choose|a: int| 0 <= a < graph.texture_list().len() && graph.texture_list()[a] == nt[p];
                let vk = vo_keys(s0, *graph);
                assert(keys(v3)[vk.len() + graph.uniform_list().len() + a] == nt[p].node_index);
                assert(keys(v3).contains(nt[p].node_index));
            }
            assert(nt.map_values(|t: Texture| texture_moved(t, m)) =~= nt.map_values(|t: Texture| texture_moved(t, pair_map(v3))));
            let nc = new_colors(s0.color_output_list(), graph.color_output_list());
            lemma_new_colors_from(s0.color_output_list(), graph.color_output_list());
            assert forall|p: int| 0 <= p < nc.len() implies m[#[trigger] nc[p].node] == pair_map(v4)[nc[p].node] by {
                let a = choose|a: int| 0 <= a < graph.color_output_list().len() && graph.color_output_list()[a] == nc[p];
                let vk = vo_keys(s0, *graph);
                assert(graph.color_nodes()[a] == nc[p].node);
                assert(keys(v4)[vk.len() + graph.uniform_list().len() + graph.texture_list().len() + a] == nc[p].node);
                assert(keys(v4).contains(nc[p].node));
            }
            assert(nc.map_values(|c: ColorOutput| color_moved(c, m)) =~= nc.map_values(|c: ColorOutput| color_moved(c, pair_map(v4))));
        }
        let a = match input_node {
            Some(i) => Some(lookup(&mapped, i).unwrap()),
            None => None,
        };
        let b = match output_node {
            Some(i) => Some(lookup(&mapped, i).unwrap()),
            None => None,
        };
        (a, b, mapped)
    }

    /// Merges `graph` into this graph and returns where `input_node` and
    /// `output_node` of `graph` ended up.
    pub fn add_sub_graph(
        &mut self,
        graph: &ShaderGraph,
        input_node: Option<NodeIndex>,
        output_node: Option<NodeIndex>,
    ) -> (r: (Option<NodeIndex>, Option<NodeIndex>))
        requires
            can_merge(*old(self), *graph),
            input_node is Some ==> graph.nodes().contains_key(input_node.unwrap()),
            output_node is Some ==> graph.nodes().contains_key(output_node.unwrap()),
        ensures
            exists|v: Seq<(NodeIndex, NodeIndex)>| {
                &&& sub_graph_merged(*old(self), *graph, *final(self), v)
                &&& r.0 == match input_node {
                    Some(i) => Some(pair_map(v)[i]),
                    None => None,
                }
                &&& r.1 == match output_node {
                    Some(i) => Some(pair_map(v)[i]),
                    None => None,
                }
            },
    {
        let (a, b, _pairs) = self.add_sub_graph_mapped(graph, input_node, output_node);
        (a, b)
    }
}

/// The uniforms `new_uniforms` keeps have types `s` lacks, told apart when
/// those of `g` are, and every type of `g` that `s` lacks is among them.
proof fn lemma_new_uniforms_roles(s: Seq<Uniform>, g: Seq<Uniform>)
    requires
        types_distinct(g),
    ensures
        forall|p: int| 0 <= p < new_uniforms(s, g).len()
            ==> !has_ty(s, #[trigger] new_uniforms(s, g)[p].ty_id) && has_ty(g, new_uniforms(s, g)[p].ty_id),
        types_distinct(new_uniforms(s, g)),
        forall|ty: u128| has_ty(g, ty) && !has_ty(s, ty) ==> #[trigger] has_ty(new_uniforms(s, g), ty),
    decreases g.len(),
{
    if g.len() > 0 {
        let w = g.drop_last();
        assert(types_distinct(w)) by {
            assert forall|a: int, b: int| 0 <= a < w.len() && 0 <= b < w.len() && a != b
                implies (#[trigger] w[a]).ty_id != (#[trigger] w[b]).ty_id by {
                assert(g[a].ty_id != g[b].ty_id);
            }
        }
        lemma_new_uniforms_roles(s, w);
        let prev = new_uniforms(s, w);
        let cur = new_uniforms(s, g);
        let last = g[g.len() - 1];
        assert forall|p: int| 0 <= p < cur.len()
            implies !has_ty(s, #[trigger] cur[p].ty_id) && has_ty(g, cur[p].ty_id) by {
            if p < prev.len() {
                assert(cur[p] == prev[p]);
                let a = choose|a: int| 0 <= a < w.len() && w[a].ty_id == prev[p].ty_id;
                assert(g[a].ty_id == prev[p].ty_id);
            } else {
                assert(cur[p] == last);
            }
        }
        assert forall|a: int, b: int| 0 <= a < cur.len() && 0 <= b < cur.len() && a != b
            implies (#[trigger] cur[a]).ty_id != (#[trigger] cur[b]).ty_id by {
            if a < prev.len() && b < prev.len() {
                assert(cur[a] == prev[a]);
                assert(cur[b] == prev[b]);
            } else if a < prev.len() {
                assert(cur[a] == prev[a]);
                assert(cur[b] == last);
                let i = choose|i: int| 0 <= i < w.len() && w[i].ty_id == prev[a].ty_id;
                assert(g[i].ty_id != g[g.len() - 1].ty_id);
            } else if b < prev.len() {
                assert(cur[b] == prev[b]);
                assert(cur[a] == last);
                let i = choose|i: int| 0 <= i < w.len() && w[i].ty_id == prev[b].ty_id;
                assert(g[i].ty_id != g[g.len() - 1].ty_id);
            }
        }
        assert forall|ty: u128| has_ty(g, ty) && !has_ty(s, ty) implies #[trigger] has_ty(cur, ty) by {
            let a = choose|a: int| 0 <= a < g.len() && g[a].ty_id == ty;
            if a < g.len() - 1 {
                assert(w[a].ty_id == ty);
                assert(has_ty(prev, ty));
                let p = choose|p: int| 0 <= p < prev.len() && prev[p].ty_id == ty;
                assert(cur[p] == prev[p]);
            } else {
                assert(cur[cur.len() - 1] == last);
            }
        }
    }
}

/// The textures `new_textures` keeps have names `s` lacks, told apart when
/// those of `g` are, and every name of `g` that `s` lacks is among them.
proof fn lemma_new_textures_roles(s: Seq<Texture>, g: Seq<Texture>)
    requires
        texture_names_distinct(g),
    ensures
        forall|p: int| 0 <= p < new_textures(s, g).len()
            ==> !has_texture(s, #[trigger] new_textures(s, g)[p].name@) && has_texture(g, new_textures(s, g)[p].name@),
        texture_names_distinct(new_textures(s, g)),
        forall|n: Seq<char>| has_texture(g, n) && !has_texture(s, n) ==> #[trigger] has_texture(new_textures(s, g), n),
    decreases g.len(),
{
    if g.len() > 0 {
        let w = g.drop_last();
        assert(texture_names_distinct(w)) by {
            assert forall|a: int, b: int| 0 <= a < w.len() && 0 <= b < w.len() && a != b
                implies (#[trigger] w[a]).name@ != (#[trigger] w[b]).name@ by {
                assert(g[a].name@ != g[b].name@);
            }
        }
        lemma_new_textures_roles(s, w);
        let prev = new_textures(s, w);
        let cur = new_textures(s, g);
        let last = g[g.len() - 1];
        assert forall|p: int| 0 <= p < cur.len()
            implies !has_texture(s, #[trigger] cur[p].name@) && has_texture(g, cur[p].name@) by {
            if p < prev.len() {
                assert(cur[p] == prev[p]);
                let a = choose|a: int| 0 <= a < w.len() && w[a].name@ == prev[p].name@;
                assert(g[a].name@ == prev[p].name@);
            } else {
                assert(cur[p] == last);
            }
        }
        assert forall|a: int, b: int| 0 <= a < cur.len() && 0 <= b < cur.len() && a != b
            implies (#[trigger] cur[a]).name@ != (#[trigger] cur[b]).name@ by {
            if a < prev.len() && b < prev.len() {
                assert(cur[a] == prev[a]);
                assert(cur[b] == prev[b]);
            } else if a < prev.len() {
                assert(cur[a] == prev[a]);
                assert(cur[b] == last);
                let i = choose|i: int| 0 <= i < w.len() && w[i].name@ == prev[a].name@;
                assert(g[i].name@ != g[g.len() - 1].name@);
            } else if b < prev.len() {
                assert(cur[b] == prev[b]);
                assert(cur[a] == last);
                let i = choose|i: int| 0 <= i < w.len() && w[i].name@ == prev[b].name@;
                assert(g[i].name@ != g[g.len() - 1].name@);
            }
        }
        assert forall|n: Seq<char>| has_texture(g, n) && !has_texture(s, n) implies #[trigger] has_texture(cur, n) by {
            let a = choose|a: int| 0 <= a < g.len() && g[a].name@ == n;
            if a < g.len() - 1 {
                assert(w[a].name@ == n);
                assert(has_texture(prev, n));
                let p = choose|p: int| 0 <= p < prev.len() && prev[p].name@ == n;
                assert(cur[p] == prev[p]);
            } else {
                assert(cur[cur.len() - 1] == last);
            }
        }
    }
}

/// The color outputs `new_colors` keeps have names `s` lacks, told apart
/// when those of `g` are, and every name of `g` that `s` lacks is among them.
proof fn lemma_new_colors_roles(s: Seq<ColorOutput>, g: Seq<ColorOutput>)
    requires
        color_names_distinct(g),
    ensures
        forall|p: int| 0 <= p < new_colors(s, g).len()
            ==> !has_color(s, #[trigger] new_colors(s, g)[p].name@) && has_color(g, new_colors(s, g)[p].name@),
        color_names_distinct(new_colors(s, g)),
        forall|n: Seq<char>| has_color(g, n) && !has_color(s, n) ==> #[trigger] has_color(new_colors(s, g), n),
    decreases g.len(),
{
    if g.len() > 0 {
        let w = g.drop_last();
        assert(color_names_distinct(w)) by {
            assert forall|a: int, b: int| 0 <= a < w.len() && 0 <= b < w.len() && a != b
                implies (#[trigger] w[a]).name@ != (#[trigger] w[b]).name@ by {
                assert(g[a].name@ != g[b].name@);
            }
        }
        lemma_new_colors_roles(s, w);
        let prev = new_colors(s, w);
        let cur = new_colors(s, g);
        let last = g[g.len() - 1];
        assert forall|p: int| 0 <= p < cur.len()
            implies !has_color(s, #[trigger] cur[p].name@) && has_color(g, cur[p].name@) by {
            if p < prev.len() {
                assert(cur[p] == prev[p]);
                let a = choose|a: int| 0 <= a < w.len() && w[a].name@ == prev[p].name@;
                assert(g[a].name@ == prev[p].name@);
            } else {
                assert(cur[p] == last);
            }
        }
        assert forall|a: int, b: int| 0 <= a < cur.len() && 0 <= b < cur.len() && a != b
            implies (#[trigger] cur[a]).name@ != (#[trigger] cur[b]).name@ by {
            if a < prev.len() && b < prev.len() {
                assert(cur[a] == prev[a]);
                assert(cur[b] == prev[b]);
            } else if a < prev.len() {
                assert(cur[a] == prev[a]);
                assert(cur[b] == last);
                let i = choose|i: int| 0 <= i < w.len() && w[i].name@ == prev[a].name@;
                assert(g[i].name@ != g[g.len() - 1].name@);
            } else if b < prev.len() {
                assert(cur[b] == prev[b]);
                assert(cur[a] == last);
                let i = choose|i: int| 0 <= i < w.len() && w[i].name@ == prev[b].name@;
                assert(g[i].name@ != g[g.len() - 1].name@);
            }
        }
        assert forall|n: Seq<char>| has_color(g, n) && !has_color(s, n) implies #[trigger] has_color(cur, n) by {
            let a = choose|a: int| 0 <= a < g.len() && g[a].name@ == n;
            if a < g.len() - 1 {
                assert(w[a].name@ == n);
                assert(has_color(prev, n));
                let p = choose|p: int| 0 <= p < prev.len() && prev[p].name@ == n;
                assert(cur[p] == prev[p]);
            } else {
                assert(cur[cur.len() - 1] == last);
            }
        }
    }
}

/// Merging keeps the roles apart and unites them: when neither graph has two
/// uniforms of one type or two textures or color outputs of one name, the
/// merged graph has none either, and its uniform types, texture names and
/// color output names are those of the two graphs together.
pub proof fn law_merge_unites_roles(s0: ShaderGraph, g: ShaderGraph, fin: ShaderGraph, v: Seq<(NodeIndex, NodeIndex)>)
    requires
        sub_graph_merged(s0, g, fin, v),
        distinct_roles(s0),
        distinct_roles(g),
    ensures
        distinct_roles(fin),
        forall|ty: u128| #[trigger] has_ty(fin.uniform_list(), ty)
            <==> (has_ty(s0.uniform_list(), ty) || has_ty(g.uniform_list(), ty)),
        forall|n: Seq<char>| #[trigger] has_texture(fin.texture_list(), n)
            <==> (has_texture(s0.texture_list(), n) || has_texture(g.texture_list(), n)),
        forall|n: Seq<char>| #[trigger] has_color(fin.color_output_list(), n)
            <==> (has_color(s0.color_output_list(), n) || has_color(g.color_output_list(), n)),
{
    let m = pair_map(v);
    let su = s0.uniform_list();
    let fu = fin.uniform_list();
    let nu = new_uniforms(su, g.uniform_list());
    lemma_new_uniforms_roles(su, g.uniform_list());
    let k = su.len() as int;
    assert forall|a: int| 0 <= a < k implies #[trigger] fu[a] == su[a] by {
        assert(fu.take(k)[a] == su[a]);
    }
    assert forall|p: int| 0 <= p < nu.len() implies #[trigger] fu[k + p].ty_id == nu[p].ty_id by {
        assert(uniform_moved(fu[k + p], nu[p], m[nu[p].node_index]));
    }
    assert forall|a: int, b: int| 0 <= a < fu.len() && 0 <= b < fu.len() && a != b
        implies (#[trigger] fu[a]).ty_id != (#[trigger] fu[b]).ty_id by {
        if a < k && b < k {
        } else if a < k {
            assert(fu[b].ty_id == nu[b - k].ty_id);
            assert(!has_ty(su, nu[b - k].ty_id));
        } else if b < k {
            assert(fu[a].ty_id == nu[a - k].ty_id);
            assert(!has_ty(su, nu[a - k].ty_id));
        } else {
            assert(fu[a].ty_id == nu[a - k].ty_id);
            assert(fu[b].ty_id == nu[b - k].ty_id);
        }
    }
    assert forall|ty: u128| #[trigger] has_ty(fu, ty) <==> (has_ty(su, ty) || has_ty(g.uniform_list(), ty)) by {
        if has_ty(fu, ty) {
            let a = choose|a: int| 0 <= a < fu.len() && fu[a].ty_id == ty;
            if a >= k {
                assert(fu[a].ty_id == nu[a - k].ty_id);
                assert(has_ty(g.uniform_list(), nu[a - k].ty_id));
            }
        }
        if has_ty(su, ty) {
            let a = choose|a: int| 0 <= a < su.len() && su[a].ty_id == ty;
            assert(fu[a] == su[a]);
        } else if has_ty(g.uniform_list(), ty) {
            assert(has_ty(nu, ty));
            let p = choose|p: int| 0 <= p < nu.len() && nu[p].ty_id == ty;
            assert(fu[k + p].ty_id == ty);
        }
    }

    let st = s0.texture_list();
    let ft = fin.texture_list();
    let nt = new_textures(st, g.texture_list());
    lemma_new_textures_roles(st, g.texture_list());
    let kt = st.len() as int;
    assert forall|a: int| 0 <= a < kt implies #[trigger] ft[a] == st[a] by {}
    assert forall|p: int| 0 <= p < nt.len() implies #[trigger] ft[kt + p].name@ == nt[p].name@ by {}
    assert forall|a: int, b: int| 0 <= a < ft.len() && 0 <= b < ft.len() && a != b
        implies (#[trigger] ft[a]).name@ != (#[trigger] ft[b]).name@ by {
        if a < kt && b < kt {
        } else if a < kt {
            assert(ft[b].name@ == nt[b - kt].name@);
            assert(!has_texture(st, nt[b - kt].name@));
        } else if b < kt {
            assert(ft[a].name@ == nt[a - kt].name@);
            assert(!has_texture(st, nt[a - kt].name@));
        } else {
            assert(ft[a].name@ == nt[a - kt].name@);
            assert(ft[b].name@ == nt[b - kt].name@);
        }
    }
    assert forall|n: Seq<char>| #[trigger] has_texture(ft, n) <==> (has_texture(st, n) || has_texture(g.texture_list(), n)) by {
        if has_texture(ft, n) {
            let a = choose|a: int| 0 <= a < ft.len() && ft[a].name@ == n;
            if a >= kt {
                assert(ft[a].name@ == nt[a - kt].name@);
                assert(has_texture(g.texture_list(), nt[a - kt].name@));
            }
        }
        if has_texture(st, n) {
            let a = choose|a: int| 0 <= a < st.len() && st[a].name@ == n;
            assert(ft[a] == st[a]);
        } else if has_texture(g.texture_list(), n) {
            assert(has_texture(nt, n));
            let p = choose|p: int| 0 <= p < nt.len() && nt[p].name@ == n;
            assert(ft[kt + p].name@ == n);
        }
    }

    let sc = s0.color_output_list();
    let fc = fin.color_output_list();
    let nc = new_colors(sc, g.color_output_list());
    lemma_new_colors_roles(sc, g.color_output_list());
    let kc = sc.len() as int;
    assert forall|a: int| 0 <= a < kc implies #[trigger] fc[a] == sc[a] by {}
    assert forall|p: int| 0 <= p < nc.len() implies #[trigger] fc[kc + p].name@ == nc[p].name@ by {}
    assert forall|a: int, b: int| 0 <= a < fc.len() && 0 <= b < fc.len() && a != b
        implies (#[trigger] fc[a]).name@ != (#[trigger] fc[b]).name@ by {
        if a < kc && b < kc {
        } else if a < kc {
            assert(fc[b].name@ == nc[b - kc].name@);
            assert(!has_color(sc, nc[b - kc].name@));
        } else if b < kc {
            assert(fc[a].name@ == nc[a - kc].name@);
            assert(!has_color(sc, nc[a - kc].name@));
        } else {
            assert(fc[a].name@ == nc[a - kc].name@);
            assert(fc[b].name@ == nc[b - kc].name@);
        }
    }
    assert forall|n: Seq<char>| #[trigger] has_color(fc, n) <==> (has_color(sc, n) || has_color(g.color_output_list(), n)) by {
        if has_color(fc, n) {
            let a = choose|a: int| 0 <= a < fc.len() && fc[a].name@ == n;
            if a >= kc {
                assert(fc[a].name@ == nc[a - kc].name@);
                assert(has_color(g.color_output_list(), nc[a - kc].name@));
            }
        }
        if has_color(sc, n) {
            let a = choose|a: int| 0 <= a < sc.len() && sc[a].name@ == n;
            assert(fc[a] == sc[a]);
        } else if has_color(g.color_output_list(), n) {
            assert(has_color(nc, n));
            let p = choose|p: int| 0 <= p < nc.len() && nc[p].name@ == n;
            assert(fc[kc + p].name@ == n);
        }
    }
}

/// The roles of `g` that `s` already fills take, once matched, only inputs
/// from nodes of `g` (see [`expected`]), told role by role: the vertex
/// output, each uniform and texture by the first of `s` of its type or name,
/// each color output by the first of `s` of its name.
pub open spec fn roles_fed(s: ShaderGraph, g: ShaderGraph) -> bool {
    let d = g.nodes().dom();
    &&& (g.vertex_output() is Some && s.vertex_output() is Some ==> inputs_within(
        overlay(s.nodes()[s.vertex_output().unwrap()], g.nodes()[g.vertex_output().unwrap()]), d))
    &&& forall|a: int, j: int| 0 <= a < g.uniform_list().len()
        && #[trigger] first_ty(s.uniform_list(), g.uniform_list()[a].ty_id, j)
        ==> inputs_within(s.nodes()[s.uniform_list()[j].node_index], d)
    &&& forall|a: int, j: int| 0 <= a < g.texture_list().len()
        && #[trigger] first_texture(s.texture_list(), g.texture_list()[a].name@, j)
        ==> inputs_within(s.nodes()[s.texture_list()[j].node_index], d)
    &&& forall|a: int, j: int| 0 <= a < g.color_output_list().len()
        && #[trigger] first_color(s.color_output_list(), g.color_output_list()[a].name@, j)
        ==> inputs_within(overlay(s.nodes()[s.color_output_list()[j].node], g.nodes()[g.color_output_list()[a].node]), d)
}

/// The last clause of [`can_merge`] holds exactly when [`roles_fed`] does.
proof fn lemma_roles_fed(s: ShaderGraph, g: ShaderGraph)
    requires
        s.well_formed(),
        g.well_formed(),
    ensures
        roles_fed(s, g) <==> forall|k: NodeIndex| #[trigger] g.nodes().contains_key(k) && target_pos(s, g, k) >= 0
            ==> inputs_within(expected(s, g, k), g.nodes().dom()),
{
    let d = g.nodes().dom();
    lemma_special_index(s);
    lemma_special_index(g);
    let vl = vo_len(s);
    let nu = s.uniform_list().len() as int;
    let nt = s.texture_list().len() as int;
    if roles_fed(s, g) {
        assert forall|k: NodeIndex| #[trigger] g.nodes().contains_key(k) && target_pos(s, g, k) >= 0
            implies inputs_within(expected(s, g, k), d) by {
            if g.vertex_output() == Some(k) && s.vertex_output() is Some {
            } else if exists|a: int, j: int| uniform_match(s, g, k, a, j) {
                let (a, j) = choose|a: int, j: int| uniform_match(s, g, k, a, j);
                lemma_tp_uniform(s, g, a);
                assert(first_ty(s.uniform_list(), g.uniform_list()[a].ty_id, j));
                assert(s.special_nodes()[vl + j] == s.uniform_list()[j].node_index);
            } else if exists|a: int, j: int| texture_match(s, g, k, a, j) {
                let (a, j) = choose|a: int, j: int| texture_match(s, g, k, a, j);
                lemma_tp_texture(s, g, a);
                assert(first_texture(s.texture_list(), g.texture_list()[a].name@, j));
                assert(s.special_nodes()[vl + nu + j] == s.texture_list()[j].node_index);
            } else if exists|a: int, j: int| color_match(s, g, k, a, j) {
                let (a, j) = choose|a: int, j: int| color_match(s, g, k, a, j);
                lemma_tp_color(s, g, a);
                assert(first_color(s.color_output_list(), g.color_output_list()[a].name@, j));
                assert(s.special_nodes()[vl + nu + nt + j] == s.color_output_list()[j].node);
            }
        }
    }
    if forall|k: NodeIndex| #[trigger] g.nodes().contains_key(k) && target_pos(s, g, k) >= 0
        ==> inputs_within(expected(s, g, k), d) {
        if g.vertex_output() is Some && s.vertex_output() is Some {
            let k = g.vertex_output().unwrap();
            lemma_tp_vertex(s, g);
            assert(g.special_nodes()[0] == k);
            assert(g.nodes().contains_key(k));
        }
        assert forall|a: int, j: int| 0 <= a < g.uniform_list().len()
            && #[trigger] first_ty(s.uniform_list(), g.uniform_list()[a].ty_id, j)
            implies inputs_within(s.nodes()[s.uniform_list()[j].node_index], d) by {
            let k = g.uniform_list()[a].node_index;
            lemma_tp_uniform(s, g, a);
            assert(g.special_nodes()[vo_len(g) + a] == k);
            assert(g.nodes().contains_key(k));
            assert(s.special_nodes()[vl + j] == s.uniform_list()[j].node_index);
        }
        assert forall|a: int, j: int| 0 <= a < g.texture_list().len()
            && #[trigger] first_texture(s.texture_list(), g.texture_list()[a].name@, j)
            implies inputs_within(s.nodes()[s.texture_list()[j].node_index], d) by {
            let k = g.texture_list()[a].node_index;
            lemma_tp_texture(s, g, a);
            assert(g.special_nodes()[vo_len(g) + g.uniform_list().len() + a] == k);
            assert(g.nodes().contains_key(k));
            assert(s.special_nodes()[vl + nu + j] == s.texture_list()[j].node_index);
        }
        assert forall|a: int, j: int| 0 <= a < g.color_output_list().len()
            && #[trigger] first_color(s.color_output_list(), g.color_output_list()[a].name@, j)
            implies inputs_within(overlay(s.nodes()[s.color_output_list()[j].node], g.nodes()[g.color_output_list()[a].node]), d) by {
            let k = g.color_output_list()[a].node;
            lemma_tp_color(s, g, a);
            assert(g.special_nodes()[vo_len(g) + g.uniform_list().len() + g.texture_list().len() + a] == k);
            assert(g.nodes().contains_key(k));
            assert(s.special_nodes()[vl + nu + nt + j] == s.color_output_list()[j].node);
        }
    }
}

/// Whether every connected input of `base` (or, where `top` connects one,
/// of `top`) comes from a node of `ids`.
fn inputs_from(ids: &Vec<NodeIndex>, base: &GraphNode, top: Option<&GraphNode>) -> (r: bool)
    ensures
        r == inputs_within(
            match top {
                Some(t) => overlay(base@, t@),
                None => base@,
            },
            ids@.to_set(),
        ),
{
    let ghost n = match top {
        Some(t) => overlay(base@, t@),
        None => base@,
    };
    let mut q: usize = 0;
    while q < MAX_INPUT_OUTPUTS_PER_NODE
        invariant
            q <= MAX_INPUT_OUTPUTS_PER_NODE,
            n == match top {
                Some(t) => overlay(base@, t@),
                None => base@,
            },
            n.inputs.len() == MAX_INPUT_OUTPUTS_PER_NODE,
            forall|p: int| 0 <= p < q && (#[trigger] n.inputs[p]) is Some
                ==> ids@.to_set().contains(n.inputs[p].unwrap().owner_node_index),
        decreases MAX_INPUT_OUTPUTS_PER_NODE - q,
    {
        let x = match top {
            Some(t) => if t.inputs[q].is_some() { t.inputs[q] } else { base.inputs[q] },
            None => base.inputs[q],
        };
        assert(x == n.inputs[q as int]);
        if let Some(inp) = x {
            if !contains_index(ids, inp.owner_node_index) {
                return false;
            }
        }
        q = q + 1;
    }
    true
}

impl ShaderGraph {
    /// Whether no two uniforms share a type and no two textures or two color
    /// outputs share a name.
    pub fn has_distinct_roles(&self) -> (r: bool)
        ensures
            r == distinct_roles(*self),
    {
        let us = self.uniforms_ref();
        let mut a: usize = 0;
        while a < us.len()
            invariant
                us@ == self.uniform_list(),
                a <= us@.len(),
                forall|x: int, y: int| 0 <= x < a && 0 <= y < us@.len() && x != y
                    ==> (#[trigger] us@[x]).ty_id != (#[trigger] us@[y]).ty_id,
            decreases us@.len() - a,
        {
            let mut b: usize = 0;
            while b < us.len()
                invariant
                    us@ == self.uniform_list(),
                    a < us@.len(),
                    b <= us@.len(),
                    forall|y: int| 0 <= y < b && y != a ==> us@[y].ty_id != us@[a as int].ty_id,
                decreases us@.len() - b,
            {
                if b != a && us[b].ty_id == us[a].ty_id {
                    return false;
                }
                b = b + 1;
            }
            a = a + 1;
        }
        let ts = self.textures_ref();
        let mut a: usize = 0;
        while a < ts.len()
            invariant
                ts@ == self.texture_list(),
                types_distinct(self.uniform_list()),
                a <= ts@.len(),
                forall|x: int, y: int| 0 <= x < a && 0 <= y < ts@.len() && x != y
                    ==> (#[trigger] ts@[x]).name@ != (#[trigger] ts@[y]).name@,
            decreases ts@.len() - a,
        {
            let mut b: usize = 0;
            while b < ts.len()
                invariant
                    ts@ == self.texture_list(),
                    a < ts@.len(),
                    b <= ts@.len(),
                    forall|y: int| 0 <= y < b && y != a ==> ts@[y].name@ != ts@[a as int].name@,
                decreases ts@.len() - b,
            {
                if b != a && ts[b].name == ts[a].name {
                    return false;
                }
                b = b + 1;
            }
            a = a + 1;
        }
        let cs = self.get_color_outputs();
        let mut a: usize = 0;
        while a < cs.len()
            invariant
                cs@ == self.color_output_list(),
                types_distinct(self.uniform_list()),
                texture_names_distinct(self.texture_list()),
                a <= cs@.len(),
                forall|x: int, y: int| 0 <= x < a && 0 <= y < cs@.len() && x != y
                    ==> (#[trigger] cs@[x]).name@ != (#[trigger] cs@[y]).name@,
            decreases cs@.len() - a,
        {
            let mut b: usize = 0;
            while b < cs.len()
                invariant
                    cs@ == self.color_output_list(),
                    a < cs@.len(),
                    b <= cs@.len(),
                    forall|y: int| 0 <= y < b && y != a ==> cs@[y].name@ != cs@[a as int].name@,
                decreases cs@.len() - b,
            {
                if b != a && cs[b].name == cs[a].name {
                    return false;
                }
                b = b + 1;
            }
            a = a + 1;
        }
        true
    }
}

impl ShaderGraph {
    /// Whether `graph` can be merged into this graph (both well formed) by
    /// [`ShaderGraph::add_sub_graph`]: see [`can_merge`].
    pub fn can_take(&self, graph: &ShaderGraph) -> (r: bool)
        requires
            self.well_formed(),
            graph.well_formed(),
        ensures
            r == can_merge(*self, *graph),
    {
        proof {
            lemma_roles_fed(*self, *graph);
            lemma_special_index(*self);
            lemma_special_index(*graph);
        }
        if !graph.has_distinct_roles() {
            return false;
        }
        let ids = graph.node_indices();
        let ghost d = graph.nodes().dom();
        assert(ids@.to_set() =~= d);
        let mut i: usize = 0;
        while i < ids.len()
            invariant
                i <= ids@.len(),
                ids@.to_set() == d,
                d == graph.nodes().dom(),
                forall|k: NodeIndex| graph.nodes().contains_key(k) <==> ids@.contains(k),
                forall|a: int| 0 <= a < i ==> inputs_within(graph.nodes()[#[trigger] ids@[a]], d),
            decreases ids@.len() - i,
        {
            assert(ids@.contains(ids@[i as int]));
            let node = graph.node_ref(ids[i]);
            if !inputs_from(&ids, node, None) {
                return false;
            }
            i = i + 1;
        }
        assert(connections_closed(*graph)) by {
            assert forall|k: NodeIndex| #[trigger] graph.nodes().contains_key(k) implies inputs_within(graph.nodes()[k], d) by {
                assert(ids@.contains(k));
                let a = choose|a: int| 0 <= a < ids@.len() && ids@[a] == k;
            }
        }
        match (graph.vertex_output_index(), self.vertex_output_index()) {
            (Some(k), Some(t)) => {
                assert(graph.special_nodes()[0] == k);
                assert(self.special_nodes()[0] == t);
                if !inputs_from(&ids, self.node_ref(t), Some(graph.node_ref(k))) {
                    return false;
                }
            },
            _ => {},
        }
        let su = self.uniforms_ref();
        let gu = graph.uniforms_ref();
        assert(su@.take(su@.len() as int) =~= su@);
        let mut a: usize = 0;
        while a < gu.len()
            invariant
                su@ == self.uniform_list(),
                gu@ == graph.uniform_list(),
                self.well_formed(),
                a <= gu@.len(),
                ids@.to_set() == d,
                d == graph.nodes().dom(),
                can_merge(*self, *graph) ==> roles_fed(*self, *graph),
                forall|x: int| 0 <= x < su@.len() ==> self.special_nodes()[vo_len(*self) + x] == (#[trigger] su@[x]).node_index,
                forall|b: int, j: int| 0 <= b < a && #[trigger] first_ty(su@, gu@[b].ty_id, j)
                    ==> inputs_within(self.nodes()[su@[j].node_index], d),
            decreases gu@.len() - a,
        {
            match find_uniform(su, su.len(), gu[a].ty_id) {
                Some(j) => {
                    assert(su@.take(su@.len() as int) =~= su@);
                    assert(self.nodes().contains_key(self.special_nodes()[vo_len(*self) + j]));
                    let ok = inputs_from(&ids, self.node_ref(su[j].node_index), None);
                    proof {
                        assert forall|j2: int| #[trigger] first_ty(su@, gu@[a as int].ty_id, j2) implies j2 == j by {
                            if j2 < j { assert(su@[j2].ty_id != gu@[a as int].ty_id); }
                            if j < j2 { assert(su@[j as int].ty_id != gu@[a as int].ty_id); }
                        }
                    }
                    if !ok {
                        assert(first_ty(self.uniform_list(), graph.uniform_list()[a as int].ty_id, j as int));
                        assert(!roles_fed(*self, *graph));
                        return false;
                    }
                },
                None => {
                    assert(su@.take(su@.len() as int) =~= su@);
                },
            }
            a = a + 1;
        }
        let st = self.textures_ref();
        let gt = graph.textures_ref();
        let mut a: usize = 0;
        while a < gt.len()
            invariant
                st@ == self.texture_list(),
                gt@ == graph.texture_list(),
                self.well_formed(),
                a <= gt@.len(),
                ids@.to_set() == d,
                d == graph.nodes().dom(),
                can_merge(*self, *graph) ==> roles_fed(*self, *graph),
                forall|x: int| 0 <= x < st@.len() ==> self.special_nodes()[vo_len(*self) + self.uniform_list().len() + x]
                    == (#[trigger] st@[x]).node_index,
                forall|b: int, j: int| 0 <= b < a && #[trigger] first_texture(st@, gt@[b].name@, j)
                    ==> inputs_within(self.nodes()[st@[j].node_index], d),
            decreases gt@.len() - a,
        {
            match find_texture(st, st.len(), &gt[a].name) {
                Some(j) => {
                    assert(st@.take(st@.len() as int) =~= st@);
                    assert(self.nodes().contains_key(self.special_nodes()[vo_len(*self) + self.uniform_list().len() + j]));
                    let ok = inputs_from(&ids, self.node_ref(st[j].node_index), None);
                    proof {
                        assert forall|j2: int| #[trigger] first_texture(st@, gt@[a as int].name@, j2) implies j2 == j by {
                            if j2 < j { assert(st@[j2].name@ != gt@[a as int].name@); }
                            if j < j2 { assert(st@[j as int].name@ != gt@[a as int].name@); }
                        }
                    }
                    if !ok {
                        assert(first_texture(self.texture_list(), graph.texture_list()[a as int].name@, j as int));
                        assert(!roles_fed(*self, *graph));
                        return false;
                    }
                },
                None => {
                    assert(st@.take(st@.len() as int) =~= st@);
                },
            }
            a = a + 1;
        }
        let sc = self.get_color_outputs();
        let gc = graph.get_color_outputs();
        let mut a: usize = 0;
        while a < gc.len()
            invariant
                sc@ == self.color_output_list(),
                gc@ == graph.color_output_list(),
                self.well_formed(),
                graph.well_formed(),
                a <= gc@.len(),
                ids@.to_set() == d,
                d == graph.nodes().dom(),
                can_merge(*self, *graph) ==> roles_fed(*self, *graph),
                forall|x: int| 0 <= x < sc@.len() ==> self.special_nodes()[vo_len(*self) + self.uniform_list().len()
                    + self.texture_list().len() + x] == (#[trigger] sc@[x]).node,
                forall|x: int| 0 <= x < gc@.len() ==> graph.special_nodes()[vo_len(*graph) + graph.uniform_list().len()
                    + graph.texture_list().len() + x] == (#[trigger] gc@[x]).node,
                forall|b: int, j: int| 0 <= b < a && #[trigger] first_color(sc@, gc@[b].name@, j)
                    ==> inputs_within(overlay(self.nodes()[sc@[j].node], graph.nodes()[gc@[b].node]), d),
            decreases gc@.len() - a,
        {
            match find_color(sc, sc.len(), &gc[a].name) {
                Some(j) => {
                    assert(sc@.take(sc@.len() as int) =~= sc@);
                    assert(self.nodes().contains_key(self.special_nodes()[vo_len(*self) + self.uniform_list().len()
                        + self.texture_list().len() + j]));
                    assert(graph.nodes().contains_key(graph.special_nodes()[vo_len(*graph) + graph.uniform_list().len()
                        + graph.texture_list().len() + a]));
                    let ok = inputs_from(&ids, self.node_ref(sc[j].node), Some(graph.node_ref(gc[a].node)));
                    proof {
                        assert forall|j2: int| #[trigger] first_color(sc@, gc@[a as int].name@, j2) implies j2 == j by {
                            if j2 < j { assert(sc@[j2].name@ != gc@[a as int].name@); }
                            if j < j2 { assert(sc@[j as int].name@ != gc@[a as int].name@); }
                        }
                    }
                    if !ok {
                        assert(first_color(self.color_output_list(), graph.color_output_list()[a as int].name@, j as int));
                        assert(!roles_fed(*self, *graph));
                        return false;
                    }
                },
                None => {
                    assert(sc@.take(sc@.len() as int) =~= sc@);
                },
            }
            a = a + 1;
        }
        assert(roles_fed(*self, *graph));
        true
    }
}

/// Where the roles of a graph stand among its `special_nodes`.
proof fn lemma_special_index(s: ShaderGraph)
    ensures
        s.special_nodes().len() == vo_len(s) + s.uniform_list().len() + s.texture_list().len()
            + s.color_output_list().len(),
        s.vertex_output() is Some ==> s.special_nodes()[0] == s.vertex_output().unwrap(),
        forall|a: int| 0 <= a < s.uniform_list().len()
            ==> s.special_nodes()[vo_len(s) + a] == (#[trigger] s.uniform_list()[a]).node_index,
        forall|a: int| 0 <= a < s.texture_list().len()
            ==> s.special_nodes()[vo_len(s) + s.uniform_list().len() + a] == (#[trigger] s.texture_list()[a]).node_index,
        forall|a: int| 0 <= a < s.color_output_list().len()
            ==> s.special_nodes()[vo_len(s) + s.uniform_list().len() + s.texture_list().len() + a]
                == (#[trigger] s.color_output_list()[a]).node,
{
}

} // verus!
