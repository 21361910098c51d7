//! The scene tree as the flattener sees it: class dispatch, property
//! defaulting, and the sequence of geometry emissions a tree gives rise to.

use vstd::prelude::*;

use crate::material::ColorKey;

verus! {

/// The geometric primitive resolved for an instance, named as the
/// box-family selector names them (`Ball` is the geodesic sphere, `Block`
/// the axis-aligned box).
#[derive(Clone, Copy, PartialEq, Eq, Structural, Debug)]
pub enum ShapeKind {
    Block,
    Wedge,
    CornerWedge,
    Cylinder,
    Ball,
}

/// Three color channel bytes.
#[derive(Clone, Copy, PartialEq, Eq, Structural, Debug)]
pub struct Rgb {
    pub r: u8,
    pub g: u8,
    pub b: u8,
}

/// One node of the instance tree, as the scene-graph loader hands it in.
/// Properties that were absent or of the wrong type arrive as `None` and are
/// substituted by their documented defaults here; the alpha byte, which is
/// derived from the floating-point opacity complement, is computed by the
/// loader. The `tag` is the caller's handle for this instance, under which
/// it keeps the data only it consumes (size and placement).
pub struct SceneNode {
    pub class: String,
    pub shape: Option<u32>,
    pub color: Option<Rgb>,
    pub alpha: u8,
    pub tag: usize,
    pub children: Vec<SceneNode>,
}

/// The shape the box-family selector value picks: the ball, the block or
/// the cylinder, with the block for an absent or unrecognized value.
pub open spec fn selector_shape(shape: Option<u32>) -> ShapeKind {
    match shape {
        Some(v) => if v == 0 {
            ShapeKind::Ball
        } else if v == 2 {
            ShapeKind::Cylinder
        } else {
            ShapeKind::Block
        },
        None => ShapeKind::Block,
    }
}

/// The shape kind of an instance: the box-family class resolves through the
/// selector, the two wedge classes are fixed, and any other class produces
/// no geometry.
pub open spec fn shape_of(class: Seq<char>, shape: Option<u32>) -> Option<ShapeKind> {
    if class == "Part"@ {
        Some(selector_shape(shape))
    } else if class == "WedgePart"@ {
        Some(ShapeKind::Wedge)
    } else if class == "CornerWedgePart"@ {
        Some(ShapeKind::CornerWedge)
    } else {
        None
    }
}

/// Resolves the shape kind of an instance from its class name and its
/// box-family shape selector.
pub fn resolve_shape(class: &String, shape: &Option<u32>) -> (k: Option<ShapeKind>)
    ensures
        k == shape_of(class@, *shape),
{
    let part = "Part".to_owned();
    let wedge = "WedgePart".to_owned();
    let corner_wedge = "CornerWedgePart".to_owned();
    if *class == part {
        let sel: u32 = match shape {
            Some(v) => *v,
            None => 1,
        };
        if sel == 0 {
            Some(ShapeKind::Ball)
        } else if sel == 2 {
            Some(ShapeKind::Cylinder)
        } else {
            Some(ShapeKind::Block)
        }
    } else if *class == wedge {
        Some(ShapeKind::Wedge)
    } else if *class == corner_wedge {
        Some(ShapeKind::CornerWedge)
    } else {
        None
    }
}

/// The documented default for an absent or mistyped color: white.
pub open spec fn color_or_default_spec(c: Option<Rgb>) -> Rgb {
    match c {
        Some(x) => x,
        None => Rgb { r: 255, g: 255, b: 255 },
    }
}

/// Substitutes the default color for an absent one.
pub fn color_or_default(c: &Option<Rgb>) -> (r: Rgb)
    ensures
        r == color_or_default_spec(*c),
{
    match c {
        Some(x) => *x,
        None => Rgb { r: 255, g: 255, b: 255 },
    }
}

/// The quantized material key of an instance: its resolved color and its
/// alpha byte.
pub open spec fn node_key(n: SceneNode) -> ColorKey {
    let c = color_or_default_spec(n.color);
    ColorKey { r: c.r, g: c.g, b: c.b, a: n.alpha }
}

/// One geometry emission: a recognized instance contributes its shape kind,
/// its material key and its tag, in traversal order.
pub struct Emit {
    pub kind: ShapeKind,
    pub key: ColorKey,
    pub tag: usize,
}

/// What the instance itself emits: one record if its class is recognized,
/// nothing otherwise.
pub open spec fn node_head(n: SceneNode) -> Seq<Emit> {
    match shape_of(n.class@, n.shape) {
        Some(k) => seq![Emit { kind: k, key: node_key(n), tag: n.tag }],
        None => Seq::empty(),
    }
}

/// The emissions of an instance and its whole subtree, in depth-first
/// pre-order.
pub open spec fn node_emits(n: SceneNode) -> Seq<Emit>
    decreases n,
{
    node_head(n) + forest_emits(n.children@)
}

/// The emissions of a forest of instances, in order.
pub open spec fn forest_emits(s: Seq<SceneNode>) -> Seq<Emit>
    decreases s,
{
    if s.len() == 0 {
        Seq::empty()
    } else {
        node_emits(s[0]) + forest_emits(s.drop_first())
    }
}

/// Splitting off the first `i` nodes of a forest splits its emissions.
pub proof fn lemma_forest_emits_snoc(s: Seq<SceneNode>, i: int)
    requires
        0 <= i < s.len(),
    ensures
        forest_emits(s.subrange(0, i + 1)) == forest_emits(s.subrange(0, i)) + node_emits(s[i]),
    decreases i,
{
    if i == 0 {
        assert(s.subrange(0, 1).drop_first() =~= Seq::<SceneNode>::empty());
        assert(s.subrange(0, 0) =~= Seq::<SceneNode>::empty());
        assert(s.subrange(0, 1)[0] == s[0]);
        assert(forest_emits(s.subrange(0, 1)) =~= forest_emits(s.subrange(0, 0)) + node_emits(
            s[0],
        ));
    } else {
        let tail = s.drop_first();
        lemma_forest_emits_snoc(tail, i - 1);
        assert(s.subrange(0, i + 1).drop_first() =~= tail.subrange(0, i));
        assert(s.subrange(0, i).drop_first() =~= tail.subrange(0, i - 1));
        assert(s.subrange(0, i + 1)[0] == s[0]);
        assert(s.subrange(0, i)[0] == s[0]);
        assert(tail[i - 1] == s[i]);
        assert(node_emits(s[0]) + (forest_emits(tail.subrange(0, i - 1)) + node_emits(s[i]))
            =~= (node_emits(s[0]) + forest_emits(tail.subrange(0, i - 1))) + node_emits(s[i]));
    }
}

/// A forest's emissions are those of its first `len` nodes.
pub proof fn lemma_forest_emits_all(s: Seq<SceneNode>)
    ensures
        forest_emits(s.subrange(0, s.len() as int)) == forest_emits(s),
{
    assert(s.subrange(0, s.len() as int) =~= s);
}

} // verus!
