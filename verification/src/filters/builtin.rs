//! The packing layouts of the built-in filters and their registry facts.
//!
//! Every layout here obeys the no-straddle rule and fits the filter's packed
//! `Vec4` count ([`layout_well_formed`]), which the chain resolver's
//! physical-px rewrite and the layout-aware interpolation rely on.

use vstd::prelude::*;

use super::params::{layout_well_formed, lemma_layout_names_distinct, slot_is, ParamSlot, ValueKind};

verus! {

/// The `bloom` packing layout (2 packed `Vec4`s).
pub fn bloom_layout() -> (r: Vec<ParamSlot>)
    ensures
        r@.len() == 3,
        slot_is(r@[0], "radius"@, ValueKind::Length, 0, 0, 1),
        slot_is(r@[1], "threshold"@, ValueKind::Scalar, 1, 0, 1),
        slot_is(r@[2], "intensity"@, ValueKind::Scalar, 1, 1, 1),
        layout_well_formed(r@, 2),
{
    let mut r: Vec<ParamSlot> = Vec::new();
    r.push(ParamSlot { name: "radius", kind: ValueKind::Length, vec: 0, comp: 0, len: 1 });
    r.push(ParamSlot { name: "threshold", kind: ValueKind::Scalar, vec: 1, comp: 0, len: 1 });
    r.push(ParamSlot { name: "intensity", kind: ValueKind::Scalar, vec: 1, comp: 1, len: 1 });
    proof {
        reveal_strlit("radius");
        reveal_strlit("threshold");
        reveal_strlit("intensity");
        lemma_layout_names_distinct(r@);
    }
    r
}

/// The `blur` packing layout (1 packed `Vec4`).
pub fn blur_layout() -> (r: Vec<ParamSlot>)
    ensures
        r@.len() == 1,
        slot_is(r@[0], "radius"@, ValueKind::Length, 0, 0, 1),
        layout_well_formed(r@, 1),
{
    let mut r: Vec<ParamSlot> = Vec::new();
    r.push(ParamSlot { name: "radius", kind: ValueKind::Length, vec: 0, comp: 0, len: 1 });
    proof {
        reveal_strlit("radius");
        lemma_layout_names_distinct(r@);
    }
    r
}

/// The `chromaticAberration` packing layout (1 packed `Vec4`).
pub fn chromatic_aberration_layout() -> (r: Vec<ParamSlot>)
    ensures
        r@.len() == 2,
        slot_is(r@[0], "offset"@, ValueKind::Length, 0, 0, 1),
        slot_is(r@[1], "angle"@, ValueKind::Angle, 0, 1, 1),
        layout_well_formed(r@, 1),
{
    let mut r: Vec<ParamSlot> = Vec::new();
    r.push(ParamSlot { name: "offset", kind: ValueKind::Length, vec: 0, comp: 0, len: 1 });
    r.push(ParamSlot { name: "angle", kind: ValueKind::Angle, vec: 0, comp: 1, len: 1 });
    proof {
        reveal_strlit("offset");
        reveal_strlit("angle");
        lemma_layout_names_distinct(r@);
    }
    r
}

/// The `brightness` packing layout (2 packed `Vec4`s).
pub fn brightness_layout() -> (r: Vec<ParamSlot>)
    ensures
        r@.len() == 1,
        slot_is(r@[0], "amount"@, ValueKind::Scalar, 0, 0, 1),
        layout_well_formed(r@, 2),
{
    let mut r: Vec<ParamSlot> = Vec::new();
    r.push(ParamSlot { name: "amount", kind: ValueKind::Scalar, vec: 0, comp: 0, len: 1 });
    proof {
        reveal_strlit("amount");
        lemma_layout_names_distinct(r@);
    }
    r
}

/// The `contrast` packing layout (2 packed `Vec4`s).
pub fn contrast_layout() -> (r: Vec<ParamSlot>)
    ensures
        r@.len() == 1,
        slot_is(r@[0], "amount"@, ValueKind::Scalar, 0, 1, 1),
        layout_well_formed(r@, 2),
{
    let mut r: Vec<ParamSlot> = Vec::new();
    r.push(ParamSlot { name: "amount", kind: ValueKind::Scalar, vec: 0, comp: 1, len: 1 });
    proof {
        reveal_strlit("amount");
        lemma_layout_names_distinct(r@);
    }
    r
}

/// The `saturate` packing layout (2 packed `Vec4`s).
pub fn saturate_layout() -> (r: Vec<ParamSlot>)
    ensures
        r@.len() == 1,
        slot_is(r@[0], "amount"@, ValueKind::Scalar, 0, 2, 1),
        layout_well_formed(r@, 2),
{
    let mut r: Vec<ParamSlot> = Vec::new();
    r.push(ParamSlot { name: "amount", kind: ValueKind::Scalar, vec: 0, comp: 2, len: 1 });
    proof {
        reveal_strlit("amount");
        lemma_layout_names_distinct(r@);
    }
    r
}

/// The `grayscale` packing layout (2 packed `Vec4`s).
pub fn grayscale_layout() -> (r: Vec<ParamSlot>)
    ensures
        r@.len() == 1,
        slot_is(r@[0], "amount"@, ValueKind::Scalar, 0, 3, 1),
        layout_well_formed(r@, 2),
{
    let mut r: Vec<ParamSlot> = Vec::new();
    r.push(ParamSlot { name: "amount", kind: ValueKind::Scalar, vec: 0, comp: 3, len: 1 });
    proof {
        reveal_strlit("amount");
        lemma_layout_names_distinct(r@);
    }
    r
}

/// The `sepia` packing layout (2 packed `Vec4`s).
pub fn sepia_layout() -> (r: Vec<ParamSlot>)
    ensures
        r@.len() == 1,
        slot_is(r@[0], "amount"@, ValueKind::Scalar, 1, 0, 1),
        layout_well_formed(r@, 2),
{
    let mut r: Vec<ParamSlot> = Vec::new();
    r.push(ParamSlot { name: "amount", kind: ValueKind::Scalar, vec: 1, comp: 0, len: 1 });
    proof {
        reveal_strlit("amount");
        lemma_layout_names_distinct(r@);
    }
    r
}

/// The `invert` packing layout (2 packed `Vec4`s).
pub fn invert_layout() -> (r: Vec<ParamSlot>)
    ensures
        r@.len() == 1,
        slot_is(r@[0], "amount"@, ValueKind::Scalar, 1, 1, 1),
        layout_well_formed(r@, 2),
{
    let mut r: Vec<ParamSlot> = Vec::new();
    r.push(ParamSlot { name: "amount", kind: ValueKind::Scalar, vec: 1, comp: 1, len: 1 });
    proof {
        reveal_strlit("amount");
        lemma_layout_names_distinct(r@);
    }
    r
}

/// The `hueRotate` packing layout (2 packed `Vec4`s).
pub fn hue_rotate_layout() -> (r: Vec<ParamSlot>)
    ensures
        r@.len() == 1,
        slot_is(r@[0], "angle"@, ValueKind::Angle, 1, 2, 1),
        layout_well_formed(r@, 2),
{
    let mut r: Vec<ParamSlot> = Vec::new();
    r.push(ParamSlot { name: "angle", kind: ValueKind::Angle, vec: 1, comp: 2, len: 1 });
    proof {
        reveal_strlit("angle");
        lemma_layout_names_distinct(r@);
    }
    r
}

/// The `gradientMap` packing layout (8 packed `Vec4`s).
pub fn gradient_map_layout() -> (r: Vec<ParamSlot>)
    ensures
        r@.len() == 10,
        slot_is(r@[0], "stopColorA"@, ValueKind::Color, 0, 0, 4),
        slot_is(r@[1], "stopColorB"@, ValueKind::Color, 1, 0, 4),
        slot_is(r@[2], "stopColorC"@, ValueKind::Color, 2, 0, 4),
        slot_is(r@[3], "stopColorD"@, ValueKind::Color, 3, 0, 4),
        slot_is(r@[4], "stopColorE"@, ValueKind::Color, 4, 0, 4),
        slot_is(r@[5], "stopColorF"@, ValueKind::Color, 5, 0, 4),
        slot_is(r@[6], "stopPositionsA"@, ValueKind::Scalar, 6, 0, 4),
        slot_is(r@[7], "stopPositionsB"@, ValueKind::Scalar, 7, 0, 2),
        slot_is(r@[8], "angle"@, ValueKind::Angle, 7, 2, 1),
        slot_is(r@[9], "amount"@, ValueKind::Scalar, 7, 3, 1),
        layout_well_formed(r@, 8),
{
    let mut r: Vec<ParamSlot> = Vec::new();
    r.push(ParamSlot { name: "stopColorA", kind: ValueKind::Color, vec: 0, comp: 0, len: 4 });
    r.push(ParamSlot { name: "stopColorB", kind: ValueKind::Color, vec: 1, comp: 0, len: 4 });
    r.push(ParamSlot { name: "stopColorC", kind: ValueKind::Color, vec: 2, comp: 0, len: 4 });
    r.push(ParamSlot { name: "stopColorD", kind: ValueKind::Color, vec: 3, comp: 0, len: 4 });
    r.push(ParamSlot { name: "stopColorE", kind: ValueKind::Color, vec: 4, comp: 0, len: 4 });
    r.push(ParamSlot { name: "stopColorF", kind: ValueKind::Color, vec: 5, comp: 0, len: 4 });
    r.push(ParamSlot { name: "stopPositionsA", kind: ValueKind::Scalar, vec: 6, comp: 0, len: 4 });
    r.push(ParamSlot { name: "stopPositionsB", kind: ValueKind::Scalar, vec: 7, comp: 0, len: 2 });
    r.push(ParamSlot { name: "angle", kind: ValueKind::Angle, vec: 7, comp: 2, len: 1 });
    r.push(ParamSlot { name: "amount", kind: ValueKind::Scalar, vec: 7, comp: 3, len: 1 });
    proof {
        reveal_strlit("stopColorA");
        reveal_strlit("stopColorB");
        reveal_strlit("stopColorC");
        reveal_strlit("stopColorD");
        reveal_strlit("stopColorE");
        reveal_strlit("stopColorF");
        reveal_strlit("stopPositionsA");
        reveal_strlit("stopPositionsB");
        reveal_strlit("angle");
        reveal_strlit("amount");
        lemma_layout_names_distinct(r@);
    }
    r
}

/// The `outline` packing layout (2 packed `Vec4`s).
pub fn outline_layout() -> (r: Vec<ParamSlot>)
    ensures
        r@.len() == 3,
        slot_is(r@[0], "width"@, ValueKind::Length, 0, 0, 1),
        slot_is(r@[1], "softness"@, ValueKind::Length, 0, 1, 1),
        slot_is(r@[2], "color"@, ValueKind::Color, 1, 0, 4),
        layout_well_formed(r@, 2),
{
    let mut r: Vec<ParamSlot> = Vec::new();
    r.push(ParamSlot { name: "width", kind: ValueKind::Length, vec: 0, comp: 0, len: 1 });
    r.push(ParamSlot { name: "softness", kind: ValueKind::Length, vec: 0, comp: 1, len: 1 });
    r.push(ParamSlot { name: "color", kind: ValueKind::Color, vec: 1, comp: 0, len: 4 });
    proof {
        reveal_strlit("width");
        reveal_strlit("softness");
        reveal_strlit("color");
        lemma_layout_names_distinct(r@);
    }
    r
}

/// The `pinch` packing layout (3 packed `Vec4`s).
pub fn pinch_layout() -> (r: Vec<ParamSlot>)
    ensures
        r@.len() == 10,
        slot_is(r@[0], "x"@, ValueKind::Scalar, 0, 0, 1),
        slot_is(r@[1], "y"@, ValueKind::Scalar, 0, 1, 1),
        slot_is(r@[2], "strength"@, ValueKind::Scalar, 0, 2, 1),
        slot_is(r@[3], "radius"@, ValueKind::Scalar, 0, 3, 1),
        slot_is(r@[4], "light"@, ValueKind::Scalar, 1, 0, 1),
        slot_is(r@[5], "lightAngle"@, ValueKind::Angle, 1, 1, 1),
        slot_is(r@[6], "gloss"@, ValueKind::Scalar, 1, 2, 1),
        slot_is(r@[7], "glossSize"@, ValueKind::Scalar, 1, 3, 1),
        slot_is(r@[8], "outerSoftness"@, ValueKind::Scalar, 2, 0, 1),
        slot_is(r@[9], "innerSoftness"@, ValueKind::Scalar, 2, 1, 1),
        layout_well_formed(r@, 3),
{
    let mut r: Vec<ParamSlot> = Vec::new();
    r.push(ParamSlot { name: "x", kind: ValueKind::Scalar, vec: 0, comp: 0, len: 1 });
    r.push(ParamSlot { name: "y", kind: ValueKind::Scalar, vec: 0, comp: 1, len: 1 });
    r.push(ParamSlot { name: "strength", kind: ValueKind::Scalar, vec: 0, comp: 2, len: 1 });
    r.push(ParamSlot { name: "radius", kind: ValueKind::Scalar, vec: 0, comp: 3, len: 1 });
    r.push(ParamSlot { name: "light", kind: ValueKind::Scalar, vec: 1, comp: 0, len: 1 });
    r.push(ParamSlot { name: "lightAngle", kind: ValueKind::Angle, vec: 1, comp: 1, len: 1 });
    r.push(ParamSlot { name: "gloss", kind: ValueKind::Scalar, vec: 1, comp: 2, len: 1 });
    r.push(ParamSlot { name: "glossSize", kind: ValueKind::Scalar, vec: 1, comp: 3, len: 1 });
    r.push(ParamSlot { name: "outerSoftness", kind: ValueKind::Scalar, vec: 2, comp: 0, len: 1 });
    r.push(ParamSlot { name: "innerSoftness", kind: ValueKind::Scalar, vec: 2, comp: 1, len: 1 });
    proof {
        reveal_strlit("x");
        reveal_strlit("y");
        reveal_strlit("strength");
        reveal_strlit("radius");
        reveal_strlit("light");
        reveal_strlit("lightAngle");
        reveal_strlit("gloss");
        reveal_strlit("glossSize");
        reveal_strlit("outerSoftness");
        reveal_strlit("innerSoftness");
        lemma_layout_names_distinct(r@);
    }
    r
}

/// The `shadow` packing layout (3 packed `Vec4`s).
pub fn shadow_layout() -> (r: Vec<ParamSlot>)
    ensures
        r@.len() == 4,
        slot_is(r@[0], "spread"@, ValueKind::Length, 0, 0, 1),
        slot_is(r@[1], "offsetX"@, ValueKind::Length, 1, 0, 1),
        slot_is(r@[2], "offsetY"@, ValueKind::Length, 1, 1, 1),
        slot_is(r@[3], "color"@, ValueKind::Color, 2, 0, 4),
        layout_well_formed(r@, 3),
{
    let mut r: Vec<ParamSlot> = Vec::new();
    r.push(ParamSlot { name: "spread", kind: ValueKind::Length, vec: 0, comp: 0, len: 1 });
    r.push(ParamSlot { name: "offsetX", kind: ValueKind::Length, vec: 1, comp: 0, len: 1 });
    r.push(ParamSlot { name: "offsetY", kind: ValueKind::Length, vec: 1, comp: 1, len: 1 });
    r.push(ParamSlot { name: "color", kind: ValueKind::Color, vec: 2, comp: 0, len: 4 });
    proof {
        reveal_strlit("spread");
        reveal_strlit("offsetX");
        reveal_strlit("offsetY");
        reveal_strlit("color");
        lemma_layout_names_distinct(r@);
    }
    r
}

/// The `crossfade` packing layout (0 packed `Vec4`s).
pub fn crossfade_layout() -> (r: Vec<ParamSlot>)
    ensures
        r@.len() == 0,
        layout_well_formed(r@, 0),
{
    let mut r: Vec<ParamSlot> = Vec::new();
    proof {
        lemma_layout_names_distinct(r@);
    }
    r
}

/// The `linearWipe` packing layout (1 packed `Vec4`).
pub fn linear_wipe_layout() -> (r: Vec<ParamSlot>)
    ensures
        r@.len() == 2,
        slot_is(r@[0], "angle"@, ValueKind::Angle, 0, 0, 1),
        slot_is(r@[1], "softness"@, ValueKind::Length, 0, 1, 1),
        layout_well_formed(r@, 1),
{
    let mut r: Vec<ParamSlot> = Vec::new();
    r.push(ParamSlot { name: "angle", kind: ValueKind::Angle, vec: 0, comp: 0, len: 1 });
    r.push(ParamSlot { name: "softness", kind: ValueKind::Length, vec: 0, comp: 1, len: 1 });
    proof {
        reveal_strlit("angle");
        reveal_strlit("softness");
        lemma_layout_names_distinct(r@);
    }
    r
}

/// The `pixelize` packing layout (1 packed `Vec4`).
pub fn pixelize_layout() -> (r: Vec<ParamSlot>)
    ensures
        r@.len() == 2,
        slot_is(r@[0], "squaresMin"@, ValueKind::Scalar, 0, 0, 2),
        slot_is(r@[1], "steps"@, ValueKind::Scalar, 0, 2, 1),
        layout_well_formed(r@, 1),
{
    let mut r: Vec<ParamSlot> = Vec::new();
    r.push(ParamSlot { name: "squaresMin", kind: ValueKind::Scalar, vec: 0, comp: 0, len: 2 });
    r.push(ParamSlot { name: "steps", kind: ValueKind::Scalar, vec: 0, comp: 2, len: 1 });
    proof {
        reveal_strlit("squaresMin");
        reveal_strlit("steps");
        lemma_layout_names_distinct(r@);
    }
    r
}

/// The seventeen built-in filters.
#[derive(Debug, Clone, Copy, PartialEq, Eq, Structural)]
pub enum BuiltinFilter {
    Bloom,
    Blur,
    ChromaticAberration,
    Brightness,
    Contrast,
    Saturate,
    Grayscale,
    Sepia,
    Invert,
    HueRotate,
    GradientMap,
    Outline,
    Pinch,
    Shadow,
    Crossfade,
    LinearWipe,
    Pixelize,
}

/// All built-ins, in registration order.
pub open spec fn all_builtins() -> Seq<BuiltinFilter> {
    seq![
        BuiltinFilter::Bloom,
        BuiltinFilter::Blur,
        BuiltinFilter::ChromaticAberration,
        BuiltinFilter::Brightness,
        BuiltinFilter::Contrast,
        BuiltinFilter::Saturate,
        BuiltinFilter::Grayscale,
        BuiltinFilter::Sepia,
        BuiltinFilter::Invert,
        BuiltinFilter::HueRotate,
        BuiltinFilter::GradientMap,
        BuiltinFilter::Outline,
        BuiltinFilter::Pinch,
        BuiltinFilter::Shadow,
        BuiltinFilter::Crossfade,
        BuiltinFilter::LinearWipe,
        BuiltinFilter::Pixelize,
    ]
}

/// The wire name a built-in registers under.
pub open spec fn builtin_name(f: BuiltinFilter) -> Seq<char> {
    match f {
        BuiltinFilter::Bloom => "bloom"@,
        BuiltinFilter::Blur => "blur"@,
        BuiltinFilter::ChromaticAberration => "chromaticAberration"@,
        BuiltinFilter::Brightness => "brightness"@,
        BuiltinFilter::Contrast => "contrast"@,
        BuiltinFilter::Saturate => "saturate"@,
        BuiltinFilter::Grayscale => "grayscale"@,
        BuiltinFilter::Sepia => "sepia"@,
        BuiltinFilter::Invert => "invert"@,
        BuiltinFilter::HueRotate => "hueRotate"@,
        BuiltinFilter::GradientMap => "gradientMap"@,
        BuiltinFilter::Outline => "outline"@,
        BuiltinFilter::Pinch => "pinch"@,
        BuiltinFilter::Shadow => "shadow"@,
        BuiltinFilter::Crossfade => "crossfade"@,
        BuiltinFilter::LinearWipe => "linearWipe"@,
        BuiltinFilter::Pixelize => "pixelize"@,
    }
}

/// Whether the built-in is a two-input morph filter (`morphFilter`-only).
pub open spec fn builtin_is_morph(f: BuiltinFilter) -> bool {
    match f {
        BuiltinFilter::Bloom => false,
        BuiltinFilter::Blur => false,
        BuiltinFilter::ChromaticAberration => false,
        BuiltinFilter::Brightness => false,
        BuiltinFilter::Contrast => false,
        BuiltinFilter::Saturate => false,
        BuiltinFilter::Grayscale => false,
        BuiltinFilter::Sepia => false,
        BuiltinFilter::Invert => false,
        BuiltinFilter::HueRotate => false,
        BuiltinFilter::GradientMap => false,
        BuiltinFilter::Outline => false,
        BuiltinFilter::Pinch => false,
        BuiltinFilter::Shadow => false,
        BuiltinFilter::Crossfade => true,
        BuiltinFilter::LinearWipe => true,
        BuiltinFilter::Pixelize => true,
    }
}

/// Whether the built-in has an identity invocation (can pad a chain extension).
pub open spec fn builtin_has_identity(f: BuiltinFilter) -> bool {
    match f {
        BuiltinFilter::Bloom => true,
        BuiltinFilter::Blur => true,
        BuiltinFilter::ChromaticAberration => true,
        BuiltinFilter::Brightness => true,
        BuiltinFilter::Contrast => true,
        BuiltinFilter::Saturate => true,
        BuiltinFilter::Grayscale => true,
        BuiltinFilter::Sepia => true,
        BuiltinFilter::Invert => true,
        BuiltinFilter::HueRotate => true,
        BuiltinFilter::GradientMap => true,
        BuiltinFilter::Outline => true,
        BuiltinFilter::Pinch => true,
        BuiltinFilter::Shadow => true,
        BuiltinFilter::Crossfade => false,
        BuiltinFilter::LinearWipe => false,
        BuiltinFilter::Pixelize => false,
    }
}

/// How many render passes one use of the built-in resolves to.
pub open spec fn builtin_pass_count(f: BuiltinFilter) -> nat {
    match f {
        BuiltinFilter::Bloom => 4,
        BuiltinFilter::Blur => 2,
        BuiltinFilter::ChromaticAberration => 1,
        BuiltinFilter::Brightness => 1,
        BuiltinFilter::Contrast => 1,
        BuiltinFilter::Saturate => 1,
        BuiltinFilter::Grayscale => 1,
        BuiltinFilter::Sepia => 1,
        BuiltinFilter::Invert => 1,
        BuiltinFilter::HueRotate => 1,
        BuiltinFilter::GradientMap => 1,
        BuiltinFilter::Outline => 1,
        BuiltinFilter::Pinch => 1,
        BuiltinFilter::Shadow => 4,
        BuiltinFilter::Crossfade => 1,
        BuiltinFilter::LinearWipe => 1,
        BuiltinFilter::Pixelize => 1,
    }
}

/// How many `Vec4`s each pass of the built-in packs.
pub open spec fn builtin_packed_vecs(f: BuiltinFilter) -> nat {
    match f {
        BuiltinFilter::Bloom => 2,
        BuiltinFilter::Blur => 1,
        BuiltinFilter::ChromaticAberration => 1,
        BuiltinFilter::Brightness => 2,
        BuiltinFilter::Contrast => 2,
        BuiltinFilter::Saturate => 2,
        BuiltinFilter::Grayscale => 2,
        BuiltinFilter::Sepia => 2,
        BuiltinFilter::Invert => 2,
        BuiltinFilter::HueRotate => 2,
        BuiltinFilter::GradientMap => 8,
        BuiltinFilter::Outline => 2,
        BuiltinFilter::Pinch => 3,
        BuiltinFilter::Shadow => 3,
        BuiltinFilter::Crossfade => 0,
        BuiltinFilter::LinearWipe => 1,
        BuiltinFilter::Pixelize => 1,
    }
}

/// The exact slots of each built-in's packing layout, in order.
pub open spec fn builtin_layout_is(f: BuiltinFilter, s: Seq<ParamSlot>) -> bool {
    match f {
        BuiltinFilter::Bloom => {
            s.len() == 3
                && slot_is(s[0], "radius"@, ValueKind::Length, 0, 0, 1)
                && slot_is(s[1], "threshold"@, ValueKind::Scalar, 1, 0, 1)
                && slot_is(s[2], "intensity"@, ValueKind::Scalar, 1, 1, 1)
        },
        BuiltinFilter::Blur => {
            s.len() == 1
                && slot_is(s[0], "radius"@, ValueKind::Length, 0, 0, 1)
        },
        BuiltinFilter::ChromaticAberration => {
            s.len() == 2
                && slot_is(s[0], "offset"@, ValueKind::Length, 0, 0, 1)
                && slot_is(s[1], "angle"@, ValueKind::Angle, 0, 1, 1)
        },
        BuiltinFilter::Brightness => {
            s.len() == 1
                && slot_is(s[0], "amount"@, ValueKind::Scalar, 0, 0, 1)
        },
        BuiltinFilter::Contrast => {
            s.len() == 1
                && slot_is(s[0], "amount"@, ValueKind::Scalar, 0, 1, 1)
        },
        BuiltinFilter::Saturate => {
            s.len() == 1
                && slot_is(s[0], "amount"@, ValueKind::Scalar, 0, 2, 1)
        },
        BuiltinFilter::Grayscale => {
            s.len() == 1
                && slot_is(s[0], "amount"@, ValueKind::Scalar, 0, 3, 1)
        },
        BuiltinFilter::Sepia => {
            s.len() == 1
                && slot_is(s[0], "amount"@, ValueKind::Scalar, 1, 0, 1)
        },
        BuiltinFilter::Invert => {
            s.len() == 1
                && slot_is(s[0], "amount"@, ValueKind::Scalar, 1, 1, 1)
        },
        BuiltinFilter::HueRotate => {
            s.len() == 1
                && slot_is(s[0], "angle"@, ValueKind::Angle, 1, 2, 1)
        },
        BuiltinFilter::GradientMap => {
            s.len() == 10
                && slot_is(s[0], "stopColorA"@, ValueKind::Color, 0, 0, 4)
                && slot_is(s[1], "stopColorB"@, ValueKind::Color, 1, 0, 4)
                && slot_is(s[2], "stopColorC"@, ValueKind::Color, 2, 0, 4)
                && slot_is(s[3], "stopColorD"@, ValueKind::Color, 3, 0, 4)
                && slot_is(s[4], "stopColorE"@, ValueKind::Color, 4, 0, 4)
                && slot_is(s[5], "stopColorF"@, ValueKind::Color, 5, 0, 4)
                && slot_is(s[6], "stopPositionsA"@, ValueKind::Scalar, 6, 0, 4)
                && slot_is(s[7], "stopPositionsB"@, ValueKind::Scalar, 7, 0, 2)
                && slot_is(s[8], "angle"@, ValueKind::Angle, 7, 2, 1)
                && slot_is(s[9], "amount"@, ValueKind::Scalar, 7, 3, 1)
        },
        BuiltinFilter::Outline => {
            s.len() == 3
                && slot_is(s[0], "width"@, ValueKind::Length, 0, 0, 1)
                && slot_is(s[1], "softness"@, ValueKind::Length, 0, 1, 1)
                && slot_is(s[2], "color"@, ValueKind::Color, 1, 0, 4)
        },
        BuiltinFilter::Pinch => {
            s.len() == 10
                && slot_is(s[0], "x"@, ValueKind::Scalar, 0, 0, 1)
                && slot_is(s[1], "y"@, ValueKind::Scalar, 0, 1, 1)
                && slot_is(s[2], "strength"@, ValueKind::Scalar, 0, 2, 1)
                && slot_is(s[3], "radius"@, ValueKind::Scalar, 0, 3, 1)
                && slot_is(s[4], "light"@, ValueKind::Scalar, 1, 0, 1)
                && slot_is(s[5], "lightAngle"@, ValueKind::Angle, 1, 1, 1)
                && slot_is(s[6], "gloss"@, ValueKind::Scalar, 1, 2, 1)
                && slot_is(s[7], "glossSize"@, ValueKind::Scalar, 1, 3, 1)
                && slot_is(s[8], "outerSoftness"@, ValueKind::Scalar, 2, 0, 1)
                && slot_is(s[9], "innerSoftness"@, ValueKind::Scalar, 2, 1, 1)
        },
        BuiltinFilter::Shadow => {
            s.len() == 4
                && slot_is(s[0], "spread"@, ValueKind::Length, 0, 0, 1)
                && slot_is(s[1], "offsetX"@, ValueKind::Length, 1, 0, 1)
                && slot_is(s[2], "offsetY"@, ValueKind::Length, 1, 1, 1)
                && slot_is(s[3], "color"@, ValueKind::Color, 2, 0, 4)
        },
        BuiltinFilter::Crossfade => {
            s.len() == 0
        },
        BuiltinFilter::LinearWipe => {
            s.len() == 2
                && slot_is(s[0], "angle"@, ValueKind::Angle, 0, 0, 1)
                && slot_is(s[1], "softness"@, ValueKind::Length, 0, 1, 1)
        },
        BuiltinFilter::Pixelize => {
            s.len() == 2
                && slot_is(s[0], "squaresMin"@, ValueKind::Scalar, 0, 0, 2)
                && slot_is(s[1], "steps"@, ValueKind::Scalar, 0, 2, 1)
        },
    }
}
/// The packing the built-in registered under wire name `n` documents for
/// its params, slot by slot (no such built-in: nothing matches).
pub open spec fn documented_layout(n: Seq<char>, s: Seq<ParamSlot>) -> bool {
    if n == "bloom"@ {
        s.len() == 3
                && slot_is(s[0], "radius"@, ValueKind::Length, 0, 0, 1)
                && slot_is(s[1], "threshold"@, ValueKind::Scalar, 1, 0, 1)
                && slot_is(s[2], "intensity"@, ValueKind::Scalar, 1, 1, 1)
    } else if n == "blur"@ {
        s.len() == 1
                && slot_is(s[0], "radius"@, ValueKind::Length, 0, 0, 1)
    } else if n == "chromaticAberration"@ {
        s.len() == 2
                && slot_is(s[0], "offset"@, ValueKind::Length, 0, 0, 1)
                && slot_is(s[1], "angle"@, ValueKind::Angle, 0, 1, 1)
    } else if n == "brightness"@ {
        s.len() == 1
                && slot_is(s[0], "amount"@, ValueKind::Scalar, 0, 0, 1)
    } else if n == "contrast"@ {
        s.len() == 1
                && slot_is(s[0], "amount"@, ValueKind::Scalar, 0, 1, 1)
    } else if n == "saturate"@ {
        s.len() == 1
                && slot_is(s[0], "amount"@, ValueKind::Scalar, 0, 2, 1)
    } else if n == "grayscale"@ {
        s.len() == 1
                && slot_is(s[0], "amount"@, ValueKind::Scalar, 0, 3, 1)
    } else if n == "sepia"@ {
        s.len() == 1
                && slot_is(s[0], "amount"@, ValueKind::Scalar, 1, 0, 1)
    } else if n == "invert"@ {
        s.len() == 1
                && slot_is(s[0], "amount"@, ValueKind::Scalar, 1, 1, 1)
    } else if n == "hueRotate"@ {
        s.len() == 1
                && slot_is(s[0], "angle"@, ValueKind::Angle, 1, 2, 1)
    } else if n == "gradientMap"@ {
        s.len() == 10
                && slot_is(s[0], "stopColorA"@, ValueKind::Color, 0, 0, 4)
                && slot_is(s[1], "stopColorB"@, ValueKind::Color, 1, 0, 4)
                && slot_is(s[2], "stopColorC"@, ValueKind::Color, 2, 0, 4)
                && slot_is(s[3], "stopColorD"@, ValueKind::Color, 3, 0, 4)
                && slot_is(s[4], "stopColorE"@, ValueKind::Color, 4, 0, 4)
                && slot_is(s[5], "stopColorF"@, ValueKind::Color, 5, 0, 4)
                && slot_is(s[6], "stopPositionsA"@, ValueKind::Scalar, 6, 0, 4)
                && slot_is(s[7], "stopPositionsB"@, ValueKind::Scalar, 7, 0, 2)
                && slot_is(s[8], "angle"@, ValueKind::Angle, 7, 2, 1)
                && slot_is(s[9], "amount"@, ValueKind::Scalar, 7, 3, 1)
    } else if n == "outline"@ {
        s.len() == 3
                && slot_is(s[0], "width"@, ValueKind::Length, 0, 0, 1)
                && slot_is(s[1], "softness"@, ValueKind::Length, 0, 1, 1)
                && slot_is(s[2], "color"@, ValueKind::Color, 1, 0, 4)
    } else if n == "pinch"@ {
        s.len() == 10
                && slot_is(s[0], "x"@, ValueKind::Scalar, 0, 0, 1)
                && slot_is(s[1], "y"@, ValueKind::Scalar, 0, 1, 1)
                && slot_is(s[2], "strength"@, ValueKind::Scalar, 0, 2, 1)
                && slot_is(s[3], "radius"@, ValueKind::Scalar, 0, 3, 1)
                && slot_is(s[4], "light"@, ValueKind::Scalar, 1, 0, 1)
                && slot_is(s[5], "lightAngle"@, ValueKind::Angle, 1, 1, 1)
                && slot_is(s[6], "gloss"@, ValueKind::Scalar, 1, 2, 1)
                && slot_is(s[7], "glossSize"@, ValueKind::Scalar, 1, 3, 1)
                && slot_is(s[8], "outerSoftness"@, ValueKind::Scalar, 2, 0, 1)
                && slot_is(s[9], "innerSoftness"@, ValueKind::Scalar, 2, 1, 1)
    } else if n == "shadow"@ {
        s.len() == 4
                && slot_is(s[0], "spread"@, ValueKind::Length, 0, 0, 1)
                && slot_is(s[1], "offsetX"@, ValueKind::Length, 1, 0, 1)
                && slot_is(s[2], "offsetY"@, ValueKind::Length, 1, 1, 1)
                && slot_is(s[3], "color"@, ValueKind::Color, 2, 0, 4)
    } else if n == "crossfade"@ {
        s.len() == 0
    } else if n == "linearWipe"@ {
        s.len() == 2
                && slot_is(s[0], "angle"@, ValueKind::Angle, 0, 0, 1)
                && slot_is(s[1], "softness"@, ValueKind::Length, 0, 1, 1)
    } else if n == "pixelize"@ {
        s.len() == 2
                && slot_is(s[0], "squaresMin"@, ValueKind::Scalar, 0, 0, 2)
                && slot_is(s[1], "steps"@, ValueKind::Scalar, 0, 2, 1)
    } else {
        false
    }
}

/// How many passes the built-in registered under wire name `n` runs: bloom
/// and shadow four (blurs around their own pass), blur two (horizontal then
/// vertical), every other one.
pub open spec fn documented_pass_count(n: Seq<char>) -> nat {
    if n == "bloom"@ || n == "shadow"@ {
        4
    } else if n == "blur"@ {
        2
    } else {
        1
    }
}

/// Whether the built-in registered under wire name `n` is a two-input morph
/// filter: the crossfade, linear-wipe and pixelize transitions.
pub open spec fn documented_morph(n: Seq<char>) -> bool {
    n == "crossfade"@ || n == "linearWipe"@ || n == "pixelize"@
}

/// How many `Vec4`s each pass of the built-in registered under wire name
/// `n` packs: the color-matrix family shares one two-vector packing.
pub open spec fn documented_packed_vecs(n: Seq<char>) -> nat {
    if n == "gradientMap"@ {
        8
    } else if n == "pinch"@ || n == "shadow"@ {
        3
    } else if n == "bloom"@ || n == "outline"@ || n == "brightness"@ || n == "contrast"@ || n
        == "saturate"@ || n == "grayscale"@ || n == "sepia"@ || n == "invert"@ || n
        == "hueRotate"@ {
        2
    } else if n == "crossfade"@ {
        0
    } else {
        1
    }
}

/// Each built-in registers under the wire name of its own effect: a chain
/// entry naming a built-in resolves to the filter that packs that name's
/// documented params (so `"sepia"` packs its amount at `params[1].x` and
/// `"grayscale"` at `params[0].w`), runs that name's number of passes, and
/// belongs to that name's family and packing width. Exactly the non-morph
/// built-ins have an identity invocation. No two built-ins share a name.
pub proof fn lemma_names_match_effects(f: BuiltinFilter, g: BuiltinFilter, s: Seq<ParamSlot>)
    requires
        builtin_layout_is(f, s),
    ensures
        documented_layout(builtin_name(f), s),
        builtin_pass_count(f) == documented_pass_count(builtin_name(f)),
        builtin_is_morph(f) == documented_morph(builtin_name(f)),
        builtin_packed_vecs(f) == documented_packed_vecs(builtin_name(f)),
        builtin_has_identity(f) == !builtin_is_morph(f),
        builtin_name(f) == builtin_name(g) ==> f == g,
{
    reveal_strlit("bloom");
    reveal_strlit("blur");
    reveal_strlit("chromaticAberration");
    reveal_strlit("brightness");
    reveal_strlit("contrast");
    reveal_strlit("saturate");
    reveal_strlit("grayscale");
    reveal_strlit("sepia");
    reveal_strlit("invert");
    reveal_strlit("hueRotate");
    reveal_strlit("gradientMap");
    reveal_strlit("outline");
    reveal_strlit("pinch");
    reveal_strlit("shadow");
    reveal_strlit("crossfade");
    reveal_strlit("linearWipe");
    reveal_strlit("pixelize");
    assert("bloom"@.len() == 5 && "bloom"@[0] == 'b');
    assert("blur"@.len() == 4 && "blur"@[0] == 'b');
    assert("chromaticAberration"@.len() == 19 && "chromaticAberration"@[0] == 'c');
    assert("brightness"@.len() == 10 && "brightness"@[0] == 'b');
    assert("contrast"@.len() == 8 && "contrast"@[0] == 'c');
    assert("saturate"@.len() == 8 && "saturate"@[0] == 's');
    assert("grayscale"@.len() == 9 && "grayscale"@[0] == 'g');
    assert("sepia"@.len() == 5 && "sepia"@[0] == 's');
    assert("invert"@.len() == 6 && "invert"@[0] == 'i');
    assert("hueRotate"@.len() == 9 && "hueRotate"@[0] == 'h');
    assert("gradientMap"@.len() == 11 && "gradientMap"@[0] == 'g');
    assert("outline"@.len() == 7 && "outline"@[0] == 'o');
    assert("pinch"@.len() == 5 && "pinch"@[0] == 'p');
    assert("shadow"@.len() == 6 && "shadow"@[0] == 's');
    assert("crossfade"@.len() == 9 && "crossfade"@[0] == 'c');
    assert("linearWipe"@.len() == 10 && "linearWipe"@[0] == 'l');
    assert("pixelize"@.len() == 8 && "pixelize"@[0] == 'p');
}

/// The wire name a built-in registers under.
pub fn name(f: BuiltinFilter) -> (r: &'static str)
    ensures
        r@ == builtin_name(f),
{
    proof {
        reveal_strlit("bloom");
        reveal_strlit("blur");
        reveal_strlit("chromaticAberration");
        reveal_strlit("brightness");
        reveal_strlit("contrast");
        reveal_strlit("saturate");
        reveal_strlit("grayscale");
        reveal_strlit("sepia");
        reveal_strlit("invert");
        reveal_strlit("hueRotate");
        reveal_strlit("gradientMap");
        reveal_strlit("outline");
        reveal_strlit("pinch");
        reveal_strlit("shadow");
        reveal_strlit("crossfade");
        reveal_strlit("linearWipe");
        reveal_strlit("pixelize");
    }
    match f {
        BuiltinFilter::Bloom => "bloom",
        BuiltinFilter::Blur => "blur",
        BuiltinFilter::ChromaticAberration => "chromaticAberration",
        BuiltinFilter::Brightness => "brightness",
        BuiltinFilter::Contrast => "contrast",
        BuiltinFilter::Saturate => "saturate",
        BuiltinFilter::Grayscale => "grayscale",
        BuiltinFilter::Sepia => "sepia",
        BuiltinFilter::Invert => "invert",
        BuiltinFilter::HueRotate => "hueRotate",
        BuiltinFilter::GradientMap => "gradientMap",
        BuiltinFilter::Outline => "outline",
        BuiltinFilter::Pinch => "pinch",
        BuiltinFilter::Shadow => "shadow",
        BuiltinFilter::Crossfade => "crossfade",
        BuiltinFilter::LinearWipe => "linearWipe",
        BuiltinFilter::Pixelize => "pixelize",
    }
}

/// Whether the built-in belongs to the morph family.
pub fn is_morph(f: BuiltinFilter) -> (r: bool)
    ensures
        r == builtin_is_morph(f),
{
    match f {
        BuiltinFilter::Bloom => false,
        BuiltinFilter::Blur => false,
        BuiltinFilter::ChromaticAberration => false,
        BuiltinFilter::Brightness => false,
        BuiltinFilter::Contrast => false,
        BuiltinFilter::Saturate => false,
        BuiltinFilter::Grayscale => false,
        BuiltinFilter::Sepia => false,
        BuiltinFilter::Invert => false,
        BuiltinFilter::HueRotate => false,
        BuiltinFilter::GradientMap => false,
        BuiltinFilter::Outline => false,
        BuiltinFilter::Pinch => false,
        BuiltinFilter::Shadow => false,
        BuiltinFilter::Crossfade => true,
        BuiltinFilter::LinearWipe => true,
        BuiltinFilter::Pixelize => true,
    }
}

/// Whether the built-in has an identity invocation.
pub fn has_identity(f: BuiltinFilter) -> (r: bool)
    ensures
        r == builtin_has_identity(f),
{
    match f {
        BuiltinFilter::Bloom => true,
        BuiltinFilter::Blur => true,
        BuiltinFilter::ChromaticAberration => true,
        BuiltinFilter::Brightness => true,
        BuiltinFilter::Contrast => true,
        BuiltinFilter::Saturate => true,
        BuiltinFilter::Grayscale => true,
        BuiltinFilter::Sepia => true,
        BuiltinFilter::Invert => true,
        BuiltinFilter::HueRotate => true,
        BuiltinFilter::GradientMap => true,
        BuiltinFilter::Outline => true,
        BuiltinFilter::Pinch => true,
        BuiltinFilter::Shadow => true,
        BuiltinFilter::Crossfade => false,
        BuiltinFilter::LinearWipe => false,
        BuiltinFilter::Pixelize => false,
    }
}

/// How many render passes one use resolves to.
pub fn pass_count(f: BuiltinFilter) -> (r: usize)
    ensures
        r == builtin_pass_count(f),
{
    match f {
        BuiltinFilter::Bloom => 4,
        BuiltinFilter::Blur => 2,
        BuiltinFilter::ChromaticAberration => 1,
        BuiltinFilter::Brightness => 1,
        BuiltinFilter::Contrast => 1,
        BuiltinFilter::Saturate => 1,
        BuiltinFilter::Grayscale => 1,
        BuiltinFilter::Sepia => 1,
        BuiltinFilter::Invert => 1,
        BuiltinFilter::HueRotate => 1,
        BuiltinFilter::GradientMap => 1,
        BuiltinFilter::Outline => 1,
        BuiltinFilter::Pinch => 1,
        BuiltinFilter::Shadow => 4,
        BuiltinFilter::Crossfade => 1,
        BuiltinFilter::LinearWipe => 1,
        BuiltinFilter::Pixelize => 1,
    }
}

/// How many `Vec4`s each pass packs.
pub fn packed_vecs(f: BuiltinFilter) -> (r: usize)
    ensures
        r == builtin_packed_vecs(f),
{
    match f {
        BuiltinFilter::Bloom => 2,
        BuiltinFilter::Blur => 1,
        BuiltinFilter::ChromaticAberration => 1,
        BuiltinFilter::Brightness => 2,
        BuiltinFilter::Contrast => 2,
        BuiltinFilter::Saturate => 2,
        BuiltinFilter::Grayscale => 2,
        BuiltinFilter::Sepia => 2,
        BuiltinFilter::Invert => 2,
        BuiltinFilter::HueRotate => 2,
        BuiltinFilter::GradientMap => 8,
        BuiltinFilter::Outline => 2,
        BuiltinFilter::Pinch => 3,
        BuiltinFilter::Shadow => 3,
        BuiltinFilter::Crossfade => 0,
        BuiltinFilter::LinearWipe => 1,
        BuiltinFilter::Pixelize => 1,
    }
}

/// The packing layout of a built-in: exactly its slots, well-formed for its
/// packed `Vec4` count.
pub fn layout(f: BuiltinFilter) -> (r: Vec<ParamSlot>)
    ensures
        builtin_layout_is(f, r@),
        layout_well_formed(r@, builtin_packed_vecs(f)),
{
    match f {
        BuiltinFilter::Bloom => bloom_layout(),
        BuiltinFilter::Blur => blur_layout(),
        BuiltinFilter::ChromaticAberration => chromatic_aberration_layout(),
        BuiltinFilter::Brightness => brightness_layout(),
        BuiltinFilter::Contrast => contrast_layout(),
        BuiltinFilter::Saturate => saturate_layout(),
        BuiltinFilter::Grayscale => grayscale_layout(),
        BuiltinFilter::Sepia => sepia_layout(),
        BuiltinFilter::Invert => invert_layout(),
        BuiltinFilter::HueRotate => hue_rotate_layout(),
        BuiltinFilter::GradientMap => gradient_map_layout(),
        BuiltinFilter::Outline => outline_layout(),
        BuiltinFilter::Pinch => pinch_layout(),
        BuiltinFilter::Shadow => shadow_layout(),
        BuiltinFilter::Crossfade => crossfade_layout(),
        BuiltinFilter::LinearWipe => linear_wipe_layout(),
        BuiltinFilter::Pixelize => pixelize_layout(),
    }
}

/// All seventeen built-ins, in registration order.
pub fn builtins() -> (r: Vec<BuiltinFilter>)
    ensures
        r@ == all_builtins(),
{
    let mut r = Vec::new();
    r.push(BuiltinFilter::Bloom);
    r.push(BuiltinFilter::Blur);
    r.push(BuiltinFilter::ChromaticAberration);
    r.push(BuiltinFilter::Brightness);
    r.push(BuiltinFilter::Contrast);
    r.push(BuiltinFilter::Saturate);
    r.push(BuiltinFilter::Grayscale);
    r.push(BuiltinFilter::Sepia);
    r.push(BuiltinFilter::Invert);
    r.push(BuiltinFilter::HueRotate);
    r.push(BuiltinFilter::GradientMap);
    r.push(BuiltinFilter::Outline);
    r.push(BuiltinFilter::Pinch);
    r.push(BuiltinFilter::Shadow);
    r.push(BuiltinFilter::Crossfade);
    r.push(BuiltinFilter::LinearWipe);
    r.push(BuiltinFilter::Pixelize);
    proof {
        assert(r@ =~= all_builtins());
    }
    r
}

} // verus!
