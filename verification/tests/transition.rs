use bevy_react_core::filters::builtin::{builtins, has_identity, layout, name, BuiltinFilter};
use bevy_react_core::filters::transition::{
    classify_filter_transition, ease_shape, identity_passes, passes_align, plan_filter_ease,
    EaseShape, FilterEase, FilterStrategy, PadSide, Padding, PassShape, ShapedPass,
};
use bevy_react_core::filters::wire::{FilterChain, FilterUse};

fn wire(names: &[&str]) -> FilterChain {
    FilterChain(
        names
            .iter()
            .map(|n| FilterUse { name: (*n).to_string(), params: Vec::new() })
            .collect(),
    )
}

/// Identity flags as the built-in registry answers them (unknown names have
/// no identity); `None` stands for no registry in hand.
fn identities(chain: &FilterChain, registry: Option<()>) -> Vec<bool> {
    chain
        .0
        .iter()
        .map(|u| {
            registry.is_some()
                && builtins().into_iter().any(|f| name(f) == u.name && has_identity(f))
        })
        .collect()
}

fn classify(from: &[&str], to: &[&str], registry: Option<()>) -> FilterStrategy {
    let (from, to) = (wire(from), wire(to));
    let (fi, ti) = (identities(&from, registry), identities(&to, registry));
    classify_filter_transition(&from, &to, &fi, &ti)
}

fn same_names_matched() {
    let r = Some(());
    assert_eq!(classify(&["blur", "sepia"], &["blur", "sepia"], r), FilterStrategy::Matched);
    // A custom (even unregistered) name still matches itself.
    assert_eq!(classify(&["glow"], &["glow"], r), FilterStrategy::Matched);
}

fn mismatch_discrete() {
    let r = Some(());
    assert_eq!(classify(&[], &["glow"], r), FilterStrategy::Discrete);
    assert_eq!(classify(&["glow"], &["glow", "blur"], r), FilterStrategy::Discrete);
    assert_eq!(classify(&["sepia"], &["blur"], r), FilterStrategy::Discrete);
    assert_eq!(classify(&["sepia"], &["blur", "sepia"], r), FilterStrategy::Discrete);
    assert_eq!(classify(&[], &["blur"], None), FilterStrategy::Discrete);
}

fn prefix_extended() {
    let r = Some(());
    assert_eq!(classify(&[], &["blur"], r), FilterStrategy::Extended);
    assert_eq!(classify(&["blur"], &["blur", "sepia"], r), FilterStrategy::Extended);
    assert_eq!(classify(&["blur", "sepia"], &["blur"], r), FilterStrategy::Extended);
}

#[test]
fn transition_classify_same_names_is_matched() {
    same_names_matched();
}

#[test]
fn filters_classify_same_names_is_matched() {
    same_names_matched();
}

#[test]
fn transition_classify_mismatch_without_identity_is_discrete() {
    mismatch_discrete();
}

#[test]
fn filters_classify_mismatch_without_identity_is_discrete() {
    mismatch_discrete();
}

#[test]
fn transition_classify_builtin_prefix_extension_is_extended() {
    prefix_extended();
}

#[test]
fn filters_classify_builtin_prefix_extension_is_extended() {
    prefix_extended();
}

fn pass(shader: u64, f: BuiltinFilter, vecs: usize) -> PassShape {
    PassShape { shader, param_vecs: vecs, layout: layout(f) }
}

fn mismatched_shaders() {
    // Same single-name chain on both sides: `Matched`.
    assert_eq!(classify(&["glow"], &["glow"], Some(())), FilterStrategy::Matched);
    let shape = ease_shape(FilterStrategy::Matched, 1, 1, true);
    assert_eq!(shape, EaseShape::Aligned { pad: None });
    // Grayscale's pass against the same pass with blur's shader swapped in.
    let start = vec![pass(1, BuiltinFilter::Grayscale, 1)];
    let target = vec![pass(2, BuiltinFilter::Grayscale, 1)];
    assert!(!passes_align(&start, &target), "expected discrete fallback on shader mismatch");
    // Control: identical shaders (and layouts/params) stay aligned.
    let same = vec![pass(1, BuiltinFilter::Grayscale, 1)];
    assert!(passes_align(&start, &same));
    // The planned ease falls back the same way.
    plan_mismatched_case();
}

#[test]
fn transition_plan_mismatched_shaders_fall_back_to_discrete() {
    mismatched_shaders();
}

#[test]
fn filters_plan_mismatched_shaders_fall_back_to_discrete() {
    mismatched_shaders();
}

#[test]
fn extension_pads_the_shorter_side_at_the_end() {
    assert_eq!(
        ease_shape(FilterStrategy::Extended, 1, 3, true),
        EaseShape::Aligned { pad: Some(Padding { side: PadSide::Start, first: 1, end: 3 }) }
    );
    assert_eq!(
        ease_shape(FilterStrategy::Extended, 2, 0, true),
        EaseShape::Aligned { pad: Some(Padding { side: PadSide::Target, first: 0, end: 2 }) }
    );
    assert_eq!(ease_shape(FilterStrategy::Extended, 0, 1, false), EaseShape::Discrete);
    assert_eq!(ease_shape(FilterStrategy::Discrete, 1, 1, true), EaseShape::Discrete);
}

#[test]
fn alignment_needs_equal_lengths_layouts_and_param_counts() {
    let a = vec![pass(1, BuiltinFilter::Blur, 1), pass(2, BuiltinFilter::Blur, 1)];
    let shorter = vec![pass(1, BuiltinFilter::Blur, 1)];
    assert!(!passes_align(&a, &shorter));
    let other_layout = vec![pass(1, BuiltinFilter::Sepia, 1), pass(2, BuiltinFilter::Blur, 1)];
    assert!(!passes_align(&a, &other_layout));
    let other_count = vec![pass(1, BuiltinFilter::Blur, 2), pass(2, BuiltinFilter::Blur, 1)];
    assert!(!passes_align(&a, &other_count));
    let same = vec![pass(1, BuiltinFilter::Blur, 1), pass(2, BuiltinFilter::Blur, 1)];
    assert!(passes_align(&a, &same));
    assert!(passes_align(&Vec::new(), &Vec::new()));
}

#[test]
fn strategy_is_symmetric_on_concrete_chains() {
    let r = Some(());
    for (a, b) in [
        (vec!["blur"], vec!["blur", "sepia"]),
        (vec!["sepia"], vec!["blur"]),
        (vec![], vec!["glow"]),
        (vec!["blur", "sepia"], vec!["blur", "sepia"]),
    ] {
        assert_eq!(classify(&a, &b, r), classify(&b, &a, r));
    }
}

/// A resolver-shaped pass: its wire index and the one param the tests read.
type Pass = ShapedPass<(u8, f32)>;

const BLUR_SHADER: u64 = 1;
const COLOR_MATRIX_SHADER: u64 = 2;

fn blur_pass(wire_index: u8) -> Pass {
    ShapedPass {
        shape: PassShape { shader: BLUR_SHADER, param_vecs: 1, layout: layout(BuiltinFilter::Blur) },
        pass: (wire_index, 4.0),
    }
}

fn color_matrix_pass(filter: BuiltinFilter, shader: u64, wire_index: u8, amount: f32) -> Pass {
    ShapedPass {
        shape: PassShape { shader, param_vecs: 2, layout: layout(filter) },
        pass: (wire_index, amount),
    }
}

fn passes_of(list: &[Pass]) -> Vec<(u64, (u8, f32))> {
    list.iter().map(|p| (p.shape.shader, p.pass)).collect()
}

/// The identity padding of sepia at chain position 1: amount 0.
fn sepia_identity_pad() -> Vec<Pass> {
    let pad = identity_passes(vec![Some(vec![0.0f32])], 1).expect("sepia has an identity");
    pad.into_iter()
        .map(|(w, amount)| color_matrix_pass(BuiltinFilter::Sepia, COLOR_MATRIX_SHADER, w, amount))
        .collect()
}

fn plan_extends_case() {
    let from = ["blur"];
    let to = ["blur", "sepia"];
    let short = || vec![blur_pass(0), blur_pass(0)];
    let long = || {
        vec![
            blur_pass(0),
            blur_pass(0),
            color_matrix_pass(BuiltinFilter::Sepia, COLOR_MATRIX_SHADER, 1, 0.5),
        ]
    };

    // Growing: the start side pads.
    let strategy = classify(&from, &to, Some(()));
    let ease = plan_filter_ease(strategy, 1, 2, short(), long(), Some(sepia_identity_pad()));
    assert_eq!(passes_of(ease.settle()), passes_of(&long()));
    let FilterEase::Aligned { start, target, target_pad } = ease else {
        panic!("expected aligned");
    };
    assert_eq!(passes_of(&target), passes_of(&long()));
    assert!(target_pad.is_empty());
    assert_eq!(start.len(), 3, "start padded at the end");
    assert_eq!(passes_of(&start[..2]), passes_of(&short()), "existing passes untouched");
    assert_eq!(start[2].pass.0, 1, "pad sits at the longer chain's position");
    assert_eq!(format!("{:?}", start[2].shape.layout), format!("{:?}", long()[2].shape.layout));
    assert_eq!(start[2].shape.shader, long()[2].shape.shader);
    assert_eq!(start[2].pass.1, 0.0);

    // Shrinking: the target side pads; completion stays unpadded.
    let strategy = classify(&to, &from, Some(()));
    let ease = plan_filter_ease(strategy, 2, 1, long(), short(), Some(sepia_identity_pad()));
    assert_eq!(passes_of(ease.settle()), passes_of(&short()), "settle is the resolver's own output");
    let FilterEase::Aligned { start, target, target_pad } = ease else {
        panic!("expected aligned");
    };
    assert_eq!(passes_of(&start), passes_of(&long()));
    assert_eq!(target.len() + target_pad.len(), 3);
    assert_eq!(passes_of(&target), passes_of(&short()));
    assert_eq!(target_pad[0].pass.0, 1);
    assert_eq!(target_pad[0].pass.1, 0.0, "sepia fades out to identity");
}

fn plan_mismatched_case() {
    // Same single-name chain on both sides: `Matched`.
    let strategy = classify(&["glow"], &["glow"], Some(()));
    assert_eq!(strategy, FilterStrategy::Matched);
    let start = || vec![color_matrix_pass(BuiltinFilter::Grayscale, COLOR_MATRIX_SHADER, 0, 1.0)];
    let target = || vec![color_matrix_pass(BuiltinFilter::Grayscale, BLUR_SHADER, 0, 1.0)];
    assert_ne!(start()[0].shape.shader, target()[0].shape.shader);
    assert_eq!(format!("{:?}", start()[0].shape.layout), format!("{:?}", target()[0].shape.layout));
    assert_eq!(start()[0].shape.param_vecs, target()[0].shape.param_vecs);

    let ease = plan_filter_ease(strategy, 1, 1, start(), target(), None);
    let FilterEase::Discrete { start: s, target: t } = ease else {
        panic!("expected discrete fallback on shader mismatch");
    };
    assert_eq!(passes_of(&s), passes_of(&start()));
    assert_eq!(passes_of(&t), passes_of(&target()));

    // Control: identical shaders (and layouts/params) stay aligned.
    let ease = plan_filter_ease(strategy, 1, 1, start(), start(), None);
    assert!(matches!(ease, FilterEase::Aligned { .. }));
}

#[test]
fn transition_plan_extends_shorter_side_with_trailing_identity_passes() {
    plan_extends_case();
}

#[test]
fn filters_plan_extends_shorter_side_with_trailing_identity_passes() {
    plan_extends_case();
}

#[test]
fn extension_without_its_padding_swaps_discretely() {
    let strategy = classify(&["blur"], &["blur", "sepia"], Some(()));
    let ease = plan_filter_ease(strategy, 1, 2, vec![blur_pass(0)], vec![blur_pass(0)], None);
    assert!(matches!(ease, FilterEase::Discrete { .. }));
    assert_eq!(passes_of(ease.settle()), passes_of(&[blur_pass(0)]));
}

#[test]
fn identity_padding_stamps_positions_and_fails_as_a_whole() {
    let pad = identity_passes(vec![Some(vec!['a', 'b']), Some(vec!['c'])], 2).unwrap();
    assert_eq!(pad, vec![(2, 'a'), (2, 'b'), (3, 'c')]);
    assert!(identity_passes(vec![Some(vec!['a']), None], 0).is_none());
    let far = identity_passes(vec![Some(vec!['z'])], 300).unwrap();
    assert_eq!(far, vec![(255, 'z')]);
}
