use bevy_react_core::filters::builtin::{
    builtins, has_identity, is_morph, layout, name, packed_vecs, pass_count, BuiltinFilter,
};
use bevy_react_core::filters::params::{slot_components, MAX_FILTER_PARAM_VECS};

#[test]
fn builtin_filters_register_all_seventeen() {
    let all = builtins();
    let mut names: Vec<&str> = all.iter().map(|f| name(*f)).collect();
    names.sort_unstable();
    assert_eq!(
        names,
        [
            "bloom",
            "blur",
            "brightness",
            "chromaticAberration",
            "contrast",
            "crossfade",
            "gradientMap",
            "grayscale",
            "hueRotate",
            "invert",
            "linearWipe",
            "outline",
            "pinch",
            "pixelize",
            "saturate",
            "sepia",
            "shadow",
        ]
    );
    // The morph family is exactly the three morph built-ins.
    let mut morphs: Vec<&str> = all.iter().filter(|f| is_morph(**f)).map(|f| name(*f)).collect();
    morphs.sort_unstable();
    assert_eq!(morphs, ["crossfade", "linearWipe", "pixelize"]);
    // Registering the same built-ins again changes nothing.
    assert_eq!(builtins().len(), 17);
}

#[test]
fn every_builtin_layout_is_well_formed() {
    for f in builtins() {
        let vecs = packed_vecs(f);
        assert!(vecs <= MAX_FILTER_PARAM_VECS, "{f:?}");
        let slots = layout(f);
        for (i, a) in slots.iter().enumerate() {
            assert!(a.len >= 1 && a.comp + a.len <= 4, "{f:?} {}", a.name);
            assert!(a.vec < vecs, "{f:?} {}", a.name);
            assert_eq!(slot_components(a), (a.comp, a.comp + a.len));
            for b in slots.iter().skip(i + 1) {
                assert_ne!(a.name, b.name, "{f:?}");
                let disjoint =
                    a.vec != b.vec || a.comp + a.len <= b.comp || b.comp + b.len <= a.comp;
                assert!(disjoint, "{f:?}: {} overlaps {}", a.name, b.name);
            }
        }
    }
}

#[test]
fn morph_builtins_have_no_identity_and_the_rest_do() {
    for f in builtins() {
        assert_eq!(has_identity(f), !is_morph(f), "{f:?}");
    }
}

#[test]
fn multi_pass_builtins() {
    assert_eq!(pass_count(BuiltinFilter::Blur), 2);
    assert_eq!(pass_count(BuiltinFilter::Bloom), 4);
    assert_eq!(pass_count(BuiltinFilter::Shadow), 4);
    assert_eq!(pass_count(BuiltinFilter::Sepia), 1);
}

#[test]
fn hue_rotate_angle_slot_is_documented() {
    let slots = layout(BuiltinFilter::HueRotate);
    assert_eq!(slots.len(), 1);
    assert_eq!(slots[0].name, "angle");
    assert_eq!(packed_vecs(BuiltinFilter::HueRotate), 2);
}

#[test]
fn gradient_map_fills_the_whole_cap() {
    assert_eq!(packed_vecs(BuiltinFilter::GradientMap), MAX_FILTER_PARAM_VECS);
    assert_eq!(packed_vecs(BuiltinFilter::Crossfade), 0);
    assert!(layout(BuiltinFilter::Crossfade).is_empty());
}
