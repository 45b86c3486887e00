use bevy_react_core::filters::builtin::{builtins, name};
use bevy_react_core::filters::registry::{registered_resolve, FilterRegistry, Registered};

/// What the test reads of a registration: the params type's name and
/// whether the filter is time-driven.
type Entry = (&'static str, bool);

const GLOW_PARAMS: u64 = 1;
const IMPOSTER_GLOW: u64 = 2;

fn dedups_and_replaces() {
    let mut registry: FilterRegistry<Entry> = FilterRegistry::new();
    assert_eq!(registry.register("testGlow".to_string(), GLOW_PARAMS, ("GlowParams", true)), Registered::Added);
    assert_eq!(registry.register("testGlow".to_string(), GLOW_PARAMS, ("GlowParams", true)), Registered::Kept);
    assert_eq!(registry.len(), 1);
    assert!(registry.get(&"testGlow".to_string()).unwrap().1, "GlowParams' entry");

    let r = registry.register("testGlow".to_string(), IMPOSTER_GLOW, ("ImposterGlow", false));
    assert_eq!(r, Registered::Replaced { previous: GLOW_PARAMS });
    assert_eq!(registry.len(), 1, "replaced, not appended");
    let reg = registry.get(&"testGlow".to_string()).unwrap();
    assert!(!reg.1, "ImposterGlow's entry (time defaults false)");
    assert_eq!(reg.0, "ImposterGlow");
}

#[test]
fn macro_tests_add_react_filter_dedups_same_type_and_replaces_different_type() {
    dedups_and_replaces();
}

#[test]
fn filters_add_react_filter_dedups_same_type_and_replaces_different_type() {
    dedups_and_replaces();
}

#[test]
fn registering_the_builtins_twice_changes_nothing() {
    let mut registry: FilterRegistry<&'static str> = FilterRegistry::new();
    for (key, f) in builtins().into_iter().enumerate() {
        assert_eq!(registry.register(name(f).to_string(), key as u64, name(f)), Registered::Added);
    }
    assert_eq!(registry.len(), 17);
    for (key, f) in builtins().into_iter().enumerate() {
        assert_eq!(registry.register(name(f).to_string(), key as u64, name(f)), Registered::Kept);
    }
    assert_eq!(registry.len(), 17);
    assert_eq!(registry.get(&"blur".to_string()), Some(&"blur"));
    assert_eq!(registry.get(&"glow".to_string()), None);
}

#[test]
fn registered_resolve_names_the_first_over_cap_pass() {
    let passes: Result<Vec<u8>, String> = Ok(vec![1, 2, 3, 4]);
    let err = registered_resolve("bloom", passes, &vec![2, 9, 8, 12]).unwrap_err();
    assert_eq!(err, "filter \"bloom\" packs 9 param vec4s, over the cap of 8");
    let within: Result<Vec<u8>, String> = Ok(vec![1, 2]);
    assert_eq!(registered_resolve("bloom", within, &vec![8, 1]), Ok(vec![1, 2]));
    let refused: Result<Vec<u8>, String> = Err("filter \"blur\" params: unknown field".to_string());
    assert_eq!(
        registered_resolve("blur", refused, &vec![]),
        Err("filter \"blur\" params: unknown field".to_string())
    );
}
