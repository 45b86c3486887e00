use bevy_react_core::filters::builtin::{builtins, name, BuiltinFilter};
use bevy_react_core::filters::warm::{
    assemble_warm_list, merge_found, rejection_message, selected_names, warm_lookup,
    warm_partitions, FilterPartition, FilterSelection, WarmEntry, WarmLookup, KIND_PRECOMPILE,
};

fn lookup(partition: FilterPartition, found: &[u64], rejected: &[&str]) -> WarmLookup {
    WarmLookup {
        partition,
        found: found.to_vec(),
        rejected: rejected.iter().map(|s| s.to_string()).collect(),
    }
}

/// The pass shaders of each built-in: the color matrix shared by seven, blur
/// shared by bloom and shadow as their blur passes.
fn builtin_shaders(f: BuiltinFilter) -> Vec<u64> {
    match f {
        BuiltinFilter::Bloom => vec![11, 2],
        BuiltinFilter::Blur => vec![2],
        BuiltinFilter::ChromaticAberration => vec![3],
        BuiltinFilter::GradientMap => vec![4],
        BuiltinFilter::Outline => vec![5],
        BuiltinFilter::Pinch => vec![6],
        BuiltinFilter::Shadow => vec![7, 2],
        BuiltinFilter::Crossfade => vec![8],
        BuiltinFilter::LinearWipe => vec![9],
        BuiltinFilter::Pixelize => vec![10],
        _ => vec![1],
    }
}

/// The registry's precompile view with every built-in registered.
fn builtin_registry() -> Vec<WarmEntry> {
    builtins()
        .into_iter()
        .map(|f| WarmEntry {
            name: name(f).to_string(),
            partition: FilterPartition::Builtins,
            shaders: builtin_shaders(f),
        })
        .collect()
}

/// The lookups for the three selections, skipping those turned off.
fn warm_list(selections: &[FilterSelection; 3], entries: &Vec<WarmEntry>) -> (Vec<u64>, Vec<String>) {
    let mut lookups = Vec::new();
    for (p, sel) in warm_partitions().into_iter().zip(selections.iter()) {
        match selected_names(sel) {
            None => {}
            Some(names) => lookups.push(warm_lookup(p, entries, names)),
        }
    }
    assemble_warm_list(&lookups)
}

fn names(list: &[&str]) -> FilterSelection {
    FilterSelection::Names(list.iter().map(|s| s.to_string()).collect())
}

#[test]
fn default_warms_everything_and_off_warms_nothing() {
    let registry = builtin_registry();
    let all_three = [FilterSelection::All, FilterSelection::All, FilterSelection::All];
    let (all, warnings) = warm_list(&all_three, &registry);
    assert_eq!(all.len(), 11, "{all:?}");
    let mut ids = all.clone();
    ids.sort();
    ids.dedup();
    assert_eq!(ids.len(), 11, "deduped");
    assert!(warnings.is_empty());
    let off = [FilterSelection::Off, FilterSelection::Off, FilterSelection::Off];
    assert!(warm_list(&off, &registry).0.is_empty());
}

#[test]
fn names_narrow_and_rejects_warn() {
    // builtins: ["bloom", "nope"]; filters: ["bloom"] (wrong field); morphs off.
    let registry = builtin_registry();
    let config = [names(&["bloom", "nope"]), names(&["bloom"]), FilterSelection::Off];
    let (list, warnings) = warm_list(&config, &registry);
    assert_eq!(list.len(), 2, "bloom's two pass shaders: {list:?}");
    assert!(list.contains(&builtin_shaders(BuiltinFilter::Bloom)[0]));

    let mut warnings = warnings;
    warnings.sort();
    assert_eq!(warnings.len(), 2, "{warnings:?}");
    assert!(warnings[0].contains("precompile_filters.builtins"), "{}", warnings[0]);
    assert!(warnings[0].contains("\"nope\""), "{}", warnings[0]);
    assert!(warnings[1].contains("precompile_filters.filters"), "{}", warnings[1]);
    assert!(warnings[1].contains("\"bloom\""), "{}", warnings[1]);
    assert_eq!(KIND_PRECOMPILE, "precompileFilters");
}

#[test]
fn lookup_takes_a_partition_by_name_or_whole() {
    let mut registry = builtin_registry();
    registry.push(WarmEntry { name: "glow".to_string(), partition: FilterPartition::Filters, shaders: vec![40] });
    registry.push(WarmEntry { name: "swirl".to_string(), partition: FilterPartition::Morphs, shaders: vec![41] });
    let all = warm_lookup(FilterPartition::Filters, &registry, None);
    assert_eq!(all.found, vec![40]);
    assert!(all.rejected.is_empty());
    let named = vec!["swirl".to_string(), "glow".to_string(), "blur".to_string()];
    let l = warm_lookup(FilterPartition::Morphs, &registry, Some(&named));
    assert_eq!(l.partition, FilterPartition::Morphs);
    assert_eq!(l.found, vec![41]);
    assert_eq!(l.rejected, vec!["glow".to_string(), "blur".to_string()]);
    let l = warm_lookup(FilterPartition::Builtins, &registry, Some(&vec!["shadow".to_string()]));
    assert_eq!(l.found, vec![7, 2]);
}

#[test]
fn everything_off_warms_nothing() {
    let (list, warnings) = assemble_warm_list(&Vec::new());
    assert!(list.is_empty());
    assert!(warnings.is_empty());
}

#[test]
fn shared_shaders_are_warmed_once_in_first_found_order() {
    let lookups = vec![
        lookup(FilterPartition::Builtins, &[5, 3, 5, 9], &[]),
        lookup(FilterPartition::Filters, &[9, 1], &[]),
        lookup(FilterPartition::Morphs, &[3, 7], &[]),
    ];
    let (list, warnings) = assemble_warm_list(&lookups);
    assert_eq!(list, vec![5, 3, 9, 1, 7]);
    assert!(warnings.is_empty());
}

#[test]
fn merge_keeps_existing_entries_in_place() {
    let mut handles = vec![4, 2];
    merge_found(&mut handles, &vec![2, 8, 4, 8, 6]);
    assert_eq!(handles, vec![4, 2, 8, 6]);
}

#[test]
fn rejection_messages_are_exact() {
    assert_eq!(
        rejection_message(FilterPartition::Filters, "bloom"),
        "precompile_filters.filters: \"bloom\" is not a registered custom filter \u{2014} not precompiled"
    );
    assert_eq!(
        rejection_message(FilterPartition::Builtins, "nope"),
        "precompile_filters.builtins: \"nope\" is not a registered built-in filter or morph \u{2014} not precompiled"
    );
    assert_eq!(
        rejection_message(FilterPartition::Morphs, "x"),
        "precompile_filters.morphs: \"x\" is not a registered custom morph \u{2014} not precompiled"
    );
}

#[test]
fn partitions_are_looked_up_in_settings_order() {
    assert_eq!(
        warm_partitions(),
        vec![FilterPartition::Builtins, FilterPartition::Filters, FilterPartition::Morphs]
    );
    match selected_names(&FilterSelection::All) {
        Some(None) => {}
        _ => panic!("`All` takes the whole partition"),
    }
}
