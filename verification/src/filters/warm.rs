//! The startup list of filter shaders compiled ahead of first use: each of
//! the three registry partitions is looked up under its selection, the
//! found shaders are merged into one list (each at most once, in the order
//! first found), and every rejected name warns once.

use vstd::prelude::*;
use vstd::string::*;

use crate::text::{debug_quoted, debug_str};

verus! {

/// The `diag` kind for a selected name that is unknown or in the wrong
/// partition.
pub const KIND_PRECOMPILE: &'static str = "precompileFilters";

/// A part of the filter registry, as the precompile settings select it.
#[derive(Debug, Clone, Copy, PartialEq, Eq, Structural)]
pub enum FilterPartition {
    /// The built-in filters and morphs.
    Builtins,
    /// Custom (non-morph) filters.
    Filters,
    /// Custom morph filters.
    Morphs,
}

/// The settings field a partition is selected under.
pub open spec fn partition_field(p: FilterPartition) -> Seq<char> {
    match p {
        FilterPartition::Builtins => "builtins"@,
        FilterPartition::Filters => "filters"@,
        FilterPartition::Morphs => "morphs"@,
    }
}

/// What a name in a partition is expected to be.
pub open spec fn partition_what(p: FilterPartition) -> Seq<char> {
    match p {
        FilterPartition::Builtins => "built-in filter or morph"@,
        FilterPartition::Filters => "custom filter"@,
        FilterPartition::Morphs => "custom morph"@,
    }
}

/// How one partition is selected for precompiling.
pub enum FilterSelection {
    /// Every shader of the partition.
    All,
    /// Only the named filters.
    Names(Vec<String>),
    /// None of them.
    Off,
}

/// The partitions, in the order they are looked up.
pub fn warm_partitions() -> (r: Vec<FilterPartition>)
    ensures
        r@ == seq![FilterPartition::Builtins, FilterPartition::Filters, FilterPartition::Morphs],
{
    let mut r = Vec::new();
    r.push(FilterPartition::Builtins);
    r.push(FilterPartition::Filters);
    r.push(FilterPartition::Morphs);
    proof {
        assert(r@ =~= seq![
            FilterPartition::Builtins,
            FilterPartition::Filters,
            FilterPartition::Morphs,
        ]);
    }
    r
}

/// The lookup a selection asks for: `None` skips the partition,
/// `Some(None)` takes all of it, `Some(Some(names))` only `names`.
pub fn selected_names(sel: &FilterSelection) -> (r: Option<Option<&Vec<String>>>)
    ensures
        match sel {
            FilterSelection::All => r == Some(None::<&Vec<String>>),
            FilterSelection::Names(names) => r == Some(Some(names)),
            FilterSelection::Off => r is None,
        },
{
    match sel {
        FilterSelection::All => Some(None),
        FilterSelection::Names(names) => Some(Some(names)),
        FilterSelection::Off => None,
    }
}

/// What the precompile lookup reads of one registered filter: its wire
/// name, the partition it belongs to, and its pass shaders.
pub struct WarmEntry {
    pub name: String,
    pub partition: FilterPartition,
    pub shaders: Vec<u64>,
}

/// The entry is in partition `p` and, when a name is given, registered
/// under it.
pub open spec fn entry_selected(e: WarmEntry, p: FilterPartition, name: Option<Seq<char>>) -> bool {
    e.partition == p && match name {
        None => true,
        Some(n) => e.name@ == n,
    }
}

/// The shaders of the selected entries, in registry order.
pub open spec fn selected_shaders(
    entries: Seq<WarmEntry>,
    p: FilterPartition,
    name: Option<Seq<char>>,
) -> Seq<u64>
    decreases entries.len(),
{
    if entries.len() == 0 {
        seq![]
    } else {
        let prev = selected_shaders(entries.drop_last(), p, name);
        if entry_selected(entries.last(), p, name) {
            prev + entries.last().shaders@
        } else {
            prev
        }
    }
}

/// Partition `p` holds a filter registered under `name`.
pub open spec fn partition_holds(entries: Seq<WarmEntry>, p: FilterPartition, name: Seq<char>) -> bool {
    exists|i: int| 0 <= i < entries.len() && entry_selected(#[trigger] entries[i], p, Some(name))
}

/// The shaders of the named filters of partition `p`, name by name.
pub open spec fn named_shaders(entries: Seq<WarmEntry>, p: FilterPartition, names: Seq<String>) -> Seq<
    u64,
>
    decreases names.len(),
{
    if names.len() == 0 {
        seq![]
    } else {
        named_shaders(entries, p, names.drop_last()) + selected_shaders(
            entries,
            p,
            Some(names.last()@),
        )
    }
}

/// The selected names partition `p` does not hold (unknown, or registered
/// in another partition), in order.
pub open spec fn named_rejections(entries: Seq<WarmEntry>, p: FilterPartition, names: Seq<String>) -> Seq<
    Seq<char>,
>
    decreases names.len(),
{
    if names.len() == 0 {
        seq![]
    } else {
        let prev = named_rejections(entries, p, names.drop_last());
        if partition_holds(entries, p, names.last()@) {
            prev
        } else {
            prev.push(names.last()@)
        }
    }
}

/// Append the shaders of the entries selected by `p` and `name` to `out`;
/// whether any entry was selected.
fn collect_shaders(
    entries: &Vec<WarmEntry>,
    p: FilterPartition,
    name: Option<&String>,
    out: &mut Vec<u64>,
) -> (held: bool)
    ensures
        final(out)@ == old(out)@ + selected_shaders(
            entries@,
            p,
            match name {
                Some(n) => Some(n@),
                None => None,
            },
        ),
        name matches Some(n) ==> held == partition_holds(entries@, p, n@),
{
    let ghost sel = match name {
        Some(n) => Some(n@),
        None => None::<Seq<char>>,
    };
    let ghost start = out@;
    let mut held = false;
    let mut i: usize = 0;
    while i < entries.len()
        invariant
            0 <= i <= entries@.len(),
            sel == match name {
                Some(n) => Some(n@),
                None => None,
            },
            out@ == start + selected_shaders(entries@.take(i as int), p, sel),
            name matches Some(n) ==> held == partition_holds(entries@.take(i as int), p, n@),
        decreases entries@.len() - i,
    {
        let ghost prefix = entries@.take(i as int);
        let ghost next = entries@.take(i + 1);
        proof {
            assert(next.drop_last() =~= prefix);
            assert(next.last() == entries@[i as int]);
        }
        let e = &entries[i];
        let selected = e.partition == p && match name {
            None => true,
            Some(n) => e.name == *n,
        };
        if selected {
            let ghost before = out@;
            let mut k: usize = 0;
            while k < e.shaders.len()
                invariant
                    0 <= k <= e.shaders@.len(),
                    out@ == before + e.shaders@.take(k as int),
                decreases e.shaders@.len() - k,
            {
                out.push(e.shaders[k]);
                proof {
                    assert(e.shaders@.take(k + 1) =~= e.shaders@.take(k as int).push(e.shaders@[k as int]));
                }
                k = k + 1;
            }
            proof {
                assert(e.shaders@.take(e.shaders@.len() as int) =~= e.shaders@);
                assert(out@ =~= start + selected_shaders(next, p, sel));
            }
            held = true;
        }
        proof {
            if let Some(n) = name {
                if selected {
                    assert(entry_selected(next[i as int], p, Some(n@)));
                } else {
                    if partition_holds(next, p, n@) {
                        let j = choose|j: int| 0 <= j < next.len() && entry_selected(#[trigger] next[j], p, Some(n@));
                        assert(j < i);
                        assert(prefix[j] == next[j]);
                    }
                }
                if partition_holds(prefix, p, n@) {
                    let j = choose|j: int| 0 <= j < prefix.len() && entry_selected(#[trigger] prefix[j], p, Some(n@));
                    assert(prefix[j] == next[j]);
                }
            }
        }
        i = i + 1;
    }
    proof {
        assert(entries@.take(entries@.len() as int) =~= entries@);
    }
    held
}

/// Look up partition `p` in the registry's entries under its selection
/// (`None`: all of it): with no names, every shader of the partition in
/// registry order; with names, each name's shaders in turn, and the names
/// the partition does not hold (unknown, or of another partition) rejected.
pub fn warm_lookup(p: FilterPartition, entries: &Vec<WarmEntry>, names: Option<&Vec<String>>) -> (r:
    WarmLookup)
    ensures
        r.partition == p,
        names is None ==> r.found@ == selected_shaders(entries@, p, None) && r.rejected@.len() == 0,
        names matches Some(ns) ==> r.found@ == named_shaders(entries@, p, ns@)
            && r.rejected@.map_values(|s: String| s@) == named_rejections(entries@, p, ns@),
{
    let mut found: Vec<u64> = Vec::new();
    let mut rejected: Vec<String> = Vec::new();
    match names {
        None => {
            collect_shaders(entries, p, None, &mut found);
            assert(found@ =~= selected_shaders(entries@, p, None));
        },
        Some(ns) => {
            let mut i: usize = 0;
            while i < ns.len()
                invariant
                    0 <= i <= ns@.len(),
                    found@ == named_shaders(entries@, p, ns@.take(i as int)),
                    rejected@.map_values(|s: String| s@) == named_rejections(
                        entries@,
                        p,
                        ns@.take(i as int),
                    ),
                decreases ns@.len() - i,
            {
                proof {
                    assert(ns@.take(i + 1).drop_last() =~= ns@.take(i as int));
                    assert(ns@.take(i + 1).last() == ns@[i as int]);
                }
                let held = collect_shaders(entries, p, Some(&ns[i]), &mut found);
                if !held {
                    let ghost before = rejected@;
                    rejected.push(ns[i].clone());
                    proof {
                        assert(rejected@.map_values(|s: String| s@) =~= before.map_values(
                            |s: String| s@,
                        ).push(ns@[i as int]@));
                    }
                }
                i = i + 1;
            }
            proof {
                assert(ns@.take(ns@.len() as int) =~= ns@);
            }
        },
    }
    WarmLookup { partition: p, found, rejected }
}

/// `acc` with each of `found` appended unless already present.
pub open spec fn merge_unique(acc: Seq<u64>, found: Seq<u64>) -> Seq<u64>
    decreases found.len(),
{
    if found.len() == 0 {
        acc
    } else {
        let prev = merge_unique(acc, found.drop_last());
        if prev.contains(found.last()) {
            prev
        } else {
            prev.push(found.last())
        }
    }
}

/// The warning for a selected name the partition does not hold.
pub open spec fn rejection_text(p: FilterPartition, name: Seq<char>) -> Seq<char> {
    "precompile_filters."@ + partition_field(p) + ": "@ + debug_str(name)
        + " is not a registered "@ + partition_what(p) + " \u{2014} not precompiled"@
}

/// What a lookup of one partition gave: the shader ids found and the
/// selected names it does not hold.
pub struct WarmLookup {
    pub partition: FilterPartition,
    pub found: Vec<u64>,
    pub rejected: Vec<String>,
}

/// The merged shader ids of `lookups`, in order.
pub open spec fn warm_handles(lookups: Seq<WarmLookup>) -> Seq<u64>
    decreases lookups.len(),
{
    if lookups.len() == 0 {
        seq![]
    } else {
        merge_unique(warm_handles(lookups.drop_last()), lookups.last().found@)
    }
}

/// The warnings of `rejected` names of partition `p`, in order.
pub open spec fn rejection_texts(p: FilterPartition, rejected: Seq<String>) -> Seq<Seq<char>> {
    Seq::new(rejected.len(), |i: int| rejection_text(p, rejected[i]@))
}

/// The warnings of `lookups`, in order.
pub open spec fn warm_warnings(lookups: Seq<WarmLookup>) -> Seq<Seq<char>>
    decreases lookups.len(),
{
    if lookups.len() == 0 {
        seq![]
    } else {
        warm_warnings(lookups.drop_last()) + rejection_texts(
            lookups.last().partition,
            lookups.last().rejected@,
        )
    }
}

/// Merging keeps what was there, in place, adds exactly what was found and
/// was missing, and brings in no duplicate.
pub proof fn lemma_merge_unique(acc: Seq<u64>, found: Seq<u64>)
    ensures
        acc.len() <= merge_unique(acc, found).len(),
        merge_unique(acc, found).subrange(0, acc.len() as int) == acc,
        forall|x: u64|
            merge_unique(acc, found).contains(x) <==> (acc.contains(x) || found.contains(x)),
        acc.no_duplicates() ==> merge_unique(acc, found).no_duplicates(),
    decreases found.len(),
{
    if found.len() > 0 {
        let prev = merge_unique(acc, found.drop_last());
        lemma_merge_unique(acc, found.drop_last());
        let x = found.last();
        assert forall|y: u64|
            merge_unique(acc, found).contains(y) <==> (acc.contains(y) || found.contains(y)) by {
            if found.drop_last().contains(y) {
                let k = choose|k: int| 0 <= k < found.drop_last().len() && found.drop_last()[k] == y;
                assert(found[k] == y);
            }
            if found.contains(y) && y != x {
                let k = choose|k: int| 0 <= k < found.len() && found[k] == y;
                assert(k != found.len() - 1);
                assert(found.drop_last()[k] == y);
            }
            if !prev.contains(x) {
                assert(prev.push(x)[prev.len() as int] == x);
                if prev.push(x).contains(y) && y != x {
                    let k = choose|k: int| 0 <= k < prev.push(x).len() && prev.push(x)[k] == y;
                    assert(prev[k] == y);
                }
                if prev.contains(y) {
                    let k = choose|k: int| 0 <= k < prev.len() && prev[k] == y;
                    assert(prev.push(x)[k] == y);
                }
            }
        }
        if !prev.contains(x) {
            assert(prev.push(x).subrange(0, acc.len() as int) =~= prev.subrange(
                0,
                acc.len() as int,
            ));
        }
    }
}

fn contains_id(v: &Vec<u64>, x: u64) -> (r: bool)
    ensures
        r == v@.contains(x),
{
    let mut i: usize = 0;
    while i < v.len()
        invariant
            0 <= i <= v@.len(),
            forall|j: int| 0 <= j < i ==> v@[j] != x,
        decreases v@.len() - i,
    {
        if v[i] == x {
            assert(v@[i as int] == x);
            return true;
        }
        i = i + 1;
    }
    false
}

/// Append each of `found` to `handles` unless it is already there.
pub fn merge_found(handles: &mut Vec<u64>, found: &Vec<u64>)
    ensures
        final(handles)@ == merge_unique(old(handles)@, found@),
{
    let mut j: usize = 0;
    while j < found.len()
        invariant
            0 <= j <= found@.len(),
            handles@ == merge_unique(old(handles)@, found@.take(j as int)),
        decreases found@.len() - j,
    {
        proof {
            assert(found@.take(j + 1).drop_last() =~= found@.take(j as int));
        }
        let x = found[j];
        if !contains_id(handles, x) {
            handles.push(x);
        }
        j = j + 1;
    }
    proof {
        assert(found@.take(found@.len() as int) =~= found@);
    }
}

/// The warning for `name`, selected under partition `p` but not registered
/// there.
pub fn rejection_message(p: FilterPartition, name: &str) -> (r: String)
    ensures
        r@ == rejection_text(p, name@),
{
    let mut msg = String::from_str("precompile_filters.");
    let (field, what): (&str, &str) = match p {
        FilterPartition::Builtins => ("builtins", "built-in filter or morph"),
        FilterPartition::Filters => ("filters", "custom filter"),
        FilterPartition::Morphs => ("morphs", "custom morph"),
    };
    proof {
        reveal_strlit("builtins");
        reveal_strlit("built-in filter or morph");
        reveal_strlit("filters");
        reveal_strlit("custom filter");
        reveal_strlit("morphs");
        reveal_strlit("custom morph");
    }
    msg.append(field);
    msg.append(": ");
    let quoted = debug_quoted(name);
    msg.append(quoted.as_str());
    msg.append(" is not a registered ");
    msg.append(what);
    msg.append(" \u{2014} not precompiled");
    proof {
        assert(field@ == partition_field(p));
        assert(what@ == partition_what(p));
        assert(msg@ =~= rejection_text(p, name@));
    }
    msg
}

/// The shader list and the warnings for the partitions' lookups, in order:
/// the ids merged without repeats, one warning per rejected name.
pub fn assemble_warm_list(lookups: &Vec<WarmLookup>) -> (r: (Vec<u64>, Vec<String>))
    ensures
        r.0@ == warm_handles(lookups@),
        r.0@.no_duplicates(),
        r.1@.len() == warm_warnings(lookups@).len(),
        forall|k: int| 0 <= k < r.1@.len() ==> #[trigger] r.1@[k]@ == warm_warnings(lookups@)[k],
{
    let mut handles: Vec<u64> = Vec::new();
    let mut warnings: Vec<String> = Vec::new();
    let mut i: usize = 0;
    while i < lookups.len()
        invariant
            0 <= i <= lookups@.len(),
            handles@ == warm_handles(lookups@.take(i as int)),
            handles@.no_duplicates(),
            warnings@.len() == warm_warnings(lookups@.take(i as int)).len(),
            forall|k: int|
                0 <= k < warnings@.len() ==> #[trigger] warnings@[k]@ == warm_warnings(
                    lookups@.take(i as int),
                )[k],
        decreases lookups@.len() - i,
    {
        let ghost h0 = handles@;
        let ghost w0 = warm_warnings(lookups@.take(i as int));
        proof {
            assert(lookups@.take(i + 1).drop_last() =~= lookups@.take(i as int));
            assert(lookups@.take(i + 1).last() == lookups@[i as int]);
            lemma_merge_unique(h0, lookups@[i as int].found@);
        }
        let lookup = &lookups[i];
        merge_found(&mut handles, &lookup.found);
        let ghost before = warnings@;
        let mut j: usize = 0;
        while j < lookup.rejected.len()
            invariant
                0 <= j <= lookup.rejected@.len(),
                warnings@.len() == before.len() + j,
                before.len() == w0.len(),
                forall|k: int| 0 <= k < before.len() ==> #[trigger] warnings@[k] == before[k],
                forall|k: int|
                    0 <= k < j ==> #[trigger] warnings@[before.len() + k]@ == rejection_text(
                        lookup.partition,
                        lookup.rejected@[k]@,
                    ),
            decreases lookup.rejected@.len() - j,
        {
            let m = rejection_message(lookup.partition, lookup.rejected[j].as_str());
            warnings.push(m);
            j = j + 1;
        }
        proof {
            let w1 = warm_warnings(lookups@.take(i + 1));
            assert(w1 == w0 + rejection_texts(lookup.partition, lookup.rejected@));
            assert forall|k: int| 0 <= k < warnings@.len() implies #[trigger] warnings@[k]@ == w1[k] by {
                if k >= before.len() {
                    let kk = k - before.len();
                    assert(warnings@[before.len() + kk]@ == rejection_text(
                        lookup.partition,
                        lookup.rejected@[kk]@,
                    ));
                } else {
                    assert(warnings@[k] == before[k]);
                }
            }
        }
        i = i + 1;
    }
    proof {
        assert(lookups@.take(lookups@.len() as int) =~= lookups@);
    }
    (handles, warnings)
}

} // verus!
