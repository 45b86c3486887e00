//! Chain assembly: how a wire chain's per-entry resolutions become one
//! resolved chain (wire-indexed passes, summed outset, dirtiness), and how
//! the resolve system writes it (compare-before-write, version bumps).

use vstd::prelude::*;
use vstd::string::*;

use super::json::JsonValue;
use super::params::{add_entry_outset, stamp_wire_index, MAX_FILTER_OUTSET_PX};
use super::wire::{chain_decodes, FilterUse, WireWarning, MAX_CHAIN_LEN};
use crate::text::{debug_quoted, debug_str};

verus! {

/// What resolving one wire chain entry against the registry gave: an unknown
/// name, rejected params (their text, and the rejection message), or the
/// entry's passes (`P`, in order) with its outset in physical px and whether
/// it is time-driven.
pub enum EntryResolution<P> {
    Unknown { name: String },
    Rejected { params: String, message: String },
    Resolved { passes: Vec<P>, outset_px: u32, uses_time: bool },
}

/// What one registered filter's baked functions gave for an entry's params:
/// the resolved passes (or the rejection), the logical outset turned into
/// physical px (or the rejection), and whether the filter is time-driven.
pub struct RegisteredOutcome<P> {
    pub resolved: Result<Vec<P>, String>,
    pub outset_px: Result<u32, String>,
    pub uses_time: bool,
}

/// Which warning a skipped chain entry raises.
#[derive(Debug, Clone, Copy, PartialEq, Eq, Structural)]
pub enum SkipKind {
    /// The filter name is not registered.
    Unknown,
    /// The registered filter rejected the entry's params.
    Params,
}

/// The warning for one skipped chain entry: its kind, the value it is
/// reported under (the name, or the params' text), and the message.
pub struct SkipWarning {
    pub kind: SkipKind,
    pub value: String,
    pub message: String,
}

/// A warning as plain values.
pub open spec fn skip_view(w: SkipWarning) -> (SkipKind, Seq<char>, Seq<char>) {
    (w.kind, w.value@, w.message@)
}

/// The resolved chain assembled from the entries: each pass tagged with the
/// wire index of its entry, the summed outset, the dirtiness flag, and one
/// warning per skipped entry, in wire order.
pub struct ChainAssembly<P> {
    pub passes: Vec<(u8, P)>,
    pub outset_px: u32,
    pub always_dirty: bool,
    pub warnings: Vec<SkipWarning>,
}

/// What the registry lookup of one chain entry gives: `Unknown` when the
/// name is not registered; else the resolve rejection if there is one, then
/// the outset rejection; else the passes with their outset.
pub open spec fn entry_resolution_spec<P>(
    name: Seq<char>,
    params: Seq<char>,
    lookup: Option<RegisteredOutcome<P>>,
    r: EntryResolution<P>,
) -> bool {
    match lookup {
        None => r matches EntryResolution::Unknown { name: n } && n@ == name,
        Some(o) => match (o.resolved, o.outset_px) {
            (Ok(passes), Ok(outset_px)) => r matches EntryResolution::Resolved {
                passes: ps,
                outset_px: px,
                uses_time: t,
            } && ps@ == passes@ && px == outset_px && t == o.uses_time,
            (Err(message), _) => r matches EntryResolution::Rejected { params: p, message: m }
                && p@ == params && m@ == message@,
            (Ok(_), Err(message)) => r matches EntryResolution::Rejected {
                params: p,
                message: m,
            } && p@ == params && m@ == message@,
        },
    }
}

/// Resolve one chain entry from its registry lookup (`None`: the name is not
/// registered); see [`entry_resolution_spec`]. Either baked function
/// rejecting skips the entry with one params warning, the resolve's message
/// first.
pub fn entry_resolution<P>(name: String, params: String, lookup: Option<RegisteredOutcome<P>>) -> (r:
    EntryResolution<P>)
    ensures
        entry_resolution_spec(name@, params@, lookup, r),
{
    match lookup {
        None => EntryResolution::Unknown { name },
        Some(o) => match (o.resolved, o.outset_px) {
            (Ok(passes), Ok(outset_px)) => EntryResolution::Resolved {
                passes,
                outset_px,
                uses_time: o.uses_time,
            },
            (Err(message), _) => EntryResolution::Rejected { params, message },
            (Ok(_), Err(message)) => EntryResolution::Rejected { params, message },
        },
    }
}

/// The warnings of the skipped entries, in wire order: an unknown name warns
/// under the name, rejected params under their text.
pub open spec fn assembled_warnings<P>(entries: Seq<EntryResolution<P>>) -> Seq<
    (SkipKind, Seq<char>, Seq<char>),
>
    decreases entries.len(),
{
    if entries.len() == 0 {
        seq![]
    } else {
        let prev = assembled_warnings(entries.drop_last());
        match entries.last() {
            EntryResolution::Unknown { name } => prev.push(
                (SkipKind::Unknown, name@, unknown_filter_message(name@)),
            ),
            EntryResolution::Rejected { params, message } => prev.push(
                (SkipKind::Params, params@, message@),
            ),
            _ => prev,
        }
    }
}

/// A chain entry's wire index as stamped on its passes.
pub open spec fn stamped(index: int) -> u8 {
    if index <= 255 {
        index as u8
    } else {
        255
    }
}

/// The passes of the resolved entries, in wire order, each tagged with its
/// entry's stamped wire index; unknown and rejected entries are skipped.
pub open spec fn assembled_passes<P>(entries: Seq<EntryResolution<P>>) -> Seq<(u8, P)>
    decreases entries.len(),
{
    if entries.len() == 0 {
        seq![]
    } else {
        let prev = assembled_passes(entries.drop_last());
        match entries.last() {
            EntryResolution::Resolved { passes, .. } => prev + passes@.map_values(
                |p: P| (stamped(entries.len() - 1), p),
            ),
            _ => prev,
        }
    }
}

/// The summed outset of the resolved entries, clamped at the cap.
pub open spec fn assembled_outset<P>(entries: Seq<EntryResolution<P>>) -> u32
    decreases entries.len(),
{
    if entries.len() == 0 {
        0
    } else {
        let prev = assembled_outset(entries.drop_last());
        match entries.last() {
            EntryResolution::Resolved { outset_px, .. } => {
                if prev + outset_px <= MAX_FILTER_OUTSET_PX {
                    (prev + outset_px) as u32
                } else {
                    MAX_FILTER_OUTSET_PX
                }
            },
            _ => prev,
        }
    }
}

/// Some resolved entry is time-driven.
pub open spec fn any_uses_time<P>(entries: Seq<EntryResolution<P>>) -> bool {
    exists|i: int|
        0 <= i < entries.len() && (#[trigger] entries[i] matches EntryResolution::Resolved {
            uses_time,
            ..
        } && uses_time)
}

/// Assemble a resolved chain from the per-entry resolutions (see
/// [`assembled_passes`], [`assembled_outset`]); `force_always_dirty` is the
/// chain surface's own flag (backdrop chains are always dirty).
pub fn assemble_chain<P>(entries: Vec<EntryResolution<P>>, force_always_dirty: bool) -> (r:
    ChainAssembly<P>)
    ensures
        r.passes@ == assembled_passes(entries@),
        r.outset_px == assembled_outset(entries@),
        r.outset_px <= MAX_FILTER_OUTSET_PX,
        r.always_dirty == (force_always_dirty || any_uses_time(entries@)),
        r.warnings@.map_values(|w: SkipWarning| skip_view(w)) == assembled_warnings(entries@),
{
    let ghost all = entries@;
    let mut rest = entries;
    let mut passes: Vec<(u8, P)> = Vec::new();
    let mut outset_px: u32 = 0;
    let mut always_dirty = force_always_dirty;
    let mut warnings: Vec<SkipWarning> = Vec::new();
    let n = rest.len();
    let mut index: usize = 0;
    while index < n
        invariant
            n == all.len(),
            0 <= index <= n,
            rest@ == all.subrange(index as int, n as int),
            passes@ == assembled_passes(all.subrange(0, index as int)),
            outset_px == assembled_outset(all.subrange(0, index as int)),
            outset_px <= MAX_FILTER_OUTSET_PX,
            always_dirty == (force_always_dirty || any_uses_time(all.subrange(0, index as int))),
            warnings@.map_values(|w: SkipWarning| skip_view(w)) == assembled_warnings(
                all.subrange(0, index as int),
            ),
        decreases n - index,
    {
        let ghost prefix = all.subrange(0, index as int);
        let ghost next = all.subrange(0, index + 1);
        assert(next.drop_last() =~= prefix);
        let entry = rest.remove(0);
        assert(entry == all[index as int]);
        match entry {
            EntryResolution::Resolved { passes: entry_passes, outset_px: entry_outset, uses_time } => {
                let ghost before = passes@;
                let ghost source = entry_passes@;
                let wire_index = stamp_wire_index(index);
                let mut pending = entry_passes;
                let m = pending.len();
                let mut k: usize = 0;
                while k < m
                    invariant
                        m == source.len(),
                        0 <= k <= m,
                        pending@ == source.subrange(k as int, m as int),
                        wire_index == stamped(index as int),
                        passes@ == before + source.subrange(0, k as int).map_values(
                            |p: P| (wire_index, p),
                        ),
                    decreases m - k,
                {
                    let p = pending.remove(0);
                    assert(p == source[k as int]);
                    passes.push((wire_index, p));
                    proof {
                        assert(source.subrange(0, k + 1).map_values(|p: P| (wire_index, p))
                            =~= source.subrange(0, k as int).map_values(|p: P| (wire_index, p))
                            .push((wire_index, source[k as int])));
                        assert(pending@ =~= source.subrange(k + 1, m as int));
                    }
                    k = k + 1;
                }
                proof {
                    assert(source.subrange(0, m as int) =~= source);
                }
                outset_px = add_entry_outset(outset_px, entry_outset);
                if uses_time {
                    always_dirty = true;
                }
                proof {
                    if uses_time {
                        assert(next[index as int] == all[index as int]);
                        assert(any_uses_time(next));
                    }
                    if any_uses_time(next) && !uses_time {
                        let i = choose|i: int|
                            0 <= i < next.len() && (#[trigger] next[i] matches EntryResolution::Resolved {
                                uses_time,
                                ..
                            } && uses_time);
                        assert(i < index);
                        assert(prefix[i] == next[i]);
                    }
                    if any_uses_time(prefix) {
                        let i = choose|i: int|
                            0 <= i < prefix.len() && (#[trigger] prefix[i] matches EntryResolution::Resolved {
                                uses_time,
                                ..
                            } && uses_time);
                        assert(next[i] == prefix[i]);
                    }
                }
            },
            EntryResolution::Unknown { name } => {
                let message = unknown_filter_warning(name.as_str());
                let ghost before = warnings@;
                warnings.push(SkipWarning { kind: SkipKind::Unknown, value: name, message });
                proof {
                    assert(warnings@.map_values(|w: SkipWarning| skip_view(w)) =~= before.map_values(
                        |w: SkipWarning| skip_view(w),
                    ).push(skip_view(warnings@.last())));
                }
                proof {
                    if any_uses_time(next) {
                        let i = choose|i: int|
                            0 <= i < next.len() && (#[trigger] next[i] matches EntryResolution::Resolved {
                                uses_time,
                                ..
                            } && uses_time);
                        assert(i < index);
                        assert(prefix[i] == next[i]);
                    }
                    if any_uses_time(prefix) {
                        let i = choose|i: int|
                            0 <= i < prefix.len() && (#[trigger] prefix[i] matches EntryResolution::Resolved {
                                uses_time,
                                ..
                            } && uses_time);
                        assert(next[i] == prefix[i]);
                    }
                }
            },
            EntryResolution::Rejected { params, message } => {
                let ghost before = warnings@;
                warnings.push(SkipWarning { kind: SkipKind::Params, value: params, message });
                proof {
                    assert(warnings@.map_values(|w: SkipWarning| skip_view(w)) =~= before.map_values(
                        |w: SkipWarning| skip_view(w),
                    ).push(skip_view(warnings@.last())));
                }
                proof {
                    if any_uses_time(next) {
                        let i = choose|i: int|
                            0 <= i < next.len() && (#[trigger] next[i] matches EntryResolution::Resolved {
                                uses_time,
                                ..
                            } && uses_time);
                        assert(i < index);
                        assert(prefix[i] == next[i]);
                    }
                    if any_uses_time(prefix) {
                        let i = choose|i: int|
                            0 <= i < prefix.len() && (#[trigger] prefix[i] matches EntryResolution::Resolved {
                                uses_time,
                                ..
                            } && uses_time);
                        assert(next[i] == prefix[i]);
                    }
                }
            },
        }
        proof {
            assert(rest@ =~= all.subrange(index + 1, n as int));
        }
        index = index + 1;
    }
    proof {
        assert(all.subrange(0, n as int) =~= all);
    }
    ChainAssembly { passes, outset_px, always_dirty, warnings }
}

/// The warning text for an unknown filter name.
pub open spec fn unknown_filter_message(name: Seq<char>) -> Seq<char> {
    "unknown filter "@ + debug_str(name) + " — entry skipped"@
}

/// The warning text for an unknown filter name (see
/// [`unknown_filter_message`]).
pub fn unknown_filter_warning(name: &str) -> (r: String)
    ensures
        r@ == unknown_filter_message(name@),
{
    String::from_str("unknown filter ").concat(debug_quoted(name).as_str()).concat(" — entry skipped")
}

/// How the resolve system writes a node's resolved chain.
#[derive(Debug, Clone, Copy, PartialEq, Eq, Structural)]
pub enum ChainWrite {
    /// No valid entries and no existing chain: nothing to do.
    Nothing,
    /// No valid entries: remove the existing chain (composite-only dirt).
    Remove,
    /// Identical output: keep the chain and its version quiet, only record
    /// the current scale.
    KeepScale,
    /// A real change: replace the chain under `version` (composite-only
    /// dirt).
    Replace { version: u32 },
    /// A first resolve: insert the chain at version 1 (composite-only dirt).
    Insert,
}

/// Whether a node's chain must be re-resolved this frame: its input changed,
/// it was (re-)promoted, or the scale baked into its existing chain is stale.
pub fn needs_resolve(input_changed: bool, promoted_added: bool, existing_scale_stale: bool) -> (r:
    bool)
    ensures
        r == (input_changed || promoted_added || existing_scale_stale),
{
    input_changed || promoted_added || existing_scale_stale
}

/// Compare-before-write: with no passes, remove an existing chain (else
/// nothing); else insert a first chain, keep an identical one, or replace it
/// under its version plus one, wrapping.
pub open spec fn chain_write_spec(existing: Option<u32>, has_passes: bool, identical: bool) -> ChainWrite {
    if !has_passes {
        if existing is Some {
            ChainWrite::Remove
        } else {
            ChainWrite::Nothing
        }
    } else {
        match existing {
            None => ChainWrite::Insert,
            Some(v) => if identical {
                ChainWrite::KeepScale
            } else {
                ChainWrite::Replace { version: if v == u32::MAX { 0 } else { (v + 1) as u32 } }
            },
        }
    }
}

/// Compare-before-write: what to do with the freshly assembled chain given
/// the existing one (`Some(version)`) and whether its output is identical
/// (see [`chain_write_spec`]).
pub fn chain_write(existing: Option<u32>, has_passes: bool, identical: bool) -> (r: ChainWrite)
    ensures
        r == chain_write_spec(existing, has_passes, identical),
{
    if !has_passes {
        return match existing {
            Some(_) => ChainWrite::Remove,
            None => ChainWrite::Nothing,
        };
    }
    match existing {
        None => ChainWrite::Insert,
        Some(v) => if identical {
            ChainWrite::KeepScale
        } else {
            ChainWrite::Replace { version: v.wrapping_add(1) }
        },
    }
}

/// A node's stored resolved chain: the wire-indexed passes, the outset in
/// physical px, the dirtiness flag, the change counter and the scale factor
/// (`S`) the `Length` slots were rewritten with.
pub struct StoredChain<P, S> {
    pub passes: Vec<(u8, P)>,
    pub outset_px: u32,
    pub always_dirty: bool,
    pub version: u32,
    pub scale: S,
}

/// The stored chain's version, if there is one.
pub open spec fn stored_version<P, S>(slot: Option<StoredChain<P, S>>) -> Option<u32> {
    match slot {
        Some(c) => Some(c.version),
        None => None,
    }
}

/// The existing chain's output equals the fresh one: same passes
/// (`passes_equal`), same outset, same dirtiness.
pub open spec fn output_identical<P, S>(
    slot: Option<StoredChain<P, S>>,
    passes_equal: bool,
    outset_px: u32,
    always_dirty: bool,
) -> bool {
    match slot {
        Some(c) => passes_equal && c.outset_px == outset_px && c.always_dirty == always_dirty,
        None => false,
    }
}

/// Write a freshly assembled chain into a node's slot, compare-before-write.
/// `passes_equal` says whether the existing chain's passes equal `passes`.
/// With no passes, an existing chain is removed; a first resolve inserts at
/// version 1; identical output keeps the chain and its version and only
/// records `scale`; a real change replaces the chain under the wrapped-up
/// version. Every insert, replace and removal pushes `entity` onto
/// `composite_only` (and nothing else ever does).
pub fn write_chain<P, S, E>(
    slot: &mut Option<StoredChain<P, S>>,
    passes: Vec<(u8, P)>,
    outset_px: u32,
    always_dirty: bool,
    passes_equal: bool,
    scale: S,
    entity: E,
    composite_only: &mut Vec<E>,
) -> (r: ChainWrite)
    ensures
        r == chain_write_spec(
            stored_version(*old(slot)),
            passes@.len() > 0,
            output_identical(*old(slot), passes_equal, outset_px, always_dirty),
        ),
        match r {
            ChainWrite::Nothing => *final(slot) == *old(slot),
            ChainWrite::Remove => *final(slot) is None,
            ChainWrite::KeepScale => *final(slot) matches Some(c) && *old(slot) matches Some(o)
                && c.passes@ == o.passes@ && c.outset_px == o.outset_px && c.always_dirty
                == o.always_dirty && c.version == o.version && c.scale == scale,
            ChainWrite::Replace { version } => *final(slot) matches Some(c) && c.passes@ == passes@
                && c.outset_px == outset_px && c.always_dirty == always_dirty && c.version
                == version && c.scale == scale,
            ChainWrite::Insert => *final(slot) matches Some(c) && c.passes@ == passes@
                && c.outset_px == outset_px && c.always_dirty == always_dirty && c.version == 1
                && c.scale == scale,
        },
        final(composite_only)@ == if r is Nothing || r is KeepScale {
            old(composite_only)@
        } else {
            old(composite_only)@.push(entity)
        },
{
    let existing = match slot {
        Some(c) => Some(c.version),
        None => None,
    };
    let identical = match slot {
        Some(c) => passes_equal && c.outset_px == outset_px && c.always_dirty == always_dirty,
        None => false,
    };
    let has_passes = passes.len() > 0;
    let w = chain_write(existing, has_passes, identical);
    match w {
        ChainWrite::Nothing => {},
        ChainWrite::Remove => {
            *slot = None;
            composite_only.push(entity);
        },
        ChainWrite::KeepScale => {
            if let Some(c) = slot {
                c.scale = scale;
            }
        },
        ChainWrite::Replace { version } => {
            *slot = Some(StoredChain { passes, outset_px, always_dirty, version, scale });
            composite_only.push(entity);
        },
        ChainWrite::Insert => {
            *slot = Some(StoredChain { passes, outset_px, always_dirty, version: 1, scale });
            composite_only.push(entity);
        },
    }
    w
}

/// Every decoded chain's entry index is stamped exactly: the decode cap
/// keeps chains within the `u8` wire index, so saturation is only ever
/// reached by chains built in code.
pub proof fn lemma_decoded_indices_fit(
    value: JsonValue,
    chain: Seq<FilterUse>,
    warning: Option<WireWarning>,
)
    requires
        chain_decodes(value, chain, warning),
    ensures
        chain.len() <= MAX_CHAIN_LEN,
        forall|i: int| 0 <= i < chain.len() ==> #[trigger] stamped(i) == i,
{
}

} // verus!
