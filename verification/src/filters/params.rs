//! Param packing: where a filter's named params land in the packed `Vec4`
//! uniform array ([`ParamSlot`]), the caps guarding the packing and the chain
//! outset, and the px-only rule for `Length` params.

use vstd::prelude::*;
use vstd::string::*;

use crate::text::{debug_quoted, debug_str, decimal, push_decimal};

verus! {

/// Cap on the packed `Vec4` array per pass — the fixed-size uniform array the
/// filter shaders declare.
pub const MAX_FILTER_PARAM_VECS: usize = 8;

/// Defensive cap on a chain's summed outset, physical px per side.
pub const MAX_FILTER_OUTSET_PX: u32 = 1024;

/// How a packed param interpolates and whether it is rewritten to physical
/// px before upload.
#[derive(Debug, Clone, Copy, PartialEq, Eq, Structural)]
pub enum ValueKind {
    Scalar,
    Length,
    Angle,
    Color,
}

/// Where one named parameter lands in a pass's packed `Vec4` array: `vec` is
/// the `Vec4` index, `comp` the starting component within it, `len` how many
/// consecutive components the param spans.
#[derive(Debug, Clone, Copy)]
pub struct ParamSlot {
    pub name: &'static str,
    pub kind: ValueKind,
    pub vec: usize,
    pub comp: usize,
    pub len: usize,
}

/// The no-straddle rule: a slot spans at least one component and never
/// crosses a `Vec4` boundary.
pub open spec fn slot_fits(slot: ParamSlot) -> bool {
    slot.len >= 1 && slot.comp + slot.len <= 4
}

/// Two slots share no component.
pub open spec fn slots_disjoint(a: ParamSlot, b: ParamSlot) -> bool {
    a.vec != b.vec || a.comp + a.len <= b.comp || b.comp + b.len <= a.comp
}

/// A packing layout for `vecs` packed `Vec4`s: every slot obeys the
/// no-straddle rule and lies inside the array, no two slots overlap, and the
/// names are distinct.
pub open spec fn layout_well_formed(layout: Seq<ParamSlot>, vecs: nat) -> bool {
    &&& forall|i: int| 0 <= i < layout.len() ==> #[trigger] slot_fits(layout[i])
    &&& forall|i: int| 0 <= i < layout.len() ==> #[trigger] layout[i].vec < vecs
    &&& forall|i: int, j: int|
        0 <= i < layout.len() && 0 <= j < layout.len() && i != j ==> slots_disjoint(
            #[trigger] layout[i],
            #[trigger] layout[j],
        ) && layout[i].name@ != layout[j].name@
}

/// What tells two slot names apart at a glance: the length, the first and
/// the last character.
pub open spec fn name_key(n: Seq<char>) -> (nat, char, char) {
    if n.len() == 0 {
        (0, ' ', ' ')
    } else {
        (n.len(), n[0], n[n.len() - 1])
    }
}

/// Slot names whose keys ([`name_key`]) differ pairwise are pairwise
/// distinct.
pub proof fn lemma_layout_names_distinct(s: Seq<ParamSlot>)
    requires
        forall|i: int, j: int|
            0 <= i < s.len() && 0 <= j < s.len() && i != j ==> name_key(#[trigger] s[i].name@)
                != name_key(#[trigger] s[j].name@),
    ensures
        forall|i: int, j: int|
            0 <= i < s.len() && 0 <= j < s.len() && i != j ==> #[trigger] s[i].name@
                != #[trigger] s[j].name@,
{
}

/// The slot has exactly these fields.
pub open spec fn slot_is(
    slot: ParamSlot,
    name: Seq<char>,
    kind: ValueKind,
    vec: usize,
    comp: usize,
    len: usize,
) -> bool {
    slot.name@ == name && slot.kind == kind && slot.vec == vec && slot.comp == comp && slot.len
        == len
}

/// The end of a slot's component range, clamped to the `Vec4`.
pub open spec fn slot_end(slot: ParamSlot) -> int {
    if slot.comp + slot.len <= 4 {
        slot.comp + slot.len
    } else {
        4
    }
}

/// The component range `start..end` a slot covers inside its `Vec4`, clamped
/// at component 4 so a bad (straddling) custom layout can never index past
/// the vector — the range every layout-aware consumer (interpolation, the
/// physical-px rewrite) walks.
pub fn slot_components(slot: &ParamSlot) -> (r: (usize, usize))
    ensures
        r.0 == slot.comp,
        r.1 == slot_end(*slot),
        slot_fits(*slot) ==> r.1 == slot.comp + slot.len,
{
    if slot.comp >= 4 {
        (slot.comp, 4)
    } else if slot.len >= 4 - slot.comp {
        (slot.comp, 4)
    } else {
        (slot.comp, slot.comp + slot.len)
    }
}

/// The message for a pass packing `vecs` param vec4s over the cap.
pub open spec fn param_cap_message(name: Seq<char>, vecs: nat) -> Seq<char> {
    "filter "@ + debug_str(name) + " packs "@ + decimal(vecs) + " param vec4s, over the cap of 8"@
}

/// Reject a pass packing more than [`MAX_FILTER_PARAM_VECS`] `Vec4`s.
pub fn check_param_cap(name: &str, vecs: usize) -> (r: Result<(), String>)
    ensures
        r is Ok <==> vecs <= MAX_FILTER_PARAM_VECS,
        r matches Err(msg) ==> msg@ == param_cap_message(name@, vecs as nat),
{
    if vecs > MAX_FILTER_PARAM_VECS {
        let mut msg = String::from_str("filter ");
        let quoted = debug_quoted(name);
        msg.append(quoted.as_str());
        msg.append(" packs ");
        push_decimal(&mut msg, vecs);
        msg.append(" param vec4s, over the cap of 8");
        proof {
            assert(msg@ =~= param_cap_message(name@, vecs as nat));
        }
        return Err(msg);
    }
    Ok(())
}

/// The unit a `Length` filter param was given in. Only `Px` has a fixed
/// logical size for a filter param; every other unit is rejected.
#[derive(Debug, Clone, Copy, PartialEq, Eq, Structural)]
pub enum LengthUnit {
    Px,
    Auto,
    Percent,
    Vw,
    Vh,
    VMin,
    VMax,
}

/// The name a rejected unit is reported under.
pub open spec fn unit_name(unit: LengthUnit) -> Seq<char> {
    match unit {
        LengthUnit::Px => "px"@,
        LengthUnit::Auto => "auto"@,
        LengthUnit::Percent => "%"@,
        LengthUnit::Vw => "vw"@,
        LengthUnit::Vh => "vh"@,
        LengthUnit::VMin => "vmin"@,
        LengthUnit::VMax => "vmax"@,
    }
}

fn unit_str(unit: LengthUnit) -> (r: &'static str)
    ensures
        r@ == unit_name(unit),
{
    match unit {
        LengthUnit::Px => "px",
        LengthUnit::Auto => "auto",
        LengthUnit::Percent => "%",
        LengthUnit::Vw => "vw",
        LengthUnit::Vh => "vh",
        LengthUnit::VMin => "vmin",
        LengthUnit::VMax => "vmax",
    }
}

/// The message naming a non-px unit given for a `Length` filter param.
pub open spec fn px_only_message(filter: Seq<char>, param: Seq<char>, unit: LengthUnit) -> Seq<char> {
    "filter "@ + debug_str(filter) + " "@ + param
        + " must be in px (a bare number or \"px\"), got a \""@ + unit_name(unit)
        + "\" length"@
}

/// The px-only rule of `Length` filter params: `Px` is accepted, any other
/// unit is rejected with a message naming it (instead of silently resolving
/// to `0`).
pub fn require_px(filter: &str, param: &str, unit: LengthUnit) -> (r: Result<(), String>)
    ensures
        r is Ok <==> unit == LengthUnit::Px,
        r matches Err(msg) ==> msg@ == px_only_message(filter@, param@, unit),
{
    if unit == LengthUnit::Px {
        return Ok(());
    }
    let mut msg = String::from_str("filter ");
    let quoted = debug_quoted(filter);
    msg.append(quoted.as_str());
    msg.append(" ");
    msg.append(param);
    msg.append(" must be in px (a bare number or \"px\"), got a \"");
    msg.append(unit_str(unit));
    msg.append("\" length");
    proof {
        assert(msg@ =~= px_only_message(filter@, param@, unit));
    }
    Err(msg)
}

/// The least multiple of 16 at or above `o`.
pub open spec fn quantized(o: int) -> int {
    ((o + 15) / 16) * 16
}

/// Quantize a physical-px outset up to the next multiple of 16 so an
/// animated radius grows a layer texture in coarse steps instead of
/// reallocating every frame.
pub fn quantize_outset(o: u32) -> (r: u32)
    requires
        o <= u32::MAX - 15,
    ensures
        r == quantized(o as int),
        r % 16 == 0,
        o <= r < o + 16,
{
    let q = o / 16 + if o % 16 == 0 { 0 } else { 1 };
    let r = q * 16;
    r
}

/// Add one entry's physical-px outset to a chain's running total, saturating
/// and clamped at [`MAX_FILTER_OUTSET_PX`].
pub fn add_entry_outset(total: u32, entry_px: u32) -> (r: u32)
    ensures
        r == if total + entry_px <= MAX_FILTER_OUTSET_PX {
            total + entry_px
        } else {
            MAX_FILTER_OUTSET_PX as int
        },
{
    let sum = total.saturating_add(entry_px);
    if sum < MAX_FILTER_OUTSET_PX {
        sum
    } else {
        MAX_FILTER_OUTSET_PX
    }
}

/// A chain entry's wire index as stamped on its passes: saturating at
/// `u8::MAX`, never wrapping.
pub fn stamp_wire_index(index: usize) -> (r: u8)
    ensures
        r == if index <= 255 { index as int } else { 255 },
{
    if index <= 255 {
        index as u8
    } else {
        255
    }
}

} // verus!
