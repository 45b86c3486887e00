//! Whole-value `filter` transitions: how a retarget interpolates between two
//! wire chains.

use vstd::prelude::*;
use vstd::string::*;

use super::params::{stamp_wire_index, ParamSlot};
use super::resolve::stamped;
use super::wire::{FilterChain, FilterUse};

verus! {

/// How a `transition: { filter }` interpolates between two wire chains:
///
/// - `Matched` — same names, same order, same length: the resolved pass lists
///   align position-wise and packed params lerp pairwise.
/// - `Extended` — the chains differ in length, the shorter's names are a
///   prefix of the longer's, and every entry of both chains has an identity
///   invocation: the shorter side is padded at the end with identity passes.
/// - `Discrete` — anything else: the chain swaps wholesale at eased progress
///   `0.5`.
#[derive(Debug, Clone, Copy, PartialEq, Eq, Structural)]
pub enum FilterStrategy {
    Matched,
    Extended,
    Discrete,
}

/// The first `n` entries of both chains carry the same names.
pub open spec fn names_agree(a: Seq<FilterUse>, b: Seq<FilterUse>, n: int) -> bool {
    forall|i: int| 0 <= i < n ==> #[trigger] a[i].name@ == #[trigger] b[i].name@
}

/// Every entry has an identity invocation.
pub open spec fn all_true(flags: Seq<bool>) -> bool {
    forall|i: int| 0 <= i < flags.len() ==> #[trigger] flags[i]
}

/// The shorter of two lengths.
pub open spec fn min_len(a: nat, b: nat) -> nat {
    if a <= b {
        a
    } else {
        b
    }
}

/// The strategy for a transition from `from` to `to`; `from_identity[i]`
/// says whether `from`'s entry `i` has an identity invocation (all `false`
/// when no registry is at hand), likewise `to_identity`.
pub open spec fn strategy(
    from: Seq<FilterUse>,
    to: Seq<FilterUse>,
    from_identity: Seq<bool>,
    to_identity: Seq<bool>,
) -> FilterStrategy {
    if from.len() == to.len() && names_agree(from, to, from.len() as int) {
        FilterStrategy::Matched
    } else if names_agree(from, to, min_len(from.len(), to.len()) as int) && all_true(
        from_identity,
    ) && all_true(to_identity) {
        FilterStrategy::Extended
    } else {
        FilterStrategy::Discrete
    }
}

/// Classify how a filter transition from wire chain `from` to `to` should
/// interpolate (see [`FilterStrategy`]).
pub fn classify_filter_transition(
    from: &FilterChain,
    to: &FilterChain,
    from_identity: &[bool],
    to_identity: &[bool],
) -> (r: FilterStrategy)
    requires
        from_identity@.len() == from.0@.len(),
        to_identity@.len() == to.0@.len(),
    ensures
        r == strategy(from.0@, to.0@, from_identity@, to_identity@),
{
    let n = if from.0.len() <= to.0.len() {
        from.0.len()
    } else {
        to.0.len()
    };
    let mut i: usize = 0;
    while i < n
        invariant
            n == min_len(from.0@.len(), to.0@.len()),
            0 <= i <= n,
            names_agree(from.0@, to.0@, i as int),
        decreases n - i,
    {
        if from.0[i].name != to.0[i].name {
            assert(!names_agree(from.0@, to.0@, n as int));
            return FilterStrategy::Discrete;
        }
        i = i + 1;
    }
    if from.0.len() == to.0.len() {
        return FilterStrategy::Matched;
    }
    if all_identity(from_identity) && all_identity(to_identity) {
        FilterStrategy::Extended
    } else {
        FilterStrategy::Discrete
    }
}

/// Whether every flag is set.
fn all_identity(flags: &[bool]) -> (r: bool)
    ensures
        r == all_true(flags@),
{
    let mut i: usize = 0;
    while i < flags.len()
        invariant
            0 <= i <= flags@.len(),
            forall|j: int| 0 <= j < i ==> flags@[j],
        decreases flags@.len() - i,
    {
        if !flags[i] {
            return false;
        }
        i = i + 1;
    }
    true
}

/// Which pass list of an `Extended` ease is padded with identity passes.
#[derive(Debug, Clone, Copy, PartialEq, Eq, Structural)]
pub enum PadSide {
    /// The chain grows: the start side pads, so added filters fade in.
    Start,
    /// The chain shrinks: the target side pads, so removed trailing filters
    /// fade out to identity (completion still snaps to the unpadded target).
    Target,
}

/// The padding of an `Extended` ease: the side padded, and the longer
/// chain's entries `first..end` whose identity invocations pad it (their
/// wire indices continue at `first`).
#[derive(Debug, Clone, Copy, PartialEq, Eq, Structural)]
pub struct Padding {
    pub side: PadSide,
    pub first: usize,
    pub end: usize,
}

/// How an ease runs, before its pass lists are checked for alignment.
#[derive(Debug, Clone, Copy, PartialEq, Eq, Structural)]
pub enum EaseShape {
    /// Wholesale swap at eased progress `0.5`.
    Discrete,
    /// Pairwise interpolation, after padding one side when given.
    Aligned { pad: Option<Padding> },
}

/// The ease shape for a strategy between chains of `from_len` and `to_len`
/// entries. An extension needs the identity invocations resolved
/// (`resolver_at_hand`); without them it swaps discretely.
pub open spec fn ease_shape_spec(
    strategy: FilterStrategy,
    from_len: usize,
    to_len: usize,
    resolver_at_hand: bool,
) -> EaseShape {
    match strategy {
        FilterStrategy::Discrete => EaseShape::Discrete,
        FilterStrategy::Matched => EaseShape::Aligned { pad: None },
        FilterStrategy::Extended => if !resolver_at_hand || from_len == to_len {
            EaseShape::Discrete
        } else if from_len < to_len {
            EaseShape::Aligned {
                pad: Some(Padding { side: PadSide::Start, first: from_len, end: to_len }),
            }
        } else {
            EaseShape::Aligned {
                pad: Some(Padding { side: PadSide::Target, first: to_len, end: from_len }),
            }
        },
    }
}

/// Plan the shape of a filter ease (see [`ease_shape_spec`]).
pub fn ease_shape(
    strategy: FilterStrategy,
    from_len: usize,
    to_len: usize,
    resolver_at_hand: bool,
) -> (r: EaseShape)
    ensures
        r == ease_shape_spec(strategy, from_len, to_len, resolver_at_hand),
{
    match strategy {
        FilterStrategy::Discrete => EaseShape::Discrete,
        FilterStrategy::Matched => EaseShape::Aligned { pad: None },
        FilterStrategy::Extended => {
            if !resolver_at_hand || from_len == to_len {
                EaseShape::Discrete
            } else if from_len < to_len {
                EaseShape::Aligned {
                    pad: Some(Padding { side: PadSide::Start, first: from_len, end: to_len }),
                }
            } else {
                EaseShape::Aligned {
                    pad: Some(Padding { side: PadSide::Target, first: to_len, end: from_len }),
                }
            }
        },
    }
}

/// What alignment compares of a resolved pass: its shader, how many param
/// vec4s it packs, and its layout.
pub struct PassShape {
    pub shader: u64,
    pub param_vecs: usize,
    pub layout: Vec<ParamSlot>,
}

/// Two slots are the same slot.
pub open spec fn slot_eq(a: ParamSlot, b: ParamSlot) -> bool {
    a.name@ == b.name@ && a.kind == b.kind && a.vec == b.vec && a.comp == b.comp && a.len == b.len
}

/// Two layouts hold the same slots in the same order.
pub open spec fn layout_eq(a: Seq<ParamSlot>, b: Seq<ParamSlot>) -> bool {
    a.len() == b.len() && forall|i: int| 0 <= i < a.len() ==> slot_eq(#[trigger] a[i], b[i])
}

/// Two passes can be interpolated pairwise.
pub open spec fn pass_pair_aligns(s: PassShape, t: PassShape) -> bool {
    s.param_vecs == t.param_vecs && layout_eq(s.layout@, t.layout@) && s.shader == t.shader
}

/// The pass lists align: same length, and every pair shares shader, param
/// count and layout (so a mid-ease frame never renders lerped params
/// through the wrong pass).
pub open spec fn passes_align_spec(start: Seq<PassShape>, target: Seq<PassShape>) -> bool {
    start.len() == target.len() && forall|i: int|
        0 <= i < start.len() ==> pass_pair_aligns(#[trigger] start[i], target[i])
}

fn str_eq(a: &str, b: &str) -> (r: bool)
    ensures
        r == (a@ == b@),
{
    let n = a.unicode_len();
    if n != b.unicode_len() {
        return false;
    }
    let mut i: usize = 0;
    while i < n
        invariant
            n == a@.len(),
            n == b@.len(),
            0 <= i <= n,
            forall|j: int| 0 <= j < i ==> a@[j] == b@[j],
        decreases n - i,
    {
        if a.get_char(i) != b.get_char(i) {
            return false;
        }
        i = i + 1;
    }
    assert(a@ =~= b@);
    true
}

fn same_slot(a: &ParamSlot, b: &ParamSlot) -> (r: bool)
    ensures
        r == slot_eq(*a, *b),
{
    a.kind == b.kind && a.vec == b.vec && a.comp == b.comp && a.len == b.len && str_eq(
        a.name,
        b.name,
    )
}

fn same_layout(a: &Vec<ParamSlot>, b: &Vec<ParamSlot>) -> (r: bool)
    ensures
        r == layout_eq(a@, b@),
{
    if a.len() != b.len() {
        return false;
    }
    let mut i: usize = 0;
    while i < a.len()
        invariant
            a@.len() == b@.len(),
            0 <= i <= a@.len(),
            forall|j: int| 0 <= j < i ==> slot_eq(#[trigger] a@[j], b@[j]),
        decreases a@.len() - i,
    {
        if !same_slot(&a[i], &b[i]) {
            return false;
        }
        i = i + 1;
    }
    true
}

/// Whether two pass lists align pairwise (see [`passes_align_spec`]): an
/// aligned ease interpolates them, anything else swaps discretely onto the
/// unpadded target.
pub fn passes_align(start: &Vec<PassShape>, target: &Vec<PassShape>) -> (r: bool)
    ensures
        r == passes_align_spec(start@, target@),
{
    if start.len() != target.len() {
        return false;
    }
    let mut i: usize = 0;
    while i < start.len()
        invariant
            start@.len() == target@.len(),
            0 <= i <= start@.len(),
            forall|j: int| 0 <= j < i ==> pass_pair_aligns(#[trigger] start@[j], target@[j]),
        decreases start@.len() - i,
    {
        let s = &start[i];
        let t = &target[i];
        if !(s.param_vecs == t.param_vecs && same_layout(&s.layout, &t.layout) && s.shader
            == t.shader) {
            return false;
        }
        i = i + 1;
    }
    true
}

/// A resolved pass (`P`) with the shape alignment compares.
pub struct ShapedPass<P> {
    pub shape: PassShape,
    pub pass: P,
}

/// The shapes of a pass list.
pub open spec fn shapes<P>(s: Seq<ShapedPass<P>>) -> Seq<PassShape> {
    s.map_values(|p: ShapedPass<P>| p.shape)
}

/// The prepared interpolation of one filter transition.
pub enum FilterEase<P> {
    /// Position-wise aligned pass lists: `start` lerps pairwise toward
    /// `target` followed by `target_pad` (the identity passes of removed
    /// trailing filters, fading out); completion settles on `target`, the
    /// unpadded resolver output.
    Aligned {
        start: Vec<ShapedPass<P>>,
        target: Vec<ShapedPass<P>>,
        target_pad: Vec<ShapedPass<P>>,
    },
    /// Wholesale swap at eased progress `0.5`.
    Discrete { start: Vec<ShapedPass<P>>, target: Vec<ShapedPass<P>> },
}

impl<P> FilterEase<P> {
    /// The completion value: the unpadded target pass list.
    pub open spec fn settle_view(&self) -> Seq<ShapedPass<P>> {
        match self {
            FilterEase::Aligned { target, .. } => target@,
            FilterEase::Discrete { target, .. } => target@,
        }
    }

    /// The completion value: the resolver's own output for the target chain,
    /// never a padded list.
    pub fn settle(&self) -> (r: &Vec<ShapedPass<P>>)
        ensures
            r@ == self.settle_view(),
    {
        match self {
            FilterEase::Aligned { target, .. } => target,
            FilterEase::Discrete { target, .. } => target,
        }
    }
}

/// `r` interpolates `start` toward `target` followed by `target_pad` when
/// those align pairwise, else swaps discretely from `start` onto `target`.
pub open spec fn aligned_or_discrete_spec<P>(
    r: FilterEase<P>,
    start: Seq<ShapedPass<P>>,
    target: Seq<ShapedPass<P>>,
    target_pad: Seq<ShapedPass<P>>,
) -> bool {
    if passes_align_spec(shapes(start), shapes(target + target_pad)) {
        r matches FilterEase::Aligned { start: s, target: t, target_pad: tp } && s@ == start
            && t@ == target && tp@ == target_pad
    } else {
        r matches FilterEase::Discrete { start: s, target: t } && s@ == start && t@ == target
    }
}

/// The planned ease for a retarget: by [`ease_shape_spec`] (an extension
/// needs its identity padding, `pad`), a discrete swap, or an aligned ease
/// after padding the start side (growing) or the target side (shrinking),
/// falling back to a discrete swap when the lists do not align.
pub open spec fn plan_spec<P>(
    r: FilterEase<P>,
    strategy: FilterStrategy,
    from_len: usize,
    to_len: usize,
    start: Seq<ShapedPass<P>>,
    target: Seq<ShapedPass<P>>,
    pad: Option<Seq<ShapedPass<P>>>,
) -> bool {
    match ease_shape_spec(strategy, from_len, to_len, pad is Some) {
        EaseShape::Discrete => r matches FilterEase::Discrete { start: s, target: t } && s@ == start
            && t@ == target,
        EaseShape::Aligned { pad: None } => aligned_or_discrete_spec(r, start, target, seq![]),
        EaseShape::Aligned { pad: Some(padding) } => match padding.side {
            PadSide::Start => aligned_or_discrete_spec(r, start + pad.unwrap(), target, seq![]),
            PadSide::Target => aligned_or_discrete_spec(r, start, target, pad.unwrap()),
        },
    }
}

/// Whether `start` aligns pairwise with `target` followed by `target_pad`.
fn shaped_align<P>(
    start: &Vec<ShapedPass<P>>,
    target: &Vec<ShapedPass<P>>,
    target_pad: &Vec<ShapedPass<P>>,
) -> (r: bool)
    ensures
        r == passes_align_spec(shapes(start@), shapes(target@ + target_pad@)),
{
    let ghost joined = target@ + target_pad@;
    if start.len() < target.len() || start.len() - target.len() != target_pad.len() {
        return false;
    }
    let n = start.len();
    let mut i: usize = 0;
    while i < n
        invariant
            n == start@.len(),
            n == joined.len(),
            joined == target@ + target_pad@,
            0 <= i <= n,
            forall|j: int|
                0 <= j < i ==> pass_pair_aligns(#[trigger] start@[j].shape, joined[j].shape),
        decreases n - i,
    {
        let s = &start[i].shape;
        let t = if i < target.len() {
            &target[i].shape
        } else {
            &target_pad[i - target.len()].shape
        };
        assert(t == joined[i as int].shape);
        if !(s.param_vecs == t.param_vecs && same_layout(&s.layout, &t.layout) && s.shader
            == t.shader) {
            proof {
                assert(shapes(start@)[i as int] == start@[i as int].shape);
                assert(shapes(joined)[i as int] == joined[i as int].shape);
            }
            return false;
        }
        i = i + 1;
    }
    proof {
        assert forall|j: int| 0 <= j < shapes(start@).len() implies pass_pair_aligns(
            #[trigger] shapes(start@)[j],
            shapes(joined)[j],
        ) by {
            assert(pass_pair_aligns(start@[j].shape, joined[j].shape));
        }
    }
    true
}

fn aligned_or_discrete<P>(
    start: Vec<ShapedPass<P>>,
    target: Vec<ShapedPass<P>>,
    target_pad: Vec<ShapedPass<P>>,
) -> (r: FilterEase<P>)
    ensures
        aligned_or_discrete_spec(r, start@, target@, target_pad@),
{
    if shaped_align(&start, &target, &target_pad) {
        FilterEase::Aligned { start, target, target_pad }
    } else {
        FilterEase::Discrete { start, target }
    }
}

/// Plan the interpolation for a filter retarget (see [`plan_spec`]).
/// `strategy` classifies the wire chains of `from_len` and `to_len` entries;
/// `start` is the transition's current pass list, `target` the resolver's
/// fresh output; `pad` holds the identity passes of the longer chain's
/// trailing entries, `None` when they could not be had. Whatever the plan,
/// it settles on `target`.
pub fn plan_filter_ease<P>(
    strategy: FilterStrategy,
    from_len: usize,
    to_len: usize,
    start: Vec<ShapedPass<P>>,
    target: Vec<ShapedPass<P>>,
    pad: Option<Vec<ShapedPass<P>>>,
) -> (r: FilterEase<P>)
    ensures
        plan_spec(
            r,
            strategy,
            from_len,
            to_len,
            start@,
            target@,
            match pad {
                Some(v) => Some(v@),
                None => None,
            },
        ),
        r.settle_view() == target@,
{
    let shape = ease_shape(strategy, from_len, to_len, pad.is_some());
    match shape {
        EaseShape::Discrete => FilterEase::Discrete { start, target },
        EaseShape::Aligned { pad: None } => aligned_or_discrete(start, target, Vec::new()),
        EaseShape::Aligned { pad: Some(padding) } => {
            let extra = match pad {
                Some(v) => v,
                None => Vec::new(),
            };
            match padding.side {
                PadSide::Start => {
                    let mut start = start;
                    let mut extra = extra;
                    start.append(&mut extra);
                    aligned_or_discrete(start, target, Vec::new())
                },
                PadSide::Target => aligned_or_discrete(start, target, extra),
            }
        },
    }
}

/// The identity passes padding an extension: each trailing entry's
/// resolved identity passes in order, stamped with wire index `offset + i`;
/// `None` when some entry had none (`resolved[i]` is `None`).
pub open spec fn identity_pad<P>(resolved: Seq<Option<Vec<P>>>, offset: int) -> Option<
    Seq<(u8, P)>,
>
    decreases resolved.len(),
{
    if resolved.len() == 0 {
        Some(seq![])
    } else {
        match (identity_pad(resolved.drop_last(), offset), resolved.last()) {
            (Some(prev), Some(ps)) => Some(
                prev + ps@.map_values(|p: P| (stamped(offset + resolved.len() - 1), p)),
            ),
            _ => None,
        }
    }
}

/// Build the identity padding of an extension from each trailing entry's
/// identity resolve (`None`: the name is not registered, has no identity,
/// or rejected its identity params); see [`identity_pad`]. Any `None` makes
/// the whole padding `None`, and the ease falls back to a discrete swap.
pub fn identity_passes<P>(resolved: Vec<Option<Vec<P>>>, offset: usize) -> (r: Option<Vec<(u8, P)>>)
    ensures
        match (r, identity_pad(resolved@, offset as int)) {
            (Some(v), Some(s)) => v@ == s,
            (None, None) => true,
            _ => false,
        },
{
    let ghost all = resolved@;
    let mut rest = resolved;
    let mut out: Vec<(u8, P)> = Vec::new();
    let n = rest.len();
    let mut i: usize = 0;
    while i < n
        invariant
            n == all.len(),
            all == resolved@,
            0 <= i <= n,
            rest@ == all.subrange(i as int, n as int),
            identity_pad(all.subrange(0, i as int), offset as int) == Some(out@),
        decreases n - i,
    {
        let ghost prefix = all.subrange(0, i as int);
        let ghost next = all.subrange(0, i + 1);
        assert(next.drop_last() =~= prefix);
        let entry = rest.remove(0);
        assert(entry == all[i as int]);
        match entry {
            None => {
                proof {
                    lemma_identity_pad_none(all, offset as int, i as int);
                    assert(identity_pad(all, offset as int) is None);
                }
                return None;
            },
            Some(passes) => {
                let ghost before = out@;
                let ghost source = passes@;
                let wire_index = if offset <= 255 && i <= 255 - offset {
                    stamp_wire_index(offset + i)
                } else {
                    255
                };
                let mut pending = passes;
                let m = pending.len();
                let mut k: usize = 0;
                while k < m
                    invariant
                        m == source.len(),
                        0 <= k <= m,
                        pending@ == source.subrange(k as int, m as int),
                        wire_index == stamped(offset + i),
                        out@ == before + source.subrange(0, k as int).map_values(
                            |p: P| (wire_index, p),
                        ),
                    decreases m - k,
                {
                    let p = pending.remove(0);
                    assert(p == source[k as int]);
                    out.push((wire_index, p));
                    proof {
                        assert(source.subrange(0, k + 1).map_values(|p: P| (wire_index, p))
                            =~= source.subrange(0, k as int).map_values(|p: P| (wire_index, p))
                            .push((wire_index, source[k as int])));
                        assert(pending@ =~= source.subrange(k + 1, m as int));
                    }
                    k = k + 1;
                }
                proof {
                    assert(source.subrange(0, m as int) =~= source);
                }
            },
        }
        proof {
            assert(rest@ =~= all.subrange(i + 1, n as int));
        }
        i = i + 1;
    }
    proof {
        assert(all.subrange(0, n as int) =~= all);
    }
    Some(out)
}

/// A missing identity at entry `i` leaves the whole padding `None`.
proof fn lemma_identity_pad_none<P>(all: Seq<Option<Vec<P>>>, offset: int, i: int)
    requires
        0 <= i < all.len(),
        all[i] is None,
    ensures
        identity_pad(all, offset) is None,
    decreases all.len(),
{
    if i < all.len() - 1 {
        assert(all.drop_last()[i] == all[i]);
        lemma_identity_pad_none(all.drop_last(), offset, i);
    }
}

/// Swapping the endpoints of a transition keeps its strategy: a chain that
/// grows by an identity-padded extension also shrinks back by one, and a
/// matched pair stays matched.
pub proof fn lemma_strategy_symmetric(
    from: Seq<FilterUse>,
    to: Seq<FilterUse>,
    from_identity: Seq<bool>,
    to_identity: Seq<bool>,
)
    ensures
        strategy(from, to, from_identity, to_identity) == strategy(
            to,
            from,
            to_identity,
            from_identity,
        ),
{
    assert(names_agree(from, to, min_len(from.len(), to.len()) as int) == names_agree(
        to,
        from,
        min_len(to.len(), from.len()) as int,
    ));
    if from.len() == to.len() {
        assert(names_agree(from, to, from.len() as int) == names_agree(to, from, to.len() as int));
    }
}

} // verus!
