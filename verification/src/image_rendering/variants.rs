//! The derived-variant cache of `imageRendering`: one variant asset per
//! `(source, mode)` in use, shared by every node asking for the same pair,
//! refcounted by the nodes bound to it and dropped with its last user.
//! Assets and entities are identified by `u64` ids.

use vstd::prelude::*;

use super::{plan, plan_spec, ImageRendering, PlanRefusal, SamplerModel, SourceImage};

verus! {

/// A derived variant's identity: its source asset and the mode it renders.
#[derive(Debug, Clone, Copy, PartialEq, Eq, Structural)]
pub struct VariantKey {
    pub source: u64,
    pub mode: ImageRendering,
}

/// A derived variant asset.
#[derive(Debug, Clone, Copy)]
pub struct Variant {
    /// The variant asset's id.
    pub handle: u64,
    /// How many bound nodes use it.
    pub users: usize,
    /// The asset has been inserted under `handle` (a `trilinear` variant is
    /// reserved until its first pyramid lands; its users stay on the source).
    pub ready: bool,
    /// A pyramid build is in flight.
    pub building: bool,
    /// The source changed while a pyramid was in flight: derive again when
    /// it lands.
    pub rebuild: bool,
}

/// What a node is bound to: its source, the mode it was bound under, and the
/// variant it uses (`None` when the source is used as-is).
#[derive(Debug, Clone, Copy)]
pub struct Bound {
    pub source: u64,
    pub mode: ImageRendering,
    pub key: Option<VariantKey>,
}

/// The variant cache: the variants in use, the bound nodes, and the nodes
/// whose source has not loaded yet (retried every frame).
pub struct ImageVariants {
    variants: Vec<(VariantKey, Variant)>,
    bound: Vec<(u64, Bound)>,
    pending: Vec<u64>,
}

/// How many bound nodes use the variant `k`.
pub open spec fn users_count(bound: Seq<(u64, Bound)>, k: VariantKey) -> nat
    decreases bound.len(),
{
    if bound.len() == 0 {
        0
    } else {
        users_count(bound.drop_last(), k) + if bound.last().1.key == Some(k) {
            1nat
        } else {
            0nat
        }
    }
}

/// The index of the variant under `k`, or `-1`.
pub open spec fn key_index(variants: Seq<(VariantKey, Variant)>, k: VariantKey) -> int {
    if exists|i: int| 0 <= i < variants.len() && variants[i].0 == k {
        choose|i: int| 0 <= i < variants.len() && variants[i].0 == k
    } else {
        -1
    }
}

/// The index of the binding of `entity`, or `-1`.
pub open spec fn entity_index(bound: Seq<(u64, Bound)>, entity: u64) -> int {
    if exists|i: int| 0 <= i < bound.len() && bound[i].0 == entity {
        choose|i: int| 0 <= i < bound.len() && bound[i].0 == entity
    } else {
        -1
    }
}

/// The source a node's current image derives from: a variant asset maps back
/// to its source (so a variant of a variant is never derived), anything
/// else is its own source.
pub open spec fn source_of(variants: Seq<(VariantKey, Variant)>, current: u64) -> u64 {
    if exists|i: int| 0 <= i < variants.len() && variants[i].1.handle == current {
        variants[choose|i: int| 0 <= i < variants.len() && variants[i].1.handle == current].0.source
    } else {
        current
    }
}

/// The keys of the variants derived from `source`, in cache order.
pub open spec fn keys_with_source(variants: Seq<(VariantKey, Variant)>, source: u64) -> Seq<
    VariantKey,
>
    decreases variants.len(),
{
    if variants.len() == 0 {
        seq![]
    } else {
        let prev = keys_with_source(variants.drop_last(), source);
        if variants.last().0.source == source {
            prev.push(variants.last().0)
        } else {
            prev
        }
    }
}

/// The nodes bound to variant `k`, in binding order.
pub open spec fn entities_using(bound: Seq<(u64, Bound)>, k: VariantKey) -> Seq<u64>
    decreases bound.len(),
{
    if bound.len() == 0 {
        seq![]
    } else {
        let prev = entities_using(bound.drop_last(), k);
        if bound.last().1.key == Some(k) {
            prev.push(bound.last().0)
        } else {
            prev
        }
    }
}

/// The handle a node bound to variant `k` belongs on: the variant once it is
/// ready, the source until then.
pub open spec fn variant_target(variants: Seq<(VariantKey, Variant)>, k: VariantKey) -> u64 {
    let vi = key_index(variants, k);
    if variants[vi].1.ready {
        variants[vi].1.handle
    } else {
        k.source
    }
}

/// The bindings once `entity`'s binding is let go.
pub open spec fn released_bound(b: Seq<(u64, Bound)>, entity: u64) -> Seq<(u64, Bound)> {
    let i = entity_index(b, entity);
    if i < 0 {
        b
    } else {
        b.remove(i)
    }
}

/// The variants once `entity`'s binding is let go: its variant loses a
/// user, and goes with its last one.
pub open spec fn released_variants(
    v: Seq<(VariantKey, Variant)>,
    b: Seq<(u64, Bound)>,
    entity: u64,
) -> Seq<(VariantKey, Variant)> {
    let i = entity_index(b, entity);
    if i < 0 {
        v
    } else {
        match b[i].1.key {
            None => v,
            Some(k) => {
                let vi = key_index(v, k);
                let x = v[vi];
                if x.1.users == 1 {
                    v.remove(vi)
                } else {
                    v.update(vi, (x.0, Variant { users: (x.1.users - 1) as usize, ..x.1 }))
                }
            },
        }
    }
}

/// A binding's variant is derived from the binding's own source, in the
/// binding's own mode.
pub open spec fn bindings_consistent(b: Seq<(u64, Bound)>) -> bool {
    forall|i: int|
        0 <= i < b.len() && (#[trigger] b[i]).1.key is Some ==> b[i].1.key.unwrap().source
            == b[i].1.source && b[i].1.key.unwrap().mode == b[i].1.mode
}

/// What a node is bound to, once `begin_bind` has looked at it.
#[derive(Debug, Clone, Copy, PartialEq, Eq)]
pub enum BindStart {
    /// Nothing changed for the cache; the node belongs on `expected` (`None`:
    /// leave it as it is).
    Settled { expected: Option<u64> },
    /// The node's old binding was let go; bind it afresh to `source`.
    Rebind { source: u64 },
}

/// The outcome of attaching a node to a planned binding.
#[derive(Debug, Clone, Copy, PartialEq, Eq)]
pub enum Attach {
    /// The node is bound; it belongs on `handle`.
    Bound { handle: u64 },
    /// The variant does not exist yet: create its asset, then call
    /// [`ImageVariants::attach_new`].
    NeedVariant { key: VariantKey },
}

/// What a source reload asks of one of its variants.
#[derive(Debug, Clone, Copy, PartialEq, Eq)]
pub enum ReloadStep {
    /// A pyramid is in flight: it derives again when it lands.
    Deferred,
    /// Start a pyramid build from the reloaded source.
    SpawnPyramid,
    /// Re-derive the variant asset from the reloaded source under `handle`.
    ReplaceAsset { handle: u64 },
}

/// Where binding a node got to.
#[derive(Debug, Clone, Copy, PartialEq, Eq)]
pub enum BindOutcome {
    /// A registry placeholder: nothing to bind yet.
    Placeholder,
    /// Already bound to this source and mode: the node belongs on
    /// `expected`.
    Settled { expected: u64 },
    /// The source has not loaded yet: the node is retried next frame.
    Waiting,
    /// Bound; the node belongs on `handle`. A refused mode binds the source
    /// as-is and says why (the caller warns).
    Bound { handle: u64, refused: Option<PlanRefusal> },
    /// The plan asks for a variant that does not exist yet: create its asset,
    /// then call [`ImageVariants::attach_new`].
    NeedVariant { key: VariantKey },
}

/// A finished pyramid build, landed over the variant's handle.
#[derive(Debug, Clone, Copy, PartialEq, Eq)]
pub struct Landed {
    pub handle: u64,
    /// The variant became ready now: its waiting users move off the source.
    pub first: bool,
    /// The source changed mid-build: start another build.
    pub rebuild: bool,
}


proof fn lemma_count_push(s: Seq<(u64, Bound)>, x: (u64, Bound), k: VariantKey)
    ensures
        users_count(s.push(x), k) == users_count(s, k) + if x.1.key == Some(k) {
            1nat
        } else {
            0nat
        },
{
    assert(s.push(x).drop_last() =~= s);
}

proof fn lemma_count_remove(s: Seq<(u64, Bound)>, i: int, k: VariantKey)
    requires
        0 <= i < s.len(),
    ensures
        users_count(s, k) == users_count(s.remove(i), k) + if s[i].1.key == Some(k) {
            1nat
        } else {
            0nat
        },
    decreases s.len(),
{
    if i == s.len() - 1 {
        assert(s.remove(i) =~= s.drop_last());
    } else {
        lemma_count_remove(s.drop_last(), i, k);
        assert(s.remove(i).drop_last() =~= s.drop_last().remove(i));
        assert(s.remove(i).last() == s.last());
    }
}

proof fn lemma_count_bounds(s: Seq<(u64, Bound)>, k: VariantKey)
    ensures
        users_count(s, k) <= s.len(),
        users_count(s, k) == 0 <==> forall|i: int| 0 <= i < s.len() ==> s[i].1.key != Some(k),
    decreases s.len(),
{
    if s.len() > 0 {
        lemma_count_bounds(s.drop_last(), k);
        if users_count(s, k) == 0 {
            assert forall|i: int| 0 <= i < s.len() implies s[i].1.key != Some(k) by {
                if i < s.len() - 1 {
                    assert(s[i] == s.drop_last()[i]);
                }
            }
        }
        if forall|i: int| 0 <= i < s.len() ==> s[i].1.key != Some(k) {
            assert forall|i: int| 0 <= i < s.drop_last().len() implies s.drop_last()[i].1.key
                != Some(k) by {
                assert(s.drop_last()[i] == s[i]);
            }
        }
    }
}

/// Binding a node to an existing variant and letting it go again leaves the
/// cache as it was: the binding goes, and the variant's user count is back
/// where it started.
pub proof fn lemma_attach_then_release(
    v: Seq<(VariantKey, Variant)>,
    b: Seq<(u64, Bound)>,
    entity: u64,
    bound: Bound,
    vi: int,
)
    requires
        forall|i: int, j: int|
            0 <= i < v.len() && 0 <= j < v.len() && i != j ==> #[trigger] v[i].0 != #[trigger] v[j].0,
        entity_index(b, entity) < 0,
        0 <= vi < v.len(),
        bound.key == Some(v[vi].0),
        v[vi].1.users >= 1,
        v[vi].1.users < usize::MAX,
    ensures
        ({
            let v1 = v.update(vi, (v[vi].0, Variant { users: (v[vi].1.users + 1) as usize, ..v[vi].1 }));
            let b1 = b.push((entity, bound));
            &&& released_bound(b1, entity) == b
            &&& released_variants(v1, b1, entity) == v
        }),
{
    let v1 = v.update(vi, (v[vi].0, Variant { users: (v[vi].1.users + 1) as usize, ..v[vi].1 }));
    let b1 = b.push((entity, bound));
    lemma_entity_index_pushed(b, entity, bound);
    assert(b1.remove(b.len() as int) =~= b);
    let k = v[vi].0;
    let ki = key_index(v1, k);
    assert(v1[vi].0 == k);
    assert(0 <= ki < v1.len() && v1[ki].0 == k);
    if ki != vi {
        assert(v1[ki] == v[ki]);
        assert(v[ki].0 != v[vi].0);
    }
    assert(v1.update(vi, (k, Variant { users: (v1[vi].1.users - 1) as usize, ..v1[vi].1 })) =~= v);
}

/// Binding a node to a freshly created variant and letting it go again
/// leaves the cache as it was: the variant goes with its only user.
pub proof fn lemma_attach_new_then_release(
    v: Seq<(VariantKey, Variant)>,
    b: Seq<(u64, Bound)>,
    entity: u64,
    bound: Bound,
    fresh: (VariantKey, Variant),
)
    requires
        entity_index(b, entity) < 0,
        key_index(v, fresh.0) < 0,
        fresh.1.users == 1,
        bound.key == Some(fresh.0),
    ensures
        released_bound(b.push((entity, bound)), entity) == b,
        released_variants(v.push(fresh), b.push((entity, bound)), entity) == v,
{
    let v1 = v.push(fresh);
    let b1 = b.push((entity, bound));
    lemma_entity_index_pushed(b, entity, bound);
    assert(b1.remove(b.len() as int) =~= b);
    let ki = key_index(v1, fresh.0);
    assert(v1[v.len() as int].0 == fresh.0);
    assert(0 <= ki < v1.len() && v1[ki].0 == fresh.0);
    if ki < v.len() {
        assert(v1[ki] == v[ki]);
        assert(exists|i: int| 0 <= i < v.len() && v[i].0 == fresh.0);
    }
    assert(ki == v.len());
    assert(v1.remove(ki) =~= v);
}

proof fn lemma_entity_index_pushed(b: Seq<(u64, Bound)>, entity: u64, bound: Bound)
    requires
        entity_index(b, entity) < 0,
    ensures
        entity_index(b.push((entity, bound)), entity) == b.len(),
{
    let b1 = b.push((entity, bound));
    assert(b1[b.len() as int].0 == entity);
    let i = entity_index(b1, entity);
    assert(0 <= i < b1.len() && b1[i].0 == entity);
    if i < b.len() {
        assert(b1[i] == b[i]);
        assert(exists|j: int| 0 <= j < b.len() && b[j].0 == entity);
    }
}

/// The variant keys the bound nodes use.
pub open spec fn keys_in_use(b: Seq<(u64, Bound)>) -> Set<VariantKey> {
    Set::new(|k: VariantKey| exists|i: int| 0 <= i < b.len() && #[trigger] b[i].1.key == Some(k))
}

/// A variant with a user has a binding that uses it.
proof fn lemma_user_exists(b: Seq<(u64, Bound)>, k: VariantKey)
    requires
        users_count(b, k) > 0,
    ensures
        exists|i: int| 0 <= i < b.len() && #[trigger] b[i].1.key == Some(k),
    decreases b.len(),
{
    if b.last().1.key == Some(k) {
        assert(b[b.len() - 1].1.key == Some(k));
    } else {
        lemma_user_exists(b.drop_last(), k);
        let i = choose|i: int| 0 <= i < b.len() - 1 && #[trigger] b.drop_last()[i].1.key == Some(k);
        assert(b[i] == b.drop_last()[i]);
    }
}

/// In a well-formed cache, one variant lives per distinct `(source, mode)`
/// pair that the bound nodes use: the variant count is the number of those
/// pairs.
pub proof fn lemma_variant_count_is_pairs_in_use(c: &ImageVariants)
    requires
        c.well_formed(),
    ensures
        keys_in_use(c.bound()).finite(),
        c.variants().len() == keys_in_use(c.bound()).len(),
{
    let v = c.variants();
    let b = c.bound();
    let keys = v.map_values(|x: (VariantKey, Variant)| x.0);
    assert forall|i: int, j: int| 0 <= i < keys.len() && 0 <= j < keys.len() && i != j implies keys[i]
        != keys[j] by {
        assert(v[i].0 != v[j].0);
    }
    assert(keys.no_duplicates());
    keys.unique_seq_to_set();
    assert forall|k: VariantKey| keys.to_set().contains(k) <==> keys_in_use(b).contains(k) by {
        if keys.to_set().contains(k) {
            let i = choose|i: int| 0 <= i < keys.len() && keys[i] == k;
            assert(v[i].1.users == users_count(b, v[i].0) && v[i].1.users >= 1);
            lemma_user_exists(b, k);
        }
        if keys_in_use(b).contains(k) {
            let j = choose|j: int| 0 <= j < b.len() && #[trigger] b[j].1.key == Some(k);
            assert(b[j].1.key is Some);
            assert(key_index(v, k) >= 0);
            let i = choose|i: int| 0 <= i < v.len() && v[i].0 == k;
            assert(keys[i] == k);
        }
    }
    assert(keys.to_set() =~= keys_in_use(b));
}

/// In a well-formed cache, two nodes bound to the same source in the same
/// mode, both through a variant, use the same variant and so belong on the
/// same handle.
pub proof fn lemma_same_pair_same_handle(c: &ImageVariants, i: int, j: int)
    requires
        c.well_formed(),
        0 <= i < c.bound().len(),
        0 <= j < c.bound().len(),
        c.bound()[i].1.source == c.bound()[j].1.source,
        c.bound()[i].1.mode == c.bound()[j].1.mode,
        c.bound()[i].1.key is Some,
        c.bound()[j].1.key is Some,
    ensures
        c.bound()[i].1.key == c.bound()[j].1.key,
        variant_target(c.variants(), c.bound()[i].1.key.unwrap()) == variant_target(
            c.variants(),
            c.bound()[j].1.key.unwrap(),
        ),
{
    let b = c.bound();
    assert(bindings_consistent(b));
    assert(b[i].1.key.unwrap().source == b[i].1.source && b[i].1.key.unwrap().mode == b[i].1.mode);
    assert(b[j].1.key.unwrap().source == b[j].1.source && b[j].1.key.unwrap().mode == b[j].1.mode);
}

impl ImageVariants {
    /// The variants in use.
    pub closed spec fn variants(&self) -> Seq<(VariantKey, Variant)> {
        self.variants@
    }

    /// The bound nodes.
    pub closed spec fn bound(&self) -> Seq<(u64, Bound)> {
        self.bound@
    }

    /// The nodes waiting for their source to load.
    pub closed spec fn pending(&self) -> Seq<u64> {
        self.pending@
    }

    /// One variant per key and per asset, one binding per node, every used
    /// variant present, and every variant's `users` the number of nodes
    /// bound to it — at least one: a variant is dropped with its last user.
    pub open spec fn well_formed(&self) -> bool {
        let v = self.variants();
        let b = self.bound();
        let p = self.pending();
        &&& forall|i: int, j: int|
            0 <= i < v.len() && 0 <= j < v.len() && i != j ==> #[trigger] v[i].0 != #[trigger] v[j].0
                && v[i].1.handle != v[j].1.handle
        &&& forall|i: int, j: int|
            0 <= i < b.len() && 0 <= j < b.len() && i != j ==> #[trigger] b[i].0 != #[trigger] b[j].0
        &&& forall|i: int, j: int|
            0 <= i < p.len() && 0 <= j < p.len() && i != j ==> #[trigger] p[i] != #[trigger] p[j]
        &&& forall|i: int|
            0 <= i < b.len() && (#[trigger] b[i]).1.key is Some ==> key_index(
                v,
                b[i].1.key.unwrap(),
            ) >= 0
        &&& forall|i: int|
            0 <= i < v.len() ==> (#[trigger] v[i]).1.users == users_count(b, v[i].0) && v[i].1.users
                >= 1
        &&& bindings_consistent(b)
    }

    /// An empty cache.
    pub fn new() -> (r: Self)
        ensures
            r.well_formed(),
            r.variants().len() == 0,
            r.bound().len() == 0,
            r.pending().len() == 0,
    {
        ImageVariants { variants: Vec::new(), bound: Vec::new(), pending: Vec::new() }
    }

    fn position_of_key(&self, key: VariantKey) -> (r: Option<usize>)
        requires
            forall|i: int, j: int|
                0 <= i < self.variants().len() && 0 <= j < self.variants().len() && i != j
                    ==> #[trigger] self.variants()[i].0 != #[trigger] self.variants()[j].0,
        ensures
            key_index(self.variants(), key) < 0 ==> r is None,
            key_index(self.variants(), key) >= 0 ==> r is Some,
            r matches Some(i) ==> i == key_index(self.variants(), key) && i < self.variants().len()
                && self.variants()[i as int].0 == key,
    {
        let mut i: usize = 0;
        while i < self.variants.len()
            invariant
                0 <= i <= self.variants@.len(),
                forall|i: int, j: int|
                    0 <= i < self.variants().len() && 0 <= j < self.variants().len() && i != j
                        ==> #[trigger] self.variants()[i].0 != #[trigger] self.variants()[j].0,
                forall|j: int| 0 <= j < i ==> self.variants@[j].0 != key,
            decreases self.variants@.len() - i,
        {
            if self.variants[i].0 == key {
                proof {
                    let k = key_index(self.variants(), key);
                    assert(0 <= k < self.variants@.len() && self.variants@[k].0 == key);
                    if k != i {
                        assert(self.variants@[k].0 != self.variants@[i as int].0);
                    }
                }
                return Some(i);
            }
            i = i + 1;
        }
        None
    }

    /// The variant whose asset is `handle`, if any.
    fn position_of_handle(&self, handle: u64) -> (r: Option<usize>)
        requires
            self.well_formed(),
        ensures
            r is None ==> forall|j: int|
                0 <= j < self.variants().len() ==> self.variants()[j].1.handle != handle,
            r matches Some(i) ==> i < self.variants().len() && self.variants()[i as int].1.handle
                == handle,
    {
        let mut i: usize = 0;
        while i < self.variants.len()
            invariant
                0 <= i <= self.variants@.len(),
                forall|j: int| 0 <= j < i ==> self.variants@[j].1.handle != handle,
            decreases self.variants@.len() - i,
        {
            if self.variants[i].1.handle == handle {
                return Some(i);
            }
            i = i + 1;
        }
        None
    }

    fn position_of_entity(&self, entity: u64) -> (r: Option<usize>)
        requires
            self.well_formed(),
        ensures
            entity_index(self.bound(), entity) < 0 ==> r is None,
            entity_index(self.bound(), entity) >= 0 ==> r is Some,
            r matches Some(i) ==> i == entity_index(self.bound(), entity) && i < self.bound().len()
                && self.bound()[i as int].0 == entity,
            self.bound().len() <= usize::MAX,
    {
        let n = self.bound.len();
        let mut i: usize = 0;
        while i < n
            invariant
                n == self.bound@.len(),
                0 <= i <= self.bound@.len(),
                self.well_formed(),
                forall|j: int| 0 <= j < i ==> self.bound@[j].0 != entity,
            decreases self.bound@.len() - i,
        {
            if self.bound[i].0 == entity {
                proof {
                    let k = entity_index(self.bound(), entity);
                    assert(0 <= k < self.bound@.len() && self.bound@[k].0 == entity);
                    if k != i {
                        assert(self.bound@[k].0 != self.bound@[i as int].0);
                    }
                }
                return Some(i);
            }
            i = i + 1;
        }
        None
    }

    /// Stop retrying `entity`.
    pub fn forget_pending(&mut self, entity: u64)
        requires
            old(self).well_formed(),
        ensures
            final(self).well_formed(),
            final(self).variants() == old(self).variants(),
            final(self).bound() == old(self).bound(),
            !final(self).pending().contains(entity),
            forall|e: u64| e != entity ==> (final(self).pending().contains(e) <==> old(self).pending().contains(e)),
    {
        let mut i: usize = 0;
        while i < self.pending.len()
            invariant
                0 <= i <= self.pending().len(),
                self.pending() == old(self).pending(),
                self.variants@ == old(self).variants@,
                self.bound@ == old(self).bound@,
                old(self).well_formed(),
                forall|j: int| 0 <= j < i ==> self.pending()[j] != entity,
            decreases self.pending().len() - i,
        {
            if self.pending[i] == entity {
                let ghost before = self.pending();
                self.pending.remove(i);
                proof {
                    assert(self.variants() == old(self).variants());
                    assert forall|a: int, b: int|
                        0 <= a < self.pending().len() && 0 <= b < self.pending().len() && a != b
                            implies #[trigger] self.pending()[a] != #[trigger] self.pending()[b] by {
                        let a0 = if a < i { a } else { a + 1 };
                        let b0 = if b < i { b } else { b + 1 };
                        assert(self.pending()[a] == before[a0]);
                        assert(self.pending()[b] == before[b0]);
                    }
                    assert forall|j: int| 0 <= j < self.pending().len() implies self.pending()[j] != entity by {
                        let j0 = if j < i { j } else { j + 1 };
                        assert(self.pending()[j] == before[j0]);
                        if j0 != i {
                            assert(before[j0] != before[i as int]);
                        }
                    }
                    assert forall|e: u64| e != entity implies (self.pending().contains(e) <==> before.contains(e)) by {
                        if before.contains(e) {
                            let j0 = choose|j0: int| 0 <= j0 < before.len() && before[j0] == e;
                            assert(j0 != i);
                            let j = if j0 < i { j0 } else { j0 - 1 };
                            assert(self.pending()[j] == e);
                        }
                    }
                }
                return;
            }
            i = i + 1;
        }
    }

    /// Retry `entity` next frame (its source has not loaded yet).
    pub fn mark_pending(&mut self, entity: u64)
        requires
            old(self).well_formed(),
        ensures
            final(self).well_formed(),
            final(self).variants() == old(self).variants(),
            final(self).bound() == old(self).bound(),
            final(self).pending().contains(entity),
            forall|e: u64| e != entity ==> (final(self).pending().contains(e) <==> old(self).pending().contains(e)),
    {
        let mut i: usize = 0;
        while i < self.pending.len()
            invariant
                0 <= i <= self.pending().len(),
                self.pending() == old(self).pending(),
                self.variants@ == old(self).variants@,
                self.bound@ == old(self).bound@,
                old(self).well_formed(),
                forall|j: int| 0 <= j < i ==> self.pending()[j] != entity,
            decreases self.pending().len() - i,
        {
            if self.pending[i] == entity {
                assert(self.pending()[i as int] == entity);
                return;
            }
            i = i + 1;
        }
        self.pending.push(entity);
        proof {
            assert(self.pending().last() == entity);
            assert forall|a: int, b: int|
                0 <= a < self.pending().len() && 0 <= b < self.pending().len() && a != b
                    implies #[trigger] self.pending()[a] != #[trigger] self.pending()[b] by {
                if a < old(self).pending().len() && b < old(self).pending().len() {
                    assert(old(self).pending()[a] != old(self).pending()[b]);
                }
            }
            assert forall|e: u64| e != entity implies (self.pending().contains(e) <==> old(self).pending().contains(e)) by {
                if self.pending().contains(e) {
                    let j = choose|j: int| 0 <= j < self.pending().len() && self.pending()[j] == e;
                    assert(j < old(self).pending().len());
                    assert(old(self).pending()[j] == e);
                }
                if old(self).pending().contains(e) {
                    let j = choose|j: int| 0 <= j < old(self).pending().len() && old(self).pending()[j] == e;
                    assert(self.pending()[j] == e);
                }
            }
        }
    }

    proof fn lemma_after_variant_removed(
        &self,
        v0: Seq<(VariantKey, Variant)>,
        b0: Seq<(u64, Bound)>,
        bi: int,
        vi: int,
        key: VariantKey,
    )
        requires
            0 <= bi < b0.len(),
            0 <= vi < v0.len(),
            b0[bi].1.key == Some(key),
            v0[vi].0 == key,
            self.bound() == b0.remove(bi),
            self.variants() == v0.remove(vi),
            users_count(self.bound(), key) == 0,
            forall|i: int, j: int|
                0 <= i < v0.len() && 0 <= j < v0.len() && i != j ==> #[trigger] v0[i].0
                    != #[trigger] v0[j].0 && v0[i].1.handle != v0[j].1.handle,
            forall|i: int|
                0 <= i < b0.len() && (#[trigger] b0[i]).1.key is Some ==> key_index(
                    v0,
                    b0[i].1.key.unwrap(),
                ) >= 0,
            forall|i: int|
                0 <= i < v0.len() ==> (#[trigger] v0[i]).1.users == users_count(b0, v0[i].0)
                    && v0[i].1.users >= 1,
            forall|k: VariantKey| #[trigger] users_count(b0, k) == users_count(self.bound(), k)
                + if b0[bi].1.key == Some(k) { 1nat } else { 0nat },
            forall|i: int, j: int|
                0 <= i < self.bound().len() && 0 <= j < self.bound().len() && i != j
                    ==> #[trigger] self.bound()[i].0 != #[trigger] self.bound()[j].0,
            forall|i: int, j: int|
                0 <= i < self.pending().len() && 0 <= j < self.pending().len() && i != j
                    ==> #[trigger] self.pending()[i] != #[trigger] self.pending()[j],
            bindings_consistent(self.bound()),
        ensures
            self.well_formed(),
    {
        let v = self.variants();
        let b = self.bound();
        assert forall|i: int, j: int|
            0 <= i < v.len() && 0 <= j < v.len() && i != j implies #[trigger] v[i].0 != #[trigger] v[j].0
                && v[i].1.handle != v[j].1.handle by {
            let i0 = if i < vi { i } else { i + 1 };
            let j0 = if j < vi { j } else { j + 1 };
            assert(v[i] == v0[i0]);
            assert(v[j] == v0[j0]);
        }
        lemma_count_bounds(b, key);
        assert forall|i: int|
            0 <= i < b.len() && (#[trigger] b[i]).1.key is Some implies key_index(v, b[i].1.key.unwrap())
                >= 0 by {
            let i0 = if i < bi { i } else { i + 1 };
            assert(b[i] == b0[i0]);
            let k = b[i].1.key.unwrap();
            assert(k != key);
            let j0 = key_index(v0, k);
            assert(0 <= j0 < v0.len() && v0[j0].0 == k);
            assert(j0 != vi);
            let j = if j0 < vi { j0 } else { j0 - 1 };
            assert(v[j] == v0[j0]);
        }
        assert forall|i: int| 0 <= i < v.len() implies (#[trigger] v[i]).1.users == users_count(
            b,
            v[i].0,
        ) && v[i].1.users >= 1 by {
            let i0 = if i < vi { i } else { i + 1 };
            assert(v[i] == v0[i0]);
            assert(v0[i0].0 != key);
            assert(users_count(b0, v0[i0].0) == users_count(b, v0[i0].0));
        }
    }

    proof fn lemma_after_variant_decremented(
        &self,
        v0: Seq<(VariantKey, Variant)>,
        b0: Seq<(u64, Bound)>,
        bi: int,
        vi: int,
        key: VariantKey,
    )
        requires
            0 <= bi < b0.len(),
            0 <= vi < v0.len(),
            b0[bi].1.key == Some(key),
            v0[vi].0 == key,
            v0[vi].1.users > 1,
            self.bound() == b0.remove(bi),
            self.variants() == v0.update(
                vi,
                (key, Variant { users: (v0[vi].1.users - 1) as usize, ..v0[vi].1 }),
            ),
            forall|i: int, j: int|
                0 <= i < v0.len() && 0 <= j < v0.len() && i != j ==> #[trigger] v0[i].0
                    != #[trigger] v0[j].0 && v0[i].1.handle != v0[j].1.handle,
            forall|i: int|
                0 <= i < b0.len() && (#[trigger] b0[i]).1.key is Some ==> key_index(
                    v0,
                    b0[i].1.key.unwrap(),
                ) >= 0,
            forall|i: int|
                0 <= i < v0.len() ==> (#[trigger] v0[i]).1.users == users_count(b0, v0[i].0)
                    && v0[i].1.users >= 1,
            forall|k: VariantKey| #[trigger] users_count(b0, k) == users_count(self.bound(), k)
                + if b0[bi].1.key == Some(k) { 1nat } else { 0nat },
            forall|i: int, j: int|
                0 <= i < self.bound().len() && 0 <= j < self.bound().len() && i != j
                    ==> #[trigger] self.bound()[i].0 != #[trigger] self.bound()[j].0,
            forall|i: int, j: int|
                0 <= i < self.pending().len() && 0 <= j < self.pending().len() && i != j
                    ==> #[trigger] self.pending()[i] != #[trigger] self.pending()[j],
            bindings_consistent(self.bound()),
        ensures
            self.well_formed(),
    {
        let v = self.variants();
        let b = self.bound();
        assert forall|i: int, j: int|
            0 <= i < v.len() && 0 <= j < v.len() && i != j implies #[trigger] v[i].0 != #[trigger] v[j].0
                && v[i].1.handle != v[j].1.handle by {
            assert(v[i].0 == v0[i].0 && v[i].1.handle == v0[i].1.handle);
            assert(v[j].0 == v0[j].0 && v[j].1.handle == v0[j].1.handle);
        }
        assert forall|i: int|
            0 <= i < b.len() && (#[trigger] b[i]).1.key is Some implies key_index(v, b[i].1.key.unwrap())
                >= 0 by {
            let i0 = if i < bi { i } else { i + 1 };
            assert(b[i] == b0[i0]);
            let k = b[i].1.key.unwrap();
            let j0 = key_index(v0, k);
            assert(0 <= j0 < v0.len() && v0[j0].0 == k);
            assert(v[j0].0 == k);
        }
        assert forall|i: int| 0 <= i < v.len() implies (#[trigger] v[i]).1.users == users_count(
            b,
            v[i].0,
        ) && v[i].1.users >= 1 by {
            assert(v[i].0 == v0[i].0);
            assert(users_count(b0, v0[i].0) == users_count(b, v0[i].0) + if v0[i].0 == key {
                1nat
            } else {
                0nat
            });
            if i != vi {
                assert(v0[i].0 != key);
            }
        }
    }

    /// Forget the node's binding (and stop retrying it), dropping its variant
    /// with the last user. Returns the binding and the variant asset it
    /// pointed at, if any.
    pub fn release(&mut self, entity: u64) -> (r: Option<(Bound, Option<u64>)>)
        requires
            old(self).well_formed(),
        ensures
            final(self).well_formed(),
            !final(self).pending().contains(entity),
            forall|e: u64|
                e != entity ==> (final(self).pending().contains(e) <==> old(self).pending().contains(
                    e,
                )),
            entity_index(final(self).bound(), entity) < 0,
            final(self).bound() == released_bound(old(self).bound(), entity),
            final(self).variants() == released_variants(old(self).variants(), old(self).bound(), entity),
            entity_index(old(self).bound(), entity) < 0 ==> r is None && final(self).bound() == old(
                self,
            ).bound() && final(self).variants() == old(self).variants(),
            entity_index(old(self).bound(), entity) >= 0 ==> ({
                let i = entity_index(old(self).bound(), entity);
                let b = old(self).bound()[i].1;
                &&& r matches Some((rb, vid)) && rb == b && match b.key {
                    None => vid is None,
                    Some(k) => vid == Some(
                        old(self).variants()[key_index(old(self).variants(), k)].1.handle,
                    ),
                }
                &&& final(self).bound() == old(self).bound().remove(i)
                &&& b.key is None ==> final(self).variants() == old(self).variants()
                &&& b.key is Some ==> ({
                    let vi = key_index(old(self).variants(), b.key.unwrap());
                    let v = old(self).variants()[vi];
                    &&& v.1.users == 1 ==> final(self).variants() == old(self).variants().remove(vi)
                    &&& v.1.users > 1 ==> final(self).variants() == old(self).variants().update(
                        vi,
                        (v.0, Variant { users: (v.1.users - 1) as usize, ..v.1 }),
                    )
                })
            }),
    {
        self.forget_pending(entity);
        let bi = match self.position_of_entity(entity) {
            Some(bi) => bi,
            None => {
                return None;
            },
        };
        let ghost b0 = self.bound();
        let ghost v0 = self.variants();
        let (_, b) = self.bound.remove(bi);
        proof {
            assert forall|i: int, j: int|
                0 <= i < self.bound().len() && 0 <= j < self.bound().len() && i != j
                    implies #[trigger] self.bound()[i].0 != #[trigger] self.bound()[j].0 by {
                let i0 = if i < bi { i } else { i + 1 };
                let j0 = if j < bi { j } else { j + 1 };
                assert(self.bound()[i] == b0[i0]);
                assert(self.bound()[j] == b0[j0]);
            }
            assert forall|k: VariantKey| #[trigger] users_count(b0, k) == users_count(self.bound(), k)
                + if b.key == Some(k) { 1nat } else { 0nat } by {
                lemma_count_remove(b0, bi as int, k);
            }
            assert forall|i: int|
                0 <= i < self.bound().len() && (#[trigger] self.bound()[i]).1.key is Some implies self.bound()[i].1.key.unwrap().source
                    == self.bound()[i].1.source && self.bound()[i].1.key.unwrap().mode == self.bound()[i].1.mode by {
                let i0 = if i < bi { i } else { i + 1 };
                assert(self.bound()[i] == b0[i0]);
            }
            assert forall|i: int| 0 <= i < self.bound().len() implies self.bound()[i].0 != entity by {
                let i0 = if i < bi { i } else { i + 1 };
                assert(self.bound()[i] == b0[i0]);
                assert(b0[i0].0 != b0[bi as int].0);
            }
        }
        match b.key {
            None => {
                proof {
                    assert forall|i: int|
                        0 <= i < self.bound().len() && (#[trigger] self.bound()[i]).1.key is Some
                            implies key_index(self.variants(), self.bound()[i].1.key.unwrap())
                            >= 0 by {
                        let i0 = if i < bi { i } else { i + 1 };
                        assert(self.bound()[i] == b0[i0]);
                    }
                    assert forall|i: int| 0 <= i < self.variants().len() implies (
                    #[trigger] self.variants()[i]).1.users == users_count(
                        self.bound(),
                        self.variants()[i].0,
                    ) && self.variants()[i].1.users >= 1 by {
                        assert(users_count(b0, v0[i].0) == users_count(self.bound(), v0[i].0));
                    }
                }
                Some((b, None))
            },
            Some(key) => {
                let vi = match self.position_of_key(key) {
                    Some(vi) => vi,
                    None => {
                        proof {
                            assert(b0[bi as int].1.key is Some);
                        }
                        return Some((b, None));
                    },
                };
                let v = self.variants[vi].1;
                let handle = v.handle;
                proof {
                    assert(users_count(b0, key) == v.users);
                    assert(users_count(b0, key) == users_count(self.bound(), key) + 1);
                }
                if v.users <= 1 {
                    self.variants.remove(vi);
                    proof {
                        lemma_count_bounds(self.bound(), key);
                        self.lemma_after_variant_removed(v0, b0, bi as int, vi as int, key);
                    }
                } else {
                    let nv = Variant { users: v.users - 1, ..v };
                    self.variants.set(vi, (key, nv));
                    proof {
                        self.lemma_after_variant_decremented(v0, b0, bi as int, vi as int, key);
                    }
                }
                Some((b, Some(handle)))
            },
        }
    }

    /// Start binding a node with `mode` whose image is `current`. A registry
    /// placeholder has nothing to bind yet. A node already bound to the same
    /// source and mode needs no plan (and no repeated warning): it belongs on
    /// its variant once that is ready, else on the source. Anything else is a
    /// rebind: the old binding is let go first, so a swap to a slow or failed
    /// source doesn't pin the previous variant.
    pub fn begin_bind(
        &mut self,
        entity: u64,
        mode: ImageRendering,
        current: u64,
        placeholder: bool,
    ) -> (r: BindStart)
        requires
            old(self).well_formed(),
        ensures
            final(self).well_formed(),
            placeholder ==> r == (BindStart::Settled { expected: None }) && final(self).bound() == old(
                self,
            ).bound() && final(self).variants() == old(self).variants(),
            !placeholder ==> ({
                let src = source_of(old(self).variants(), current);
                let ei = entity_index(old(self).bound(), entity);
                if ei >= 0 && old(self).bound()[ei].1.source == src && old(self).bound()[ei].1.mode
                    == mode {
                    &&& final(self).bound() == old(self).bound()
                    &&& final(self).variants() == old(self).variants()
                    &&& r == (BindStart::Settled {
                        expected: Some(
                            match old(self).bound()[ei].1.key {
                                Some(k) => variant_target(old(self).variants(), k),
                                None => src,
                            },
                        ),
                    })
                } else {
                    &&& r == (BindStart::Rebind { source: src })
                    &&& entity_index(final(self).bound(), entity) < 0
                    &&& final(self).bound() == released_bound(old(self).bound(), entity)
                    &&& final(self).variants() == released_variants(
                        old(self).variants(),
                        old(self).bound(),
                        entity,
                    )
                }
            }),
            !final(self).pending().contains(entity),
            forall|e: u64|
                e != entity ==> (final(self).pending().contains(e) <==> old(self).pending().contains(
                    e,
                )),
            !placeholder ==> old(self).bound().len() <= usize::MAX,
    {
        if placeholder {
            self.forget_pending(entity);
            return BindStart::Settled { expected: None };
        }
        let source = match self.position_of_handle(current) {
            Some(i) => {
                proof {
                    let j = choose|j: int|
                        0 <= j < self.variants().len() && self.variants()[j].1.handle == current;
                    if j != i {
                        assert(self.variants()[j].1.handle != self.variants()[i as int].1.handle);
                    }
                }
                self.variants[i].0.source
            },
            None => current,
        };
        if let Some(bi) = self.position_of_entity(entity) {
            let b = self.bound[bi].1;
            if b.source == source && b.mode == mode {
                let expected = match b.key {
                    Some(k) => match self.position_of_key(k) {
                        Some(vi) => if self.variants[vi].1.ready {
                            self.variants[vi].1.handle
                        } else {
                            source
                        },
                        None => source,
                    },
                    None => source,
                };
                proof {
                    if b.key is Some {
                        assert(self.bound()[bi as int].1.key is Some);
                        assert(key_index(self.variants(), b.key.unwrap()) >= 0);
                        assert(b.key.unwrap().source == source) by {
                            assert(self.variants()[key_index(self.variants(), b.key.unwrap())].0
                                == b.key.unwrap());
                        }
                    }
                }
                self.forget_pending(entity);
                return BindStart::Settled { expected: Some(expected) };
            }
        }
        self.release(entity);
        BindStart::Rebind { source }
    }

    /// The source a node's current image derives from (see [`source_of`]):
    /// the image a bind plans from.
    pub fn source_for(&self, current: u64) -> (r: u64)
        requires
            self.well_formed(),
        ensures
            r == source_of(self.variants(), current),
    {
        match self.position_of_handle(current) {
            Some(i) => {
                proof {
                    let j = choose|j: int|
                        0 <= j < self.variants().len() && self.variants()[j].1.handle == current;
                    if j != i {
                        assert(self.variants()[j].1.handle != self.variants()[i as int].1.handle);
                    }
                }
                self.variants[i].0.source
            },
            None => current,
        }
    }

    /// Bind a node with `mode` whose image is `current`: `image` is what
    /// the node's source ([`ImageVariants::source_for`]) holds, `None` while it
    /// has not loaded. A node already bound to the same source and mode stays
    /// as it is; any other is let go and bound afresh to its plan — the
    /// source as-is when it already renders the mode or the mode is refused,
    /// else the shared variant of `(source, mode)`.
    pub fn bind(
        &mut self,
        entity: u64,
        mode: ImageRendering,
        current: u64,
        placeholder: bool,
        image: Option<SourceImage>,
        live_element: bool,
        default: SamplerModel,
    ) -> (r: BindOutcome)
        requires
            old(self).well_formed(),
            entity_index(old(self).bound(), entity) >= 0 || old(self).bound().len() < usize::MAX,
        ensures
            final(self).well_formed(),
            final(self).pending().contains(entity) <==> r is Waiting,
            forall|e: u64|
                e != entity ==> (final(self).pending().contains(e) <==> old(self).pending().contains(
                    e,
                )),
            placeholder ==> r is Placeholder && final(self).bound() == old(self).bound()
                && final(self).variants() == old(self).variants(),
            !placeholder ==> ({
                let src = source_of(old(self).variants(), current);
                let ei = entity_index(old(self).bound(), entity);
                let rb = released_bound(old(self).bound(), entity);
                let rv = released_variants(old(self).variants(), old(self).bound(), entity);
                if ei >= 0 && old(self).bound()[ei].1.source == src && old(self).bound()[ei].1.mode
                    == mode {
                    &&& final(self).bound() == old(self).bound()
                    &&& final(self).variants() == old(self).variants()
                    &&& r == (BindOutcome::Settled {
                        expected: match old(self).bound()[ei].1.key {
                            Some(k) => variant_target(old(self).variants(), k),
                            None => src,
                        },
                    })
                } else {
                    match image {
                        None => {
                            &&& r is Waiting
                            &&& final(self).bound() == rb
                            &&& final(self).variants() == rv
                        },
                        Some(img) => match plan_spec(img, mode, live_element, default) {
                            Err(refusal) => {
                                &&& r == (BindOutcome::Bound { handle: src, refused: Some(refusal) })
                                &&& final(self).bound() == rb.push(
                                    (entity, Bound { source: src, mode, key: None }),
                                )
                                &&& final(self).variants() == rv
                            },
                            Ok(None) => {
                                &&& r == (BindOutcome::Bound { handle: src, refused: None })
                                &&& final(self).bound() == rb.push(
                                    (entity, Bound { source: src, mode, key: None }),
                                )
                                &&& final(self).variants() == rv
                            },
                            Ok(Some(m)) => {
                                let key = VariantKey { source: src, mode: m };
                                let vi = key_index(rv, key);
                                if vi < 0 {
                                    &&& r == (BindOutcome::NeedVariant { key })
                                    &&& final(self).bound() == rb
                                    &&& final(self).variants() == rv
                                } else {
                                    let v = rv[vi];
                                    &&& r == (BindOutcome::Bound {
                                        handle: variant_target(rv, key),
                                        refused: None,
                                    })
                                    &&& final(self).bound() == rb.push(
                                        (entity, Bound { source: src, mode, key: Some(key) }),
                                    )
                                    &&& final(self).variants() == rv.update(
                                        vi,
                                        (key, Variant { users: (v.1.users + 1) as usize, ..v.1 }),
                                    )
                                }
                            },
                        },
                    }
                }
            }),
    {
        let start = self.begin_bind(entity, mode, current, placeholder);
        let source = match start {
            BindStart::Settled { expected } => {
                return match expected {
                    Some(expected) => BindOutcome::Settled { expected },
                    None => BindOutcome::Placeholder,
                };
            },
            BindStart::Rebind { source } => source,
        };
        let img = match image {
            Some(img) => img,
            None => {
                self.mark_pending(entity);
                return BindOutcome::Waiting;
            },
        };
        let planned = match plan(&img, mode, live_element, default) {
            Err(refusal) => {
                let _ = self.attach(entity, source, mode, None);
                return BindOutcome::Bound { handle: source, refused: Some(refusal) };
            },
            Ok(p) => p,
        };
        match self.attach(entity, source, mode, planned) {
            Attach::Bound { handle } => BindOutcome::Bound { handle, refused: None },
            Attach::NeedVariant { key } => BindOutcome::NeedVariant { key },
        }
    }

    /// Bind a released node to its plan: `planned` is the variant mode the
    /// plan asked for (`None`: use the source as-is). An existing variant
    /// gains a user; a missing one must be created first
    /// ([`Attach::NeedVariant`], nothing changes).
    pub fn attach(
        &mut self,
        entity: u64,
        source: u64,
        mode: ImageRendering,
        planned: Option<ImageRendering>,
    ) -> (r: Attach)
        requires
            old(self).well_formed(),
            entity_index(old(self).bound(), entity) < 0,
            old(self).bound().len() < usize::MAX,
            planned matches Some(m) ==> m == mode,
        ensures
            final(self).well_formed(),
            final(self).pending() == old(self).pending(),
            planned is None ==> r == (Attach::Bound { handle: source }) && final(self).variants()
                == old(self).variants() && final(self).bound() == old(self).bound().push(
                (entity, Bound { source, mode, key: None }),
            ),
            planned matches Some(m) ==> ({
                let key = VariantKey { source, mode: m };
                let vi = key_index(old(self).variants(), key);
                if vi < 0 {
                    &&& r == (Attach::NeedVariant { key })
                    &&& final(self).variants() == old(self).variants()
                    &&& final(self).bound() == old(self).bound()
                } else {
                    let v = old(self).variants()[vi];
                    &&& r == (Attach::Bound { handle: variant_target(old(self).variants(), key) })
                    &&& final(self).bound() == old(self).bound().push(
                        (entity, Bound { source, mode, key: Some(key) }),
                    )
                    &&& final(self).variants() == old(self).variants().update(
                        vi,
                        (key, Variant { users: (v.1.users + 1) as usize, ..v.1 }),
                    )
                }
            }),
    {
        let m = match planned {
            None => {
                let ghost b0 = self.bound();
                self.bound.push((entity, Bound { source, mode, key: None }));
                proof {
                    assert forall|k: VariantKey| #[trigger] users_count(self.bound(), k) == users_count(
                        b0,
                        k,
                    ) by {
                        lemma_count_push(b0, (entity, Bound { source, mode, key: None }), k);
                    }
                    self.lemma_push_keeps_bindings(b0, entity);
                    assert(self.pending() == old(self).pending());
                }
                return Attach::Bound { handle: source };
            },
            Some(m) => m,
        };
        let key = VariantKey { source, mode: m };
        let vi = match self.position_of_key(key) {
            Some(vi) => vi,
            None => {
                return Attach::NeedVariant { key };
            },
        };
        let v = self.variants[vi].1;
        let ghost b0 = self.bound();
        let ghost v0 = self.variants();
        proof {
            lemma_count_bounds(b0, key);
        }
        let nv = Variant { users: v.users + 1, ..v };
        self.variants.set(vi, (key, nv));
        self.bound.push((entity, Bound { source, mode, key: Some(key) }));
        proof {
            assert forall|k: VariantKey| #[trigger] users_count(self.bound(), k) == users_count(b0, k)
                + if k == key { 1nat } else { 0nat } by {
                lemma_count_push(b0, (entity, Bound { source, mode, key: Some(key) }), k);
            }
            self.lemma_push_keeps_bindings(b0, entity);
            assert(self.pending() == old(self).pending());
            assert forall|i: int, j: int|
                0 <= i < self.variants().len() && 0 <= j < self.variants().len() && i != j
                    implies #[trigger] self.variants()[i].0 != #[trigger] self.variants()[j].0
                    && self.variants()[i].1.handle != self.variants()[j].1.handle by {
                assert(self.variants()[i].0 == v0[i].0 && self.variants()[i].1.handle == v0[i].1.handle);
                assert(self.variants()[j].0 == v0[j].0 && self.variants()[j].1.handle == v0[j].1.handle);
            }
            assert forall|i: int|
                0 <= i < self.bound().len() && (#[trigger] self.bound()[i]).1.key is Some
                    implies key_index(self.variants(), self.bound()[i].1.key.unwrap()) >= 0 by {
                let k = self.bound()[i].1.key.unwrap();
                if i < b0.len() {
                    assert(self.bound()[i] == b0[i]);
                    let j = key_index(v0, k);
                    assert(0 <= j < v0.len() && v0[j].0 == k);
                    assert(self.variants()[j].0 == k);
                } else {
                    assert(self.variants()[vi as int].0 == key);
                }
            }
            assert forall|i: int| 0 <= i < self.variants().len() implies (
            #[trigger] self.variants()[i]).1.users == users_count(self.bound(), self.variants()[i].0)
                && self.variants()[i].1.users >= 1 by {
                assert(self.variants()[i].0 == v0[i].0);
                if i != vi {
                    assert(v0[i].0 != key);
                    assert(self.variants()[i] == v0[i]);
                }
            }
        }
        let handle = if nv.ready {
            nv.handle
        } else {
            source
        };
        Attach::Bound { handle }
    }

    proof fn lemma_push_keeps_bindings(&self, b0: Seq<(u64, Bound)>, entity: u64)
        requires
            self.bound().len() == b0.len() + 1,
            forall|i: int| 0 <= i < b0.len() ==> self.bound()[i] == b0[i],
            self.bound().last().0 == entity,
            entity_index(b0, entity) < 0,
            forall|i: int, j: int|
                0 <= i < b0.len() && 0 <= j < b0.len() && i != j ==> #[trigger] b0[i].0
                    != #[trigger] b0[j].0,
            bindings_consistent(b0),
            self.bound().last().1.key is Some ==> self.bound().last().1.key.unwrap().source
                == self.bound().last().1.source && self.bound().last().1.key.unwrap().mode
                == self.bound().last().1.mode,
        ensures
            forall|i: int, j: int|
                0 <= i < self.bound().len() && 0 <= j < self.bound().len() && i != j
                    ==> #[trigger] self.bound()[i].0 != #[trigger] self.bound()[j].0,
            bindings_consistent(self.bound()),
    {
        let b = self.bound();
        assert forall|i: int, j: int|
            0 <= i < b.len() && 0 <= j < b.len() && i != j implies #[trigger] b[i].0 != #[trigger] b[j].0 by {
            if i < b0.len() && j < b0.len() {
                assert(b[i] == b0[i] && b[j] == b0[j]);
            } else if i < b0.len() {
                assert(b[i] == b0[i]);
                assert(b0[i].0 != entity);
            } else {
                assert(b[j] == b0[j]);
                assert(b0[j].0 != entity);
            }
        }
        assert forall|i: int|
            0 <= i < b.len() && (#[trigger] b[i]).1.key is Some implies b[i].1.key.unwrap().source
                == b[i].1.source && b[i].1.key.unwrap().mode == b[i].1.mode by {
            if i < b0.len() {
                assert(b[i] == b0[i]);
            }
        }
    }

    /// Bind a released node to a freshly created variant asset `handle` for
    /// `key` (ready at once, or reserved until its pyramid lands). Returns
    /// the handle the node belongs on.
    pub fn attach_new(
        &mut self,
        entity: u64,
        source: u64,
        mode: ImageRendering,
        key: VariantKey,
        handle: u64,
        ready: bool,
        building: bool,
    ) -> (r: u64)
        requires
            old(self).well_formed(),
            entity_index(old(self).bound(), entity) < 0,
            key_index(old(self).variants(), key) < 0,
            forall|i: int|
                0 <= i < old(self).variants().len() ==> old(self).variants()[i].1.handle != handle,
            key.source == source,
            key.mode == mode,
        ensures
            final(self).well_formed(),
            final(self).pending() == old(self).pending(),
            final(self).variants() == old(self).variants().push(
                (key, Variant { handle, users: 1, ready, building, rebuild: false }),
            ),
            final(self).bound() == old(self).bound().push(
                (entity, Bound { source, mode, key: Some(key) }),
            ),
            r == if ready {
                handle
            } else {
                source
            },
    {
        let ghost b0 = self.bound();
        let ghost v0 = self.variants();
        proof {
            lemma_count_bounds(b0, key);
            assert forall|i: int| 0 <= i < b0.len() implies b0[i].1.key != Some(key) by {
                if b0[i].1.key is Some {
                    let j = key_index(v0, b0[i].1.key.unwrap());
                    assert(0 <= j < v0.len() && v0[j].0 == b0[i].1.key.unwrap());
                    if b0[i].1.key == Some(key) {
                        assert(exists|j: int| 0 <= j < v0.len() && v0[j].0 == key);
                    }
                }
            }
        }
        self.variants.push((key, Variant { handle, users: 1, ready, building, rebuild: false }));
        self.bound.push((entity, Bound { source, mode, key: Some(key) }));
        proof {
            assert forall|k: VariantKey| #[trigger] users_count(self.bound(), k) == users_count(b0, k)
                + if k == key { 1nat } else { 0nat } by {
                lemma_count_push(b0, (entity, Bound { source, mode, key: Some(key) }), k);
            }
            self.lemma_push_keeps_bindings(b0, entity);
            assert(self.pending() == old(self).pending());
            let v = self.variants();
            assert forall|i: int, j: int|
                0 <= i < v.len() && 0 <= j < v.len() && i != j implies #[trigger] v[i].0
                    != #[trigger] v[j].0 && v[i].1.handle != v[j].1.handle by {
                if i < v0.len() && j < v0.len() {
                    assert(v[i] == v0[i] && v[j] == v0[j]);
                } else if i < v0.len() {
                    assert(v[i] == v0[i]);
                    if v0[i].0 == key {
                        assert(exists|j: int| 0 <= j < v0.len() && v0[j].0 == key);
                    }
                } else {
                    assert(v[j] == v0[j]);
                    if v0[j].0 == key {
                        assert(exists|i: int| 0 <= i < v0.len() && v0[i].0 == key);
                    }
                }
            }
            assert forall|i: int|
                0 <= i < self.bound().len() && (#[trigger] self.bound()[i]).1.key is Some
                    implies key_index(v, self.bound()[i].1.key.unwrap()) >= 0 by {
                let k = self.bound()[i].1.key.unwrap();
                if i < b0.len() {
                    assert(self.bound()[i] == b0[i]);
                    let j = key_index(v0, k);
                    assert(0 <= j < v0.len() && v0[j].0 == k);
                    assert(v[j].0 == k);
                } else {
                    assert(v[v0.len() as int].0 == key);
                }
            }
            assert forall|i: int| 0 <= i < v.len() implies (#[trigger] v[i]).1.users == users_count(
                self.bound(),
                v[i].0,
            ) && v[i].1.users >= 1 by {
                if i < v0.len() {
                    assert(v[i] == v0[i]);
                    if v0[i].0 == key {
                        assert(exists|j: int| 0 <= j < v0.len() && v0[j].0 == key);
                    }
                }
            }
        }
        if ready {
            handle
        } else {
            source
        }
    }

    proof fn lemma_flags_updated(&self, old_self: &Self, vi: int, nv: Variant)
        requires
            old_self.well_formed(),
            0 <= vi < old_self.variants().len(),
            nv.handle == old_self.variants()[vi].1.handle,
            nv.users == old_self.variants()[vi].1.users,
            self.variants() == old_self.variants().update(vi, (old_self.variants()[vi].0, nv)),
            self.bound() == old_self.bound(),
            self.pending() == old_self.pending(),
        ensures
            self.well_formed(),
    {
        let v0 = old_self.variants();
        let v = self.variants();
        let b = self.bound();
        assert forall|i: int, j: int|
            0 <= i < v.len() && 0 <= j < v.len() && i != j implies #[trigger] v[i].0
                != #[trigger] v[j].0 && v[i].1.handle != v[j].1.handle by {
            assert(v[i].0 == v0[i].0 && v[i].1.handle == v0[i].1.handle);
            assert(v[j].0 == v0[j].0 && v[j].1.handle == v0[j].1.handle);
        }
        assert forall|i: int|
            0 <= i < b.len() && (#[trigger] b[i]).1.key is Some implies key_index(v, b[i].1.key.unwrap())
                >= 0 by {
            assert(b[i] == old_self.bound()[i]);
            let k = b[i].1.key.unwrap();
            let j = key_index(v0, k);
            assert(0 <= j < v0.len() && v0[j].0 == k);
            assert(v[j].0 == k);
        }
        assert forall|i: int| 0 <= i < v.len() implies (#[trigger] v[i]).1.users == users_count(
            b,
            v[i].0,
        ) && v[i].1.users >= 1 by {
            assert(v[i].0 == v0[i].0 && v[i].1.users == v0[i].1.users);
        }
    }

    /// The keys of the variants derived from `source`, in cache order (empty
    /// when a reload of `source` concerns no variant).
    pub fn variant_keys_of(&self, source: u64) -> (r: Vec<VariantKey>)
        ensures
            r@ == keys_with_source(self.variants(), source),
    {
        let mut r: Vec<VariantKey> = Vec::new();
        let mut i: usize = 0;
        while i < self.variants.len()
            invariant
                0 <= i <= self.variants@.len(),
                r@ == keys_with_source(self.variants@.subrange(0, i as int), source),
            decreases self.variants@.len() - i,
        {
            proof {
                assert(self.variants@.subrange(0, i + 1).drop_last() =~= self.variants@.subrange(
                    0,
                    i as int,
                ));
            }
            if self.variants[i].0.source == source {
                r.push(self.variants[i].0);
            }
            i = i + 1;
        }
        proof {
            assert(self.variants@.subrange(0, self.variants@.len() as int) =~= self.variants@);
        }
        r
    }

    /// The nodes bound to the variant `key`, in binding order.
    pub fn users_of(&self, key: VariantKey) -> (r: Vec<u64>)
        ensures
            r@ == entities_using(self.bound(), key),
    {
        let mut r: Vec<u64> = Vec::new();
        let mut i: usize = 0;
        while i < self.bound.len()
            invariant
                0 <= i <= self.bound@.len(),
                r@ == entities_using(self.bound@.subrange(0, i as int), key),
            decreases self.bound@.len() - i,
        {
            proof {
                assert(self.bound@.subrange(0, i + 1).drop_last() =~= self.bound@.subrange(
                    0,
                    i as int,
                ));
            }
            if self.bound[i].1.key == Some(key) {
                r.push(self.bound[i].0);
            }
            i = i + 1;
        }
        proof {
            assert(self.bound@.subrange(0, self.bound@.len() as int) =~= self.bound@);
        }
        r
    }

    /// The source of `key` was reloaded: say what its variant needs. A
    /// `trilinear` variant starts a pyramid build, or, with one already in
    /// flight, derives again when that lands; any other variant is
    /// re-derived at once over its handle. `None` when `key` has no variant.
    pub fn on_source_reloaded(&mut self, key: VariantKey) -> (r: Option<ReloadStep>)
        requires
            old(self).well_formed(),
        ensures
            final(self).well_formed(),
            final(self).bound() == old(self).bound(),
            final(self).pending() == old(self).pending(),
            key_index(old(self).variants(), key) < 0 ==> r is None && final(self).variants() == old(
                self,
            ).variants(),
            key_index(old(self).variants(), key) >= 0 ==> ({
                let vi = key_index(old(self).variants(), key);
                let v = old(self).variants()[vi].1;
                if key.mode != ImageRendering::Trilinear {
                    &&& r == Some(ReloadStep::ReplaceAsset { handle: v.handle })
                    &&& final(self).variants() == old(self).variants()
                } else if v.building {
                    &&& r == Some(ReloadStep::Deferred)
                    &&& final(self).variants() == old(self).variants().update(
                        vi,
                        (key, Variant { rebuild: true, ..v }),
                    )
                } else {
                    &&& r == Some(ReloadStep::SpawnPyramid)
                    &&& final(self).variants() == old(self).variants().update(
                        vi,
                        (key, Variant { building: true, ..v }),
                    )
                }
            }),
    {
        let vi = match self.position_of_key(key) {
            Some(vi) => vi,
            None => {
                return None;
            },
        };
        let v = self.variants[vi].1;
        if key.mode != ImageRendering::Trilinear {
            return Some(ReloadStep::ReplaceAsset { handle: v.handle });
        }
        let ghost before = *self;
        if v.building {
            let nv = Variant { rebuild: true, ..v };
            self.variants.set(vi, (key, nv));
            proof {
                self.lemma_flags_updated(&before, vi as int, nv);
            }
            Some(ReloadStep::Deferred)
        } else {
            let nv = Variant { building: true, ..v };
            self.variants.set(vi, (key, nv));
            proof {
                self.lemma_flags_updated(&before, vi as int, nv);
            }
            Some(ReloadStep::SpawnPyramid)
        }
    }

    /// The pyramid build of `key` finished and its image was inserted over
    /// the variant's handle: the variant is ready from now on. A build asked
    /// for meanwhile starts at once when the source is still loaded
    /// (`source_loaded`), and is dropped otherwise. `None` when `key` has no
    /// build in flight.
    pub fn land(&mut self, key: VariantKey, source_loaded: bool) -> (r: Option<Landed>)
        requires
            old(self).well_formed(),
        ensures
            final(self).well_formed(),
            final(self).bound() == old(self).bound(),
            final(self).pending() == old(self).pending(),
            (key_index(old(self).variants(), key) < 0 || !old(self).variants()[key_index(
                old(self).variants(),
                key,
            )].1.building) ==> r is None && final(self).variants() == old(self).variants(),
            (key_index(old(self).variants(), key) >= 0 && old(self).variants()[key_index(
                old(self).variants(),
                key,
            )].1.building) ==> ({
                let vi = key_index(old(self).variants(), key);
                let v = old(self).variants()[vi].1;
                let again = v.rebuild && source_loaded;
                &&& r == Some(Landed { handle: v.handle, first: !v.ready, rebuild: again })
                &&& final(self).variants() == old(self).variants().update(
                    vi,
                    (key, Variant { ready: true, building: again, rebuild: false, ..v }),
                )
            }),
    {
        let vi = match self.position_of_key(key) {
            Some(vi) => vi,
            None => {
                return None;
            },
        };
        let v = self.variants[vi].1;
        if !v.building {
            return None;
        }
        let again = v.rebuild && source_loaded;
        let nv = Variant { ready: true, building: again, rebuild: false, ..v };
        let ghost before = *self;
        self.variants.set(vi, (key, nv));
        proof {
            self.lemma_flags_updated(&before, vi as int, nv);
        }
        Some(Landed { handle: v.handle, first: !v.ready, rebuild: again })
    }

    /// The nodes waiting for their source, to retry this frame.
    pub fn pending_entities(&self) -> (r: Vec<u64>)
        ensures
            r@ == self.pending(),
    {
        self.pending.clone()
    }

    /// How many nodes are bound.
    pub fn binding_count(&self) -> (r: usize)
        ensures
            r == self.bound().len(),
    {
        self.bound.len()
    }

    /// Live variant assets (one per `(source, mode)` in use).
    pub fn variant_count(&self) -> (r: usize)
        ensures
            r == self.variants().len(),
    {
        self.variants.len()
    }
}

} // verus!
