//! The registry of known filters, keyed by wire name. Registering is
//! idempotent per type: the same type under its name again changes
//! nothing, while a different type claiming an occupied name replaces the
//! previous entry (and the caller warns). A registered filter's resolve
//! re-checks every pass it produced against the param cap.

use vstd::prelude::*;

use super::params::{check_param_cap, param_cap_message, MAX_FILTER_PARAM_VECS};

verus! {

/// Known filters by wire name: each entry is the name, the registering
/// type (as a key the caller assigns one per type), and its payload.
pub struct FilterRegistry<E> {
    entries: Vec<(String, u64, E)>,
}

/// What a registration did.
#[derive(Debug, Clone, Copy, PartialEq, Eq)]
pub enum Registered {
    /// A new name.
    Added,
    /// The same type under its name again: nothing changed.
    Kept,
    /// A different type claimed the name: its entry replaced that of
    /// `previous`.
    Replaced { previous: u64 },
}

/// The index of the entry under `name`, or `-1`.
pub open spec fn name_index<E>(entries: Seq<(String, u64, E)>, name: Seq<char>) -> int {
    if exists|i: int| 0 <= i < entries.len() && entries[i].0@ == name {
        choose|i: int| 0 <= i < entries.len() && entries[i].0@ == name
    } else {
        -1
    }
}

/// The entries after registering `entry` of type `type_key` under `name`:
/// a new name is appended, the same type under its name changes nothing,
/// and a different type replaces the entry in place.
pub open spec fn registered<E>(
    entries: Seq<(String, u64, E)>,
    name: String,
    type_key: u64,
    entry: E,
) -> Seq<(String, u64, E)> {
    let i = name_index(entries, name@);
    if i < 0 {
        entries.push((name, type_key, entry))
    } else if entries[i].1 == type_key {
        entries
    } else {
        entries.update(i, (name, type_key, entry))
    }
}

impl<E> FilterRegistry<E> {
    /// The entries, in registration order.
    pub closed spec fn entries(&self) -> Seq<(String, u64, E)> {
        self.entries@
    }

    /// No name is registered twice.
    pub open spec fn well_formed(&self) -> bool {
        forall|i: int, j: int|
            0 <= i < self.entries().len() && 0 <= j < self.entries().len() && i != j
                ==> #[trigger] self.entries()[i].0@ != #[trigger] self.entries()[j].0@
    }

    /// An empty registry.
    pub fn new() -> (r: Self)
        ensures
            r.well_formed(),
            r.entries().len() == 0,
    {
        FilterRegistry { entries: Vec::new() }
    }

    fn position(&self, name: &String) -> (r: Option<usize>)
        requires
            self.well_formed(),
        ensures
            name_index(self.entries(), name@) < 0 ==> r is None,
            r matches Some(i) ==> i == name_index(self.entries(), name@) && i < self.entries().len(),
            name_index(self.entries(), name@) >= 0 ==> r is Some,
    {
        let mut i: usize = 0;
        while i < self.entries.len()
            invariant
                0 <= i <= self.entries@.len(),
                self.well_formed(),
                forall|j: int| 0 <= j < i ==> self.entries@[j].0@ != name@,
            decreases self.entries@.len() - i,
        {
            if self.entries[i].0 == *name {
                proof {
                    let k = name_index(self.entries(), name@);
                    assert(0 <= k < self.entries().len() && self.entries()[k].0@ == name@);
                    if k != i {
                        assert(self.entries()[k].0@ != self.entries()[i as int].0@);
                    }
                }
                return Some(i);
            }
            i = i + 1;
        }
        None
    }

    /// Register `entry` of type `type_key` under `name` (see [`Registered`]).
    pub fn register(&mut self, name: String, type_key: u64, entry: E) -> (r: Registered)
        requires
            old(self).well_formed(),
        ensures
            final(self).well_formed(),
            final(self).entries() == registered(old(self).entries(), name, type_key, entry),
            ({
                let i = name_index(old(self).entries(), name@);
                if i < 0 {
                    r == Registered::Added
                } else if old(self).entries()[i].1 == type_key {
                    r == Registered::Kept
                } else {
                    r == (Registered::Replaced { previous: old(self).entries()[i].1 })
                }
            }),
    {
        match self.position(&name) {
            None => {
                let ghost before = self.entries();
                self.entries.push((name, type_key, entry));
                proof {
                    assert forall|a: int, b: int|
                        0 <= a < self.entries().len() && 0 <= b < self.entries().len() && a != b
                            implies #[trigger] self.entries()[a].0@
                            != #[trigger] self.entries()[b].0@ by {
                        if a < before.len() && b < before.len() {
                            assert(before[a].0@ != before[b].0@);
                        } else if a < before.len() {
                            assert(self.entries()[a] == before[a]);
                            assert(before[a].0@ != name@);
                        } else {
                            assert(self.entries()[b] == before[b]);
                            assert(before[b].0@ != name@);
                        }
                    }
                }
                Registered::Added
            },
            Some(i) => {
                let previous = self.entries[i].1;
                if previous == type_key {
                    Registered::Kept
                } else {
                    let ghost before = self.entries();
                    self.entries.set(i, (name, type_key, entry));
                    proof {
                        assert forall|a: int, b: int|
                            0 <= a < self.entries().len() && 0 <= b < self.entries().len() && a
                                != b implies #[trigger] self.entries()[a].0@
                                != #[trigger] self.entries()[b].0@ by {
                            assert(self.entries()[a].0@ == before[a].0@);
                            assert(self.entries()[b].0@ == before[b].0@);
                        }
                    }
                    Registered::Replaced { previous }
                }
            },
        }
    }

    /// The entry under `name`, if any.
    pub fn get(&self, name: &String) -> (r: Option<&E>)
        requires
            self.well_formed(),
        ensures
            name_index(self.entries(), name@) < 0 ==> r is None,
            name_index(self.entries(), name@) >= 0 ==> r == Some(
                &self.entries()[name_index(self.entries(), name@)].2,
            ),
    {
        match self.position(name) {
            Some(i) => Some(&self.entries[i].2),
            None => None,
        }
    }

    /// How many names are registered.
    pub fn len(&self) -> (r: usize)
        ensures
            r == self.entries().len(),
    {
        self.entries.len()
    }
}

/// Registering the same type under its name again is a no-op: a second
/// registration right after the first leaves the registry as the first left
/// it, whatever payload it carries.
pub proof fn lemma_register_idempotent<E>(
    entries: Seq<(String, u64, E)>,
    name: String,
    type_key: u64,
    first: E,
    second: E,
)
    requires
        forall|i: int, j: int|
            0 <= i < entries.len() && 0 <= j < entries.len() && i != j ==> #[trigger] entries[i].0@
                != #[trigger] entries[j].0@,
    ensures
        registered(registered(entries, name, type_key, first), name, type_key, second)
            == registered(entries, name, type_key, first),
{
    let once = registered(entries, name, type_key, first);
    let i = name_index(entries, name@);
    if i < 0 {
        assert(once[entries.len() as int].0@ == name@);
        let k = name_index(once, name@);
        assert(0 <= k < once.len() && once[k].0@ == name@);
        if k < entries.len() {
            assert(once[k] == entries[k]);
            assert(exists|j: int| 0 <= j < entries.len() && entries[j].0@ == name@);
        }
    } else if entries[i].1 != type_key {
        assert(once[i].0@ == name@);
        let k = name_index(once, name@);
        assert(0 <= k < once.len() && once[k].0@ == name@);
        if k != i {
            assert(once[k] == entries[k]);
            assert(entries[k].0@ != entries[i].0@);
        }
    }
}

/// Pass `i` is the first whose param count is over the cap.
pub open spec fn first_over_cap(param_vecs: Seq<usize>, i: int) -> bool {
    &&& 0 <= i < param_vecs.len()
    &&& param_vecs[i] > MAX_FILTER_PARAM_VECS
    &&& forall|j: int| 0 <= j < i ==> #[trigger] param_vecs[j] <= MAX_FILTER_PARAM_VECS
}

/// The resolve a registration bakes for the filter `name`: the filter's own
/// resolve result (`resolved`), with every pass re-checked against the
/// param cap, since a custom resolve bypasses the default's check.
/// `param_vecs[i]` is how many param `Vec4`s pass `i` packs. A rejection of
/// the filter's own passes through unchanged; the first pass over the cap
/// rejects the entry with the cap message; else the passes stand.
pub fn registered_resolve<P>(name: &str, resolved: Result<Vec<P>, String>, param_vecs: &Vec<usize>) -> (r:
    Result<Vec<P>, String>)
    ensures
        resolved is Err ==> r == resolved,
        resolved is Ok && (forall|i: int|
            0 <= i < param_vecs@.len() ==> #[trigger] param_vecs@[i] <= MAX_FILTER_PARAM_VECS)
            ==> r == resolved,
        forall|i: int|
            resolved is Ok && #[trigger] first_over_cap(param_vecs@, i) ==> (r matches Err(msg)
                && msg@ == param_cap_message(name@, param_vecs@[i] as nat)),
{
    match resolved {
        Err(msg) => Err(msg),
        Ok(passes) => {
            let mut i: usize = 0;
            while i < param_vecs.len()
                invariant
                    resolved == Ok::<Vec<P>, String>(passes),
                    0 <= i <= param_vecs@.len(),
                    forall|j: int| 0 <= j < i ==> #[trigger] param_vecs@[j] <= MAX_FILTER_PARAM_VECS,
                decreases param_vecs@.len() - i,
            {
                match check_param_cap(name, param_vecs[i]) {
                    Err(msg) => {
                        proof {
                            assert(first_over_cap(param_vecs@, i as int));
                            assert forall|k: int| #[trigger] first_over_cap(param_vecs@, k) implies k
                                == i by {
                                if k < i {
                                    assert(param_vecs@[k] <= MAX_FILTER_PARAM_VECS);
                                } else if k > i {
                                    assert(param_vecs@[i as int] <= MAX_FILTER_PARAM_VECS);
                                }
                            }
                        }
                        return Err(msg);
                    },
                    Ok(()) => {},
                }
                i = i + 1;
            }
            Ok(passes)
        },
    }
}

} // verus!
