//! A JSON value model: what the wire decoders read of a parsed JSON value.

use vstd::prelude::*;

verus! {

/// A parsed JSON value. Numbers are carried as their canonical JSON text
/// (the decoders never read them); objects keep their entries in order.
#[derive(Debug)]
pub enum JsonValue {
    Null,
    Bool(bool),
    Number(String),
    String(String),
    Array(Vec<JsonValue>),
    Object(Vec<(String, JsonValue)>),
}

/// The index of the first entry under `key`, or `-1`.
pub open spec fn find_key(entries: Seq<(String, JsonValue)>, key: Seq<char>) -> int
    decreases entries.len(),
{
    if entries.len() == 0 {
        -1
    } else if entries[0].0@ == key {
        0
    } else {
        let r = find_key(entries.subrange(1, entries.len() as int), key);
        if r < 0 {
            -1
        } else {
            r + 1
        }
    }
}

/// `find_key` finds the first entry under the key.
pub proof fn lemma_find_key(entries: Seq<(String, JsonValue)>, key: Seq<char>)
    ensures
        -1 <= find_key(entries, key) < entries.len(),
        find_key(entries, key) >= 0 ==> entries[find_key(entries, key)].0@ == key,
        forall|j: int|
            0 <= j < entries.len() && (find_key(entries, key) < 0 || j < find_key(entries, key))
                ==> entries[j].0@ != key,
    decreases entries.len(),
{
    if entries.len() > 0 && entries[0].0@ != key {
        let tail = entries.subrange(1, entries.len() as int);
        lemma_find_key(tail, key);
        assert forall|j: int|
            0 <= j < entries.len() && (find_key(entries, key) < 0 || j < find_key(entries, key))
                implies entries[j].0@ != key by {
            if j > 0 {
                assert(entries[j] == tail[j - 1]);
            }
        }
    }
}

/// Remove the first entry under `key` from an object's entries, handing back
/// its value.
pub fn take_key(entries: &mut Vec<(String, JsonValue)>, key: &String) -> (r: Option<JsonValue>)
    ensures
        find_key(old(entries)@, key@) < 0 ==> r is None && final(entries)@ == old(entries)@,
        find_key(old(entries)@, key@) >= 0 ==> ({
            let k = find_key(old(entries)@, key@);
            &&& r == Some(old(entries)@[k].1)
            &&& final(entries)@ == old(entries)@.remove(k)
        }),
{
    let ghost k = find_key(entries@, key@);
    proof {
        lemma_find_key(entries@, key@);
    }
    let mut i: usize = 0;
    while i < entries.len()
        invariant
            0 <= i <= entries.len(),
            entries@ == old(entries)@,
            k == find_key(entries@, key@),
            -1 <= k < entries.len(),
            k >= 0 ==> entries@[k].0@ == key@,
            forall|j: int| 0 <= j < entries.len() && (k < 0 || j < k) ==> entries@[j].0@ != key@,
            k < 0 || i <= k,
        decreases entries.len() - i,
    {
        if entries[i].0 == *key {
            assert(k == i);
            let (_, v) = entries.remove(i);
            return Some(v);
        }
        i = i + 1;
    }
    None
}

} // verus!
