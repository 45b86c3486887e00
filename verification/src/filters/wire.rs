//! The `filter` style's wire format: one `{"name", "params"}` object or an
//! ordered array of them, decoded warn-don't-abort — a malformed value
//! degrades the whole chain to empty and is reported as a [`WireWarning`],
//! never failing the containing style's decode.

use vstd::prelude::*;
use vstd::string::*;

use super::json::{find_key, lemma_find_key, take_key, JsonValue};
use crate::text::{decimal, push_decimal};

verus! {

/// Longest decodable chain: a pass's wire index is a `u8`, so only entry
/// indices `0..=255` are addressable.
pub const MAX_CHAIN_LEN: usize = 256;

/// One filter invocation in a chain: a registry name plus its raw, untyped
/// parameter map (empty when the wire object has no `params` or `params` is
/// `null`).
#[derive(Debug)]
pub struct FilterUse {
    pub name: String,
    pub params: Vec<(String, JsonValue)>,
}

/// An ordered filter chain, applied in order.
#[derive(Debug)]
pub struct FilterChain(pub Vec<FilterUse>);

/// Why the `name`/`params` fields of an entry object are rejected.
#[derive(Debug, Clone, Copy, PartialEq, Eq, Structural)]
pub enum FieldProblem {
    /// The object has no `name`.
    MissingName,
    /// The `name` is not a string.
    NameNotString,
    /// The `params` is neither an object nor `null`.
    ParamsNotObject,
}

/// Why a wire `filter` value could not be decoded.
#[derive(Debug, Clone, Copy, PartialEq, Eq, Structural)]
pub enum WireProblem {
    /// The top-level value is neither an object nor an array.
    NotObjectOrArray,
    /// A chain entry is not an object.
    EntryNotObject,
    /// A chain entry's `name`/`params` are rejected.
    Field(FieldProblem),
}

/// What a degraded decode reports: the most precise offending value with its
/// problem, or an over-long chain (whose length is the whole story).
#[derive(Debug)]
pub enum WireWarning {
    Malformed { offending: JsonValue, problem: WireProblem },
    TooLong { entries: usize },
}

/// Why the `name`/`params` fields of an entry object (its entries `e`) are
/// rejected, if they are.
pub open spec fn fields_problem(e: Seq<(String, JsonValue)>) -> Option<FieldProblem> {
    let ni = find_key(e, "name"@);
    if ni < 0 {
        Some(FieldProblem::MissingName)
    } else {
        match e[ni].1 {
            JsonValue::String(_) => {
                let rest = e.remove(ni);
                let pi = find_key(rest, "params"@);
                if pi < 0 {
                    None
                } else {
                    match rest[pi].1 {
                        JsonValue::Null => None,
                        JsonValue::Object(_) => None,
                        _ => Some(FieldProblem::ParamsNotObject),
                    }
                }
            },
            _ => Some(FieldProblem::NameNotString),
        }
    }
}

/// The value reported for rejected fields: the whole object when it lacks a
/// name, else the offending `name`/`params` value.
pub open spec fn fields_offending(e: Seq<(String, JsonValue)>, off: JsonValue) -> bool {
    let ni = find_key(e, "name"@);
    if ni < 0 {
        off matches JsonValue::Object(o) && o@ == e
    } else {
        match e[ni].1 {
            JsonValue::String(_) => {
                let rest = e.remove(ni);
                off == rest[find_key(rest, "params"@)].1
            },
            _ => off == e[ni].1,
        }
    }
}

/// Accepted fields decode to the `name` string and the `params` entries
/// (none when `params` is absent or `null`).
pub open spec fn fields_decode(e: Seq<(String, JsonValue)>, u: FilterUse) -> bool {
    let ni = find_key(e, "name"@);
    &&& ni >= 0
    &&& e[ni].1 == JsonValue::String(u.name)
    &&& {
        let rest = e.remove(ni);
        let pi = find_key(rest, "params"@);
        if pi < 0 {
            u.params@.len() == 0
        } else {
            match rest[pi].1 {
                JsonValue::Object(p) => u.params@ == p@,
                _ => u.params@.len() == 0,
            }
        }
    }
}

/// Decode the `name`/`params` fields of an entry object, consuming it.
pub fn decode_fields(obj: Vec<(String, JsonValue)>) -> (r: Result<FilterUse, (JsonValue, FieldProblem)>)
    ensures
        match r {
            Ok(u) => fields_problem(obj@) is None && fields_decode(obj@, u),
            Err((off, p)) => fields_problem(obj@) == Some(p) && fields_offending(obj@, off),
        },
{
    let mut obj = obj;
    let ghost orig = obj@;
    proof {
        lemma_find_key(orig, "name"@);
    }
    let name_key = String::from_str("name");
    let name = match take_key(&mut obj, &name_key) {
        Some(JsonValue::String(name)) => name,
        Some(other) => {
            return Err((other, FieldProblem::NameNotString));
        },
        None => {
            return Err((JsonValue::Object(obj), FieldProblem::MissingName));
        },
    };
    let ghost rest = obj@;
    proof {
        lemma_find_key(rest, "params"@);
    }
    let params_key = String::from_str("params");
    let params = match take_key(&mut obj, &params_key) {
        None => Vec::new(),
        Some(JsonValue::Null) => Vec::new(),
        Some(JsonValue::Object(p)) => p,
        Some(other) => {
            return Err((other, FieldProblem::ParamsNotObject));
        },
    };
    Ok(FilterUse { name, params })
}

/// Why one chain entry is rejected, if it is.
pub open spec fn entry_problem(v: JsonValue) -> Option<WireProblem> {
    match v {
        JsonValue::Object(obj) => match fields_problem(obj@) {
            Some(p) => Some(WireProblem::Field(p)),
            None => None,
        },
        _ => Some(WireProblem::EntryNotObject),
    }
}

/// The value reported for a rejected entry: the entry itself when it is not
/// an object, else the offending field value.
pub open spec fn offending_matches(v: JsonValue, off: JsonValue) -> bool {
    match v {
        JsonValue::Object(obj) => fields_offending(obj@, off),
        _ => off == v,
    }
}

/// An accepted entry decodes to its `name` string and its `params` entries.
pub open spec fn use_decodes(v: JsonValue, u: FilterUse) -> bool {
    match v {
        JsonValue::Object(obj) => fields_decode(obj@, u),
        _ => false,
    }
}

/// Decode one `{"name", "params"}` entry, consuming it. An error hands back
/// the most precise offending value alongside the problem.
pub fn filter_use(value: JsonValue) -> (r: Result<FilterUse, (JsonValue, WireProblem)>)
    ensures
        match r {
            Ok(u) => entry_problem(value) is None && use_decodes(value, u),
            Err((off, p)) => entry_problem(value) == Some(p) && offending_matches(value, off),
        },
{
    match value {
        JsonValue::Object(obj) => match decode_fields(obj) {
            Ok(u) => Ok(u),
            Err((off, p)) => Err((off, WireProblem::Field(p))),
        },
        other => Err((other, WireProblem::EntryNotObject)),
    }
}

/// The index of the first rejected entry, or `-1`.
pub open spec fn first_bad(items: Seq<JsonValue>) -> int
    decreases items.len(),
{
    if items.len() == 0 {
        -1
    } else if entry_problem(items[0]) is Some {
        0
    } else {
        let r = first_bad(items.subrange(1, items.len() as int));
        if r < 0 {
            -1
        } else {
            r + 1
        }
    }
}

proof fn lemma_first_bad(items: Seq<JsonValue>)
    ensures
        -1 <= first_bad(items) < items.len(),
        first_bad(items) >= 0 ==> entry_problem(items[first_bad(items)]) is Some,
        forall|j: int|
            0 <= j < items.len() && (first_bad(items) < 0 || j < first_bad(items))
                ==> entry_problem(items[j]) is None,
    decreases items.len(),
{
    if items.len() > 0 && entry_problem(items[0]) is None {
        let tail = items.subrange(1, items.len() as int);
        lemma_first_bad(tail);
        assert forall|j: int|
            0 <= j < items.len() && (first_bad(items) < 0 || j < first_bad(items))
                implies entry_problem(items[j]) is None by {
            if j > 0 {
                assert(items[j] == tail[j - 1]);
            }
        }
    }
}

/// What decoding a list of chain entries yields: over-long lists degrade
/// with [`WireWarning::TooLong`]; otherwise every entry decodes in order, or
/// the first rejected entry degrades the whole chain to empty and is
/// reported.
pub open spec fn entries_decode(
    items: Seq<JsonValue>,
    chain: Seq<FilterUse>,
    warning: Option<WireWarning>,
) -> bool {
    if items.len() > MAX_CHAIN_LEN {
        &&& chain.len() == 0
        &&& warning matches Some(WireWarning::TooLong { entries }) && entries == items.len()
    } else if first_bad(items) < 0 {
        &&& warning is None
        &&& chain.len() == items.len()
        &&& forall|i: int| 0 <= i < items.len() ==> use_decodes(items[i], #[trigger] chain[i])
    } else {
        let k = first_bad(items);
        &&& chain.len() == 0
        &&& warning matches Some(WireWarning::Malformed { offending, problem })
        &&& Some(problem) == entry_problem(items[k])
        &&& offending_matches(items[k], offending)
    }
}

/// Decode a list of chain entries (see [`entries_decode`]).
fn decode_entries(entries: Vec<JsonValue>) -> (r: (FilterChain, Option<WireWarning>))
    ensures
        entries_decode(entries@, r.0.0@, r.1),
{
    let ghost items = entries@;
    if entries.len() > MAX_CHAIN_LEN {
        return (FilterChain(Vec::new()), Some(WireWarning::TooLong { entries: entries.len() }));
    }
    proof {
        lemma_first_bad(items);
    }
    let mut rest = entries;
    let mut uses: Vec<FilterUse> = Vec::new();
    let n = rest.len();
    let mut i: usize = 0;
    while i < n
        invariant
            n == items.len() <= MAX_CHAIN_LEN,
            items == entries@,
            0 <= i <= n,
            rest@ == items.subrange(i as int, n as int),
            uses@.len() == i,
            forall|j: int| 0 <= j < i ==> entry_problem(items[j]) is None,
            forall|j: int| 0 <= j < i ==> use_decodes(items[j], #[trigger] uses@[j]),
            -1 <= first_bad(items) < n,
            first_bad(items) >= 0 ==> entry_problem(items[first_bad(items)]) is Some,
            forall|j: int|
                0 <= j < n && (first_bad(items) < 0 || j < first_bad(items)) ==> entry_problem(
                    items[j],
                ) is None,
        decreases n - i,
    {
        let entry = rest.remove(0);
        assert(entry == items[i as int]);
        match filter_use(entry) {
            Ok(u) => {
                uses.push(u);
            },
            Err((offending, problem)) => {
                assert(first_bad(items) == i);
                return (
                    FilterChain(Vec::new()),
                    Some(WireWarning::Malformed { offending, problem }),
                );
            },
        }
        proof {
            assert(rest@ =~= items.subrange(i + 1, n as int));
        }
        i = i + 1;
    }
    assert(first_bad(items) < 0);
    (FilterChain(uses), None)
}

/// What decoding a whole wire `filter` value yields: an array is a list of
/// entries, a single object a one-entry list, anything else degrades to an
/// empty chain reported as [`WireProblem::NotObjectOrArray`].
pub open spec fn chain_decodes(
    value: JsonValue,
    chain: Seq<FilterUse>,
    warning: Option<WireWarning>,
) -> bool {
    match value {
        JsonValue::Array(items) => entries_decode(items@, chain, warning),
        JsonValue::Object(_) => entries_decode(seq![value], chain, warning),
        _ => {
            &&& chain.len() == 0
            &&& warning matches Some(WireWarning::Malformed { offending, problem })
            &&& offending == value
            &&& problem == WireProblem::NotObjectOrArray
        },
    }
}

/// Decode a wire `filter` value, warn-don't-abort: never fails, a malformed
/// value degrades the whole chain to empty and comes back as a warning.
pub fn chain_from_value(value: JsonValue) -> (r: (FilterChain, Option<WireWarning>))
    ensures
        chain_decodes(value, r.0.0@, r.1),
{
    match value {
        JsonValue::Array(entries) => decode_entries(entries),
        JsonValue::Object(obj) => {
            let mut entries: Vec<JsonValue> = Vec::new();
            entries.push(JsonValue::Object(obj));
            proof {
                assert(entries@ =~= seq![value]);
            }
            decode_entries(entries)
        },
        other => (
            FilterChain(Vec::new()),
            Some(WireWarning::Malformed { offending: other, problem: WireProblem::NotObjectOrArray }),
        ),
    }
}

/// The decode-warning kind every malformed `filter` value reports under.
pub const DECODE_KIND: &'static str = "filterParams";

/// The warning text for a malformed `filter` value, given the offending
/// value rendered as compact JSON.
pub open spec fn wire_message(p: WireProblem, rendered: Seq<char>) -> Seq<char> {
    match p {
        WireProblem::NotObjectOrArray => "filter must be an object or array of objects, got "@
            + rendered,
        WireProblem::EntryNotObject => "filter entry must be an object, got "@ + rendered,
        WireProblem::Field(FieldProblem::NameNotString) => "filter name must be a string, got "@
            + rendered,
        WireProblem::Field(FieldProblem::MissingName) => "filter entry "@ + rendered
            + " is missing \"name\""@,
        WireProblem::Field(FieldProblem::ParamsNotObject) =>
            "filter params must be an object, got "@ + rendered,
    }
}

/// The warning text for a malformed `filter` value (see [`wire_message`]).
pub fn wire_problem_message(p: WireProblem, rendered: &str) -> (r: String)
    ensures
        r@ == wire_message(p, rendered@),
{
    match p {
        WireProblem::NotObjectOrArray => String::from_str(
            "filter must be an object or array of objects, got ",
        ).concat(rendered),
        WireProblem::EntryNotObject => String::from_str("filter entry must be an object, got ").concat(
            rendered,
        ),
        WireProblem::Field(FieldProblem::NameNotString) => String::from_str(
            "filter name must be a string, got ",
        ).concat(rendered),
        WireProblem::Field(FieldProblem::MissingName) => String::from_str("filter entry ").concat(
            rendered,
        ).concat(" is missing \"name\""),
        WireProblem::Field(FieldProblem::ParamsNotObject) => String::from_str(
            "filter params must be an object, got ",
        ).concat(rendered),
    }
}

/// The value an over-long chain is reported with: its length, not the
/// (huge) array itself.
pub fn too_long_value(entries: usize) -> (r: String)
    ensures
        r@ == "[array of "@ + decimal(entries as nat) + " entries]"@,
{
    let mut s = String::from_str("[array of ");
    push_decimal(&mut s, entries);
    s.append(" entries]");
    s
}

/// The warning text for an over-long chain.
pub fn too_long_message(entries: usize) -> (r: String)
    ensures
        r@ == "filter chain has "@ + decimal(entries as nat) + " entries, over the cap of 256"@,
{
    let mut s = String::from_str("filter chain has ");
    push_decimal(&mut s, entries);
    s.append(" entries, over the cap of 256");
    s
}

} // verus!
