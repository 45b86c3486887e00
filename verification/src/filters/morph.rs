//! The `morphFilter` style: a view-transition-style morph between a node's
//! old and new content. Wire shape: `{ key, name, params }` — a
//! [`FilterUse`] plus a `key` whose change triggers the morph. Decoding is
//! warn-don't-abort: a malformed value degrades the whole field to `None`.

use vstd::prelude::*;
use vstd::string::*;

use super::json::{find_key, lemma_find_key, take_key, JsonValue};
use super::wire::{
    decode_fields, fields_decode, fields_offending, fields_problem, FieldProblem, FilterUse,
};
use crate::text::{debug_quoted, debug_str, decimal, push_decimal};

verus! {

/// User params of a morph filter may occupy at most this many `Vec4` slots:
/// the last two of the eight are engine-reserved on a morph pass.
pub const MORPH_MAX_USER_PARAM_VECS: usize = 6;

/// The decode-warning kind a malformed `morphFilter` reports under.
pub const MORPH_DECODE_KIND: &'static str = "morphFilterParams";

/// The decoded `morphFilter` style value: the morph identity `key` (a string
/// or number) plus the two-input filter to blend with.
#[derive(Debug)]
pub struct MorphFilter {
    pub key: JsonValue,
    pub filter: FilterUse,
}

/// Why a `morphFilter` value could not be decoded.
#[derive(Debug, Clone, Copy, PartialEq, Eq, Structural)]
pub enum MorphProblem {
    /// The value is not an object.
    NotObject,
    /// The object has no `key`.
    MissingKey,
    /// The `key` is neither a string nor a number.
    KeyNotStringOrNumber,
    /// The `name`/`params` fields are rejected.
    Field(FieldProblem),
}

/// Why a (non-null) `morphFilter` value is rejected, if it is.
pub open spec fn morph_problem(v: JsonValue) -> Option<MorphProblem> {
    match v {
        JsonValue::Object(obj) => {
            let ki = find_key(obj@, "key"@);
            if ki < 0 {
                Some(MorphProblem::MissingKey)
            } else {
                match obj@[ki].1 {
                    JsonValue::String(_) | JsonValue::Number(_) => match fields_problem(
                        obj@.remove(ki),
                    ) {
                        Some(p) => Some(MorphProblem::Field(p)),
                        None => None,
                    },
                    _ => Some(MorphProblem::KeyNotStringOrNumber),
                }
            }
        },
        _ => Some(MorphProblem::NotObject),
    }
}

/// The value reported for a rejected `morphFilter`: the value itself when it
/// is not an object, the object when it lacks a key, the offending key, or
/// the offending field (with the key already taken out of the object).
pub open spec fn morph_offending(v: JsonValue, off: JsonValue) -> bool {
    match v {
        JsonValue::Object(obj) => {
            let ki = find_key(obj@, "key"@);
            if ki < 0 {
                off matches JsonValue::Object(o) && o@ == obj@
            } else {
                match obj@[ki].1 {
                    JsonValue::String(_) | JsonValue::Number(_) => fields_offending(
                        obj@.remove(ki),
                        off,
                    ),
                    _ => off == obj@[ki].1,
                }
            }
        },
        _ => off == v,
    }
}

/// An accepted `morphFilter` decodes to its key and its filter use.
pub open spec fn morph_decodes(v: JsonValue, m: MorphFilter) -> bool {
    match v {
        JsonValue::Object(obj) => {
            let ki = find_key(obj@, "key"@);
            &&& ki >= 0
            &&& m.key == obj@[ki].1
            &&& fields_decode(obj@.remove(ki), m.filter)
        },
        _ => false,
    }
}

/// Decode a (non-null) `morphFilter` value, consuming it.
pub fn morph_from_value(value: JsonValue) -> (r: Result<MorphFilter, (JsonValue, MorphProblem)>)
    ensures
        match r {
            Ok(m) => morph_problem(value) is None && morph_decodes(value, m),
            Err((off, p)) => morph_problem(value) == Some(p) && morph_offending(value, off),
        },
{
    match value {
        JsonValue::Object(obj) => {
            let mut obj = obj;
            proof {
                lemma_find_key(obj@, "key"@);
            }
            let key_key = String::from_str("key");
            let key = match take_key(&mut obj, &key_key) {
                Some(JsonValue::String(s)) => JsonValue::String(s),
                Some(JsonValue::Number(n)) => JsonValue::Number(n),
                Some(other) => {
                    return Err((other, MorphProblem::KeyNotStringOrNumber));
                },
                None => {
                    return Err((JsonValue::Object(obj), MorphProblem::MissingKey));
                },
            };
            match decode_fields(obj) {
                Ok(filter) => Ok(MorphFilter { key, filter }),
                Err((off, p)) => Err((off, MorphProblem::Field(p))),
            }
        },
        other => Err((other, MorphProblem::NotObject)),
    }
}

/// `Style.morph_filter`'s decode: `null` is no morph (no warning); a
/// malformed value degrades the whole field to `None` and is reported.
pub fn morph_field_from_value(value: JsonValue) -> (r: (
    Option<MorphFilter>,
    Option<(JsonValue, MorphProblem)>,
))
    ensures
        value is Null ==> r.0 is None && r.1 is None,
        !(value is Null) ==> match r.0 {
            Some(m) => r.1 is None && morph_problem(value) is None && morph_decodes(value, m),
            None => r.1 matches Some((off, p)) && morph_problem(value) == Some(p)
                && morph_offending(value, off),
        },
{
    if let JsonValue::Null = value {
        return (None, None);
    }
    match morph_from_value(value) {
        Ok(m) => (Some(m), None),
        Err(e) => (None, Some(e)),
    }
}

/// The warning text for a malformed `morphFilter`, given the offending value
/// rendered as compact JSON.
pub open spec fn morph_message(p: MorphProblem, rendered: Seq<char>) -> Seq<char> {
    match p {
        MorphProblem::NotObject => "morphFilter must be a { key, name, params } object, got "@
            + rendered,
        MorphProblem::MissingKey => "morphFilter "@ + rendered + " is missing \"key\""@,
        MorphProblem::KeyNotStringOrNumber => "morphFilter key must be a string or number, got "@
            + rendered,
        MorphProblem::Field(FieldProblem::NameNotString) =>
            "morphFilter name must be a string, got "@ + rendered,
        MorphProblem::Field(FieldProblem::MissingName) => "morphFilter "@ + rendered
            + " is missing \"name\""@,
        MorphProblem::Field(FieldProblem::ParamsNotObject) =>
            "morphFilter params must be an object, got "@ + rendered,
    }
}

/// The warning text for a malformed `morphFilter` (see [`morph_message`]).
pub fn morph_problem_message(p: MorphProblem, rendered: &str) -> (r: String)
    ensures
        r@ == morph_message(p, rendered@),
{
    match p {
        MorphProblem::NotObject => String::from_str(
            "morphFilter must be a { key, name, params } object, got ",
        ).concat(rendered),
        MorphProblem::MissingKey => String::from_str("morphFilter ").concat(rendered).concat(
            " is missing \"key\"",
        ),
        MorphProblem::KeyNotStringOrNumber => String::from_str(
            "morphFilter key must be a string or number, got ",
        ).concat(rendered),
        MorphProblem::Field(FieldProblem::NameNotString) => String::from_str(
            "morphFilter name must be a string, got ",
        ).concat(rendered),
        MorphProblem::Field(FieldProblem::MissingName) => String::from_str("morphFilter ").concat(
            rendered,
        ).concat(" is missing \"name\""),
        MorphProblem::Field(FieldProblem::ParamsNotObject) => String::from_str(
            "morphFilter params must be an object, got ",
        ).concat(rendered),
    }
}

/// Why a resolved `morphFilter` entry is rejected, in check order: the
/// family first, then the single-pass rule, then the user-param cap.
#[derive(Debug, Clone, Copy, PartialEq, Eq, Structural)]
pub enum MorphEntryProblem {
    NotMorph,
    PassCount,
    ParamCap,
}

/// The morph entry rule over the resolved passes' packed `Vec4` counts.
pub open spec fn morph_entry_problem(is_morph: bool, pass_vecs: Seq<usize>) -> Option<
    MorphEntryProblem,
> {
    if !is_morph {
        Some(MorphEntryProblem::NotMorph)
    } else if pass_vecs.len() != 1 {
        Some(MorphEntryProblem::PassCount)
    } else if pass_vecs[0] > MORPH_MAX_USER_PARAM_VECS {
        Some(MorphEntryProblem::ParamCap)
    } else {
        None
    }
}

/// The rejection text of a `morphFilter` entry.
pub open spec fn morph_entry_message(
    name: Seq<char>,
    p: MorphEntryProblem,
    pass_vecs: Seq<usize>,
) -> Seq<char> {
    match p {
        MorphEntryProblem::NotMorph => debug_str(name)
            + " is not a morph filter — register it with #[react_morph_filter] / add_react_morph_filter"@,
        MorphEntryProblem::PassCount => "a morph filter must resolve to exactly one pass, got "@
            + decimal(pass_vecs.len()) + " — multi-pass filters cannot be used as morphs"@,
        MorphEntryProblem::ParamCap => "morph filter params occupy "@ + decimal(
            pass_vecs[0] as nat,
        ) + " vec4 slots, over the cap of 6 (the last two are engine-reserved)"@,
    }
}

/// Validate a resolved `morphFilter` entry: it must belong to the morph
/// family, resolve to exactly one pass, and leave the two engine-reserved
/// `Vec4`s free. `pass_vecs` holds each resolved pass's packed `Vec4` count.
pub fn validate_morph_entry(name: &str, is_morph: bool, pass_vecs: &[usize]) -> (r: Result<
    (),
    String,
>)
    ensures
        match morph_entry_problem(is_morph, pass_vecs@) {
            None => r is Ok,
            Some(p) => r matches Err(msg) && msg@ == morph_entry_message(name@, p, pass_vecs@),
        },
{
    if !is_morph {
        let msg = debug_quoted(name).concat(
            " is not a morph filter — register it with #[react_morph_filter] / add_react_morph_filter",
        );
        return Err(msg);
    }
    if pass_vecs.len() != 1 {
        let mut msg = String::from_str("a morph filter must resolve to exactly one pass, got ");
        push_decimal(&mut msg, pass_vecs.len());
        msg.append(" — multi-pass filters cannot be used as morphs");
        return Err(msg);
    }
    if pass_vecs[0] > MORPH_MAX_USER_PARAM_VECS {
        let mut msg = String::from_str("morph filter params occupy ");
        push_decimal(&mut msg, pass_vecs[0]);
        msg.append(" vec4 slots, over the cap of 6 (the last two are engine-reserved)");
        return Err(msg);
    }
    Ok(())
}

/// A morph filter named in a `backdropFilter` chain is rejected.
pub open spec fn backdrop_entry_message(name: Seq<char>) -> Seq<char> {
    "morph filter "@ + debug_str(name)
        + " cannot be used in a `backdropFilter` chain — it is a `morphFilter` name"@
}

/// Validate a resolved `backdropFilter` entry: morph filters are rejected.
pub fn validate_backdrop_entry(name: &str, is_morph: bool) -> (r: Result<(), String>)
    ensures
        r is Ok <==> !is_morph,
        r matches Err(msg) ==> msg@ == backdrop_entry_message(name@),
{
    if is_morph {
        let msg = String::from_str("morph filter ").concat(debug_quoted(name).as_str()).concat(
            " cannot be used in a `backdropFilter` chain — it is a `morphFilter` name",
        );
        return Err(msg);
    }
    Ok(())
}

} // verus!
