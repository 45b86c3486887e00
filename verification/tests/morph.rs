use bevy_react_core::filters::json::JsonValue;
use bevy_react_core::filters::morph::{
    morph_field_from_value, morph_problem_message, validate_backdrop_entry,
    validate_morph_entry, MorphFilter, MorphProblem, MORPH_DECODE_KIND,
    MORPH_MAX_USER_PARAM_VECS,
};
use bevy_react_core::filters::wire::FieldProblem;

fn s(x: &str) -> JsonValue {
    JsonValue::String(x.to_string())
}

fn num(x: &str) -> JsonValue {
    JsonValue::Number(x.to_string())
}

fn obj(entries: Vec<(&str, JsonValue)>) -> JsonValue {
    JsonValue::Object(entries.into_iter().map(|(k, v)| (k.to_string(), v)).collect())
}

fn decode(value: JsonValue) -> Option<MorphFilter> {
    morph_field_from_value(value).0
}

#[test]
fn full_object_decodes() {
    let m = decode(obj(vec![
        ("key", s("a")),
        ("name", s("linearWipe")),
        ("params", obj(vec![("angle", num("45"))])),
    ]))
    .expect("decodes to Some");
    assert!(matches!(&m.key, JsonValue::String(k) if k == "a"));
    assert_eq!(m.filter.name, "linearWipe");
    assert_eq!(m.filter.params.len(), 1);
    assert_eq!(m.filter.params[0].0, "angle");
    assert!(matches!(&m.filter.params[0].1, JsonValue::Number(n) if n == "45"));
}

#[test]
fn numeric_key_and_absent_params_decode() {
    let m = decode(obj(vec![("key", num("3")), ("name", s("crossfade"))]))
        .expect("decodes to Some");
    assert!(matches!(&m.key, JsonValue::Number(n) if n == "3"));
    assert!(m.filter.params.is_empty());
    // `params: null` is exactly an absent key.
    let m = decode(obj(vec![
        ("key", num("3")),
        ("name", s("crossfade")),
        ("params", JsonValue::Null),
    ]))
    .expect("decodes to Some");
    assert!(m.filter.params.is_empty());
}

#[test]
fn malformed_values_degrade_to_none() {
    assert!(decode(num("42")).is_none());
    assert!(decode(obj(vec![("name", s("crossfade"))])).is_none());
    assert!(decode(obj(vec![("key", JsonValue::Bool(true)), ("name", s("crossfade"))])).is_none());
    assert!(decode(obj(vec![("key", s("a"))])).is_none());
    assert!(decode(obj(vec![("key", s("a")), ("name", num("7"))])).is_none());
    assert!(decode(obj(vec![("key", s("a")), ("name", s("crossfade")), ("params", num("3"))]))
        .is_none());
    assert!(decode(JsonValue::Null).is_none());
}

#[test]
fn morph_malformed_values_report_decode_warnings() {
    let (_, first) = morph_field_from_value(obj(vec![("name", s("crossfade"))]));
    let (_, second) = morph_field_from_value(num("42"));
    let warnings: Vec<_> = first.into_iter().chain(second).collect();
    assert_eq!(warnings.len(), 2);
    assert_eq!(warnings[0].1, MorphProblem::MissingKey);
    assert_eq!(warnings[1].1, MorphProblem::NotObject);
    assert_eq!(MORPH_DECODE_KIND, "morphFilterParams");
    // A clean decode, and an explicit null, report nothing.
    assert!(morph_field_from_value(obj(vec![("key", s("a")), ("name", s("crossfade"))])).1.is_none());
    assert!(morph_field_from_value(JsonValue::Null).1.is_none());
}

#[test]
fn validate_entry_orders_family_then_pass_count_then_param_cap() {
    let family = validate_morph_entry("blur", false, &[0]);
    assert!(family.unwrap_err().contains("not a morph filter"));

    let two = validate_morph_entry("x", true, &[0, 0]);
    assert!(two.unwrap_err().contains("exactly one pass"));

    let capped = validate_morph_entry("x", true, &[MORPH_MAX_USER_PARAM_VECS + 1]);
    assert!(capped.unwrap_err().contains("over the cap"));

    assert!(validate_morph_entry("x", true, &[0]).is_ok());
}

#[test]
fn morph_entry_messages_are_exact() {
    assert_eq!(
        validate_morph_entry("blur", false, &[1]).unwrap_err(),
        "\"blur\" is not a morph filter \u{2014} register it with #[react_morph_filter] / add_react_morph_filter"
    );
    assert_eq!(
        validate_morph_entry("x", true, &[1, 1]).unwrap_err(),
        "a morph filter must resolve to exactly one pass, got 2 \u{2014} multi-pass filters cannot be used as morphs"
    );
    assert!(validate_morph_entry("x", true, &[MORPH_MAX_USER_PARAM_VECS]).is_ok());
}

#[test]
fn backdrop_chains_refuse_morph_names() {
    assert!(validate_backdrop_entry("blur", false).is_ok());
    assert_eq!(
        validate_backdrop_entry("crossfade", true).unwrap_err(),
        "morph filter \"crossfade\" cannot be used in a `backdropFilter` chain \u{2014} it is a `morphFilter` name"
    );
}

#[test]
fn morph_problem_messages_name_the_field() {
    assert_eq!(
        morph_problem_message(MorphProblem::NotObject, "42"),
        "morphFilter must be a { key, name, params } object, got 42"
    );
    assert_eq!(
        morph_problem_message(MorphProblem::MissingKey, "{\"name\":\"crossfade\"}"),
        "morphFilter {\"name\":\"crossfade\"} is missing \"key\""
    );
    assert_eq!(
        morph_problem_message(MorphProblem::Field(FieldProblem::ParamsNotObject), "3"),
        "morphFilter params must be an object, got 3"
    );
}
