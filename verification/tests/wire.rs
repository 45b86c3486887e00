use bevy_react_core::filters::json::JsonValue;
use bevy_react_core::filters::wire::{
    chain_from_value, too_long_message, too_long_value, wire_problem_message, FieldProblem,
    FilterChain, FilterUse, WireProblem, WireWarning, DECODE_KIND, MAX_CHAIN_LEN,
};

fn s(x: &str) -> JsonValue {
    JsonValue::String(x.to_string())
}

fn num(x: &str) -> JsonValue {
    JsonValue::Number(x.to_string())
}

fn obj(entries: Vec<(&str, JsonValue)>) -> JsonValue {
    JsonValue::Object(entries.into_iter().map(|(k, v)| (k.to_string(), v)).collect())
}

fn chain(value: JsonValue) -> FilterChain {
    chain_from_value(value).0
}

fn is_number(v: &JsonValue, text: &str) -> bool {
    matches!(v, JsonValue::Number(n) if n == text)
}

fn assert_blur_4(u: &FilterUse) {
    assert_eq!(u.name, "blur");
    assert_eq!(u.params.len(), 1);
    assert_eq!(u.params[0].0, "radius");
    assert!(is_number(&u.params[0].1, "4"));
}

fn single_object() {
    let c = chain(obj(vec![("name", s("blur")), ("params", obj(vec![("radius", num("4"))]))]));
    assert_eq!(c.0.len(), 1);
    assert_blur_4(&c.0[0]);
}

fn array_order() {
    let c = chain(JsonValue::Array(vec![
        obj(vec![("name", s("blur")), ("params", obj(vec![("radius", num("4"))]))]),
        obj(vec![("name", s("grayscale")), ("params", obj(vec![("amount", num("1"))]))]),
    ]));
    assert_eq!(c.0.len(), 2);
    assert_blur_4(&c.0[0]);
    assert_eq!(c.0[1].name, "grayscale");
    assert_eq!(c.0[1].params.len(), 1);
    assert_eq!(c.0[1].params[0].0, "amount");
    assert!(is_number(&c.0[1].params[0].1, "1"));
}

fn missing_params() {
    let (c, warning) = chain_from_value(obj(vec![("name", s("invert"))]));
    assert_eq!(c.0.len(), 1);
    assert_eq!(c.0[0].name, "invert");
    assert!(c.0[0].params.is_empty());
    assert!(warning.is_none());
    // `params: null` is exactly an absent key.
    let (c, warning) =
        chain_from_value(obj(vec![("name", s("invert")), ("params", JsonValue::Null)]));
    assert_eq!(c.0.len(), 1);
    assert_eq!(c.0[0].name, "invert");
    assert!(c.0[0].params.is_empty());
    assert!(warning.is_none());
}

fn malformed_entry() {
    // A non-object entry in an otherwise valid array.
    assert!(chain(JsonValue::Array(vec![obj(vec![("name", s("blur"))]), num("3")])).0.is_empty());
    // An entry with no name.
    assert!(chain(obj(vec![("params", obj(vec![]))])).0.is_empty());
    // A non-string name.
    assert!(chain(obj(vec![("name", num("7"))])).0.is_empty());
    // Non-object params.
    assert!(chain(obj(vec![("name", s("blur")), ("params", num("3"))])).0.is_empty());
}

fn invert_array(n: usize) -> JsonValue {
    JsonValue::Array((0..n).map(|_| obj(vec![("name", s("invert"))])).collect())
}

fn over_long() {
    let (at_cap, warning) = chain_from_value(invert_array(MAX_CHAIN_LEN));
    assert_eq!(at_cap.0.len(), MAX_CHAIN_LEN);
    assert!(warning.is_none());
    let (over, warning) = chain_from_value(invert_array(MAX_CHAIN_LEN + 1));
    assert!(over.0.is_empty());
    match warning {
        Some(WireWarning::TooLong { entries }) => {
            assert_eq!(entries, MAX_CHAIN_LEN + 1);
            assert_eq!(DECODE_KIND, "filterParams");
            let message = too_long_message(entries);
            assert!(message.contains("over the cap"), "{message}");
            assert_eq!(too_long_value(entries), "[array of 257 entries]");
        }
        other => panic!("expected an over-long warning, got {other:?}"),
    }
}

fn garbage_top_level() {
    assert!(chain(num("42")).0.is_empty());
    assert!(chain(JsonValue::Bool(true)).0.is_empty());
    assert!(chain(s("blur")).0.is_empty());
}

fn malformed_values_warn() {
    let (_, first) = chain_from_value(JsonValue::Array(vec![
        obj(vec![("name", s("blur"))]),
        num("3"),
    ]));
    let (_, second) = chain_from_value(JsonValue::Bool(true));
    match first {
        Some(WireWarning::Malformed { offending, problem }) => {
            assert!(is_number(&offending, "3"));
            assert_eq!(problem, WireProblem::EntryNotObject);
            assert!(!wire_problem_message(problem, "3").is_empty());
        }
        other => panic!("expected a malformed warning, got {other:?}"),
    }
    match second {
        Some(WireWarning::Malformed { offending, problem }) => {
            assert!(matches!(offending, JsonValue::Bool(true)));
            assert_eq!(problem, WireProblem::NotObjectOrArray);
            assert!(!wire_problem_message(problem, "true").is_empty());
        }
        other => panic!("expected a malformed warning, got {other:?}"),
    }
    assert_eq!(DECODE_KIND, "filterParams");
}

fn valid_values_quiet() {
    let (_, warning) = chain_from_value(obj(vec![("name", s("blur"))]));
    assert!(warning.is_none());
    // An explicit empty array is a valid empty chain, not a degradation.
    let (c, warning) = chain_from_value(JsonValue::Array(vec![]));
    assert!(c.0.is_empty());
    assert!(warning.is_none());
}

#[test]
fn wire_single_object_decodes_to_one_element_chain() {
    single_object();
}

#[test]
fn filters_single_object_decodes_to_one_element_chain() {
    single_object();
}

#[test]
fn wire_array_decodes_preserving_order() {
    array_order();
}

#[test]
fn filters_array_decodes_preserving_order() {
    array_order();
}

#[test]
fn wire_missing_params_decodes_to_empty_map() {
    missing_params();
}

#[test]
fn filters_missing_params_decodes_to_empty_map() {
    missing_params();
}

#[test]
fn wire_malformed_entry_degrades_whole_value_to_empty_chain() {
    malformed_entry();
}

#[test]
fn filters_malformed_entry_degrades_whole_value_to_empty_chain() {
    malformed_entry();
}

#[test]
fn wire_over_long_chain_degrades_to_empty_chain() {
    over_long();
}

#[test]
fn filters_over_long_chain_degrades_to_empty_chain() {
    over_long();
}

#[test]
fn wire_garbage_top_level_value_degrades_to_empty_chain() {
    garbage_top_level();
}

#[test]
fn filters_garbage_top_level_value_degrades_to_empty_chain() {
    garbage_top_level();
}

#[test]
fn wire_malformed_values_report_decode_warnings() {
    malformed_values_warn();
}

#[test]
fn filters_malformed_values_report_decode_warnings() {
    malformed_values_warn();
}

#[test]
fn wire_valid_values_report_nothing() {
    valid_values_quiet();
}

#[test]
fn filters_valid_values_report_nothing() {
    valid_values_quiet();
}

#[test]
fn missing_name_reports_the_whole_object() {
    let (_, warning) = chain_from_value(obj(vec![("params", obj(vec![]))]));
    match warning {
        Some(WireWarning::Malformed { offending: JsonValue::Object(o), problem }) => {
            assert_eq!(problem, WireProblem::Field(FieldProblem::MissingName));
            assert_eq!(o.len(), 1);
            assert_eq!(o[0].0, "params");
        }
        other => panic!("expected a missing-name warning, got {other:?}"),
    }
}

#[test]
fn bad_name_and_bad_params_report_the_offending_field() {
    let (_, warning) = chain_from_value(obj(vec![("name", num("7"))]));
    match warning {
        Some(WireWarning::Malformed { offending, problem }) => {
            assert!(is_number(&offending, "7"));
            assert_eq!(problem, WireProblem::Field(FieldProblem::NameNotString));
            assert_eq!(
                wire_problem_message(problem, "7"),
                "filter name must be a string, got 7"
            );
        }
        other => panic!("expected a bad-name warning, got {other:?}"),
    }
    let (_, warning) = chain_from_value(obj(vec![("name", s("blur")), ("params", num("3"))]));
    match warning {
        Some(WireWarning::Malformed { offending, problem }) => {
            assert!(is_number(&offending, "3"));
            assert_eq!(problem, WireProblem::Field(FieldProblem::ParamsNotObject));
        }
        other => panic!("expected a bad-params warning, got {other:?}"),
    }
}

#[test]
fn first_bad_entry_is_the_one_reported() {
    let (c, warning) = chain_from_value(JsonValue::Array(vec![
        obj(vec![("name", s("blur"))]),
        num("1"),
        num("2"),
    ]));
    assert!(c.0.is_empty());
    match warning {
        Some(WireWarning::Malformed { offending, .. }) => assert!(is_number(&offending, "1")),
        other => panic!("expected a malformed warning, got {other:?}"),
    }
}
