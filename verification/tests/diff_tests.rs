//! Tests of the structural diff engine.
use jd_core::{DiffElement, DiffOptions, Node, Path, PathSegment, RawValue};

fn canonical_text(v: f64) -> String {
    let num = match jd_core::number::number_form(v.to_bits()) {
        jd_core::number::NumberForm::Int64 => serde_json::Number::from(v as i64),
        jd_core::number::NumberForm::UInt64 => serde_json::Number::from(v as u64),
        jd_core::number::NumberForm::Float => serde_json::Number::from_f64(v).expect("finite"),
    };
    num.to_string()
}

fn raw_of(v: &serde_json::Value) -> RawValue {
    match v {
        serde_json::Value::Null => RawValue::Null,
        serde_json::Value::Bool(b) => RawValue::Bool(*b),
        serde_json::Value::Number(n) => {
            let f = n.as_f64().expect("representable");
            RawValue::Number { bits: f.to_bits(), text: canonical_text(f) }
        }
        serde_json::Value::String(s) => RawValue::String(s.clone()),
        serde_json::Value::Array(items) => {
            RawValue::Array(items.iter().map(raw_of).collect())
        }
        serde_json::Value::Object(map) => RawValue::Object(
            map.iter()
                .map(|(k, val)| (RawValue::String(k.clone()), raw_of(val)))
                .collect(),
        ),
    }
}

fn from_json(input: &str) -> Node {
    let value: serde_json::Value = serde_json::from_str(input).expect("valid JSON");
    Node::from_raw(raw_of(&value)).expect("canonical")
}

#[test]
fn diff_of_numbers_produces_replacement_hunk() {
    let lhs = from_json("1");
    let rhs = from_json("2");
    let diff = lhs.diff(&rhs, &DiffOptions::default());
    assert_eq!(diff.len(), 1);
    let expected = jd_core::Diff::from_elements(vec![DiffElement::new()
        .with_path(Path::new())
        .with_remove(vec![from_json("1")])
        .with_add(vec![from_json("2")])]);
    assert_eq!(diff, expected);
}

#[test]
fn diff_of_objects_tracks_additions_and_removals() {
    let lhs = from_json("{\"a\":1,\"b\":2}");
    let rhs = from_json("{\"b\":2,\"c\":3}");
    let diff = lhs.diff(&rhs, &DiffOptions::default());
    let expected = jd_core::Diff::from_elements(vec![
        DiffElement::new()
            .with_path(Path::from(vec![PathSegment::key("a")]))
            .with_remove(vec![from_json("1")]),
        DiffElement::new()
            .with_path(Path::from(vec![PathSegment::key("c")]))
            .with_add(vec![from_json("3")]),
    ]);
    assert_eq!(diff, expected);
}

#[test]
fn diff_of_arrays_with_substitution_preserves_context() {
    let lhs = from_json("[1,2,3]");
    let rhs = from_json("[1,4,3]");
    let diff = lhs.diff(&rhs, &DiffOptions::default());
    let expected = jd_core::Diff::from_elements(vec![DiffElement::new()
        .with_path(Path::from(vec![PathSegment::index(1)]))
        .with_before(vec![from_json("1")])
        .with_remove(vec![from_json("2")])
        .with_add(vec![from_json("4")])
        .with_after(vec![from_json("3")])]);
    assert_eq!(diff, expected);
}

#[test]
fn diff_of_arrays_with_append_marks_void_context() {
    let lhs = from_json("[1,2]");
    let rhs = from_json("[1,2,3]");
    let diff = lhs.diff(&rhs, &DiffOptions::default());
    let expected = jd_core::Diff::from_elements(vec![DiffElement::new()
        .with_path(Path::from(vec![PathSegment::index(2)]))
        .with_before(vec![from_json("2")])
        .with_add(vec![from_json("3")])
        .with_after(vec![Node::Void])]);
    assert_eq!(diff, expected);
}

#[test]
fn diff_of_arrays_with_nested_object_diff_preserves_child_path() {
    let lhs = from_json("[{\"name\":\"jd\",\"version\":1}]");
    let rhs = from_json("[{\"name\":\"jd\",\"version\":2}]");
    let diff = lhs.diff(&rhs, &DiffOptions::default());
    let expected = jd_core::Diff::from_elements(vec![DiffElement::new()
        .with_path(Path::from(vec![PathSegment::index(0), PathSegment::key("version")]))
        .with_remove(vec![from_json("1")])
        .with_add(vec![from_json("2")])]);
    assert_eq!(diff, expected);
}

#[test]
fn diff_of_equal_documents_is_empty() {
    let lhs = from_json("{\"a\":[1,2,{\"b\":null}],\"c\":true}");
    let rhs = from_json("{\"a\":[1,2,{\"b\":null}],\"c\":true}");
    let diff = lhs.diff(&rhs, &DiffOptions::default());
    assert!(diff.is_empty());
}

#[test]
fn diff_round_trips_through_apply() {
    let cases = [
        ("{\"a\":1}", "{\"a\":2}"),
        ("[1,2,3]", "[1,4,3]"),
        ("[1,2]", "[1,2,3]"),
        ("[1,2,3]", "[2,3]"),
        ("{\"a\":[1,2],\"b\":\"x\"}", "{\"a\":[2,9],\"c\":\"y\"}"),
        ("null", "[1,2]"),
        ("[[1],[2]]", "[[1],[3],[2]]"),
        ("{\"deep\":{\"x\":[true,false]}}", "{\"deep\":{\"x\":[false]}}"),
    ];
    for (a_text, b_text) in cases {
        let a = from_json(a_text);
        let b = from_json(b_text);
        let diff = a.diff(&b, &DiffOptions::default());
        let patched = a.apply_patch(&diff).expect("apply");
        assert_eq!(patched, b, "case {a_text} -> {b_text}");
    }
}

#[test]
fn reverse_of_diff_restores_base() {
    let cases = [
        ("{\"a\":1}", "{\"a\":2}"),
        ("[1,2,3]", "[1,4,3]"),
        ("[1,2]", "[1,2,3]"),
        ("{\"a\":[1,2],\"b\":\"x\"}", "{\"a\":[2,9],\"c\":\"y\"}"),
    ];
    for (a_text, b_text) in cases {
        let a = from_json(a_text);
        let b = from_json(b_text);
        let diff = a.diff(&b, &DiffOptions::default());
        let reversed = diff.reverse().expect("reverse");
        let restored = b.apply_patch(&reversed).expect("apply reversed");
        assert_eq!(restored, a, "case {a_text} -> {b_text}");
        let double = reversed.reverse().expect("reverse twice");
        assert_eq!(double, diff, "involution {a_text} -> {b_text}");
    }
}

#[test]
fn merge_patch_generates_rfc7386_object() {
    let a = from_json("{\"a\":1,\"b\":{\"x\":1},\"d\":4}");
    let b = from_json("{\"a\":2,\"b\":{\"x\":1},\"c\":3}");
    let patch = jd_core::merge_patch(&a, &b).expect("differs");
    let text = jd_core::jsontext::node_to_json(&patch);
    assert_eq!(text, "{\"a\":2,\"c\":3,\"d\":null}");
    assert!(jd_core::merge_patch(&a, &a).is_none());
}
