//! Tests of the patch application engine.
use jd_core::{Diff, DiffElement, DiffMetadata, DiffOptions, Node, Path, PathSegment, RawValue};

fn canonical_text(v: f64) -> String {
    let num = match jd_core::number::number_form(v.to_bits()) {
        jd_core::number::NumberForm::Int64 => serde_json::Number::from(v as i64),
        jd_core::number::NumberForm::UInt64 => serde_json::Number::from(v as u64),
        jd_core::number::NumberForm::Float => serde_json::Number::from_f64(v).expect("finite"),
    };
    num.to_string()
}

fn raw_of(v: &serde_json::Value) -> RawValue {
    match v {
        serde_json::Value::Null => RawValue::Null,
        serde_json::Value::Bool(b) => RawValue::Bool(*b),
        serde_json::Value::Number(n) => {
            let f = n.as_f64().expect("representable");
            RawValue::Number { bits: f.to_bits(), text: canonical_text(f) }
        }
        serde_json::Value::String(s) => RawValue::String(s.clone()),
        serde_json::Value::Array(items) => {
            RawValue::Array(items.iter().map(raw_of).collect())
        }
        serde_json::Value::Object(map) => RawValue::Object(
            map.iter()
                .map(|(k, val)| (RawValue::String(k.clone()), raw_of(val)))
                .collect(),
        ),
    }
}

fn from_json(input: &str) -> Node {
    let value: serde_json::Value = serde_json::from_str(input).expect("valid JSON");
    Node::from_raw(raw_of(&value)).expect("canonical")
}

#[test]
fn apply_patch_replaces_scalar() {
    let base = from_json("1");
    let target = from_json("2");
    let diff = base.diff(&target, &DiffOptions::default());
    let patched = base.apply_patch(&diff).unwrap();
    assert_eq!(patched, target);
}

#[test]
fn apply_patch_handles_object_insertion() {
    let base = from_json("{\"a\":1}");
    let target = from_json("{\"a\":1,\"b\":2}");
    let diff = base.diff(&target, &DiffOptions::default());
    let patched = base.apply_patch(&diff).unwrap();
    assert_eq!(patched, target);
}

#[test]
fn apply_patch_list_context_validation_errors() {
    let base = from_json("[1,2,3]");
    let target = from_json("[1,4,3]");
    let diff = base.diff(&target, &DiffOptions::default());
    let mismatched = from_json("[0,2,3]");
    let err = mismatched.apply_patch(&diff).expect_err("patch should fail due to context mismatch");
    assert_eq!(err.message(), "invalid patch. expected 1 before. got 0");
}

#[test]
fn apply_patch_rejects_multiple_removals() {
    let element = DiffElement::new()
        .with_path(Path::from(Vec::<PathSegment>::new()))
        .with_remove(vec![from_json("1"), from_json("2")]);
    let diff = Diff::from_elements(vec![element]);
    let base = from_json("1");
    let err = base.apply_patch(&diff).expect_err("should reject multi-removal");
    assert_eq!(err.message(), "invalid diff: multiple removals from non-set at []");
}

#[test]
fn apply_patch_rejects_merge_old_value() {
    let element = DiffElement::new()
        .with_metadata(DiffMetadata::merge())
        .with_path(Path::from(vec![PathSegment::key("a")]))
        .with_remove(vec![from_json("1")])
        .with_add(vec![from_json("2")]);
    let diff = Diff::from_elements(vec![element]);
    let base = from_json("{\"a\":1}");
    let err = base.apply_patch(&diff).expect_err("merge should reject old value");
    assert_eq!(err.message(), "patch with merge strategy at [a] has unnecessary old value 1");
}

#[test]
fn apply_empty_diff_returns_input() {
    let base = from_json("{\"a\":[1,2,3]}");
    let patched = base.apply_patch(&Diff::empty()).expect("empty diff applies");
    assert_eq!(patched, base);
    let twice = patched.apply_patch(&Diff::empty()).expect("still applies");
    assert_eq!(twice, base);
}

#[test]
fn apply_patch_appends_with_minus_one_index() {
    let element = DiffElement::new()
        .with_path(Path::from(vec![PathSegment::index(-1)]))
        .with_add(vec![from_json("4"), from_json("5")]);
    let diff = Diff::from_elements(vec![element]);
    let base = from_json("[1,2,3]");
    let patched = base.apply_patch(&diff).expect("append");
    assert_eq!(patched, from_json("[1,2,3,4,5]"));
}

#[test]
fn apply_patch_rejects_append_with_removals() {
    let element = DiffElement::new()
        .with_path(Path::from(vec![PathSegment::index(-1)]))
        .with_remove(vec![from_json("1")])
        .with_add(vec![from_json("4")]);
    let diff = Diff::from_elements(vec![element]);
    let base = from_json("[1,2,3]");
    let err = base.apply_patch(&diff).expect_err("append with removals");
    assert_eq!(err.message(), "invalid patch. appending to -1 index. but want to remove values");
}

#[test]
fn apply_patch_merge_creates_missing_objects() {
    let element = DiffElement::new()
        .with_metadata(DiffMetadata::merge())
        .with_path(Path::from(vec![PathSegment::key("a"), PathSegment::key("b")]))
        .with_add(vec![from_json("1")]);
    let diff = Diff::from_elements(vec![element]);
    let base = from_json("{}");
    let patched = base.apply_patch(&diff).expect("merge apply");
    assert_eq!(patched, from_json("{\"a\":{\"b\":1}}"));
}

#[test]
fn apply_patch_merge_null_add_deletes_key() {
    let element = DiffElement::new()
        .with_metadata(DiffMetadata::merge())
        .with_path(Path::from(vec![PathSegment::key("a")]))
        .with_add(vec![Node::Void]);
    let diff = Diff::from_elements(vec![element]);
    let base = from_json("{\"a\":1,\"b\":2}");
    let patched = base.apply_patch(&diff).expect("merge delete");
    assert_eq!(patched, from_json("{\"b\":2}"));
}

#[test]
fn apply_patch_strict_scalar_mismatch_is_reported() {
    let element = DiffElement::new()
        .with_path(Path::from(vec![PathSegment::key("a")]))
        .with_remove(vec![from_json("5")])
        .with_add(vec![from_json("6")]);
    let diff = Diff::from_elements(vec![element]);
    let base = from_json("{\"a\":1}");
    let err = base.apply_patch(&diff).expect_err("old value mismatch");
    assert_eq!(err.message(), "found 1 at [a]: expected 5");
}

#[test]
fn apply_patch_index_out_of_bounds_is_reported() {
    let element = DiffElement::new()
        .with_path(Path::from(vec![PathSegment::index(7), PathSegment::key("x")]))
        .with_remove(vec![from_json("1")])
        .with_add(vec![from_json("2")]);
    let diff = Diff::from_elements(vec![element]);
    let base = from_json("[{\"x\":1}]");
    let err = base.apply_patch(&diff).expect_err("index out of bounds");
    assert_eq!(err.message(), "patch index out of bounds: 7");
}
