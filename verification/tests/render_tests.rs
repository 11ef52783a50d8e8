//! Tests of the native, JSON Patch and merge patch renderers, and of
//! reversal.
use jd_core::{
    Diff, DiffElement, DiffMetadata, DiffOptions, Node, Path, PathSegment, RawValue, RenderConfig,
};

fn canonical_text(v: f64) -> String {
    let num = match jd_core::number::number_form(v.to_bits()) {
        jd_core::number::NumberForm::Int64 => serde_json::Number::from(v as i64),
        jd_core::number::NumberForm::UInt64 => serde_json::Number::from(v as u64),
        jd_core::number::NumberForm::Float => serde_json::Number::from_f64(v).expect("finite"),
    };
    num.to_string()
}

fn raw_of(v: &serde_json::Value) -> RawValue {
    match v {
        serde_json::Value::Null => RawValue::Null,
        serde_json::Value::Bool(b) => RawValue::Bool(*b),
        serde_json::Value::Number(n) => {
            let f = n.as_f64().expect("representable");
            RawValue::Number { bits: f.to_bits(), text: canonical_text(f) }
        }
        serde_json::Value::String(s) => RawValue::String(s.clone()),
        serde_json::Value::Array(items) => {
            RawValue::Array(items.iter().map(raw_of).collect())
        }
        serde_json::Value::Object(map) => RawValue::Object(
            map.iter()
                .map(|(k, val)| (RawValue::String(k.clone()), raw_of(val)))
                .collect(),
        ),
    }
}

fn from_json(input: &str) -> Node {
    let value: serde_json::Value = serde_json::from_str(input).expect("valid JSON");
    Node::from_raw(raw_of(&value)).expect("canonical")
}

fn simple_diff() -> Diff {
    let lhs = from_json("{\"a\":1}");
    let rhs = from_json("{\"a\":2}");
    lhs.diff(&rhs, &DiffOptions::default())
}

#[test]
fn render_native_object_replacement() {
    let diff = simple_diff();
    let rendered = diff.render(&RenderConfig::default());
    assert_eq!(rendered, "@ [\"a\"]\n- 1\n+ 2\n");
}

#[test]
fn render_native_string_diff_colorizes() {
    let lhs = from_json("\"kitten\"");
    let rhs = from_json("\"sitting\"");
    let diff = lhs.diff(&rhs, &DiffOptions::default());
    let rendered = diff.render(&RenderConfig::default().with_color(true));
    assert!(rendered.contains("\u{1b}[31m"), "expected ANSI red segment");
    assert!(rendered.contains("\u{1b}[32m"), "expected ANSI green segment");
}

#[test]
fn render_native_array_hunk_has_context_lines() {
    let lhs = from_json("[1,2,3]");
    let rhs = from_json("[1,4,3]");
    let diff = lhs.diff(&rhs, &DiffOptions::default());
    let rendered = diff.render(&RenderConfig::default());
    assert_eq!(rendered, "@ [1]\n  1\n- 2\n+ 4\n  3\n");
}

#[test]
fn render_native_append_shows_bracket() {
    let lhs = from_json("[1,2]");
    let rhs = from_json("[1,2,3]");
    let diff = lhs.diff(&rhs, &DiffOptions::default());
    let rendered = diff.render(&RenderConfig::default());
    assert_eq!(rendered, "@ [2]\n  2\n+ 3\n]\n");
}

#[test]
fn render_patch_emits_context_tests() {
    let lhs = from_json("[1,2,3]");
    let rhs = from_json("[1,4,3]");
    let diff = lhs.diff(&rhs, &DiffOptions::default());
    let patch = diff.render_patch().expect("render_patch");
    assert_eq!(
        patch,
        "[{\"op\":\"test\",\"path\":\"/0\",\"value\":1},{\"op\":\"test\",\"path\":\"/2\",\"value\":3},{\"op\":\"test\",\"path\":\"/1\",\"value\":2},{\"op\":\"remove\",\"path\":\"/1\",\"value\":2},{\"op\":\"add\",\"path\":\"/1\",\"value\":4}]"
    );
}

#[test]
fn render_patch_of_object_replacement() {
    let diff = simple_diff();
    let patch = diff.render_patch().expect("render_patch");
    assert_eq!(
        patch,
        "[{\"op\":\"test\",\"path\":\"/a\",\"value\":1},{\"op\":\"remove\",\"path\":\"/a\",\"value\":1},{\"op\":\"add\",\"path\":\"/a\",\"value\":2}]"
    );
}

#[test]
fn render_patch_rejects_extra_context() {
    let element = DiffElement::new()
        .with_path(Path::from(vec![PathSegment::index(0)]))
        .with_before(vec![Node::Null, Node::Null])
        .with_remove(vec![Node::Null]);
    let diff = Diff::from_elements(vec![element]);
    let err = diff.render_patch().unwrap_err();
    assert_eq!(err.message(), "only one line of before context supported. got 2");
}

#[test]
fn render_patch_rejects_numeric_object_keys() {
    let element = DiffElement::new()
        .with_path(Path::from(vec![PathSegment::key("0")]))
        .with_remove(vec![Node::Null])
        .with_add(vec![Node::Null]);
    let diff = Diff::from_elements(vec![element]);
    let err = diff.render_patch().unwrap_err();
    assert!(err
        .message()
        .contains("JSON Pointer does not support object keys that look like numbers"));
}

#[test]
fn render_patch_escapes_pointer_characters() {
    let element = DiffElement::new()
        .with_path(Path::from(vec![PathSegment::key("a/b~c")]))
        .with_add(vec![from_json("1")]);
    let diff = Diff::from_elements(vec![element]);
    let patch = diff.render_patch().expect("render_patch");
    assert_eq!(patch, "[{\"op\":\"add\",\"path\":\"/a~1b~0c\",\"value\":1}]");
}

#[test]
fn render_patch_of_empty_diff_is_empty_array() {
    assert_eq!(Diff::empty().render_patch().expect("empty"), "[]");
}

#[test]
fn render_merge_outputs_object() {
    let element = DiffElement::new()
        .with_metadata(DiffMetadata::merge())
        .with_path(Path::from(vec![PathSegment::key("name")]))
        .with_add(vec![from_json("\"jd\"")]);
    let diff = Diff::from_elements(vec![element]);
    let rendered = diff.render_merge().expect("render_merge");
    assert_eq!(rendered, "{\"name\":\"jd\"}");
}

#[test]
fn render_merge_requires_merge_metadata() {
    let element = DiffElement::new()
        .with_path(Path::from(vec![PathSegment::key("name")]))
        .with_add(vec![from_json("\"jd\"")]);
    let diff = Diff::from_elements(vec![element]);
    let err = diff.render_merge().unwrap_err();
    assert_eq!(err.message(), "cannot render non-merge element as merge");
}

#[test]
fn render_merge_of_empty_diff_is_empty_object() {
    assert_eq!(Diff::empty().render_merge().expect("empty"), "{}");
}

#[test]
fn reverse_swaps_add_remove() {
    let diff = simple_diff();
    let reversed = diff.reverse().expect("reverse");
    let base = from_json("{\"a\":2}");
    let patched = base.apply_patch(&reversed).expect("patch");
    assert_eq!(patched, from_json("{\"a\":1}"));
}

#[test]
fn reverse_rejects_merge_diffs() {
    let element = DiffElement::new()
        .with_metadata(DiffMetadata::merge())
        .with_path(Path::from(vec![PathSegment::key("a")]))
        .with_add(vec![from_json("1")]);
    let diff = Diff::from_elements(vec![element]);
    let err = diff.reverse().unwrap_err();
    assert_eq!(err.message(), "cannot reverse merge diff element at [a]");
}

#[test]
fn render_native_merge_header_appears_once() {
    let first = DiffElement::new()
        .with_metadata(DiffMetadata::merge())
        .with_path(Path::from(vec![PathSegment::key("a")]))
        .with_add(vec![from_json("1")]);
    let second = DiffElement::new()
        .with_path(Path::from(vec![PathSegment::key("b")]))
        .with_add(vec![from_json("2")]);
    let diff = Diff::from_elements(vec![first, second]);
    let rendered = diff.render(&RenderConfig::default());
    assert_eq!(rendered, "^ {\"Merge\":true}\n@ [\"a\"]\n+ 1\n@ [\"b\"]\n+ 2\n");
}

#[test]
fn render_native_escapes_strings() {
    let lhs = from_json("\"a\\\"b\\\\c\"");
    let rhs = from_json("1");
    let diff = lhs.diff(&rhs, &DiffOptions::default());
    let rendered = diff.render(&RenderConfig::default());
    assert_eq!(rendered, "@ []\n- \"a\\\"b\\\\c\"\n+ 1\n");
}
