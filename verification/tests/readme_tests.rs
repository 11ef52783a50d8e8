//! The quick-start example: diff, render as a JSON Patch, and apply.
use jd_core::{DiffOptions, Node, RawValue};

fn canonical_text(v: f64) -> String {
    let num = match jd_core::number::number_form(v.to_bits()) {
        jd_core::number::NumberForm::Int64 => serde_json::Number::from(v as i64),
        jd_core::number::NumberForm::UInt64 => serde_json::Number::from(v as u64),
        jd_core::number::NumberForm::Float => serde_json::Number::from_f64(v).expect("finite"),
    };
    num.to_string()
}

fn raw_of(v: &serde_json::Value) -> RawValue {
    match v {
        serde_json::Value::Null => RawValue::Null,
        serde_json::Value::Bool(b) => RawValue::Bool(*b),
        serde_json::Value::Number(n) => {
            let f = n.as_f64().expect("representable");
            RawValue::Number { bits: f.to_bits(), text: canonical_text(f) }
        }
        serde_json::Value::String(s) => RawValue::String(s.clone()),
        serde_json::Value::Array(items) => {
            RawValue::Array(items.iter().map(raw_of).collect())
        }
        serde_json::Value::Object(map) => RawValue::Object(
            map.iter()
                .map(|(k, val)| (RawValue::String(k.clone()), raw_of(val)))
                .collect(),
        ),
    }
}

fn from_json(input: &str) -> Node {
    let value: serde_json::Value = serde_json::from_str(input).expect("valid JSON");
    Node::from_raw(raw_of(&value)).expect("canonical")
}

#[test]
fn jd_core_readme_example() {
    let base = from_json("[1,2,3]");
    let target = from_json("[1,4,3]");

    let diff = base.diff(&target, &DiffOptions::default());
    assert_eq!(diff.len(), 1);

    let json_patch = diff.render_patch().expect("render patch");
    println!("{json_patch}");
    assert!(json_patch.contains("\"op\":\"test\""));

    let patched = base.apply_patch(&diff).expect("apply diff");
    assert_eq!(patched, target);
}
