//! Round trips between canonical nodes and JSON text, and well-formedness
//! of the rendered RFC 6902 patches.
use jd_core::{DiffOptions, Node, RawValue};

fn canonical_text(v: f64) -> String {
    let num = match jd_core::number::number_form(v.to_bits()) {
        jd_core::number::NumberForm::Int64 => serde_json::Number::from(v as i64),
        jd_core::number::NumberForm::UInt64 => serde_json::Number::from(v as u64),
        jd_core::number::NumberForm::Float => serde_json::Number::from_f64(v).expect("finite"),
    };
    num.to_string()
}

fn raw_of(v: &serde_json::Value) -> RawValue {
    match v {
        serde_json::Value::Null => RawValue::Null,
        serde_json::Value::Bool(b) => RawValue::Bool(*b),
        serde_json::Value::Number(n) => {
            let f = n.as_f64().expect("representable");
            RawValue::Number { bits: f.to_bits(), text: canonical_text(f) }
        }
        serde_json::Value::String(s) => RawValue::String(s.clone()),
        serde_json::Value::Array(items) => {
            RawValue::Array(items.iter().map(raw_of).collect())
        }
        serde_json::Value::Object(map) => RawValue::Object(
            map.iter()
                .map(|(k, val)| (RawValue::String(k.clone()), raw_of(val)))
                .collect(),
        ),
    }
}

fn from_json(input: &str) -> Node {
    let value: serde_json::Value = serde_json::from_str(input).expect("valid JSON");
    Node::from_raw(raw_of(&value)).expect("canonical")
}

#[test]
fn json_text_round_trips_through_canonicalization() {
    let docs = [
        "null",
        "true",
        "[1,2.5,-0.0,\"x\"]",
        "{\"a\":{\"b\":[]},\"c\":\"\\u0007\"}",
        "{\"z\":1,\"a\":2}",
        "1e300",
    ];
    for doc in docs {
        let node = from_json(doc);
        let text = jd_core::jsontext::node_to_json(&node);
        let again = from_json(&text);
        assert_eq!(again, node, "round trip of {doc} via {text}");
    }
}

#[test]
fn rendered_patch_is_well_formed_rfc6902() {
    let a = from_json("{\"a\":[1,2,3],\"b\":\"x\"}");
    let b = from_json("{\"a\":[1,4],\"c\":\"y\"}");
    let diff = a.diff(&b, &DiffOptions::default());
    let text = diff.render_patch().expect("renders");
    let parsed: serde_json::Value = serde_json::from_str(&text).expect("valid JSON");
    let ops = parsed.as_array().expect("array of operations");
    assert!(!ops.is_empty());
    for op in ops {
        let obj = op.as_object().expect("operation object");
        let kind = obj.get("op").and_then(|v| v.as_str()).expect("op name");
        assert!(kind == "test" || kind == "remove" || kind == "add");
        let path = obj.get("path").and_then(|v| v.as_str()).expect("pointer");
        assert!(path.starts_with('/'));
        assert!(obj.contains_key("value"));
    }
}
