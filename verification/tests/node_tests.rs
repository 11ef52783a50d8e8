//! Tests of canonicalization, equality under options, hashing and numbers.
use jd_core::number::{number_form, NumberForm};
use jd_core::{ArrayMode, CanonicalizeError, DiffOptions, Node, RawValue};

fn canonical_text(v: f64) -> String {
    let num = match jd_core::number::number_form(v.to_bits()) {
        jd_core::number::NumberForm::Int64 => serde_json::Number::from(v as i64),
        jd_core::number::NumberForm::UInt64 => serde_json::Number::from(v as u64),
        jd_core::number::NumberForm::Float => serde_json::Number::from_f64(v).expect("finite"),
    };
    num.to_string()
}

fn raw_of(v: &serde_json::Value) -> RawValue {
    match v {
        serde_json::Value::Null => RawValue::Null,
        serde_json::Value::Bool(b) => RawValue::Bool(*b),
        serde_json::Value::Number(n) => {
            let f = n.as_f64().expect("representable");
            RawValue::Number { bits: f.to_bits(), text: canonical_text(f) }
        }
        serde_json::Value::String(s) => RawValue::String(s.clone()),
        serde_json::Value::Array(items) => {
            RawValue::Array(items.iter().map(raw_of).collect())
        }
        serde_json::Value::Object(map) => RawValue::Object(
            map.iter()
                .map(|(k, val)| (RawValue::String(k.clone()), raw_of(val)))
                .collect(),
        ),
    }
}

fn raw_of_yaml(v: &serde_yaml::Value) -> RawValue {
    match v {
        serde_yaml::Value::Null => RawValue::Null,
        serde_yaml::Value::Bool(b) => RawValue::Bool(*b),
        serde_yaml::Value::Number(n) => {
            let f = n.as_f64().expect("representable");
            RawValue::Number { bits: f.to_bits(), text: canonical_text(f) }
        }
        serde_yaml::Value::String(s) => RawValue::String(s.clone()),
        serde_yaml::Value::Sequence(items) => {
            RawValue::Array(items.iter().map(raw_of_yaml).collect())
        }
        serde_yaml::Value::Mapping(map) => RawValue::Object(
            map.iter().map(|(k, val)| (raw_of_yaml(k), raw_of_yaml(val))).collect(),
        ),
        serde_yaml::Value::Tagged(tagged) => RawValue::Tagged {
            tag: tagged.tag.to_string(),
            value: Box::new(raw_of_yaml(&tagged.value)),
        },
    }
}

fn from_json(input: &str) -> Node {
    let value: serde_json::Value = serde_json::from_str(input).expect("valid JSON");
    Node::from_raw(raw_of(&value)).expect("canonical")
}

#[test]
fn yaml_non_string_key_errors() {
    let value: serde_yaml::Value = serde_yaml::from_str("? [1, 2]: 3").expect("parses");
    let err = Node::from_raw(raw_of_yaml(&value)).unwrap_err();
    let CanonicalizeError::NonStringYamlKey { .. } = err else {
        panic!("expected NonStringYamlKey error");
    };
}

#[test]
fn yaml_tagged_value_errors() {
    let value: serde_yaml::Value = serde_yaml::from_str("!mytag 3").expect("parses");
    let err = Node::from_raw(raw_of_yaml(&value)).unwrap_err();
    let CanonicalizeError::UnsupportedYamlTag { tag } = err else {
        panic!("expected UnsupportedYamlTag error");
    };
    assert!(tag.contains("mytag"));
}

#[test]
fn non_finite_number_errors() {
    let raw = RawValue::Number { bits: f64::INFINITY.to_bits(), text: ".inf".to_string() };
    let err = Node::from_raw(raw).unwrap_err();
    let CanonicalizeError::NotFinite { value } = err else {
        panic!("expected NotFinite error");
    };
    assert_eq!(value, ".inf");
}

#[test]
fn object_keys_deduplicate_last_wins_and_sort() {
    let raw = RawValue::Object(vec![
        (RawValue::String("b".to_string()), RawValue::Bool(true)),
        (RawValue::String("a".to_string()), RawValue::Null),
        (RawValue::String("b".to_string()), RawValue::Bool(false)),
    ]);
    let node = Node::from_raw(raw).expect("canonical");
    assert_eq!(node, from_json("{\"a\":null,\"b\":false}"));
}

#[test]
fn number_precision_controls_equality() {
    let lhs = from_json("1.0");
    let rhs = from_json("1.05");
    let tight = DiffOptions::default();
    assert!(!lhs.eq_with_options(&rhs, &tight));
    let loose = DiffOptions::default().with_precision(0.1f64.to_bits()).unwrap();
    assert!(lhs.eq_with_options(&rhs, &loose));
}

#[test]
fn tolerance_comparison_is_exact_at_the_boundary() {
    // 0.5 and 1.5 are exactly representable: the difference exactly equals
    // the tolerance, so the comparison holds; a hair under fails.
    let lhs = from_json("0.5");
    let rhs = from_json("1.5");
    let exact = DiffOptions::default().with_precision(1.0f64.to_bits()).unwrap();
    assert!(lhs.eq_with_options(&rhs, &exact));
    let under = DiffOptions::default().with_precision(0.999f64.to_bits()).unwrap();
    assert!(!lhs.eq_with_options(&rhs, &under));
}

#[test]
fn negative_and_positive_zero_are_equal() {
    let pos = from_json("0");
    let neg = from_json("-0.0");
    assert_eq!(pos, neg);
    assert!(pos.eq_with_options(&neg, &DiffOptions::default()));
}

#[test]
fn array_mode_list_respects_order() {
    let lhs = from_json("[1,2]");
    let rhs = from_json("[2,1]");
    let opts = DiffOptions::default();
    assert!(!lhs.eq_with_options(&rhs, &opts));
}

#[test]
fn array_mode_set_ignores_order() {
    let lhs = from_json("[1,2]");
    let rhs = from_json("[2,1]");
    let opts = DiffOptions::default().with_array_mode(ArrayMode::SetMode).unwrap();
    assert!(lhs.eq_with_options(&rhs, &opts));
}

#[test]
fn array_mode_set_ignores_duplicates() {
    let lhs = from_json("[1,1,2]");
    let rhs = from_json("[2,1]");
    let set = DiffOptions::default().with_array_mode(ArrayMode::SetMode).unwrap();
    assert!(lhs.eq_with_options(&rhs, &set));
    let mset = DiffOptions::default().with_array_mode(ArrayMode::MultiSet).unwrap();
    assert!(!lhs.eq_with_options(&rhs, &mset));
}

#[test]
fn array_mode_multiset_counts_duplicates() {
    let lhs = from_json("[1,2,1]");
    let rhs = from_json("[1,1,2]");
    let mset = DiffOptions::default().with_array_mode(ArrayMode::MultiSet).unwrap();
    assert!(lhs.eq_with_options(&rhs, &mset));
}

#[test]
fn hashes_agree_with_equality_on_fixtures() {
    let opts = DiffOptions::default();
    let docs = ["null", "true", "false", "0", "1", "1.5", "\"a\"", "[1,2]", "{\"a\":1}"];
    for a_text in docs {
        for b_text in docs {
            let a = from_json(a_text);
            let b = from_json(b_text);
            let same_hash = a.hash_code(&opts) == b.hash_code(&opts);
            let equal = a.eq_with_options(&b, &opts);
            if same_hash {
                assert!(equal, "hash collision between {a_text} and {b_text}");
            }
            if equal {
                assert!(same_hash, "equal values must hash alike: {a_text} {b_text}");
            }
        }
    }
}

#[test]
fn hash_bytes_matches_fnv_reference() {
    // FNV-1a of the empty input is the offset basis.
    assert_eq!(jd_core::hash_bytes(b""), 0xcbf29ce484222325u64.to_le_bytes());
    // One byte: (basis ^ b) * prime.
    let expected = (0xcbf29ce484222325u64 ^ 0x61).wrapping_mul(0x100000001b3);
    assert_eq!(jd_core::hash_bytes(b"a"), expected.to_le_bytes());
}

#[test]
fn combine_is_order_insensitive() {
    let a = jd_core::hash_bytes(b"a");
    let b = jd_core::hash_bytes(b"b");
    let ab = jd_core::combine(vec![a, b]);
    let ba = jd_core::combine(vec![b, a]);
    assert_eq!(ab, ba);
    assert_eq!(ab.len(), 8);
}

#[test]
fn node_json_void() {
    assert_eq!(jd_core::jsontext::node_to_json(&Node::Void), "");
}

#[test]
fn node_json_number_is_minimal() {
    let node = from_json("1");
    let rendered = jd_core::jsontext::node_to_json(&node);
    assert_eq!(rendered, "1");

    let json_number = serde_json::Number::from_f64(1.0).unwrap();
    assert_eq!(json_number.to_string(), "1.0");
}

#[test]
fn negative_zero_keeps_float_form() {
    let neg_zero = from_json("-0.0");
    assert_eq!(jd_core::jsontext::node_to_json(&neg_zero), "-0.0");
}

#[test]
fn version_is_nonempty() {
    assert!(!jd_core::version().is_empty());
}

#[test]
fn number_form_prefers_minimal_integers() {
    assert_eq!(number_form(5.0f64.to_bits()), NumberForm::Int64);
    assert_eq!(number_form((-3.0f64).to_bits()), NumberForm::Int64);
    assert_eq!(number_form(5.25f64.to_bits()), NumberForm::Float);
    assert_eq!(number_form((-0.0f64).to_bits()), NumberForm::Float);
    assert_eq!(number_form(0.0f64.to_bits()), NumberForm::Int64);
    // 2^63 compares within the signed range boundary; 2^64 within unsigned.
    assert_eq!(number_form(9223372036854775808.0f64.to_bits()), NumberForm::Int64);
    assert_eq!(number_form(12000000000000000000.0f64.to_bits()), NumberForm::UInt64);
    assert_eq!(number_form(1.0e300f64.to_bits()), NumberForm::Float);
}
