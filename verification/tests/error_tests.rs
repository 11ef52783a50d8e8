//! Tests of the stable user-visible error messages.
use jd_core::CanonicalizeError;

#[test]
fn canonicalize_error_messages_are_stable() {
    let json = CanonicalizeError::Json { message: "eof".to_string() };
    assert_eq!(json.message(), "invalid JSON: eof");
    let yaml = CanonicalizeError::Yaml { message: "bad".to_string() };
    assert_eq!(yaml.message(), "invalid YAML: bad");
    let range = CanonicalizeError::NumberOutOfRange { value: "1e999".to_string() };
    assert_eq!(range.message(), "number 1e999 cannot be represented as f64");
    let key = CanonicalizeError::NonStringYamlKey { found: "sequence".to_string() };
    assert_eq!(key.message(), "unsupported YAML key type: sequence");
    let tag = CanonicalizeError::UnsupportedYamlTag { tag: "!x".to_string() };
    assert_eq!(tag.message(), "unsupported YAML tag: !x");
    let finite = CanonicalizeError::NotFinite { value: ".nan".to_string() };
    assert_eq!(finite.message(), "non-finite number encountered: .nan");
}

#[test]
fn number_constructor_validates_finiteness() {
    let ok = jd_core::Number::new(2.5f64.to_bits(), "2.5".to_string());
    assert!(ok.is_ok());
    assert_eq!(ok.as_ref().unwrap().get(), 2.5f64.to_bits());
    assert_eq!(ok.unwrap().text(), "2.5");
    let bad = jd_core::Number::new(f64::NAN.to_bits(), ".nan".to_string());
    assert!(matches!(bad, Err(CanonicalizeError::NotFinite { .. })));
}
