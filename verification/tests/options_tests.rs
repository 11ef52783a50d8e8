//! Tests of the diff options and of the output format selector.
use jd_core::{ArrayMode, DiffOptions, OptionsError, OutputFormat};

#[test]
fn precision_and_set_mode_conflict() {
    let err = DiffOptions::default()
        .with_array_mode(ArrayMode::SetMode)
        .and_then(|opts| opts.with_precision(0.1f64.to_bits()))
        .unwrap_err();
    assert_eq!(err, OptionsError::PrecisionIncompatible);
}

#[test]
fn set_keys_require_non_empty_strings() {
    let err = DiffOptions::default().with_set_keys(vec![" ".to_string()]).unwrap_err();
    assert_eq!(err, OptionsError::EmptySetKey);
}

#[test]
fn set_keys_force_set_mode() {
    let opts = DiffOptions::default().with_set_keys(vec!["id".to_string()]).unwrap();
    assert_eq!(opts.array_mode(), ArrayMode::SetMode);
    let keys = opts.set_keys().expect("keys present");
    assert_eq!(keys.len(), 1);
    assert_eq!(keys[0], "id");
}

#[test]
fn set_keys_are_sorted_and_deduplicated() {
    let opts = DiffOptions::default()
        .with_set_keys(vec!["name".to_string(), "id".to_string(), "name".to_string()])
        .unwrap();
    let keys = opts.set_keys().expect("keys present");
    assert_eq!(keys.len(), 2);
    assert_eq!(keys[0], "id");
    assert_eq!(keys[1], "name");
}

#[test]
fn default_options_are_list_mode_zero_precision() {
    let opts = DiffOptions::default();
    assert_eq!(opts.array_mode(), ArrayMode::List);
    assert_eq!(opts.precision(), 0);
    assert!(opts.set_keys().is_none());
}

#[test]
fn output_format_default_is_native() {
    assert_eq!(OutputFormat::default(), OutputFormat::Native);
}

#[test]
fn options_error_messages_are_stable() {
    assert_eq!(
        OptionsError::PrecisionIncompatible.message(),
        "precision tolerance cannot be combined with set or multiset array modes"
    );
    assert_eq!(
        OptionsError::SetKeysRequireSetMode.message(),
        "set keys require array mode to be set"
    );
    assert_eq!(OptionsError::EmptySetKey.message(), "set keys must be non-empty strings");
}
