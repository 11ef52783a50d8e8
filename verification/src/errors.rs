//! Errors raised while canonicalizing input into nodes and while building
//! diff options.
use vstd::prelude::*;
use vstd::string::StringExecFns;

verus! {

/// Errors that can occur while canonicalizing external data into a node.
#[derive(Debug)]
pub enum CanonicalizeError {
    /// The provided JSON input was invalid.
    Json {
        /// The parser's description of the problem.
        message: String,
    },
    /// The provided YAML input was invalid.
    Yaml {
        /// The parser's description of the problem.
        message: String,
    },
    /// Encountered a number that cannot be represented as a finite binary64.
    NumberOutOfRange {
        /// The textual representation of the offending number.
        value: String,
    },
    /// YAML maps may only contain string keys.
    NonStringYamlKey {
        /// A description of the key that triggered the error.
        found: String,
    },
    /// YAML tags are not supported.
    UnsupportedYamlTag {
        /// The tag identifier encountered in the document.
        tag: String,
    },
    /// Attempted to construct a number that is not finite.
    NotFinite {
        /// The textual representation of the offending value.
        value: String,
    },
}

/// The user-visible message of a canonicalization error.
pub open spec fn canonicalize_error_message(e: &CanonicalizeError) -> Seq<char> {
    match e {
        CanonicalizeError::Json { message } => "invalid JSON: "@ + message@,
        CanonicalizeError::Yaml { message } => "invalid YAML: "@ + message@,
        CanonicalizeError::NumberOutOfRange { value } => "number "@ + value@
            + " cannot be represented as f64"@,
        CanonicalizeError::NonStringYamlKey { found } => "unsupported YAML key type: "@ + found@,
        CanonicalizeError::UnsupportedYamlTag { tag } => "unsupported YAML tag: "@ + tag@,
        CanonicalizeError::NotFinite { value } => "non-finite number encountered: "@ + value@,
    }
}

impl CanonicalizeError {
    /// Renders the user-visible message for this error.
    pub fn message(&self) -> (r: String)
        ensures
            r@ == canonicalize_error_message(self),
    {
        let mut s = String::new();
        match self {
            CanonicalizeError::Json { message } => {
                s.append("invalid JSON: ");
                s.append(message.as_str());
            },
            CanonicalizeError::Yaml { message } => {
                s.append("invalid YAML: ");
                s.append(message.as_str());
            },
            CanonicalizeError::NumberOutOfRange { value } => {
                s.append("number ");
                s.append(value.as_str());
                s.append(" cannot be represented as f64");
            },
            CanonicalizeError::NonStringYamlKey { found } => {
                s.append("unsupported YAML key type: ");
                s.append(found.as_str());
            },
            CanonicalizeError::UnsupportedYamlTag { tag } => {
                s.append("unsupported YAML tag: ");
                s.append(tag.as_str());
            },
            CanonicalizeError::NotFinite { value } => {
                s.append("non-finite number encountered: ");
                s.append(value.as_str());
            },
        }
        s
    }
}

/// Errors emitted when constructing diff options.
#[derive(Debug, Clone, Copy, PartialEq, Eq, Structural)]
pub enum OptionsError {
    /// Precision tolerance is incompatible with set or multiset semantics.
    PrecisionIncompatible,
    /// Set keys require arrays to operate in set mode.
    SetKeysRequireSetMode,
    /// Set keys must be non-empty strings.
    EmptySetKey,
}

/// The user-visible message of an options error.
pub open spec fn options_error_message(e: OptionsError) -> Seq<char> {
    match e {
        OptionsError::PrecisionIncompatible =>
            "precision tolerance cannot be combined with set or multiset array modes"@,
        OptionsError::SetKeysRequireSetMode => "set keys require array mode to be set"@,
        OptionsError::EmptySetKey => "set keys must be non-empty strings"@,
    }
}

impl OptionsError {
    /// Renders the user-visible message for this error.
    pub fn message(&self) -> (r: String)
        ensures
            r@ == options_error_message(*self),
    {
        match self {
            OptionsError::PrecisionIncompatible => String::from_str(
                "precision tolerance cannot be combined with set or multiset array modes",
            ),
            OptionsError::SetKeysRequireSetMode => String::from_str(
                "set keys require array mode to be set",
            ),
            OptionsError::EmptySetKey => String::from_str("set keys must be non-empty strings"),
        }
    }
}

} // verus!
