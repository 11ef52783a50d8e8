//! Structural diff and patch engine for canonical JSON/YAML documents.
//!
//! Two canonical documents are compared into a sequence of hunks (a
//! `Diff`), which can be rendered in the native text format, as an RFC 6902
//! JSON Patch, or as an RFC 7386 merge patch, applied back to a document
//! with strict context validation or merge semantics, or reversed.
//!
//! Numbers are finite binary64 values, modelled by their bit patterns with
//! exact integer arithmetic; parsing and serialization of external text
//! happen at the crate's boundary, which hands in a generic value tree.
use vstd::prelude::*;

pub mod bigmag;
pub mod canon;
pub mod diffcore;
pub mod dtypes;
pub mod eq;
pub mod errors;
pub mod hash;
pub mod hashnode;
pub mod jsontext;
pub mod laws;
pub mod mergegen;
pub mod node;
pub mod number;
pub mod options;
pub mod patch;
pub mod path;
pub mod render;
pub mod render_wire;
pub mod reverse;
pub mod strutil;

pub use canon::RawValue;
pub use dtypes::{
    Diff, DiffElement, DiffMetadata, OutputFormat, PatchError, RenderConfig, RenderError,
};
pub use errors::{CanonicalizeError, OptionsError};
pub use hash::{combine, hash_bytes, HashCode};
pub use mergegen::merge_patch;
pub use node::Node;
pub use number::Number;
pub use options::{ArrayMode, DiffOptions};
pub use path::{path_from_segments, root_path, Path, PathSegment};

verus! {

/// Returns the semantic version of this crate.
pub fn version() -> (r: &'static str)
    ensures
        r@ == "0.1.0"@,
{
    "0.1.0"
}

} // verus!
