//! The error type that the tools report.
use vstd::prelude::*;

verus! {

#[verifier::external_type_specification]
#[verifier::external_body]
pub struct ExTomlError(toml_edit::TomlError);

/// Why a tool could not compute its result.
#[derive(Debug)]
pub enum ToolError {
    /// A regular expression that the tool uses did not compile.
    Pattern(regex::Error),
    /// The manifest is not a TOML document.
    Manifest(toml_edit::TomlError),
    /// A sum of match counts, or the next ADR number, does not fit its integer type.
    Overflow,
}

} // verus!
