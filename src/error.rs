use vstd::prelude::*;

verus! {

/// Failures of catalog import and loot generation. Errors that come from
/// reading or writing documents carry the underlying message as text.
#[derive(Debug, Clone)]
pub enum PraedaError {
    Io(String),
    JsonError(String),
    TomlError(String),
    TomlDeError(String),
    FileNotFound(String),
    InvalidData(String),
    MissingQuality(String),
    MissingItemType(String),
    MissingItemSubtype(String, String),
}

/// Result of a fallible library operation.
pub type Result<T> = core::result::Result<T, PraedaError>;

} // verus!
