//! The error type shared by every fallible operation of the crate.

use vstd::prelude::*;

verus! {

/// Why an operation on the metadata tree failed.
///
/// The variants carry short context strings; they name the offending
/// entity and, where it helps, what was expected of it.
#[derive(Debug, Clone)]
pub enum Error {
    /// An on-storage artifact or a catalog response has the wrong shape.
    InvalidFormat(String),
    /// A value does not have the expected type.
    Type(String, String),
    /// A column is not part of the schema it was looked up in.
    Schema(String, String),
    /// A value could not be coerced into the required representation.
    Conversion(String, String),
    /// A snapshot, manifest, column or summary that was required is absent.
    NotFound(String, String),
    /// The feature is recognized but not implemented.
    NotSupported(String),
    /// An external collaborator (object store, catalog, codec) failed.
    External(String),
}

} // verus!
