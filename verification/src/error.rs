use vstd::prelude::*;

verus! {

/// The failures a versioned map operation can report.
#[derive(Clone, Copy, Debug, PartialEq, Eq, Structural)]
pub enum MapError {
    /// An identifier is absent from the block store.
    NotFound,
    /// A block exists but does not have the expected shape (for example, a
    /// raw value block where a map root was expected).
    DecodeError,
    /// A required key is absent from the map; reported by `require` only.
    KeyNotFound,
}

} // verus!
