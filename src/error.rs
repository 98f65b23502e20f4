//! Why decoding or encoding a save container fails.
use vstd::prelude::*;

verus! {

/// The two ways in which decoding or encoding fails.
#[derive(Debug, Clone, Copy, PartialEq, Eq, Structural)]
pub enum SaveError {
    /// A marker is missing, or a field lies beyond the end of the buffer.
    Format,
    /// A catalog key is not the upper-case hexadecimal form of a 16-byte
    /// identifier, or the catalog cannot be written back.
    Catalog,
}

} // verus!
