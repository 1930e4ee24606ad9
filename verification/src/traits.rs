//! Crate-wide traits for value types that move through raw bytes.

use vstd::prelude::*;

verus! {

/// A value with a fixed name, for diagnostics.
pub trait Identifiable {
    /// The name of the value's kind.
    fn get_name(&self) -> &'static str;
}

/// A value that can be rendered into bytes.
pub trait Serialize: Sized {
    /// Renders the value into a fresh byte buffer.
    fn serialize(&self) -> Vec<u8>;
}

/// A value that can be read back out of bytes.
pub trait Unserialize<E>: Sized {
    /// Reads one value from the front of `data`.
    fn unserialize(data: &[u8]) -> Result<Self, E>;
}

} // verus!
