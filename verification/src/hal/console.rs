//! Byte-sink console for diagnostic output.
use vstd::prelude::*;

verus! {

/// Byte-sink console for early-boot and panic-time diagnostic output.
///
/// Writes are synchronous and infallible: a console that cannot write
/// drops the bytes.
pub trait Console: Send + Sync {
    /// Write the given bytes to the console.
    fn write_bytes(&self, bytes: &[u8]);
}

} // verus!
