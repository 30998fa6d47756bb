//! Failure kinds of the guest/host boundary.

use vstd::prelude::*;

verus! {

/// What can go wrong between the guest program and the bridge.
#[derive(Debug, Clone, Copy, PartialEq, Eq, Structural)]
pub enum SuperMipsError {
    /// The word address lies in neither the instruction nor the data range.
    AddressError(u32),
    /// A decode ran outside the allocated words of the data segment.
    BoundsError,
    /// The decoded bytes are not UTF-8.
    EncodingError,
    /// The selector is reserved for a service that is not provided yet.
    Unimplemented(u32),
    /// The selector names no service at all.
    UnknownSyscall(u32),
}

} // verus!
