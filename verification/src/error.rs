//! The failures an instruction can end in.

use vstd::prelude::*;

verus! {

/// Why an instruction was rejected. A rejected instruction leaves the storage
/// region exactly as it was.
#[derive(Clone, Copy, Debug, PartialEq, Eq, Structural)]
pub enum TodoError {
    /// The payload is empty, carries an unknown tag, or its name is truncated
    /// or not valid UTF-8.
    MalformedInstruction,
    /// The storage region belongs to someone other than the executing program.
    PermissionDenied,
    /// The storage region does not start with a well-formed item list.
    CorruptState,
    /// No item of the requested name exists.
    ItemNotFound,
    /// The first item of the requested name is already done.
    AlreadyDone,
    /// The updated list does not fit into the storage region.
    CapacityExceeded,
}

} // verus!
