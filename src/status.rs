use vstd::prelude::*;

verus! {

/// Failures reported by the filesystem operations, one for each status that
/// the host layer hands back.
#[derive(Clone, Copy, PartialEq, Eq, Structural, Debug)]
pub enum FsError {
    InvalidParameter,
    ObjectNameInvalid,
    ObjectNameNotFound,
    ObjectPathNotFound,
    ObjectNameCollision,
    AccessDenied,
    DeletePending,
    CannotDelete,
    NotADirectory,
    FileIsADirectory,
    DirectoryNotEmpty,
    SharingViolation,
    IoTimeout,
    InvalidDeviceRequest,
    /// A handle count is at its largest value.
    InsufficientResources,
}

} // verus!
