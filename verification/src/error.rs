//! The application error taxonomy for registry operations.

use vstd::prelude::*;

verus! {

/// A client-facing structured error.
#[derive(Debug, Clone, Copy, PartialEq, Eq, Structural)]
pub enum Error {
    /// The requested room key has no active room.
    RoomNotFound,
}

impl Error {
    /// The machine-readable kind of this error.
    pub fn kind(&self) -> (r: &'static str)
        ensures
            r@ == "room_not_found"@,
    {
        "room_not_found"
    }

    /// The human-readable message of this error.
    pub fn message(&self) -> (r: &'static str)
        ensures
            r@ == "the requested room does not exist"@,
    {
        "the requested room does not exist"
    }
}

} // verus!
