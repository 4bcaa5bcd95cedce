//! The kernel's status codes.

use vstd::prelude::*;

verus! {

/// Why the kernel, or a component, has refused a request.
#[derive(Clone, Copy, Debug, PartialEq, Eq, Structural)]
pub enum Status {
    AccessDenied,
    BadHandle,
    BadPath,
    InvalidArgs,
    NoMemory,
    NotFile,
    NotFound,
    NotSupported,
    Unavailable,
    /// A status that is not told apart here, by its number.
    Other(i32),
}

} // verus!
