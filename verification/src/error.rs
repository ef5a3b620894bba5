//! The errors a device operation can surface.

use vstd::prelude::*;

verus! {

/// Why an exchange with the device failed.  Best-effort teardown never
/// fails, and malformed trailing record bytes are discarded silently, so
/// neither appears here.
#[derive(Clone, Copy, PartialEq, Eq, Structural, Debug)]
pub enum LinkError {
    /// The peer was unreachable or refused the connection.
    Connect,
    /// A read or write exceeded its time budget, or the pipe broke.
    IoTimeout,
    /// Fewer than 9 bytes arrived where a framed reply was expected.
    ShortFrame,
}

impl LinkError {
    /// A short description of the error.
    pub fn describe(&self) -> (r: &'static str)
        ensures
            (*self == LinkError::Connect ==> r@ == "connection failed"@),
            (*self == LinkError::IoTimeout ==> r@ == "i/o timed out"@),
            (*self == LinkError::ShortFrame ==> r@ == "too few bytes received"@),
    {
        match self {
            LinkError::Connect => "connection failed",
            LinkError::IoTimeout => "i/o timed out",
            LinkError::ShortFrame => "too few bytes received",
        }
    }
}

} // verus!
