use vstd::prelude::*;

verus! {

/// Failures of the secure transport.
#[derive(Debug, Clone, Copy, PartialEq, Eq, Structural)]
pub enum QuicError {
    ConnectionFailed,
    StreamError,
}

} // verus!
