//! The two ends of a connection.
//!
//! A client masks the payloads that it sends and a server does not, so the
//! end at which a receiver stands decides whether the frames that reach it
//! are expected to be masked.

use vstd::prelude::*;

verus! {

/// The end of the connection at which a receiver stands.
pub trait Role {
    /// Whether the frames that reach this end are masked.
    spec fn masked() -> bool;

    /// Whether the frames that reach this end are masked.
    fn expect_masked() -> (r: bool)
        ensures
            r == Self::masked(),
    ;
}

/// The end that opened the connection: it receives what a server sends,
/// which is not masked.
#[derive(Clone, Copy, Debug, PartialEq, Eq)]
pub struct Local;

/// The end that accepted the connection: it receives what a client sends,
/// which is masked.
#[derive(Clone, Copy, Debug, PartialEq, Eq)]
pub struct Remote;

impl Role for Local {
    open spec fn masked() -> bool {
        false
    }

    fn expect_masked() -> (r: bool) {
        false
    }
}

impl Role for Remote {
    open spec fn masked() -> bool {
        true
    }

    fn expect_masked() -> (r: bool) {
        true
    }
}

} // verus!
