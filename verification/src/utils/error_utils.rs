//! Transience classification of errors: a transient failure is one a retry
//! may fix (a network blip, a timeout), as opposed to one that will fail the
//! same way again.

use crate::rpc::rpc_api::RpcError;
use vstd::prelude::*;

verus! {

/// An error that can say whether retrying might help.
pub trait IsTransient {
    /// The classification, as a predicate contracts can speak about.
    spec fn is_transient_spec(&self) -> bool;

    /// Whether a retry may succeed where this failure did not.
    fn is_transient(&self) -> (transient: bool)
        ensures
            transient == self.is_transient_spec(),
    ;
}

impl IsTransient for RpcError {
    open spec fn is_transient_spec(&self) -> bool {
        self is Transport || self is Io
    }

    fn is_transient(&self) -> (transient: bool) {
        matches!(self, RpcError::Transport | RpcError::Io)
    }
}

} // verus!
