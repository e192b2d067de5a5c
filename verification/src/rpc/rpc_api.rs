//! The capability interface through which the service reaches the remote
//! endpoint, and the error such calls report.

use vstd::prelude::*;

verus! {

/// The error a remote endpoint call reports.  `Transport` and `Io` failures
/// are transient (a retry may succeed); an answer from the endpoint that is
/// an error, or one that cannot be interpreted, is not.
#[derive(Clone, Copy, Debug, PartialEq, Eq, Structural)]
pub enum RpcError {
    /// A network-level failure before an answer arrived.
    Transport,
    /// An I/O failure while talking to the endpoint.
    Io,
    /// The endpoint answered with an error of its own.
    Rpc,
    /// The endpoint's answer could not be interpreted.
    Malformed,
}

/// The two calls the service makes against the remote endpoint.  Nothing is
/// promised of their outcomes: the remote endpoint decides, and every caller
/// in this crate states what it does for each possible outcome.
pub trait RpcApi {
    /// Fetches the latest slot the endpoint knows.
    fn get_slot(&mut self) -> Result<u64, RpcError>;

    /// Fetches the confirmed block numbers in `[start_slot, end_slot]`
    /// (unbounded above when `end_slot` is `None`).
    fn get_blocks(&mut self, start_slot: u64, end_slot: Option<u64>) -> Result<Vec<u64>, RpcError>;
}

} // verus!
