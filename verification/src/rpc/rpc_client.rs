//! A thin client over any transport that implements the endpoint interface.

use crate::rpc::rpc_api::{RpcApi, RpcError};
use vstd::prelude::*;

verus! {

/// Wraps a transport and forwards the two endpoint calls to it.
pub struct SolanaRpcClient<T: RpcApi> {
    client: T,
}

impl<T: RpcApi> SolanaRpcClient<T> {
    /// Wraps the given transport.
    pub fn new(client: T) -> (c: SolanaRpcClient<T>) {
        SolanaRpcClient { client }
    }

    /// Fetches the latest slot the endpoint knows.
    pub fn get_latest_slot(&mut self) -> Result<u64, RpcError> {
        self.client.get_slot()
    }

    /// Fetches the confirmed block numbers within the given slot range.
    pub fn get_confirmed_blocks(&mut self, start_slot: u64, end_slot: Option<u64>) -> Result<
        Vec<u64>,
        RpcError,
    > {
        self.client.get_blocks(start_slot, end_slot)
    }
}

impl<T: RpcApi> RpcApi for SolanaRpcClient<T> {
    fn get_slot(&mut self) -> Result<u64, RpcError> {
        self.client.get_slot()
    }

    fn get_blocks(&mut self, start_slot: u64, end_slot: Option<u64>) -> Result<Vec<u64>, RpcError> {
        self.client.get_blocks(start_slot, end_slot)
    }
}

} // verus!
