pub mod rpc_api;
pub mod rpc_client;

pub use rpc_api::RpcApi;
pub use rpc_api::RpcError;
pub use rpc_client::SolanaRpcClient;
