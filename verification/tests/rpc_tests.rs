use solana_caching_service::rpc::{RpcApi, RpcError, SolanaRpcClient};
use std::cell::RefCell;
use std::rc::Rc;

struct MockRpcApi {
    get_slot_responses: Vec<Result<u64, RpcError>>,
    get_blocks_responses: Vec<Result<Vec<u64>, RpcError>>,
    get_blocks_calls: Rc<RefCell<Vec<(u64, Option<u64>)>>>,
}

impl RpcApi for MockRpcApi {
    fn get_slot(&mut self) -> Result<u64, RpcError> {
        self.get_slot_responses.remove(0)
    }

    fn get_blocks(&mut self, start_slot: u64, end_slot: Option<u64>) -> Result<Vec<u64>, RpcError> {
        self.get_blocks_calls.borrow_mut().push((start_slot, end_slot));
        self.get_blocks_responses.remove(0)
    }
}

#[test]
fn test_get_latest_slot_success() {
    let mock = MockRpcApi {
        get_slot_responses: vec![Ok(12345)],
        get_blocks_responses: vec![],
        get_blocks_calls: Rc::new(RefCell::new(Vec::new())),
    };
    let mut client = SolanaRpcClient::new(mock);
    assert_eq!(client.get_latest_slot().unwrap(), 12345);
}

#[test]
fn test_get_confirmed_blocks_success() {
    let calls = Rc::new(RefCell::new(Vec::new()));
    let mock = MockRpcApi {
        get_slot_responses: vec![],
        get_blocks_responses: vec![Ok(vec![92, 95, 98])],
        get_blocks_calls: calls.clone(),
    };
    let mut client = SolanaRpcClient::new(mock);
    let result = client.get_confirmed_blocks(90, Some(100));
    assert_eq!(result.unwrap(), vec![92, 95, 98]);
    assert_eq!(*calls.borrow(), vec![(90, Some(100))]);
}
