use suigen::rpc::{rpc_url, DEFAULT_RPC};

#[test]
fn default_rpc_when_none_is_configured() {
    assert_eq!(rpc_url(None), "https://fullnode.mainnet.sui.io:443");
    assert_eq!(rpc_url(None), DEFAULT_RPC);
}

#[test]
fn configured_rpc_is_used() {
    let url = "https://fullnode.testnet.sui.io:443".to_string();
    assert_eq!(rpc_url(Some(&url)), url);
}
