//! The RPC endpoint that the package models are fetched from.

use vstd::prelude::*;

verus! {

/// The endpoint used when the manifest configures none.
pub const DEFAULT_RPC: &'static str = "https://fullnode.mainnet.sui.io:443";

/// The RPC endpoint to use: the one the manifest's configuration names, or
/// else the default.
pub fn rpc_url(configured: Option<&String>) -> (res: String)
    ensures
        res@ == match configured {
            Some(url) => url@,
            None => DEFAULT_RPC@,
        },
{
    match configured {
        Some(url) => url.clone(),
        None => DEFAULT_RPC.to_owned(),
    }
}

} // verus!
