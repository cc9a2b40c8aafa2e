//! The chat client's connection settings and the request/response types
//! of the node API, with the one decision the start endpoint makes:
//! which configuration a start request yields.

use vstd::prelude::*;

use crate::node::GaiaNodeConfig;

verus! {

/// Connection settings for a chat-completion node.
pub struct GaiaNodeClient {
    pub base_url: String,
    pub api_key: String,
    pub model: String,
}

impl GaiaNodeClient {
    /// A client for the given endpoint and model.
    pub fn new(base_url: String, api_key: String, model: String) -> (c: GaiaNodeClient)
        ensures
            c.base_url == base_url,
            c.api_key == api_key,
            c.model == model,
    {
        GaiaNodeClient { base_url, api_key, model }
    }
}

/// The body of a chat reply.
#[derive(Debug, Clone)]
pub struct ChatResponse {
    pub response: String,
}

/// A request to start the node, with optional overrides for the network
/// and the data directory.
#[derive(Debug, Clone)]
pub struct StartNodeRequest {
    pub network: Option<String>,
    pub data_dir: Option<String>,
}

/// The configuration a start request yields: the base configuration with
/// the request's overrides applied where given.
pub fn config_with_overrides(req: &StartNodeRequest, base: GaiaNodeConfig) -> (c: GaiaNodeConfig)
    ensures
        c.verbose == base.verbose,
        req.network matches Some(n) ==> c.network == n,
        req.network is None ==> c.network == base.network,
        req.data_dir matches Some(d) ==> c.data_dir == d,
        req.data_dir is None ==> c.data_dir == base.data_dir,
{
    let mut c = base;
    if let Some(n) = &req.network {
        c.network = n.clone();
    }
    if let Some(d) = &req.data_dir {
        c.data_dir = d.clone();
    }
    c
}

} // verus!
