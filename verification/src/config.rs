//! Static configuration of the node: where the store lives, which upstream
//! endpoints to subscribe to, and operational limits.
//!
//! Loading a configuration file is left to the embedding program; this module
//! only defines the configuration data and its defaults.

use vstd::prelude::*;
use vstd::string::StringExecFns;

verus! {

/// Top-level configuration.
#[derive(Clone, Debug)]
pub struct Config {
    pub storage_path: String,
    pub network: NetworkConfig,
    pub node: NodeConfig,
}

/// Upstream endpoints and connection limits.
#[derive(Clone, Debug)]
pub struct NetworkConfig {
    pub rpc_endpoints: Vec<String>,
    pub websocket_endpoints: Vec<String>,
    pub gossip_entrypoints: Vec<String>,
    pub max_connections: usize,
}

/// Per-node operational settings.
#[derive(Clone, Debug)]
pub struct NodeConfig {
    pub identity_keypair_path: Option<String>,
    pub listen_port: u16,
    pub max_transaction_batch_size: usize,
    pub storage_retention_days: u64,
}

impl Default for Config {
    /// The configuration used when no configuration file exists yet.
    fn default() -> (r: Config)
        ensures
            r.storage_path@ == "./solana_node_data"@,
            r.network.rpc_endpoints@.len() == 1,
            r.network.rpc_endpoints@[0]@ == "https://api.mainnet-beta.solana.com"@,
            r.network.websocket_endpoints@.len() == 1,
            r.network.websocket_endpoints@[0]@ == "wss://api.mainnet-beta.solana.com"@,
            r.network.gossip_entrypoints@.len() == 1,
            r.network.gossip_entrypoints@[0]@ == "entrypoint.mainnet-beta.solana.com:8001"@,
            r.network.max_connections == 100,
            r.node.identity_keypair_path is None,
            r.node.listen_port == 8899,
            r.node.max_transaction_batch_size == 1000,
            r.node.storage_retention_days == 30,
    {
        let mut rpc_endpoints: Vec<String> = Vec::new();
        rpc_endpoints.push(String::from_str("https://api.mainnet-beta.solana.com"));
        let mut websocket_endpoints: Vec<String> = Vec::new();
        websocket_endpoints.push(String::from_str("wss://api.mainnet-beta.solana.com"));
        let mut gossip_entrypoints: Vec<String> = Vec::new();
        gossip_entrypoints.push(String::from_str("entrypoint.mainnet-beta.solana.com:8001"));
        Config {
            storage_path: String::from_str("./solana_node_data"),
            network: NetworkConfig {
                rpc_endpoints,
                websocket_endpoints,
                gossip_entrypoints,
                max_connections: 100,
            },
            node: NodeConfig {
                identity_keypair_path: None,
                listen_port: 8899,
                max_transaction_batch_size: 1000,
                storage_retention_days: 30,
            },
        }
    }
}

} // verus!
