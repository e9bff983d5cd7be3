//! The network side of a node: protocols, the server's decisions, clients and gateways.

pub mod auth;
pub mod base64;
pub mod client;
pub mod connection;
pub mod console;
pub mod dealings;
pub mod duties;
pub mod forward;
pub mod gateways;
pub mod http_admin;
pub mod http_gateway;
pub mod http_ops;
pub mod json;
pub mod json_tcp;
pub mod oversight;
pub mod protocol;
pub mod replica;
pub mod reports;
pub mod rights;
pub mod server;
pub mod session;

pub use auth::{AuthConfig, Role};
pub use client::Client;
pub use forward::{ForwardStats, Router};
pub use http_gateway::HttpConfig;
pub use json_tcp::JsonTcpConfig;
pub use protocol::{ReadConsistency, Request, Response, ShardOutcome};
pub use replica::{Replica, ReplicaConfig, ReplicaStats};
pub use server::{NodeServices, ServerConfig, ServerStats};
