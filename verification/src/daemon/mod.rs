//! The daemon: its protocol, its quotas, its sessions and its tools.

pub mod cancellation;
pub mod client;
pub mod connection;
pub mod counters;
pub mod dispatcher;
pub mod envelope;
pub mod frame;
pub mod health;
pub mod idle;
pub mod isolation;
pub mod laws;
pub mod limits;
pub mod namespaces;
pub mod registry;
pub mod request_laws;
pub mod runtime;
pub mod scheduler;
pub mod server;
pub mod service_laws;
pub mod tools;
