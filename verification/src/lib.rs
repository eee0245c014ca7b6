//! A client-side transport for request/response calls carried over one
//! byte-stream connection: a channel bridge between the socket and the
//! multiplexer, incremental framing of the reply stream, a pending-request
//! table that routes each reply to the caller that issued its identifier,
//! and a call facade with optional per-call deadlines and a shutdown path
//! that releases every waiting caller.

pub mod connection;
pub mod errors;
pub mod ipc;
pub mod manager;
pub mod pending;
pub mod rpc_provider;
pub mod rpc_reqresp;

pub use rpc_provider::RpcProviderInner;
