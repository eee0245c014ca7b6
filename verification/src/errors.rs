//! Error taxonomy of the transport, the multiplexer and the call facade.
//!
//! `ConnectionError` covers the channel bridge and the byte stream,
//! `TransportError` adds the per-call deadline, and `RpcError` adds the
//! interpretation of a reply payload.

use vstd::prelude::*;

verus! {

/// An error of the channel bridge or of the byte stream itself.
#[derive(Debug, Clone, PartialEq, Eq)]
pub enum ConnectionError {
    /// The stream connection could not be established; carries a description
    /// of the underlying failure.
    Connect(String),
    /// The received bytes were not a valid message and were not merely
    /// incomplete; fatal to the whole connection.
    JsonParseErr(String),
    /// A value was pushed towards a peer that has already shut down.
    SendToClosedChannel,
    /// A wait for a value ended because the sending side has shut down.
    ChannelReceive,
}

/// An error of a single multiplexed exchange.
#[derive(Debug, Clone, PartialEq, Eq)]
pub enum TransportError {
    /// The connection itself failed or closed.
    Connection(ConnectionError),
    /// The call's deadline elapsed before its reply arrived.
    RequestTimeout,
}

impl TransportError {
    /// Wraps a bridge-level error; kept as a function so callers need not
    /// repeat the variant.
    pub fn from_connection(e: ConnectionError) -> (r: TransportError)
        ensures
            r == TransportError::Connection(e),
    {
        TransportError::Connection(e)
    }
}

/// The failure body of a reply: the remote side's error code and message.
#[derive(Debug, Clone, PartialEq, Eq)]
pub struct ResponseErrorPayload {
    /// The error code reported by the remote side.
    pub code: i64,
    /// The error message reported by the remote side.
    pub message: String,
}

impl ResponseErrorPayload {
    /// Builds a payload from a code and a message.
    pub fn new(code: i64, message: String) -> (r: ResponseErrorPayload)
        ensures
            r.code == code,
            r.message == message,
    {
        ResponseErrorPayload { code, message }
    }
}

/// An error of a whole call: transport failure, payload interpretation
/// failure, or an explicit error reported by the remote side.
#[derive(Debug, Clone, PartialEq, Eq)]
pub enum RpcError {
    /// The connection or the call's deadline failed underneath the exchange.
    TransportError(TransportError),
    /// A reply arrived but its body did not parse as the expected shape.
    JsonParseErr(String),
    /// A failure body was read where a success body was expected.
    JsonErrPayloadMisinterpretedAsSuccess,
    /// A success body was read where a failure body was expected.
    JsonSuccessPayloadMisinterpretedAsError,
    /// The remote side reported failure; carries its code and message.
    ServerError(ResponseErrorPayload),
}

impl RpcError {
    /// Wraps a transport-level error.
    pub fn from_transport(e: TransportError) -> (r: RpcError)
        ensures
            r == RpcError::TransportError(e),
    {
        RpcError::TransportError(e)
    }
}

} // verus!
