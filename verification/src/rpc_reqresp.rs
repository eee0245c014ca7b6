//! Request and reply values of the protocol.
//!
//! A request is built from a method name and already-serialized parameters,
//! stamped with a fresh correlation identifier drawn from a monotonic
//! counter, and carried as its serialized bytes plus that identifier. A
//! reply is the parsed form of what the remote side sent back: the echoed
//! identifier and a body that is either success or failure.

use vstd::prelude::*;

use crate::errors::RpcError;
use core::sync::atomic::AtomicU64;
use core::sync::atomic::Ordering;

verus! {

/// A correlation identifier as it appears on the wire: a number, a string,
/// or null. Requests built here always carry a number; the other forms can
/// still arrive in replies and are then never matched by any waiter.
#[derive(Debug, Clone, PartialEq, Eq)]
pub enum RpcId {
    /// A numeric identifier.
    Num(u64),
    /// A string identifier.
    Str(String),
    /// An explicit null identifier.
    Null,
}

/// The mathematical form of an [`RpcId`].
pub enum RpcIdModel {
    /// A numeric identifier.
    Num(u64),
    /// A string identifier.
    Str(Seq<char>),
    /// An explicit null identifier.
    Null,
}

impl View for RpcId {
    type V = RpcIdModel;

    open spec fn view(&self) -> RpcIdModel {
        match self {
            RpcId::Num(n) => RpcIdModel::Num(*n),
            RpcId::Str(s) => RpcIdModel::Str(s@),
            RpcId::Null => RpcIdModel::Null,
        }
    }
}

/// The body of a reply: either the raw serialized success value, or the
/// remote side's failure code and message.
#[derive(Debug, Clone, PartialEq, Eq)]
pub enum ReplyPayload {
    /// The serialized body of a successful reply.
    Success(String),
    /// The code and message of a failure reply.
    Failure(i64, String),
}

/// The mathematical form of a [`ReplyPayload`].
pub enum ReplyPayloadModel {
    /// The serialized body of a successful reply.
    Success(Seq<char>),
    /// The code and message of a failure reply.
    Failure(i64, Seq<char>),
}

impl View for ReplyPayload {
    type V = ReplyPayloadModel;

    open spec fn view(&self) -> ReplyPayloadModel {
        match self {
            ReplyPayload::Success(body) => ReplyPayloadModel::Success(body@),
            ReplyPayload::Failure(code, message) => ReplyPayloadModel::Failure(
                *code,
                message@,
            ),
        }
    }
}

/// One parsed reply from the remote side.
#[derive(Debug, Clone, PartialEq, Eq)]
pub struct Reply {
    /// The correlation identifier the remote side echoed.
    pub id: RpcId,
    /// The reply body.
    pub payload: ReplyPayload,
}

/// The mathematical form of a [`Reply`].
pub struct ReplyModel {
    /// The correlation identifier the remote side echoed.
    pub id: RpcIdModel,
    /// The reply body.
    pub payload: ReplyPayloadModel,
}

impl View for Reply {
    type V = ReplyModel;

    open spec fn view(&self) -> ReplyModel {
        ReplyModel { id: self.id@, payload: self.payload@ }
    }
}

/// A request ready to be transmitted: its numeric correlation identifier
/// and its full serialized bytes.
#[derive(Debug, Clone, PartialEq, Eq)]
pub struct RpcRequestMsg {
    /// The correlation identifier stamped into the serialized bytes.
    pub id: u64,
    /// The serialized request, one self-delimiting encoded value.
    pub bytes: Vec<u8>,
}

/// The serialized form of a request with the given identifier, method and
/// parameter text. The encoding is a pure function of these three values;
/// its exact bytes are stated nowhere and known only to the serializer.
pub uninterp spec fn request_encoding(id: u64, method: Seq<char>, params: Seq<char>) -> Seq<u8>;

/// The serialized form of a parameterless request with the given identifier
/// and method, a pure function of those two values.
pub uninterp spec fn request_encoding_no_params(id: u64, method: Seq<char>) -> Seq<u8>;

/// Whether the parameter text is one well-formed serialized value — the
/// verdict of `serde_json::value::RawValue::from_string`, a pure function
/// of the text. Which texts pass is stated nowhere; building a request
/// succeeds exactly on those that do.
pub uninterp spec fn params_wellformed(params: Seq<char>) -> bool;

/// Relies on `alloy_json_rpc::Request::new` and its serialization through
/// `serde_json` (`SerializedRequest::try_from`): the bytes are a function
/// of the identifier, the method and the parameter text alone. The attempt
/// fails exactly when `params` is not one well-formed serialized value
/// (the verdict of `serde_json::value::RawValue::from_string`); once it
/// is, serializing the envelope — a map of strings and a number — cannot
/// fail.
#[verifier::external_body]
fn encode_request(id: u64, method: &str, params: &str) -> (r: Option<Vec<u8>>)
    ensures
        r matches Some(v) ==> v@ == request_encoding(id, method@, params@),
        r is Some <==> params_wellformed(params@),
{
    let raw = match serde_json::value::RawValue::from_string(params.to_string()) {
        Ok(raw) => raw,
        Err(_) => return None,
    };
    let req = alloy_json_rpc::Request::new(method.to_string(), alloy_json_rpc::Id::Number(id), raw);
    match alloy_json_rpc::SerializedRequest::try_from(req) {
        Ok(sr) => Some(sr.serialized().get().as_bytes().to_vec()),
        Err(_) => None,
    }
}

/// Relies on `alloy_json_rpc::Request::new` with unit parameters, which
/// the serializer omits from the encoded object; the bytes are a function
/// of the identifier and the method alone, and serializing the envelope —
/// a map of strings and a number, with no parameter field — cannot fail.
#[verifier::external_body]
fn encode_request_no_params(id: u64, method: &str) -> (r: Option<Vec<u8>>)
    ensures
        r matches Some(v) ==> v@ == request_encoding_no_params(id, method@),
        r is Some,
{
    let req = alloy_json_rpc::Request::new(method.to_string(), alloy_json_rpc::Id::Number(id), ());
    match alloy_json_rpc::SerializedRequest::try_from(req) {
        Ok(sr) => Some(sr.serialized().get().as_bytes().to_vec()),
        Err(_) => None,
    }
}

/// Builds requests, stamping each with a fresh identifier.
///
/// The counter is shared between all clones of a provider; its relaxed
/// atomic increment hands every caller a value no other caller receives, so
/// identifiers of requests in flight together are distinct.
pub struct RpcRequest {
    id: AtomicU64,
}

impl RpcRequest {
    /// A builder whose first identifier is zero.
    pub fn new() -> RpcRequest {
        RpcRequest { id: AtomicU64::new(0) }
    }

    /// Draws the next identifier from the counter.
    fn next_id(&self) -> u64 {
        self.id.fetch_add(1, Ordering::Relaxed)
    }

    /// Pairs an identifier with the bytes the serializer produced for it;
    /// a missing encoding becomes the parse error, and nothing else does.
    fn request_from_encoding(id: u64, enc: Option<Vec<u8>>) -> (r: Result<RpcRequestMsg, RpcError>)
        ensures
            enc matches Some(v) ==> (r matches Ok(m) && m.id == id && m.bytes == v),
            enc is None ==> (r matches Err(e) && e matches RpcError::JsonParseErr(_)),
    {
        match enc {
            Some(bytes) => Ok(RpcRequestMsg { id, bytes }),
            None => Err(
                RpcError::JsonParseErr(
                    String::from_str("request params are not one valid serialized value"),
                ),
            ),
        }
    }

    /// Builds a request for `method` with `params`: succeeds exactly when
    /// the parameter text is one well-formed serialized value, and rejects
    /// any other text with the parse error.
    pub fn make_request(&self, method: &str, params: &str) -> (r: Result<RpcRequestMsg, RpcError>)
        ensures
            r is Ok <==> params_wellformed(params@),
            r matches Ok(m) ==> m.bytes@ == request_encoding(m.id, method@, params@),
            r matches Err(e) ==> e matches RpcError::JsonParseErr(_),
    {
        let id = self.next_id();
        Self::request_from_encoding(id, encode_request(id, method, params))
    }

    /// Builds a request for `method` whose encoding carries no parameters;
    /// this never fails.
    pub fn make_request_empty_params(&self, method: &str) -> (r: Result<
        RpcRequestMsg,
        RpcError,
    >)
        ensures
            r is Ok,
            r matches Ok(m) ==> m.bytes@ == request_encoding_no_params(m.id, method@),
    {
        let id = self.next_id();
        Self::request_from_encoding(id, encode_request_no_params(id, method))
    }

    /// Reads a reply body as a success: the serialized success value if the
    /// body is a success, and nothing otherwise. The richer classification,
    /// which also surfaces the remote side's failure verbatim, is
    /// `RpcProvider::parse_response`.
    pub fn parse_response(resp: &Reply) -> (r: Option<String>)
        ensures
            match resp.payload@ {
                ReplyPayloadModel::Success(body) => r matches Some(s) && s@ == body,
                ReplyPayloadModel::Failure(_, _) => r is None,
            },
    {
        match &resp.payload {
            ReplyPayload::Success(body) => Some(body.clone()),
            ReplyPayload::Failure(_, _) => None,
        }
    }
}

} // verus!
