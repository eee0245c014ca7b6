//! The typed call facade.
//!
//! A provider builds a request from a method name and serialized
//! parameters, stamps it with a fresh identifier, submits it to the
//! multiplexer — with the provider's default deadline, when one was given
//! — and classifies the reply: the serialized success body for the caller
//! to decode, or the remote side's failure surfaced verbatim. Clones share
//! the identifier counter and the multiplexer, so any number of threads
//! may call concurrently.

use vstd::prelude::*;

use crate::errors::ResponseErrorPayload;
use crate::errors::RpcError;
use crate::manager::ReManager;
use crate::rpc_reqresp::Reply;
use crate::rpc_reqresp::ReplyPayload;
use crate::rpc_reqresp::ReplyPayloadModel;
use crate::rpc_reqresp::RpcRequest;
use crate::rpc_reqresp::params_wellformed;
use std::sync::Arc;

verus! {

/// What a provider shares between its clones: the identifier counter, the
/// multiplexer, and the default per-call deadline in milliseconds, if any.
pub struct RpcProviderInner {
    id: RpcRequest,
    manager: ReManager,
    default_request_timeout_ms: Option<u64>,
}

/// A cloneable handle to one connection's call facade.
#[derive(Clone)]
pub struct RpcProvider(Arc<RpcProviderInner>);

impl RpcProvider {
    /// Builds a provider over a started multiplexer, with an optional
    /// default deadline applied to every call. Construction itself cannot
    /// fail; the result stays a `Result` because the connection a
    /// multiplexer is attached to may already be gone, which every later
    /// call then reports.
    pub fn try_connect(manager: ReManager, default_request_timeout_ms: Option<u64>) -> (r: Result<
        RpcProvider,
        RpcError,
    >)
        ensures
            r is Ok,
    {
        let rpc_provider = RpcProviderInner {
            id: RpcRequest::new(),
            manager,
            default_request_timeout_ms,
        };
        Ok(RpcProvider(Arc::new(rpc_provider)))
    }

    /// Closes the connection: the multiplexer signals both directions to
    /// stop. Idempotent; pending calls are released by the shutdown drain.
    pub fn close(&self) -> (r: Result<(), RpcError>)
        ensures
            r is Ok,
    {
        self.0.manager.close();
        Ok(())
    }

    /// Calls `method` with `params`, which must be one serialized value,
    /// and blocks for the reply — bounded by the provider's default
    /// deadline, when it has one. Returns the serialized success body for
    /// the caller to decode; every failure is classified: the parse error
    /// exactly when the parameter text is not one well-formed serialized
    /// value, a transport or deadline failure, or the remote side's
    /// explicit error.
    pub fn call(&self, method: &str, params: &str) -> (r: Result<String, RpcError>)
        ensures
            r matches Err(e) ==> e matches RpcError::JsonParseErr(_) || e
                matches RpcError::TransportError(_) || e matches RpcError::ServerError(_),
            (r matches Err(RpcError::JsonParseErr(_))) <==> !params_wellformed(params@),
    {
        let req = match self.0.id.make_request(method, params) {
            Ok(m) => m,
            Err(e) => {
                return Err(e);
            },
        };
        let resp = match self.0.default_request_timeout_ms {
            Some(d) => self.0.manager.send_with_timeout(req, d),
            None => self.0.manager.send(req),
        };
        match resp {
            Ok(reply) => RpcProvider::parse_response(reply),
            Err(e) => Err(RpcError::from_transport(e)),
        }
    }

    /// Calls `method` with no parameters at all — the encoded request
    /// omits them, so building it cannot fail and the parse error never
    /// arises — and otherwise behaves as [`RpcProvider::call`].
    pub fn call_no_params(&self, method: &str) -> (r: Result<String, RpcError>)
        ensures
            r matches Err(e) ==> e matches RpcError::TransportError(_) || e
                matches RpcError::ServerError(_),
            !(r matches Err(RpcError::JsonParseErr(_))),
    {
        let req = match self.0.id.make_request_empty_params(method) {
            Ok(m) => m,
            Err(e) => {
                return Err(e);
            },
        };
        let resp = match self.0.default_request_timeout_ms {
            Some(d) => self.0.manager.send_with_timeout(req, d),
            None => self.0.manager.send(req),
        };
        match resp {
            Ok(reply) => RpcProvider::parse_response(reply),
            Err(e) => Err(RpcError::from_transport(e)),
        }
    }

    /// Classifies a reply: a success body is returned verbatim for the
    /// caller to decode into its expected type, and a failure body becomes
    /// a server error carrying the remote side's code and message
    /// unchanged. The reply carries its payload tag explicitly, so a body
    /// can never be read under the wrong tag here.
    pub fn parse_response(resp: Reply) -> (r: Result<String, RpcError>)
        ensures
            match resp.payload@ {
                ReplyPayloadModel::Success(body) => r matches Ok(s) && s@ == body,
                ReplyPayloadModel::Failure(code, message) => r matches Err(e) && e
                    matches RpcError::ServerError(p) && p.code == code && p.message@ == message,
            },
    {
        match resp.payload {
            ReplyPayload::Success(body) => Ok(body),
            ReplyPayload::Failure(code, message) => Err(
                RpcError::ServerError(ResponseErrorPayload::new(code, message)),
            ),
        }
    }
}

} // verus!
