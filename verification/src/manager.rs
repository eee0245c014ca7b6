//! The request multiplexer: one shared table of pending calls, fed by many
//! caller threads and drained by a single receive pump.
//!
//! A caller queues its serialized request, registers a single-use reply
//! slot under the request's identifier — only after the request is
//! confirmed queued, so no table entry outlives a request that was never
//! sent — and blocks on the slot, with or without a deadline. The receive
//! pump routes each inbound reply to the slot registered under its
//! identifier, discarding replies that match nothing, and on the
//! stream-end sentinel drains the whole table so every blocked caller
//! returns with a channel-closed error instead of hanging. The routing
//! discipline itself is stated and proved over every interleaving in
//! [`crate::pending`]; the table here is a concurrent map whose trusted
//! wrappers promise only what holds of a shared structure.

use vstd::prelude::*;

use crate::connection::IpcConnectionHandle;
use crate::connection::SlotWait;
use crate::connection::ch_bounded;
use crate::connection::ch_recv;
use crate::connection::ch_recv_timeout_reply;
use crate::connection::ch_send;
use crate::connection::ch_unbounded;
use crate::errors::ConnectionError;
use crate::errors::TransportError;
use crate::rpc_reqresp::Reply;
use crate::rpc_reqresp::ReplyModel;
use crate::rpc_reqresp::RpcId;
use crate::rpc_reqresp::RpcIdModel;
use crate::rpc_reqresp::RpcRequestMsg;
use crossbeam::channel::Receiver;
use crossbeam::channel::Sender;
use dashmap::DashMap;
use std::sync::Arc;

verus! {

#[verifier::external_type_specification]
#[verifier::external_body]
#[verifier::reject_recursive_types(K)]
#[verifier::reject_recursive_types(V)]
#[verifier::reject_recursive_types(S)]
pub struct ExDashMap<K, V, S>(DashMap<K, V, S>);

/// Relies on `dashmap::DashMap::new`: a fresh, empty concurrent map.
#[verifier::external_body]
fn dm_new() -> DashMap<u64, Sender<Reply>> {
    DashMap::new()
}

/// Relies on `dashmap::DashMap::insert`: stores the value under the key,
/// returning whatever value that key held. The map is shared across
/// threads, so nothing about its contents is promised.
#[verifier::external_body]
fn dm_insert(
    m: &Arc<DashMap<u64, Sender<Reply>>>,
    id: u64,
    s: Sender<Reply>,
) -> Option<Sender<Reply>> {
    m.insert(id, s)
}

/// Relies on `dashmap::DashMap::remove`: takes the entry for exactly the
/// asked key out of the map, if the map holds one at that moment.
#[verifier::external_body]
fn dm_remove(m: &Arc<DashMap<u64, Sender<Reply>>>, id: u64) -> (r: Option<(u64, Sender<Reply>)>)
    ensures
        r matches Some(kv) ==> kv.0 == id,
{
    m.remove(&id)
}

/// Relies on `dashmap::DashMap::iter`: a snapshot of the keys present
/// while iterating. Entries may be inserted or removed concurrently, so
/// no relation to any other observation is promised.
#[verifier::external_body]
fn dm_keys(m: &Arc<DashMap<u64, Sender<Reply>>>) -> Vec<u64> {
    m.iter().map(|entry| *entry.key()).collect()
}

/// The identifier under which a reply can match a waiter. Requests built
/// by this crate always carry numeric identifiers, so only those key the
/// table; a string or null identifier matches nothing.
pub open spec fn spec_routing_id(r: ReplyModel) -> Option<u64> {
    match r.id {
        RpcIdModel::Num(n) => Some(n),
        RpcIdModel::Str(_) => None,
        RpcIdModel::Null => None,
    }
}

/// The table key a reply routes by, exactly [`spec_routing_id`] of it.
pub fn routing_id(reply: &Reply) -> (r: Option<u64>)
    ensures
        r == spec_routing_id(reply@),
{
    match &reply.id {
        RpcId::Num(n) => Some(*n),
        RpcId::Str(_) => None,
        RpcId::Null => None,
    }
}

/// The multiplexer: the pending-request table, the bridge handle it routes
/// through, and the queue its callers' requests leave by. Clones share all
/// three.
#[derive(Clone)]
pub struct ReManager {
    requests: Arc<DashMap<u64, Sender<Reply>>>,
    connection: IpcConnectionHandle,
    to_send: Sender<Option<RpcRequestMsg>>,
}

impl ReManager {
    fn new(connection: IpcConnectionHandle, send: Sender<Option<RpcRequestMsg>>) -> ReManager {
        ReManager { connection, to_send: send, requests: Arc::new(dm_new()) }
    }

    /// Builds a manager over the given bridge handle, with an empty table
    /// and a fresh outbound queue. The caller owns the two pumps: run
    /// [`ReManager::receive_step`] until it returns false, and likewise
    /// [`ReManager::send_step`] with the returned queue end.
    pub fn start(connection: IpcConnectionHandle) -> (ReManager, Receiver<Option<RpcRequestMsg>>) {
        let (sender, receiver) = ch_unbounded::<Option<RpcRequestMsg>>();
        let manager = ReManager::new(connection, sender);
        (manager, receiver)
    }

    /// Signals both directions to stop: the bridge's write side and the
    /// outbound queue each get their close sentinel. Harmless to repeat.
    pub fn close(&self) {
        self.connection.close();
        let _ = ch_send(&self.to_send, None);
    }

    /// Queues the request, registers a reply slot under its identifier,
    /// and blocks until the receive pump fulfills the slot. An error is
    /// always a closed channel: either the outbound queue was already shut
    /// when queueing, or the slot was dropped by the shutdown drain.
    pub fn send(&self, req: RpcRequestMsg) -> (r: Result<Reply, TransportError>)
        ensures
            r matches Err(e) ==> e matches TransportError::Connection(c) && (c
                is SendToClosedChannel || c is ChannelReceive),
    {
        let (s, rcv) = ch_bounded::<Reply>(1);
        let id = req.id;

        if !ch_send(&self.to_send, Some(req)) {
            return Err(TransportError::from_connection(ConnectionError::SendToClosedChannel));
        }
        // Register only after the request is queued for transmission, so a
        // table entry never outlives a request that was never sent.
        let _ = dm_insert(&self.requests, id, s);

        match ch_recv(&rcv) {
            Ok(reply) => Ok(reply),
            Err(_) => Err(TransportError::from_connection(ConnectionError::ChannelReceive)),
        }
    }

    /// Like [`ReManager::send`], but gives up once `timeout_ms`
    /// milliseconds elapse with the slot unfulfilled. The deadline is
    /// local to this call: on timeout (and likewise when the slot is
    /// dropped by shutdown) only this call's entry is withdrawn, so a late
    /// reply is silently discarded rather than misdelivered, and no other
    /// call is touched.
    pub fn send_with_timeout(&self, req: RpcRequestMsg, timeout_ms: u64) -> (r: Result<
        Reply,
        TransportError,
    >)
        ensures
            r matches Err(e) ==> e is RequestTimeout || (e matches TransportError::Connection(c)
                && (c is SendToClosedChannel || c is ChannelReceive)),
    {
        let (s, rcv) = ch_bounded::<Reply>(1);
        let id = req.id;

        if !ch_send(&self.to_send, Some(req)) {
            return Err(TransportError::from_connection(ConnectionError::SendToClosedChannel));
        }
        // Register only after the request is queued for transmission.
        let _ = dm_insert(&self.requests, id, s);

        match ch_recv_timeout_reply(&rcv, timeout_ms) {
            SlotWait::Received(reply) => Ok(reply),
            SlotWait::TimedOut => {
                let _ = dm_remove(&self.requests, id);
                Err(TransportError::RequestTimeout)
            },
            SlotWait::Disconnected => {
                let _ = dm_remove(&self.requests, id);
                Err(TransportError::from_connection(ConnectionError::ChannelReceive))
            },
        }
    }

    /// The receive pump's decision on one inbound item. A reply is routed
    /// to the slot registered under its identifier; one that matches no
    /// entry — numeric but unknown, or not numeric at all — is discarded,
    /// as is one whose waiter already gave up. On the stream-end sentinel,
    /// or on a failed bridge, the table is drained. The pump continues
    /// exactly as long as the items are replies.
    pub fn on_inbound(&self, item: Result<Option<Reply>, ConnectionError>) -> (more: bool)
        ensures
            more == (item matches Ok(Some(_))),
    {
        match item {
            Ok(Some(reply)) => {
                match routing_id(&reply) {
                    Some(id) => {
                        match dm_remove(&self.requests, id) {
                            Some(entry) => {
                                let _ = ch_send(&entry.1, reply);
                            },
                            None => {},
                        }
                    },
                    None => {},
                }
                true
            },
            Ok(None) => {
                self.drop_all_pending_requests();
                false
            },
            Err(_) => {
                self.drop_all_pending_requests();
                false
            },
        }
    }

    /// One step of the receive pump: blocks for the next inbound item and
    /// decides on it as [`ReManager::on_inbound`] states; false says the
    /// pump is done.
    pub fn receive_step(&self) -> bool {
        self.on_inbound(self.connection.recv())
    }

    /// The send pump's decision on one item pulled from the outbound
    /// queue: a request's bytes go to the bridge's write side; the close
    /// sentinel, a closed queue, or a failed write — connection-fatal —
    /// stops the pump, so it only ever continues past a request.
    pub fn on_outbound(&self, item: Result<Option<RpcRequestMsg>, ConnectionError>) -> (more: bool)
        ensures
            more ==> item matches Ok(Some(_)),
    {
        match item {
            Ok(Some(req)) => {
                match self.connection.send(Some(req.bytes)) {
                    Ok(()) => true,
                    Err(_) => false,
                }
            },
            Ok(None) => false,
            Err(_) => false,
        }
    }

    /// One step of the send pump: blocks for the next queued request and
    /// decides on it as [`ReManager::on_outbound`] states; false says the
    /// pump is done.
    pub fn send_step(&self, to_send: &Receiver<Option<RpcRequestMsg>>) -> bool {
        self.on_outbound(ch_recv(to_send))
    }

    /// Drains the table, the way [`crate::pending::drain`] models it:
    /// snapshot the keys, then remove each individually, tolerating
    /// entries a timing-out call removed concurrently. Dropping each
    /// released slot ends its waiter's wait with a channel-closed error
    /// instead of a hang. Known limit of the snapshot pattern: a
    /// registration that lands only after the snapshot is missed by this
    /// pass, so a send racing the shutdown that closely can still block
    /// until its own deadline; release of everything registered before
    /// the snapshot is the guarantee, proved of the model drain — also
    /// under interleaved removals, by
    /// [`crate::pending::lemma_drain_under_interference`].
    pub fn drop_all_pending_requests(&self) {
        let keys = dm_keys(&self.requests);
        let n = keys.len();
        let mut i: usize = 0;
        while i < n
            invariant
                i <= n,
                n == keys@.len(),
            decreases n - i,
        {
            let k = keys[i];
            let _ = dm_remove(&self.requests, k);
            i = i + 1;
        }
    }
}

} // verus!
