//! The channel bridge between the socket transport and the multiplexer.
//!
//! Two decoupled, unbounded, ordered queues connect the two: one carries
//! outbound serialized request bytes towards the socket, the other carries
//! parsed inbound replies back. `None` on either queue is the sentinel that
//! no further items will arrive.

use vstd::prelude::*;

use crate::errors::ConnectionError;
use crate::rpc_reqresp::Reply;
use crossbeam::channel::Receiver;
use crossbeam::channel::Sender;

verus! {

#[verifier::external_type_specification]
#[verifier::external_body]
#[verifier::reject_recursive_types(T)]
pub struct ExSender<T>(Sender<T>);

#[verifier::external_type_specification]
#[verifier::external_body]
#[verifier::reject_recursive_types(T)]
pub struct ExReceiver<T>(Receiver<T>);

/// Relies on `crossbeam::channel::Sender::clone`: the clone is another
/// sending endpoint of the same channel. Nothing is stated of the result;
/// this exists so the derived clones of the types below resolve.
pub assume_specification<T>[ <Sender<T> as Clone>::clone ](s: &Sender<T>) -> Sender<T>;

/// Relies on `crossbeam::channel::Receiver::clone`: the clone is another
/// receiving endpoint of the same channel. Nothing is stated of the result.
pub assume_specification<T>[ <Receiver<T> as Clone>::clone ](r: &Receiver<T>) -> Receiver<T>;

/// Relies on `crossbeam::channel::unbounded`: a fresh unbounded channel,
/// returned as its sending and receiving endpoints.
#[verifier::external_body]
pub(crate) fn ch_unbounded<T>() -> (Sender<T>, Receiver<T>) {
    crossbeam::channel::unbounded()
}

/// Relies on `crossbeam::channel::bounded`: a fresh channel holding at most
/// `cap` items, returned as its sending and receiving endpoints.
#[verifier::external_body]
pub(crate) fn ch_bounded<T>(cap: usize) -> (Sender<T>, Receiver<T>) {
    crossbeam::channel::bounded(cap)
}

/// Relies on `crossbeam::channel::Sender::send`: true when the message was
/// accepted, false when every receiving endpoint is gone and the message
/// was dropped. Which of the two happens depends on the peers, so no more
/// is stated.
#[verifier::external_body]
pub(crate) fn ch_send<T>(s: &Sender<T>, msg: T) -> bool {
    s.send(msg).is_ok()
}

/// Relies on `crossbeam::channel::Receiver::recv`: blocks until a message
/// arrives or every sending endpoint is gone; the error is always the
/// channel-closed error of this crate.
#[verifier::external_body]
pub(crate) fn ch_recv<T>(r: &Receiver<T>) -> (res: Result<T, ConnectionError>)
    ensures
        res matches Err(e) ==> e == ConnectionError::ChannelReceive,
{
    match r.recv() {
        Ok(v) => Ok(v),
        Err(_) => Err(ConnectionError::ChannelReceive),
    }
}

/// What one deadline-bounded wait on a reply slot observed.
pub(crate) enum SlotWait {
    /// A reply was handed into the slot in time.
    Received(Reply),
    /// The deadline elapsed with the slot still empty.
    TimedOut,
    /// The slot's sending side is gone, so no reply can ever arrive.
    Disconnected,
}

/// Relies on `crossbeam::channel::Receiver::recv_timeout`, with the timeout
/// built by `core::time::Duration::from_millis`: blocks until a message
/// arrives, the deadline elapses, or every sending endpoint is gone; the
/// three outcomes map onto [`SlotWait`] one for one.
#[verifier::external_body]
pub(crate) fn ch_recv_timeout_reply(r: &Receiver<Reply>, timeout_ms: u64) -> SlotWait {
    match r.recv_timeout(core::time::Duration::from_millis(timeout_ms)) {
        Ok(v) => SlotWait::Received(v),
        Err(crossbeam::channel::RecvTimeoutError::Timeout) => SlotWait::TimedOut,
        Err(crossbeam::channel::RecvTimeoutError::Disconnected) => SlotWait::Disconnected,
    }
}

/// The socket side of the bridge: where the transport's write loop pulls
/// outbound bytes and its read loop pushes parsed replies.
#[derive(Clone)]
pub struct IpcConnection {
    to_send: Receiver<Option<Vec<u8>>>,
    to_recv: Sender<Option<Reply>>,
}

/// The multiplexer side of the bridge, mirroring [`IpcConnection`].
#[derive(Clone)]
pub struct IpcConnectionHandle {
    to_send: Sender<Option<Vec<u8>>>,
    to_recv: Receiver<Option<Reply>>,
}

/// What the transport needs of its connection: pull the next outbound
/// frame, and hand back each parsed reply (or the end-of-stream sentinel).
/// Implemented by [`IpcConnection`]; tests may implement it with their own
/// endpoints.
pub trait Connection {
    /// The next outbound frame, or `None` as the signal to stop writing.
    fn send(&self) -> Result<Option<Vec<u8>>, ConnectionError>;

    /// Hands one parsed reply inbound, `None` meaning the stream ended.
    fn recv(&self, r: Option<Reply>) -> Result<(), ConnectionError>;
}

impl IpcConnection {
    /// Builds the bridge: a connection for the transport and the handle the
    /// multiplexer drives it through, joined by two fresh unbounded queues.
    pub fn new() -> (IpcConnection, IpcConnectionHandle) {
        let (send_to_ipc, send_to_ipc_rx) = ch_unbounded::<Option<Vec<u8>>>();
        let (recv_from_ipc_tx, recv_from_ipc) = ch_unbounded::<Option<Reply>>();

        let ipc_connection_handle = IpcConnectionHandle {
            to_send: send_to_ipc,
            to_recv: recv_from_ipc,
        };

        let ipc_connection = IpcConnection {
            to_send: send_to_ipc_rx,
            to_recv: recv_from_ipc_tx,
        };

        (ipc_connection, ipc_connection_handle)
    }
}

impl Connection for IpcConnection {
    fn send(&self) -> Result<Option<Vec<u8>>, ConnectionError> {
        ch_recv(&self.to_send)
    }

    fn recv(&self, r: Option<Reply>) -> Result<(), ConnectionError> {
        if ch_send(&self.to_recv, r) {
            Ok(())
        } else {
            Err(ConnectionError::SendToClosedChannel)
        }
    }
}

impl IpcConnectionHandle {
    /// Queues one outbound frame, or `None` to stop the write side.
    pub fn send(&self, b: Option<Vec<u8>>) -> (r: Result<(), ConnectionError>)
        ensures
            r matches Err(e) ==> e == ConnectionError::SendToClosedChannel,
    {
        if ch_send(&self.to_send, b) {
            Ok(())
        } else {
            Err(ConnectionError::SendToClosedChannel)
        }
    }

    /// Blocks for the next inbound reply; `None` means the stream ended.
    pub fn recv(&self) -> (r: Result<Option<Reply>, ConnectionError>)
        ensures
            r matches Err(e) ==> e == ConnectionError::ChannelReceive,
    {
        ch_recv(&self.to_recv)
    }

    /// Signals the write side to stop; harmless if it already has.
    pub fn close(&self) {
        let _ = ch_send(&self.to_send, None);
    }
}

} // verus!
