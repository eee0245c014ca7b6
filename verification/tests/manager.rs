use reipc::connection::Connection;
use reipc::connection::IpcConnection;
use reipc::errors::ConnectionError;
use reipc::errors::TransportError;
use reipc::manager::ReManager;
use reipc::rpc_reqresp::Reply;
use reipc::rpc_reqresp::ReplyPayload;
use reipc::rpc_reqresp::RpcId;
use reipc::rpc_reqresp::RpcRequestMsg;

fn request(id: u64) -> RpcRequestMsg {
    RpcRequestMsg {
        id,
        bytes: format!("{{\"method\":\"m\",\"id\":{id},\"jsonrpc\":\"2.0\"}}").into_bytes(),
    }
}

fn success(id: u64, body: &str) -> Reply {
    Reply {
        id: RpcId::Num(id),
        payload: ReplyPayload::Success(body.to_string()),
    }
}

/// Blocks the calling thread for roughly `ms` milliseconds.
fn pause(ms: u64) {
    let (_keep, never) = crossbeam::channel::bounded::<()>(1);
    let _ = never.recv_timeout(std::time::Duration::from_millis(ms));
}

#[test]
fn concurrent_calls_get_their_own_replies_whatever_the_order() {
    let (conn, handle) = IpcConnection::new();
    let (manager, outbound) = ReManager::start(handle);

    crossbeam::scope(|s| {
        let m1 = manager.clone();
        let c1 = s.spawn(move |_| m1.send_with_timeout(request(1), 5000));
        let m2 = manager.clone();
        let c2 = s.spawn(move |_| m2.send_with_timeout(request(2), 5000));

        // Both requests are queued before either entry is registered, so
        // wait for both frames and give the registrations a moment.
        let first = outbound.recv().unwrap();
        let second = outbound.recv().unwrap();
        assert!(first.is_some() && second.is_some());
        pause(100);

        // Deliver the replies in the opposite order of the identifiers.
        conn.recv(Some(success(2, "\"two\""))).unwrap();
        conn.recv(Some(success(1, "\"one\""))).unwrap();
        assert!(manager.receive_step());
        assert!(manager.receive_step());

        let r1 = c1.join().unwrap().unwrap();
        let r2 = c2.join().unwrap().unwrap();
        assert_eq!(r1.id, RpcId::Num(1));
        assert_eq!(r1.payload, ReplyPayload::Success("\"one\"".to_string()));
        assert_eq!(r2.id, RpcId::Num(2));
        assert_eq!(r2.payload, ReplyPayload::Success("\"two\"".to_string()));
    })
    .unwrap();
}

#[test]
fn many_concurrent_calls_are_matched_by_identifier() {
    let (conn, handle) = IpcConnection::new();
    let (manager, outbound) = ReManager::start(handle);
    let count: u64 = 8;

    crossbeam::scope(|s| {
        let mut callers = Vec::new();
        for id in 0..count {
            let m = manager.clone();
            callers.push(s.spawn(move |_| m.send_with_timeout(request(id), 10000)));
        }

        for _ in 0..count {
            assert!(outbound.recv().unwrap().is_some());
        }
        pause(150);

        // Replies arrive in an order unrelated to the identifiers.
        for id in [5u64, 0, 7, 2, 6, 1, 4, 3] {
            conn.recv(Some(success(id, &format!("\"body_{id}\"")))).unwrap();
            assert!(manager.receive_step());
        }

        for (id, caller) in callers.into_iter().enumerate() {
            let r = caller.join().unwrap().unwrap();
            assert_eq!(r.id, RpcId::Num(id as u64));
            assert_eq!(
                r.payload,
                ReplyPayload::Success(format!("\"body_{id}\""))
            );
        }
    })
    .unwrap();
}

#[test]
fn unmatched_reply_is_discarded_and_disturbs_nothing() {
    let (conn, handle) = IpcConnection::new();
    let (manager, outbound) = ReManager::start(handle);

    crossbeam::scope(|s| {
        let m1 = manager.clone();
        let caller = s.spawn(move |_| m1.send_with_timeout(request(7), 5000));

        assert!(outbound.recv().unwrap().is_some());
        pause(100);

        // A reply nobody registered for: dropped without any effect.
        conn.recv(Some(success(99, "\"stray\""))).unwrap();
        assert!(manager.receive_step());

        // So is one whose identifier is not even numeric.
        conn.recv(Some(Reply {
            id: RpcId::Str("seven".to_string()),
            payload: ReplyPayload::Success("\"stray\"".to_string()),
        }))
        .unwrap();
        assert!(manager.receive_step());

        // The pending call still completes with its own reply.
        conn.recv(Some(success(7, "\"mine\""))).unwrap();
        assert!(manager.receive_step());

        let r = caller.join().unwrap().unwrap();
        assert_eq!(r.id, RpcId::Num(7));
        assert_eq!(r.payload, ReplyPayload::Success("\"mine\"".to_string()));
    })
    .unwrap();
}

#[test]
fn close_releases_every_pending_call() {
    let (conn, handle) = IpcConnection::new();
    let (manager, outbound) = ReManager::start(handle);

    crossbeam::scope(|s| {
        let m1 = manager.clone();
        let c1 = s.spawn(move |_| m1.send(request(1)));
        let m2 = manager.clone();
        let c2 = s.spawn(move |_| m2.send(request(2)));

        assert!(outbound.recv().unwrap().is_some());
        assert!(outbound.recv().unwrap().is_some());
        pause(100);

        // Close the connection; the read side then observes end of stream.
        let closed_at = std::time::Instant::now();
        manager.close();
        conn.recv(None).unwrap();
        assert!(!manager.receive_step());

        // Both blocked callers return a channel-closed error, not a hang.
        let r1 = c1.join().unwrap();
        let r2 = c2.join().unwrap();
        assert!(closed_at.elapsed() < std::time::Duration::from_secs(5));
        for r in [r1, r2] {
            assert!(matches!(
                r,
                Err(TransportError::Connection(ConnectionError::ChannelReceive))
            ));
        }
    })
    .unwrap();
}

#[test]
fn timed_out_call_discards_its_late_reply() {
    let (conn, handle) = IpcConnection::new();
    let (manager, outbound) = ReManager::start(handle);

    // No reply ever arrives: the call times out on its own deadline.
    let r = manager.send_with_timeout(request(0), 50);
    assert!(matches!(r, Err(TransportError::RequestTimeout)));
    assert!(outbound.recv().unwrap().is_some());

    // The late reply bearing the timed-out identifier is discarded.
    conn.recv(Some(success(0, "\"stale\""))).unwrap();
    assert!(manager.receive_step());

    // A later call is untouched by the stale delivery.
    crossbeam::scope(|s| {
        let m1 = manager.clone();
        let caller = s.spawn(move |_| m1.send_with_timeout(request(1), 5000));
        assert!(outbound.recv().unwrap().is_some());
        pause(100);
        conn.recv(Some(success(1, "\"fresh\""))).unwrap();
        assert!(manager.receive_step());
        let r = caller.join().unwrap().unwrap();
        assert_eq!(r.payload, ReplyPayload::Success("\"fresh\"".to_string()));
    })
    .unwrap();
}

#[test]
fn send_pump_forwards_bytes_and_stops_on_the_sentinel() {
    let (conn, handle) = IpcConnection::new();
    let (manager, outbound) = ReManager::start(handle);

    crossbeam::scope(|s| {
        let m1 = manager.clone();
        let caller = s.spawn(move |_| m1.send_with_timeout(request(3), 5000));

        // Forward one queued request to the transport's write side.
        assert!(manager.send_step(&outbound));
        let frame = conn.send().unwrap().unwrap();
        let v: serde_json::Value = serde_json::from_slice(&frame).unwrap();
        assert_eq!(v["id"].as_u64(), Some(3));

        pause(100);
        conn.recv(Some(success(3, "\"ok\""))).unwrap();
        assert!(manager.receive_step());
        assert!(caller.join().unwrap().is_ok());

        // The close sentinel ends the pump.
        manager.close();
        assert!(!manager.send_step(&outbound));
    })
    .unwrap();
}

#[test]
fn pump_decisions_follow_the_item() {
    let (_conn, handle) = IpcConnection::new();
    let (manager, _outbound) = ReManager::start(handle);

    // The receive pump continues exactly on replies; the sentinel and a
    // failed bridge end it (draining as they do).
    assert!(manager.on_inbound(Ok(Some(success(1, "\"x\"")))));
    assert!(!manager.on_inbound(Ok(None)));
    assert!(!manager.on_inbound(Err(ConnectionError::ChannelReceive)));

    // The send pump forwards a request and stops on anything else.
    assert!(manager.on_outbound(Ok(Some(request(1)))));
    assert!(!manager.on_outbound(Ok(None)));
    assert!(!manager.on_outbound(Err(ConnectionError::ChannelReceive)));
}

#[test]
fn sending_into_a_torn_down_queue_is_reported() {
    let (_conn, handle) = IpcConnection::new();
    let (manager, outbound) = ReManager::start(handle);
    drop(outbound);
    let r = manager.send(request(1));
    assert!(matches!(
        r,
        Err(TransportError::Connection(
            ConnectionError::SendToClosedChannel
        ))
    ));
}

#[test]
fn drain_tolerates_an_already_empty_table() {
    let (_conn, handle) = IpcConnection::new();
    let (manager, _outbound) = ReManager::start(handle);
    manager.drop_all_pending_requests();
}
