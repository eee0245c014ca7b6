use reipc::connection::Connection;
use reipc::connection::IpcConnection;
use reipc::errors::RpcError;
use reipc::errors::TransportError;
use reipc::ipc::StreamDecoder;
use reipc::ipc::deliver_replies;
use reipc::manager::ReManager;
use reipc::rpc_provider::RpcProvider;
use reipc::rpc_reqresp::ReplyPayload;
use reipc::rpc_reqresp::RpcId;

/// Blocks the calling thread for roughly `ms` milliseconds.
fn pause(ms: u64) {
    let (_keep, never) = crossbeam::channel::bounded::<()>(1);
    let _ = never.recv_timeout(std::time::Duration::from_millis(ms));
}

fn pong_bytes(id: u64) -> Vec<u8> {
    format!("{{\"jsonrpc\":\"2.0\",\"result\":\"pong\",\"id\":{id}}}").into_bytes()
}

#[test]
fn test_ipc_send() {
    // The bridge and the framing, driven as the two transport loops would:
    // two sequential pings, echoed as numbered pongs, arrive in order.
    let (conn, handle) = IpcConnection::new();
    let mut dec = StreamDecoder::new();

    handle.send(Some(b"ping_1".to_vec())).unwrap();
    assert_eq!(conn.send().unwrap(), Some(b"ping_1".to_vec()));
    let (replies, fatal) = dec.feed(&pong_bytes(1));
    assert!(fatal.is_none());
    deliver_replies(&conn, replies).unwrap();
    let got = handle.recv().unwrap().unwrap();
    assert_eq!(got.id, RpcId::Num(1));
    assert_eq!(got.payload, ReplyPayload::Success("\"pong\"".to_string()));

    handle.send(Some(b"ping_2".to_vec())).unwrap();
    assert_eq!(conn.send().unwrap(), Some(b"ping_2".to_vec()));
    let (replies, fatal) = dec.feed(&pong_bytes(2));
    assert!(fatal.is_none());
    deliver_replies(&conn, replies).unwrap();
    let got = handle.recv().unwrap().unwrap();
    assert_eq!(got.id, RpcId::Num(2));
    assert_eq!(got.payload, ReplyPayload::Success("\"pong\"".to_string()));

    // Closing the sending side ends the write loop's queue.
    handle.close();
    assert_eq!(conn.send().unwrap(), None);
}

#[test]
fn call_against_an_echoing_endpoint() {
    let (conn, handle) = IpcConnection::new();
    let (manager, outbound) = ReManager::start(handle);
    let provider = RpcProvider::try_connect(manager.clone(), Some(5000)).unwrap();

    crossbeam::scope(|s| {
        // The receive pump, as the transport would run it.
        let pump = manager.clone();
        s.spawn(move |_| while pump.receive_step() {});

        // An endpoint that reads each request and echoes its identifier
        // back under a "pong" result.
        let echo_conn = conn.clone();
        s.spawn(move |_| {
            let mut dec = StreamDecoder::new();
            loop {
                match outbound.recv() {
                    Ok(Some(req)) => {
                        let v: serde_json::Value = serde_json::from_slice(&req.bytes).unwrap();
                        let id = v["id"].as_u64().unwrap();
                        // Let the caller's registration land before replying.
                        pause(50);
                        let (replies, fatal) = dec.feed(&pong_bytes(id));
                        assert!(fatal.is_none());
                        deliver_replies(&echo_conn, replies).unwrap();
                    }
                    Ok(None) | Err(_) => {
                        let _ = echo_conn.recv(None);
                        break;
                    }
                }
            }
        });

        let one = provider.call("ping", "[\"ping_1\"]").unwrap();
        assert_eq!(one, "\"pong\"");
        let two = provider.call_no_params("ping").unwrap();
        assert_eq!(two, "\"pong\"");

        provider.close().unwrap();
    })
    .unwrap();
}

#[test]
fn delivery_fails_once_the_receiving_side_is_gone() {
    let (conn, handle) = IpcConnection::new();
    let mut dec = StreamDecoder::new();
    let (replies, fatal) = dec.feed(&pong_bytes(1));
    assert!(fatal.is_none());
    drop(handle);
    assert!(deliver_replies(&conn, replies).is_err());
}

#[test]
fn call_with_elapsing_deadline_times_out_quickly() {
    // An endpoint that never responds, and a 10 ms deadline.
    let (_conn, handle) = IpcConnection::new();
    let (manager, _outbound) = ReManager::start(handle);
    let provider = RpcProvider::try_connect(manager, Some(10)).unwrap();

    let started = std::time::Instant::now();
    let r = provider.call("ping", "[]");
    let elapsed = started.elapsed();

    assert!(matches!(
        r,
        Err(RpcError::TransportError(TransportError::RequestTimeout))
    ));
    assert!(elapsed >= std::time::Duration::from_millis(10));
    assert!(elapsed < std::time::Duration::from_secs(2));
}

#[test]
fn invalid_params_fail_before_anything_is_sent() {
    let (_conn, handle) = IpcConnection::new();
    let (manager, outbound) = ReManager::start(handle);
    let provider = RpcProvider::try_connect(manager, None).unwrap();

    let r = provider.call("ping", "this is not a serialized value");
    assert!(matches!(r, Err(RpcError::JsonParseErr(_))));
    assert!(outbound.try_recv().is_err());
}

#[test]
fn close_is_idempotent() {
    let (_conn, handle) = IpcConnection::new();
    let (manager, _outbound) = ReManager::start(handle);
    let provider = RpcProvider::try_connect(manager, None).unwrap();
    provider.close().unwrap();
    provider.close().unwrap();
}
