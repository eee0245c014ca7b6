use reipc::errors::ConnectionError;
use reipc::errors::RpcError;
use reipc::ipc::StreamDecoder;
use reipc::rpc_provider::RpcProvider;
use reipc::rpc_reqresp::Reply;
use reipc::rpc_reqresp::ReplyPayload;
use reipc::rpc_reqresp::RpcId;
use reipc::rpc_reqresp::RpcRequest;

const PONG_1: &[u8] = br#"{"jsonrpc":"2.0","result":"pong","id":1}"#;

#[test]
fn decode_one_message_whole() {
    let mut dec = StreamDecoder::new();
    let (replies, fatal) = dec.feed(PONG_1);
    assert!(fatal.is_none());
    assert_eq!(replies.len(), 1);
    assert_eq!(replies[0].id, RpcId::Num(1));
    assert_eq!(
        replies[0].payload,
        ReplyPayload::Success("\"pong\"".to_string())
    );
}

#[test]
fn decode_split_at_every_position_matches_whole() {
    let mut whole_dec = StreamDecoder::new();
    let (whole, whole_fatal) = whole_dec.feed(PONG_1);
    assert!(whole_fatal.is_none());
    assert_eq!(whole.len(), 1);

    for split in 0..=PONG_1.len() {
        let mut dec = StreamDecoder::new();
        let mut got: Vec<Reply> = Vec::new();
        let (first, fatal) = dec.feed(&PONG_1[..split]);
        assert!(fatal.is_none());
        got.extend(first);
        let (second, fatal) = dec.feed(&PONG_1[split..]);
        assert!(fatal.is_none());
        got.extend(second);
        assert_eq!(got.len(), 1, "split at {split}");
        assert_eq!(got[0], whole[0], "split at {split}");
    }
}

#[test]
fn decode_byte_by_byte_matches_whole() {
    let mut dec = StreamDecoder::new();
    let mut got: Vec<Reply> = Vec::new();
    for b in PONG_1 {
        let (step, fatal) = dec.feed(&[*b]);
        assert!(fatal.is_none());
        got.extend(step);
    }
    assert_eq!(got.len(), 1);
    assert_eq!(got[0].id, RpcId::Num(1));
    assert_eq!(got[0].payload, ReplyPayload::Success("\"pong\"".to_string()));
}

#[test]
fn decode_two_messages_back_to_back() {
    let mut bytes = Vec::new();
    bytes.extend_from_slice(br#"{"jsonrpc":"2.0","result":1,"id":7}"#);
    bytes.extend_from_slice(br#"{"jsonrpc":"2.0","result":2,"id":8}"#);
    let mut dec = StreamDecoder::new();
    let (replies, fatal) = dec.feed(&bytes);
    assert!(fatal.is_none());
    assert_eq!(replies.len(), 2);
    assert_eq!(replies[0].id, RpcId::Num(7));
    assert_eq!(replies[0].payload, ReplyPayload::Success("1".to_string()));
    assert_eq!(replies[1].id, RpcId::Num(8));
    assert_eq!(replies[1].payload, ReplyPayload::Success("2".to_string()));
}

#[test]
fn decode_error_payload() {
    let bytes = br#"{"jsonrpc":"2.0","error":{"code":-32000,"message":"boom"},"id":3}"#;
    let mut dec = StreamDecoder::new();
    let (replies, fatal) = dec.feed(bytes);
    assert!(fatal.is_none());
    assert_eq!(replies.len(), 1);
    assert_eq!(replies[0].id, RpcId::Num(3));
    assert_eq!(
        replies[0].payload,
        ReplyPayload::Failure(-32000, "boom".to_string())
    );
}

#[test]
fn decode_two_messages_byte_by_byte_matches_whole() {
    let mut bytes = Vec::new();
    bytes.extend_from_slice(br#"{"jsonrpc":"2.0","result":1,"id":7}"#);
    bytes.extend_from_slice(br#"{"jsonrpc":"2.0","result":2,"id":8}"#);

    let mut whole_dec = StreamDecoder::new();
    let (whole, whole_fatal) = whole_dec.feed(&bytes);
    assert!(whole_fatal.is_none());

    let mut dec = StreamDecoder::new();
    let mut got: Vec<Reply> = Vec::new();
    for b in &bytes {
        let (step, fatal) = dec.feed(&[*b]);
        assert!(fatal.is_none());
        got.extend(step);
    }
    assert_eq!(got, whole);
    assert_eq!(got.len(), 2);
}

#[test]
fn decode_malformed_bytes_is_fatal() {
    let mut dec = StreamDecoder::new();
    let (replies, fatal) = dec.feed(b"@@@@");
    assert!(replies.is_empty());
    assert!(matches!(fatal, Some(ConnectionError::JsonParseErr(_))));
}

#[test]
fn decode_wrong_shape_value_is_fatal_not_incomplete() {
    // A well-formed value that is not a message cannot be cured by more
    // bytes: it must end the connection, not stall the decoder.
    let mut dec = StreamDecoder::new();
    let (replies, fatal) = dec.feed(b"[1,2,3]");
    assert!(replies.is_empty());
    assert!(matches!(fatal, Some(ConnectionError::JsonParseErr(_))));

    let mut dec = StreamDecoder::new();
    let (replies, fatal) = dec.feed(br#"{"unrelated":true}"#);
    assert!(replies.is_empty());
    assert!(matches!(fatal, Some(ConnectionError::JsonParseErr(_))));
}

#[test]
fn messages_before_a_fatal_error_are_still_delivered() {
    let mut bytes = Vec::new();
    bytes.extend_from_slice(br#"{"jsonrpc":"2.0","result":1,"id":7}"#);
    bytes.extend_from_slice(b"@@@@");
    let mut dec = StreamDecoder::new();
    let (replies, fatal) = dec.feed(&bytes);
    assert_eq!(replies.len(), 1);
    assert_eq!(replies[0].id, RpcId::Num(7));
    assert!(matches!(fatal, Some(ConnectionError::JsonParseErr(_))));
}

#[test]
fn round_trip_request_and_echoed_reply_share_id() {
    let builder = RpcRequest::new();
    let req = builder.make_request("ping", "[1,2]").unwrap();

    // What the remote side reads out of the request bytes.
    let v: serde_json::Value = serde_json::from_slice(&req.bytes).unwrap();
    assert_eq!(v["jsonrpc"], serde_json::Value::String("2.0".to_string()));
    assert_eq!(v["method"], serde_json::Value::String("ping".to_string()));
    assert_eq!(v["params"].to_string(), "[1,2]");
    let echoed_id = v["id"].as_u64().unwrap();
    assert_eq!(echoed_id, req.id);

    // The reply the remote side would send back for it.
    let reply_text = format!(
        "{{\"jsonrpc\":\"2.0\",\"result\":\"pong\",\"id\":{}}}",
        echoed_id
    );
    let mut dec = StreamDecoder::new();
    let (replies, fatal) = dec.feed(reply_text.as_bytes());
    assert!(fatal.is_none());
    assert_eq!(replies.len(), 1);
    assert_eq!(replies[0].id, RpcId::Num(req.id));
}

#[test]
fn request_ids_are_fresh_and_increasing() {
    let builder = RpcRequest::new();
    let a = builder.make_request("m", "[]").unwrap();
    let b = builder.make_request("m", "[]").unwrap();
    let c = builder.make_request_empty_params("m").unwrap();
    assert_eq!(a.id, 0);
    assert_eq!(b.id, 1);
    assert_eq!(c.id, 2);
}

#[test]
fn request_with_invalid_params_is_rejected() {
    let builder = RpcRequest::new();
    let r = builder.make_request("ping", "not a serialized value");
    assert!(matches!(r, Err(RpcError::JsonParseErr(_))));
}

#[test]
fn request_without_params_omits_them() {
    let builder = RpcRequest::new();
    let req = builder.make_request_empty_params("net_version").unwrap();
    let v: serde_json::Value = serde_json::from_slice(&req.bytes).unwrap();
    assert_eq!(
        v["method"],
        serde_json::Value::String("net_version".to_string())
    );
    assert!(v.get("params").is_none());
    assert_eq!(v["id"].as_u64(), Some(0));
}

#[test]
fn parse_response_reads_success_only() {
    let ok = Reply {
        id: RpcId::Num(4),
        payload: ReplyPayload::Success("19".to_string()),
    };
    assert_eq!(RpcRequest::parse_response(&ok), Some("19".to_string()));

    let failed = Reply {
        id: RpcId::Num(5),
        payload: ReplyPayload::Failure(-1, "nope".to_string()),
    };
    assert_eq!(RpcRequest::parse_response(&failed), None);
}

#[test]
fn provider_parse_response_classifies_both_payloads() {
    let ok = Reply {
        id: RpcId::Num(4),
        payload: ReplyPayload::Success("\"done\"".to_string()),
    };
    assert_eq!(RpcProvider::parse_response(ok), Ok("\"done\"".to_string()));

    let failed = Reply {
        id: RpcId::Num(5),
        payload: ReplyPayload::Failure(-32601, "method not found".to_string()),
    };
    match RpcProvider::parse_response(failed) {
        Err(RpcError::ServerError(p)) => {
            assert_eq!(p.code, -32601);
            assert_eq!(p.message, "method not found");
        }
        other => panic!("expected a server error, got {other:?}"),
    }
}
