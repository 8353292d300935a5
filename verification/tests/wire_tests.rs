use kv_core::proto::{Value, Kvpair, CommandRequest, CommandResponse};
use kv_core::codec::{encode_request, decode_request, encode_response, decode_response};
use kv_core::frame::{
    encode_frame_request, decode_frame_request, encode_frame_response, decode_frame_response,
};

fn hset(table: &str, key: &str, value: Value) -> CommandRequest {
    CommandRequest::HSet {
        table: table.to_string(),
        pair: Kvpair { key: key.to_string(), value, expires: None },
    }
}

#[test]
fn request_roundtrips_through_codec() {
    let reqs = vec![
        CommandRequest::HGet { table: "t".to_string(), key: "k".to_string() },
        CommandRequest::HGetAll { table: "t".to_string() },
        CommandRequest::HMGet {
            table: "t".to_string(),
            keys: vec!["a".to_string(), "b".to_string()],
        },
        hset("t", "k", Value::Str("v".to_string())),
        CommandRequest::HMSet {
            table: "t".to_string(),
            pairs: vec![
                Kvpair { key: "a".to_string(), value: Value::Int(-7), expires: Some(12) },
                Kvpair { key: "b".to_string(), value: Value::Bool(true), expires: None },
            ],
        },
        CommandRequest::HDel { table: "t".to_string(), key: "k".to_string() },
        CommandRequest::HMDel { table: "t".to_string(), keys: vec!["a".to_string()] },
        CommandRequest::HExist { table: "t".to_string(), key: "k".to_string() },
        CommandRequest::HMExist { table: "t".to_string(), keys: vec![] },
        CommandRequest::Subscribe { topic: "lobby".to_string() },
        CommandRequest::Unsubscribe { topic: "lobby".to_string(), id: 9527 },
        CommandRequest::Publish {
            topic: "lobby".to_string(),
            values: vec![Value::Blob(vec![1, 2, 3]), Value::Absent],
        },
    ];
    for req in reqs {
        let bytes = encode_request(&req).unwrap();
        let back = decode_request(&bytes).unwrap();
        assert_eq!(back, req);
    }
}

#[test]
fn response_roundtrips_through_codec() {
    let resp = CommandResponse {
        status: 200,
        message: "ok with unicode: \u{00e9}\u{4e2d}".to_string(),
        values: vec![Value::Int(i64::MIN), Value::Double(f64::to_bits(-1.5))],
        pairs: vec![Kvpair {
            key: "k".to_string(),
            value: Value::Str("v".to_string()),
            expires: Some(u64::MAX),
        }],
    };
    let bytes = encode_response(&resp).unwrap();
    let back = decode_response(&bytes).unwrap();
    assert_eq!(back, resp);
    match &back.values[1] {
        Value::Double(bits) => assert_eq!(f64::from_bits(*bits), -1.5),
        _ => panic!("wrong value kind"),
    }
}

#[test]
fn small_frame_is_not_compressed() {
    let req = CommandRequest::HGet { table: "t".to_string(), key: "k".to_string() };
    let frame = encode_frame_request(&req).unwrap();
    assert_eq!(frame[0] & 0x80, 0);
    assert_eq!(decode_frame_request(&frame).unwrap(), req);
}

#[test]
fn large_payload_roundtrips_with_compression_bit_set() {
    let blob: Vec<u8> = (0..2048u32).map(|i| (i % 251) as u8).collect();
    let req = hset("table1", "big", Value::Blob(blob));
    let frame = encode_frame_request(&req).unwrap();
    assert_ne!(frame[0] & 0x80, 0);
    assert_eq!(decode_frame_request(&frame).unwrap(), req);
}

#[test]
fn response_frame_roundtrips() {
    let resp = CommandResponse {
        status: 404,
        message: "m".repeat(3000),
        values: vec![],
        pairs: vec![],
    };
    let frame = encode_frame_response(&resp).unwrap();
    assert_ne!(frame[0] & 0x80, 0);
    assert_eq!(decode_frame_response(&frame).unwrap(), resp);
}

#[test]
fn malformed_frames_are_rejected() {
    assert!(decode_frame_request(&[]).is_err());
    assert!(decode_frame_request(&[0, 0, 0]).is_err());
    // header promises one byte more than the buffer holds
    assert!(decode_frame_request(&[0, 0, 0, 2, 9]).is_err());
    // compression flag set, but the payload is not a gzip stream
    assert!(decode_frame_request(&[0x80, 0, 0, 2, 9, 9]).is_err());
    // a valid frame with a trailing byte after the request is refused
    let req = CommandRequest::HGetAll { table: "t".to_string() };
    let mut body = encode_request(&req).unwrap();
    body.push(0);
    let mut frame = vec![0, 0, 0, body.len() as u8];
    frame.extend_from_slice(&body);
    assert!(decode_frame_request(&frame).is_err());
    // invalid UTF-8 in a string segment
    let bad = [3u8, 0, 0, 0, 1, 0xff];
    assert!(decode_request(&bad).is_err());
}
