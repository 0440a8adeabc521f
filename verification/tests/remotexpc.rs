//! Connections that carry XPC messages, and the catalogue of services.

use ios_rs::remotexpc::conn::{
    answer, opening, opening_frame, Awaited, Error, Opening, Reaction, Received, RemoteXpcConn,
};
use ios_rs::remotexpc::h2::{
    payload_len, read_frame, write_data, write_frame_raw, write_headers, write_ping_ack,
    write_settings, write_settings_ack, write_window_update, Frame, CLIENT_PREFACE,
};
use ios_rs::rsd::{
    await_handshake, parse_handshake, parse_service_entry, rsd_checkin, Catalog, Error as RsdError,
    ServiceEntry, CHECKIN, RSD_PORT,
};
use ios_rs::xpc::codec::{decode_message, encode_message};
use ios_rs::xpc::{flags, Dictionary, Message, Value};

fn text(s: &str) -> Value {
    Value::String(s.into())
}

#[test]
fn frames_read_back() {
    let mut out = Vec::new();
    write_data(&mut out, 1, b"abc");
    assert_eq!(&out[..9], &[0, 0, 3, 0, 0, 0, 0, 0, 1]);
    assert_eq!(payload_len(&out[..9]), 3);
    let (frame, n) = read_frame(&out).unwrap();
    assert_eq!(n, 12);
    assert!(matches!(frame, Frame::Data { stream_id: 1, payload } if payload == b"abc"));
    for k in 0..12 {
        assert!(read_frame(&out[..k]).is_none());
    }

    let mut out = Vec::new();
    write_settings(&mut out, &[(3, 100), (4, 1 << 20)]);
    let (frame, _) = read_frame(&out).unwrap();
    assert!(
        matches!(frame, Frame::Settings { flags: 0, pairs } if pairs == [(3, 100), (4, 1 << 20)])
    );
    let mut out = Vec::new();
    write_window_update(&mut out, 0, 983_041);
    let (frame, _) = read_frame(&out).unwrap();
    assert!(matches!(frame, Frame::WindowUpdate { stream_id: 0, increment: 983_041 }));
    let mut out = Vec::new();
    write_headers(&mut out, 3);
    let (frame, _) = read_frame(&out).unwrap();
    assert!(matches!(frame, Frame::Headers { stream_id: 3, flags: 4 }));
    let mut out = Vec::new();
    write_ping_ack(&mut out, [9; 8]);
    let (frame, _) = read_frame(&out).unwrap();
    assert!(matches!(frame, Frame::Ping { ack: true, opaque } if opaque == [9; 8]));
    let mut out = Vec::new();
    write_frame_raw(&mut out, 7, 0, 0, &[0, 0, 0, 1, 0, 0, 0, 2]);
    let (frame, _) = read_frame(&out).unwrap();
    assert!(matches!(frame, Frame::GoAway { last_stream: 1, error: 2 }));
    let mut out = Vec::new();
    write_frame_raw(&mut out, 0x20, 0, 5, b"?");
    let (frame, _) = read_frame(&out).unwrap();
    assert!(matches!(frame, Frame::Unknown { frame_type: 0x20, stream_id: 5, .. }));
}

#[test]
fn connections_are_opened() {
    let out = opening();
    assert!(out.starts_with(CLIENT_PREFACE.as_bytes()));
    let mut rest = &out[CLIENT_PREFACE.len()..];
    let mut kinds = Vec::new();
    while let Some((frame, n)) = read_frame(rest) {
        kinds.push(match frame {
            Frame::Settings { .. } => 's',
            Frame::WindowUpdate { .. } => 'w',
            Frame::Headers { .. } => 'h',
            Frame::Data { payload, .. } => {
                decode_message(&payload).unwrap();
                'd'
            }
            _ => '?',
        });
        rest = &rest[n..];
    }
    assert!(rest.is_empty());
    assert_eq!(kinds.iter().collect::<String>(), "swhhddd");

    let settings = Frame::Settings { flags: 0, pairs: vec![] };
    let mut ack = Vec::new();
    write_settings_ack(&mut ack);
    assert!(matches!(opening_frame(&settings), Opening::Acknowledge(b) if b == ack));
    let acked = Frame::Settings { flags: 1, pairs: vec![] };
    assert!(matches!(opening_frame(&acked), Opening::Open));
    assert!(matches!(
        opening_frame(&Frame::WindowUpdate { stream_id: 0, increment: 1 }),
        Opening::Wait
    ));
}

#[test]
fn messages_are_put_together() {
    let mut c = RemoteXpcConn::new();
    let bytes = encode_message(&Message::with_body(9, text("hi")));
    for b in &bytes[..bytes.len() - 1] {
        let frame = Frame::Data { stream_id: 1, payload: vec![*b] };
        assert!(matches!(c.take_frame(frame), Reaction::Nothing));
        assert!(matches!(c.receive(), Received::Incomplete));
    }
    c.take_frame(Frame::Data { stream_id: 1, payload: vec![bytes[bytes.len() - 1]] });
    match c.receive() {
        Received::Message(m) => {
            assert_eq!(m.msg_id, 9);
            assert_eq!(m.body.unwrap().as_str(), Some("hi"));
        }
        _ => panic!("no message"),
    }
    assert!(matches!(c.receive(), Received::Incomplete));
}

#[test]
fn frames_are_answered() {
    let mut c = RemoteXpcConn::new();
    assert!(matches!(
        c.take_frame(Frame::Ping { ack: false, opaque: [1; 8] }),
        Reaction::Send(_)
    ));
    assert!(matches!(
        c.take_frame(Frame::Ping { ack: true, opaque: [1; 8] }),
        Reaction::Nothing
    ));
    assert!(matches!(
        c.take_frame(Frame::Settings { flags: 0, pairs: vec![] }),
        Reaction::Send(_)
    ));
    assert!(matches!(
        c.take_frame(Frame::GoAway { last_stream: 0, error: 0 }),
        Reaction::Closed
    ));
}

#[test]
fn requests_have_odd_numbers() {
    let mut c = RemoteXpcConn::new();
    let (a, bytes) = c.send(text("x"));
    let (b, _) = c.send(text("y"));
    assert_eq!((a, b, c.alloc_msg_id()), (1, 3, 5));
    let (frame, _) = read_frame(&bytes).unwrap();
    match frame {
        Frame::Data { stream_id, payload } => {
            assert_eq!(stream_id, 1);
            let (m, _) = decode_message(&payload).unwrap();
            assert_eq!(m.msg_id, 1);
            assert!(m.flags & flags::WANTING_REPLY != 0);
        }
        _ => panic!("no data"),
    }
}

#[test]
fn answers_are_recognised() {
    assert!(matches!(answer(Message::with_body(3, text("a")), 3), Some(Ok(_))));
    assert!(answer(Message::with_body(2, text("a")), 3).is_none());
    let mut reply = Message::with_body(2, text("a"));
    reply.flags |= flags::REPLY;
    assert!(answer(reply, 3).is_none());
    let mut empty = Message::init(flags::REPLY);
    empty.msg_id = 3;
    assert!(matches!(answer(empty, 3), Some(Err(Error::Closed))));
}

#[test]
fn a_request_waits_for_its_own_reply() {
    let mut c = RemoteXpcConn::new();
    let mut other = Message::with_body(2, text("other"));
    other.flags |= flags::REPLY;
    let mut payload = encode_message(&other);
    payload.extend(encode_message(&Message::with_body(3, text("mine"))));
    payload.extend(encode_message(&Message::with_body(5, text("next"))));
    let late = payload.split_off(payload.len() - 1);
    c.take_frame(Frame::Data { stream_id: 1, payload });
    match c.await_answer(3) {
        Awaited::Answer(Ok(Value::String(s))) => assert_eq!(s, "mine"),
        got => panic!("{got:?}"),
    }
    assert!(matches!(c.await_answer(5), Awaited::Incomplete));
    c.take_frame(Frame::Data { stream_id: 1, payload: late });
    assert!(matches!(c.await_answer(5), Awaited::Answer(Ok(_))));
    c.take_frame(Frame::Data { stream_id: 1, payload: vec![0; 24] });
    assert!(matches!(c.await_answer(7), Awaited::Refused(_)));
}

fn service(port: Value, extra: Option<Dictionary>) -> Value {
    let mut d = Dictionary::new();
    d.put("Port", port);
    if let Some(p) = extra {
        d.put("Properties", Value::Dictionary(p));
    }
    Value::Dictionary(d)
}

fn handshake() -> Value {
    let mut props = Dictionary::new();
    props.put_str("UniqueDeviceID", "U");
    props.put_str("ProductType", "iPhone17,2");
    props.put_str("OSVersion", "18.1");
    let mut list = Dictionary::new();
    list.put("a", service(text("5001"), None));
    let mut remote = Dictionary::new();
    remote.put("UsesRemoteXPC", Value::Bool(true));
    list.put("b", service(text("5002"), Some(remote)));
    list.put("bad", service(text("many"), None));
    let mut d = Dictionary::new();
    d.put("Properties", Value::Dictionary(props));
    d.put("Services", Value::Dictionary(list));
    Value::Dictionary(d)
}

#[test]
fn handshakes_are_read() {
    let (peer, catalog) = parse_handshake(&handshake()).unwrap();
    assert_eq!(peer.udid, "U");
    assert_eq!(peer.product_type, "iPhone17,2");
    assert_eq!(peer.build_version, "");
    assert_eq!(catalog.len(), 2);
    assert_eq!(catalog.service("a").unwrap().port, 5001);
    assert!(catalog.service("b").unwrap().uses_remote_xpc);
    assert!(catalog.service("bad").is_none());
    let RsdError::Protocol(t) = parse_handshake(&Value::Null).unwrap_err();
    assert_eq!(t, "Handshake body not a dict");
    let RsdError::Protocol(t) =
        parse_handshake(&Value::Dictionary(Dictionary::new())).unwrap_err();
    assert_eq!(t, "no Properties in Handshake");
    assert!(await_handshake(&Message::with_body(1, handshake())).is_some());
    assert!(await_handshake(&Message::with_body(1, text("x"))).is_none());
    assert!(await_handshake(&Message::init(1)).is_none());
    assert_eq!(RSD_PORT, 58783);
}

#[test]
fn service_entries_need_ports() {
    assert!(parse_service_entry(&text("x")).is_none());
    assert!(parse_service_entry(&service(Value::Bool(true), None)).is_none());
    assert_eq!(parse_service_entry(&service(text("7"), None)).unwrap().port, 7);
}

#[test]
fn names_are_taken_once() {
    let mut c = Catalog::new();
    let entry =
        |port| ServiceEntry { port, uses_remote_xpc: false, properties: Dictionary::new() };
    assert!(c.add("a".into(), entry(1)));
    assert!(!c.add("a".into(), entry(2)));
    assert_eq!(c.service("a").unwrap().port, 1);
    assert_eq!((c.name_at(0), c.entry_at(0).port), ("a", 1));
}

#[test]
fn shims_are_told() {
    let bytes = rsd_checkin();
    assert_eq!(&bytes[..4], &(CHECKIN.len() as u32).to_be_bytes());
    assert!(CHECKIN.contains("RSDCheckin"));
}
