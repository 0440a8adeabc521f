//! Calls to the test and profiling services.

use ios_rs::dtx::archive::{
    archive_bool, archive_capabilities_dict, archive_primitive, archive_string, archive_u64,
};
use ios_rs::dtx::conn::{call_result, route, DtxConn, Route, Waited};
use ios_rs::dtx::{
    decode_aux_entries, encode_ack, encode_aux_entries, encode_call, encode_raw, encode_reply,
    read_body, read_header, read_message, AuxValue, DtxMessage, Error, MsgType,
};
use ios_rs::proplist::format::from_bytes;
use ios_rs::proplist::Plist;
use ios_rs::xctest::run::archived_string;

fn message(msg_type: u32, conv_id: u32, expects_reply: bool) -> DtxMessage {
    DtxMessage {
        msg_id: 7,
        conv_id,
        channel: -1,
        expects_reply,
        msg_type,
        aux: vec![],
        payload: None,
    }
}

#[test]
fn types_have_numbers() {
    for n in 0..5 {
        assert_eq!(MsgType::try_from(n).unwrap().code(), n);
    }
    assert_eq!(MsgType::try_from(5), Err(5));
}

#[test]
fn archives_hold_their_value() {
    let p = from_bytes(&archive_string("hello")).unwrap();
    assert_eq!(archived_string(&p), Some("hello".to_string()));
    assert_eq!(p.text_at("$archiver"), Some("NSKeyedArchiver"));
    let p = from_bytes(&archive_u64(u64::MAX)).unwrap();
    let objects = p.at("$objects").unwrap().as_array().unwrap();
    assert_eq!(objects[0].as_string(), Some("$null"));
    assert_eq!(objects[1].as_unsigned_integer(), Some(u64::MAX));
    let p = from_bytes(&archive_bool(true)).unwrap();
    assert_eq!(p.at("$objects").unwrap().as_array().unwrap()[1].as_boolean(), Some(true));
    let p = from_bytes(&archive_primitive(Plist::number(-3))).unwrap();
    assert_eq!(p.at("$objects").unwrap().as_array().unwrap()[1].as_signed_integer(), Some(-3));
    let p = from_bytes(&archive_capabilities_dict()).unwrap();
    assert!(p.at("$objects").unwrap().as_array().unwrap().len() > 6);
}

#[test]
fn arguments_read_back() {
    let args =
        [AuxValue::Int32(-5), AuxValue::Int64(1 << 40), AuxValue::Bytes(b"bytes".to_vec())];
    let out = encode_aux_entries(&args);
    let back = decode_aux_entries(&out);
    assert_eq!(back.len(), 3);
    assert!(matches!(back[0], AuxValue::Int32(-5)));
    assert!(matches!(back[1], AuxValue::Int64(n) if n == 1 << 40));
    assert!(matches!(&back[2], AuxValue::Bytes(b) if b == b"bytes"));
    assert!(decode_aux_entries(&out[..out.len() - 1]).len() < 3);
}

#[test]
fn calls_read_back() {
    let out = encode_call(3, 0, 2, true, "start:", &[AuxValue::Int32(9)]);
    assert_eq!(&out[..4], &[0x79, 0x5b, 0x3d, 0x1f]);
    let h = read_header(&out[..32]).unwrap();
    assert_eq!(h.len as usize, out.len() - 32);
    let msg = read_message(&out).unwrap().unwrap();
    assert_eq!((msg.msg_id, msg.conv_id, msg.channel), (3, 0, 2));
    assert!(msg.expects_reply);
    assert_eq!(msg.msg_type, 2);
    assert!(matches!(msg.aux[0], AuxValue::Int32(9)));
    assert_eq!(archived_string(&msg.payload.unwrap()), Some("start:".to_string()));
}

#[test]
fn messages_come_in_pieces() {
    let out = encode_raw(1, 0, 0, false, MsgType::MethodInvoke, &[], &archive_string("x"));
    assert!(read_message(&out[..31]).unwrap().is_none());
    assert!(read_message(&out[..out.len() - 1]).unwrap().is_none());
    assert!(read_message(&out).unwrap().is_some());
    let mut bad = out.clone();
    bad[0] = 0;
    assert!(matches!(read_message(&bad), Err(Error::BadMagic(0x005b3d1f))));
    let h = read_header(&out[..32]).unwrap();
    assert!(read_body(&h, &out[32..]).is_ok());
}

#[test]
fn answers_continue_the_conversation() {
    let req = message(2, 4, true);
    let ack = read_message(&encode_ack(&req)).unwrap().unwrap();
    assert_eq!((ack.msg_id, ack.conv_id, ack.channel), (7, 5, -1));
    assert_eq!(ack.msg_type, 0);
    assert!(!ack.expects_reply);
    let reply = read_message(&encode_reply(&req, &archive_bool(true))).unwrap().unwrap();
    assert_eq!((reply.msg_id, reply.conv_id, reply.msg_type), (7, 7, 3));
    assert_eq!((reply.channel, reply.expects_reply), (-1, false));
    assert!(reply.payload.is_some());
    let payload = archive_bool(true);
    let frame = encode_reply(&message(2, u32::MAX, true), &payload);
    assert_eq!(frame[20..24], [7, 0, 0, 0]);
    assert_eq!(frame[48..], payload);
}

#[test]
fn a_wrong_magic_comes_before_the_length() {
    let mut frame = encode_ack(&message(2, 4, true));
    frame[0] = 0;
    frame[12] = 5;
    assert!(matches!(read_message(&frame), Err(Error::BadMagic(0x005b_3d1f))));
}

#[test]
fn messages_are_routed() {
    assert!(matches!(route(&message(0, 1, false)), Route::Ignore));
    assert!(matches!(route(&message(3, 1, false)), Route::Waiter(7)));
    assert!(matches!(route(&message(2, 0, false)), Route::Channel(-1, None)));
    match route(&message(2, 0, true)) {
        Route::Channel(-1, Some(ack)) => {
            assert_eq!(read_message(&ack).unwrap().unwrap().conv_id, 1)
        }
        _ => panic!("not acknowledged"),
    }
}

#[test]
fn a_connection_counts() {
    let mut c = DtxConn::new();
    let hello = c.handshake();
    assert_eq!(hello.id, 1);
    let msg = read_message(&hello.frame).unwrap().unwrap();
    assert_eq!(
        archived_string(&msg.payload.unwrap()),
        Some("_notifyOfPublishedCapabilities:".to_string())
    );
    let (code, call) = c.request_channel("dtxproxy:a:b");
    assert_eq!((code, call.id), (1, 2));
    let msg = read_message(&call.frame).unwrap().unwrap();
    assert!(matches!(msg.aux[0], AuxValue::Int32(1)));
    assert!(msg.expects_reply);
    let (code, _) = c.request_channel("dtxproxy:c:d");
    assert_eq!(code, 2);
    assert_eq!(c.call(1, "a", &[]).id, 4);
    let quiet = c.call_async(1, "b", &[]);
    assert!(!read_message(&quiet.frame).unwrap().unwrap().expects_reply);
    assert_eq!(c.alloc_id(), 6);
}

#[test]
fn calls_end() {
    let mut msg = message(3, 1, false);
    msg.payload = Some(Plist::number(1));
    assert!(call_result("s", Waited::Replied(msg)).unwrap().is_some());
    assert!(matches!(
        call_result("start:", Waited::TimedOut),
        Err(Error::Protocol(t)) if t == "DTX call 'start:' timed out"
    ));
    assert!(matches!(call_result("s", Waited::Disconnected), Err(Error::Closed)));
}
