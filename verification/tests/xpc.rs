//! The wire format of XPC messages.

use ios_rs::xpc::codec::{
    decode_message, encode_message, has_fitting_sizes, pad4, try_decode_message,
};
use ios_rs::xpc::{flags, Dictionary, Message, Value, XpcError};

#[test]
fn roundtrip_string() {
    let msg = Message::with_body(1, Value::String("hello".into()));
    let enc = encode_message(&msg);
    let (dec, n) = decode_message(&enc).unwrap();
    assert_eq!(n, enc.len());
    assert_eq!(dec.msg_id, 1);
    assert_eq!(dec.body.unwrap().as_str().unwrap(), "hello");
}

#[test]
fn roundtrip_dict() {
    let mut d = Dictionary::new();
    d.insert("answer".into(), Value::Uint64(42));
    d.insert("name".into(), Value::String("test".into()));
    let msg = Message::with_body(2, Value::Dictionary(d));
    let enc = encode_message(&msg);
    let (dec, _) = decode_message(&enc).unwrap();
    let map = dec.body.unwrap();
    let m = map.as_dict().unwrap();
    assert_eq!(m.get("answer").unwrap().as_u64().unwrap(), 42);
    assert_eq!(m.get("name").unwrap().as_str().unwrap(), "test");
}

#[test]
fn roundtrip_array() {
    let arr = Value::Array(vec![
        Value::Uint64(1),
        Value::String("two".into()),
        Value::Bool(false),
    ]);
    let msg = Message::with_body(3, arr);
    let enc = encode_message(&msg);
    let (dec, _) = decode_message(&enc).unwrap();
    let a = dec.body.unwrap();
    let items = a.as_array().unwrap();
    assert_eq!(items.len(), 3);
    assert_eq!(items[0].as_u64().unwrap(), 1);
    assert_eq!(items[1].as_str().unwrap(), "two");
    assert_eq!(items[2].as_bool().unwrap(), false);
}

#[test]
fn roundtrip_bool() {
    for b in [true, false] {
        let msg = Message::with_body(4, Value::Bool(b));
        let (dec, _) = decode_message(&encode_message(&msg)).unwrap();
        assert_eq!(dec.body.unwrap().as_bool().unwrap(), b);
    }
}

#[test]
fn no_body_message() {
    let msg = Message::init(flags::ALWAYS_SET);
    let enc = encode_message(&msg);
    assert_eq!(enc.len(), 24);
    let (dec, n) = decode_message(&enc).unwrap();
    assert_eq!(n, 24);
    assert!(dec.body.is_none());
}

#[test]
fn nested_dict() {
    let mut inner = Dictionary::new();
    inner.insert("port".into(), Value::Uint64(58783));
    let mut outer = Dictionary::new();
    outer.insert("com.apple.coredevice.appservice".into(), Value::Dictionary(inner));
    let msg = Message::with_body(5, Value::Dictionary(outer));
    let enc = encode_message(&msg);
    let (dec, _) = decode_message(&enc).unwrap();
    let top = dec.body.unwrap();
    let svc = top.as_dict().unwrap().get("com.apple.coredevice.appservice").unwrap();
    assert_eq!(svc.as_dict().unwrap().get("port").unwrap().as_u64().unwrap(), 58783);
}

#[test]
fn message_header_bytes() {
    let enc = encode_message(&Message::init(flags::ALWAYS_SET));
    assert_eq!(&enc[0..4], &[0x92, 0x0b, 0xb0, 0x29]);
    assert_eq!(&enc[4..8], &flags::ALWAYS_SET.to_le_bytes());
    assert_eq!(&enc[8..24], &[0u8; 16]);
}

#[test]
fn short_messages_are_refused() {
    assert!(matches!(try_decode_message(&[0x92, 0x0b]), Some(Err(XpcError::TooShort { .. }))));
}

#[test]
fn foreign_magic_is_refused() {
    let mut enc = encode_message(&Message::init(flags::ALWAYS_SET));
    enc[0] = 0;
    assert!(matches!(try_decode_message(&enc), Some(Err(XpcError::BadMagic { .. }))));
}

#[test]
fn a_later_value_takes_the_place_of_an_earlier_one() {
    let mut d = Dictionary::new();
    d.insert("k".into(), Value::Uint64(1));
    d.insert("l".into(), Value::Uint64(2));
    d.insert("k".into(), Value::Uint64(3));
    assert_eq!(d.len(), 2);
    assert_eq!(d.get("k").unwrap().as_u64().unwrap(), 3);
    assert_eq!(d.key_at(0), "k");
}

#[test]
fn sizes_are_padded_to_words() {
    assert_eq!((pad4(0), pad4(1), pad4(4), pad4(5)), (0, 4, 4, 8));
}

#[test]
fn signed_numbers_are_told_from_others() {
    assert_eq!(Value::Int64(-3).as_i64(), Some(-3));
    assert_eq!(Value::Bool(true).as_i64(), None);
}

#[test]
fn sizes_of_small_values_fit() {
    let mut d = Dictionary::new();
    d.insert("a".into(), Value::Array(vec![Value::Null, Value::Bool(true)]));
    assert!(has_fitting_sizes(&Value::Dictionary(d)));
    assert!(has_fitting_sizes(&Value::Array(vec![])));
    assert!(has_fitting_sizes(&Value::String("x".into())));
}
