//! Property lists, and the texts and bytes that everything is made of.

use std::time::{Duration, SystemTime, UNIX_EPOCH};

use ios_rs::bytes::{
    bits_of_i32, bits_of_i64, get_be, get_be32, get_le, get_le32, i32_from_bits, i64_from_bits,
    low_word, put_be, put_le,
};
use ios_rs::framing::{body_len, prefix};
use ios_rs::proplist::format::{from_bytes, from_value, shown, to_binary, to_xml};
use ios_rs::proplist::{Dict, Plist};
use ios_rs::text::{
    contains, dec_u64, ends_with, hex_u64, last_part, parse_decimal, parse_u16,
    same_ignoring_case, signed_text, split_once, starts_with, strip_prefix, trim_end,
};
use ios_rs::words::{is_white, trim};

fn sample() -> Plist {
    let mut d = Dict::new();
    d.put_str("s", "text");
    d.put("n", Plist::number(-5));
    d.put("u", Plist::Uint(u64::MAX));
    d.put("b", Plist::truth(true));
    d.put("d", Plist::bytes(&[1, 2, 3]));
    d.put("a", Plist::array(vec![Plist::number(1), Plist::dict(Dict::new())]));
    Plist::dict(d)
}

fn check(p: &Plist) {
    assert_eq!(p.text_at("s"), Some("text"));
    assert_eq!(p.at("n").unwrap().as_signed_integer(), Some(-5));
    assert_eq!(p.unsigned_at("u"), Some(u64::MAX));
    assert_eq!(p.at("u").unwrap().as_signed_integer(), None);
    assert_eq!(p.truth_at("b"), Some(true));
    assert_eq!(p.data_at("d"), Some(&[1u8, 2, 3][..]));
    assert_eq!(p.at("a").unwrap().as_array().unwrap().len(), 2);
    assert!(p.at("missing").is_none());
}

#[test]
fn both_formats_read_back() {
    let p = sample();
    check(&p);
    let xml = to_xml(&p).unwrap();
    assert!(xml.starts_with(b"<?xml"));
    check(&from_bytes(&xml).unwrap());
    let bin = to_binary(&p);
    assert!(bin.starts_with(b"bplist00"));
    check(&from_bytes(&bin).unwrap());
    check(&p.dup());
    assert!(from_bytes(b"bplist00").is_err());
}

#[test]
fn odd_values_read_back() {
    let texts = [
        "", " ", "\n", "\r\n\t", "  a  b  ", "&", "&amp;", "<a>", "]]>", "\"'", "<!-- -->", "\u{0}",
        "\u{1}\u{1f}", "\u{7f}\u{85}\u{2028}", "\u{fffe}\u{feff}", "\u{1f600}\u{e9}", "a\u{301}",
        "&#13;", "-1", "0x10",
    ];
    let mut d = Dict::new();
    for (i, t) in texts.iter().enumerate() {
        d.put_str(&format!("t{i}"), t);
        d.put(t, Plist::number(i as i64));
    }
    for n in [i64::MIN, -129, -1, 0, 1, 127, 128, 255, 256, 65535, 65536, i64::MAX] {
        d.put(&format!("n{n}"), Plist::number(n));
    }
    for n in [0, 1 << 32, 1 << 63, u64::MAX] {
        d.put(&format!("u{n}"), Plist::Uint(n));
    }
    for n in [0, 1, 2, 3, 14, 15, 16, 50, 51, 52, 102, 300] {
        let bytes: Vec<u8> = (0..n).map(|i| i as u8).collect();
        d.put(&format!("d{n}"), Plist::bytes(&bytes));
        d.put(&format!("a{n}"), Plist::array((0..n).map(Plist::number).collect()));
    }
    let mut nested = Plist::truth(false);
    for _ in 0..40 {
        nested = Plist::array(vec![Plist::text("x"), nested, Plist::dict(Dict::new())]);
    }
    d.put("nested", nested);
    d.put("none", Plist::array(Vec::new()));
    let p = Plist::dict(d);
    assert_eq!(shown(&from_bytes(&to_xml(&p).unwrap()).unwrap()), shown(&p));
    assert_eq!(shown(&from_bytes(&to_binary(&p)).unwrap()), shown(&p));
    for leaf in [Plist::text(" "), Plist::bytes(&[]), Plist::truth(true), Plist::number(-7)] {
        assert_eq!(shown(&from_bytes(&to_xml(&leaf).unwrap()).unwrap()), shown(&leaf));
        assert_eq!(shown(&from_bytes(&to_binary(&leaf)).unwrap()), shown(&leaf));
    }
}

#[test]
fn references_are_binary_only() {
    let p = Plist::uid(3);
    assert!(to_xml(&p).is_err());
    assert!(matches!(from_bytes(&to_binary(&p)).unwrap(), Plist::Uid(3)));
}

#[test]
fn dates_are_carried_along() {
    let xml = b"<?xml version=\"1.0\"?><plist version=\"1.0\"><dict><key>t</key><date>2024-01-02T03:04:05Z</date></dict></plist>";
    let p = from_bytes(xml).unwrap();
    assert!(matches!(p.at("t"), Some(Plist::Other(_))));
    let again = from_bytes(&to_binary(&p.dup())).unwrap();
    let text = String::from_utf8(to_xml(&again).unwrap()).unwrap();
    assert!(text.contains("2024-01-02T03:04:05Z"));
}

#[test]
fn dates_that_cannot_be_shown_are_refused() {
    let date = |t: SystemTime| plist::Value::Date(t.into());
    let zero = UNIX_EPOCH - Duration::from_secs(62_167_219_200);
    let last = UNIX_EPOCH + Duration::from_secs(253_402_300_799);
    for t in [zero, last, UNIX_EPOCH] {
        let p = from_value(date(t)).unwrap();
        assert!(to_xml(&p).is_ok());
        assert!(!to_binary(&p).is_empty());
        assert!(!shown(&p).is_empty());
    }
    assert!(from_value(date(zero - Duration::from_nanos(1))).is_none());
    assert!(from_value(date(last + Duration::from_secs(1))).is_none());
    let nested = plist::Value::Array(vec![true.into(), date(last + Duration::from_secs(1))]);
    assert!(from_value(nested).is_none());
    assert!(matches!(from_value(plist::Value::Real(0.5)), Some(Plist::Other(_))));
}

fn dated(text: &str) -> Vec<u8> {
    format!("<?xml version=\"1.0\"?><plist><date>{text}</date></plist>").into_bytes()
}

#[test]
fn bytes_with_dates_out_of_range_are_refused() {
    for text in [
        "0000-01-01T00:00:00+01:00",
        "9999-12-31T23:59:59-01:00",
        "9999-12-31T23:59:59&#45;01:00",
        "9999-12<!-- -->-31T23:59:59-01:00",
    ] {
        assert_eq!(from_bytes(&dated(text)).unwrap_err().to_string(), "InvalidDateString");
    }
    let with = b"<plist><p:date a='>'>9999-12-31T23:59:59-01:00</p:date></plist>";
    assert_eq!(from_bytes(with).unwrap_err().to_string(), "InvalidDateString");
    for text in ["0000-01-01T00:00:00Z", "9999-12-31T23:59:59Z", "9999-12-31T23:59:59+01:00"] {
        assert!(matches!(from_bytes(&dated(text)).unwrap(), Plist::Other(_)));
    }
    assert!(from_bytes(&dated("today")).unwrap_err().to_string().starts_with("InvalidDateString ("));
    let text = b"<plist><string>9999-12-31 - date</string></plist>";
    assert!(matches!(from_bytes(text).unwrap(), Plist::String(s) if s == "9999-12-31 - date"));
}

#[test]
fn binary_dates_out_of_range_are_refused() {
    let mut bytes = b"bplist00\x33".to_vec();
    bytes.extend((-1.0e11f64).to_be_bytes());
    bytes.extend([8, 0, 0, 0, 0, 0, 0, 1, 1]);
    bytes.extend([0, 0, 0, 0, 0, 0, 0, 1]);
    bytes.extend([0, 0, 0, 0, 0, 0, 0, 0]);
    bytes.extend([0, 0, 0, 0, 0, 0, 0, 17]);
    assert_eq!(from_bytes(&bytes).unwrap_err().to_string(), "InvalidDateString");
    bytes[9..17].copy_from_slice(&0.0f64.to_be_bytes());
    let p = from_bytes(&bytes).unwrap();
    let text = String::from_utf8(to_xml(&p).unwrap()).unwrap();
    assert!(text.contains("2001-01-01T00:00:00Z"));
    let named = Plist::text("<date>9999-12-31T23:59:59-01:00</date>");
    assert!(matches!(from_bytes(&to_binary(&named)).unwrap(), Plist::String(_)));
    assert!(matches!(from_bytes(&to_xml(&named).unwrap()).unwrap(), Plist::String(_)));
}

#[test]
fn entries_keep_their_place() {
    let mut d = Dict::new();
    d.put_str("a", "1");
    d.put_str("b", "2");
    d.put_str("a", "3");
    assert_eq!(d.len(), 2);
    assert_eq!(d.key_at(0), "a");
    assert_eq!(d.value_at(0).as_string(), Some("3"));
}

#[test]
fn values_are_shown() {
    assert_eq!(shown(&Plist::truth(true)), "Boolean(true)");
    assert_eq!(shown(&Plist::text("a\"b")), "String(\"a\\\"b\")");
}

#[test]
fn bodies_stand_behind_lengths() {
    let out = prefix(b"abc");
    assert_eq!(out, [0, 0, 0, 3, b'a', b'b', b'c']);
    assert_eq!(body_len(&out[..4]), 3);
}

#[test]
fn numbers_are_bytes() {
    let mut out = Vec::new();
    put_le(&mut out, 0x0102030405060708, 8);
    put_be(&mut out, 0x01020304, 4);
    assert_eq!(out, [8, 7, 6, 5, 4, 3, 2, 1, 1, 2, 3, 4]);
    assert_eq!(get_le(&out, 0, 8), 0x0102030405060708);
    assert_eq!(get_be(&out, 8, 4), 0x01020304);
    assert_eq!((get_le32(&out, 0), get_be32(&out, 8)), (0x05060708, 0x01020304));
    assert_eq!(low_word(7), 7);
    for n in [0, -1, i64::MIN, i64::MAX, 5] {
        assert_eq!(bits_of_i64(n), n as u64);
        assert_eq!(i64_from_bits(n as u64), n);
    }
    for n in [0, -1, i32::MIN, i32::MAX, 5] {
        assert_eq!(bits_of_i32(n), n as u32);
        assert_eq!(i32_from_bits(n as u32), n);
    }
}

#[test]
fn texts_are_taken_apart() {
    assert!(contains("abcd", "bc") && !contains("abcd", "cb") && contains("a", ""));
    assert!(starts_with("abc", "ab") && ends_with("abc", "bc") && !ends_with("bc", "abc"));
    assert_eq!(strip_prefix("unix://x", "unix://"), Some("x".to_string()));
    assert_eq!(strip_prefix("x", "unix://"), None);
    assert_eq!(trim_end("a.x.x", ".x"), "a");
    assert_eq!(last_part("/a/b", '/'), "b");
    assert_eq!(split_once("a:b:c", ':'), Some(("a".to_string(), "b:c".to_string())));
    assert_eq!(split_once("abc", ':'), None);
    assert!(same_ignoring_case("AbC\u{c9}", "aBc\u{c9}"));
    assert!(!same_ignoring_case("\u{c9}", "\u{e9}"));
}

#[test]
fn numbers_are_texts() {
    assert_eq!(dec_u64(0), "0");
    assert_eq!(dec_u64(u64::MAX), "18446744073709551615");
    assert_eq!(hex_u64(0xabc), "abc");
    assert_eq!(signed_text(i64::MIN), "-9223372036854775808");
    assert_eq!(parse_u16("65535"), Some(65535));
    assert_eq!(parse_u16("+7"), Some(7));
    assert_eq!(parse_u16("65536"), None);
    assert_eq!(parse_u16(""), None);
    assert_eq!(parse_u16("+"), None);
    assert_eq!(parse_u16("-1"), None);
    assert_eq!(parse_decimal("18446744073709551616", u64::MAX), None);
}

#[test]
fn white_space_is_trimmed() {
    for code in 0..0x3100u32 {
        if let Some(c) = char::from_u32(code) {
            assert_eq!(is_white(c), c.is_whitespace(), "{code:x}");
        }
    }
    assert_eq!(trim(" \t\u{3000}a b\n"), "a b");
    assert_eq!(trim("  "), "");
}
