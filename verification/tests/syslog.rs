//! Log lines and the stream they come from.

use ios_rs::lockdown::services::syslog::{
    StreamAction, StreamEvent, SyslogClient, SyslogStream,
};
use ios_rs::lockdown::services::SyslogEntry;

#[test]
fn parse_standard_line() {
    let raw = "Apr  5 12:34:56 iPhone SpringBoard[1234] <Notice>: some log message".to_string();
    let e = SyslogEntry::parse(raw);
    assert_eq!(e.timestamp, "Apr  5 12:34:56");
    assert_eq!(e.process, "SpringBoard[1234]");
    assert_eq!(e.level, "Notice");
    assert_eq!(e.message, "some log message");
}

#[test]
fn parse_error_level() {
    let raw = "Dec 15 08:00:01 iPhone kernel[0] <Error>: panic!".to_string();
    let e = SyslogEntry::parse(raw);
    assert_eq!(e.level, "Error");
    assert_eq!(e.message, "panic!");
}

#[test]
fn parse_no_level() {
    let raw =
        "Dec 15 08:00:01 iPhone someproc[99] something without angle brackets".to_string();
    let e = SyslogEntry::parse(raw);
    assert!(e.level.is_empty());
    assert!(e.message.contains("something"));
}

#[test]
fn parse_empty_is_stable() {
    let e = SyslogEntry::parse(String::new());
    assert!(e.raw.is_empty());
}

#[test]
fn levels_end_at_the_bracket() {
    let e = SyslogEntry::parse("Dec 15 08:00:01 iPhone p[1] <Error>: : twice".into());
    assert_eq!(e.level, "Error");
    assert_eq!(e.message, "twice");
    let e = SyslogEntry::parse("Dec 15 08:00:01 iPhone p[1] <Error message".into());
    assert_eq!(e.level, "");
    assert_eq!(e.message, "<Error message");
}

#[test]
fn spaces_are_joined() {
    let e = SyslogEntry::parse("Dec  1 08:00:01 iPhone p[1]   a   b\tc".into());
    assert_eq!(e.timestamp, "Dec  1 08:00:01");
    assert_eq!(e.message, "a b c");
    let e = SyslogEntry::parse("Dec".into());
    assert_eq!(e.timestamp, "Dec    ");
    assert_eq!(e.process, "");
}

#[test]
fn lines_end_with_zero_or_line_feed() {
    let mut c = SyslogClient::new();
    let entries = c.feed(b"Apr  5 12:34:56 h one[1] <Notice>: a\0\0\nApr  5 12:34:57 h two[2] b\nrest");
    assert_eq!(entries.len(), 2);
    assert_eq!(entries[0].process, "one[1]");
    assert_eq!(entries[0].message, "a");
    assert_eq!(entries[1].process, "two[2]");
    let entries = c.feed(b" of it\0");
    assert_eq!(entries.len(), 1);
    assert_eq!(entries[0].raw, "rest of it");
}

#[test]
fn pieces_make_no_difference() {
    let all = b"Apr  5 12:34:56 h one[1] <Notice>: a\0Apr  5 12:34:57 h two[2] b\n".to_vec();
    let mut whole = SyslogClient::new();
    let raws: Vec<String> = whole.feed(&all).into_iter().map(|e| e.raw).collect();
    let mut c = SyslogClient::new();
    let mut pieces: Vec<String> = Vec::new();
    for b in &all {
        pieces.extend(c.feed(&[*b]).into_iter().map(|e| e.raw));
    }
    assert_eq!(raws, pieces);
}

#[test]
fn bytes_that_are_no_text_are_replaced() {
    let mut c = SyslogClient::new();
    let entries = c.feed(b"a\xffb\0");
    assert_eq!(entries[0].raw, "a\u{fffd}b");
}

fn streamed(reads: &[&[u8]], enough: &str) -> Vec<String> {
    let mut stream = SyslogStream::new();
    let mut reads = reads.iter();
    let mut got = Vec::new();
    let mut event = StreamEvent::Begin;
    loop {
        event = match stream.next(event) {
            StreamAction::Read => match reads.next() {
                Some(bytes) => StreamEvent::Bytes(bytes.to_vec()),
                None => StreamEvent::Ended,
            },
            StreamAction::Hand(entry) => {
                got.push(entry.raw);
                StreamEvent::Taken(got.last().unwrap() != enough)
            }
            StreamAction::Finish => return got,
        };
    }
}

#[test]
fn a_stream_stops_when_told() {
    assert_eq!(streamed(&[b"a\0b\n\0 c \0d"], ""), ["a", "b", "c"]);
    assert_eq!(streamed(&[b"a\0b\n\0 c \0d"], "b"), ["a", "b"]);
    assert_eq!(streamed(&[b"a", b"\0", b"b\nc", b" \0x\0"], "c"), ["a", "b", "c"]);
    assert_eq!(streamed(&[], "a"), Vec::<String>::new());
}

#[test]
fn a_recorded_stream_is_handed_out() {
    let raws = |reads: &[&[u8]], answers: &[bool]| -> Vec<String> {
        let reads = reads.iter().map(|r| r.to_vec()).collect();
        SyslogClient::stream(&reads, &answers.to_vec()).into_iter().map(|e| e.raw).collect()
    };
    let whole: &[&[u8]] = &[b"a\0b\n\0 c \0d"];
    let cut: &[&[u8]] = &[b"a", b"\0b", b"\n\0 c", b" \0", b"d"];
    for reads in [whole, cut] {
        assert_eq!(raws(reads, &[]), ["a", "b", "c"]);
        assert_eq!(raws(reads, &[true, false]), ["a", "b"]);
        assert_eq!(raws(reads, &[false]), ["a"]);
    }
    assert!(raws(&[], &[]).is_empty());
}
