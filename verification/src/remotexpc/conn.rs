//! The rules of a RemoteXPC connection.
//!
//! Two logical streams run over one connection: on the first the host sends its
//! requests and gets the replies, on the third the device sends events.

use vstd::prelude::*;
use vstd::utf8::encode_utf8;
use crate::bytes::{get_le, le_at, put_slice, sub_vec};
use crate::text::str_bytes;
use crate::xpc::codec::{
    encode_message, message_bytes, parse_message, sizes_fit, try_decode_message, ParsedMessage,
};
use crate::xpc::{flags, Message, Model, Value, XpcError};
use super::h2;
use super::h2::{
    frame_bytes, settings_payload, write_data, write_headers, write_ping_ack, write_settings,
    write_settings_ack, write_window_update, Frame, FrameModel,
};

verus! {

/// The stream of requests and replies.
pub const STREAM_CS: u32 = 1;

/// The stream of events.
pub const STREAM_SC: u32 = 3;

/// Why an exchange fails.
#[derive(Debug)]
pub enum Error {
    /// The bytes of a message are refused.
    Xpc(XpcError),
    /// The peer breaks the framing.
    H2(String),
    /// The peer closed the connection, or answered with nothing.
    Closed,
    /// A frame of this type is not expected.
    UnexpectedFrame(u8),
}

/// What a connection keeps: the bytes of messages that are not complete yet, and
/// the identifier of the next message.
#[derive(Debug)]
pub struct RemoteXpcConn {
    recv_buf: Vec<u8>,
    next_msg_id: u64,
}

/// What the received bytes amount to.
#[derive(Debug)]
pub enum Received {
    /// A message; its bytes are gone from the buffer.
    Message(Message),
    /// A message that is refused; the buffer is as it was.
    Refused(XpcError),
    /// More bytes are needed.
    Incomplete,
    /// A length or a key position lies outside of what a buffer can hold.
    Overrun,
}

/// What to do about a frame.
#[derive(Debug)]
pub enum Reaction {
    /// Nothing.
    Nothing,
    /// Send these bytes.
    Send(Vec<u8>),
    /// Give the connection up.
    Closed,
}

/// What to do about a frame while the connection is being opened.
#[derive(Debug)]
pub enum Opening {
    /// Wait for the next frame.
    Wait,
    /// Send these bytes; the connection is open.
    Acknowledge(Vec<u8>),
    /// The connection is open.
    Open,
}

/// What the host sends to open a connection.
pub open spec fn opening_bytes() -> Seq<u8> {
    encode_utf8(h2::CLIENT_PREFACE@) + frame_bytes(
        h2::TYPE_SETTINGS,
        0,
        0,
        settings_payload(
            seq![
                (h2::SETTING_MAX_CONCURRENT_STREAMS, 100u32),
                (h2::SETTING_INITIAL_WINDOW_SIZE, 1_048_576u32),
            ],
        ),
    ) + frame_bytes(
        h2::TYPE_WINDOW_UPDATE,
        0,
        0,
        crate::bytes::be_bytes(h2::low31(983_041), 4),
    ) + frame_bytes(h2::TYPE_HEADERS, h2::FLAG_END_HEADERS, STREAM_CS, Seq::empty()) + frame_bytes(
        h2::TYPE_HEADERS,
        h2::FLAG_END_HEADERS,
        STREAM_SC,
        Seq::empty(),
    ) + frame_bytes(h2::TYPE_DATA, 0, STREAM_CS, message_bytes(0x1, 0, None)) + frame_bytes(
        h2::TYPE_DATA,
        0,
        STREAM_CS,
        message_bytes(0x201, 0, None),
    ) + frame_bytes(h2::TYPE_DATA, 0, STREAM_SC, message_bytes(0x40_0001, 0, None))
}

fn put_init(out: &mut Vec<u8>, stream: u32, flags: u32)
    ensures
        final(out)@ == old(out)@ + frame_bytes(
            h2::TYPE_DATA,
            0,
            stream,
            message_bytes(flags, 0, None),
        ),
{
    let init: Vec<u8> = encode_message(&Message::init(flags));
    write_data(out, stream, init.as_slice());
}

/// What the host sends to open a connection: the preface, its settings, a large
/// window, both streams, and the three messages that initialise them.
pub fn opening() -> (out: Vec<u8>)
    ensures
        out@ == opening_bytes(),
{
    let mut out: Vec<u8> = str_bytes(h2::CLIENT_PREFACE);
    let pairs: Vec<(u16, u32)> = vec![
        (h2::SETTING_MAX_CONCURRENT_STREAMS, 100u32),
        (h2::SETTING_INITIAL_WINDOW_SIZE, 1_048_576u32),
    ];
    assert(pairs@ =~= seq![
        (h2::SETTING_MAX_CONCURRENT_STREAMS, 100u32),
        (h2::SETTING_INITIAL_WINDOW_SIZE, 1_048_576u32),
    ]);
    write_settings(&mut out, pairs.as_slice());
    write_window_update(&mut out, 0, 983_041);
    write_headers(&mut out, STREAM_CS);
    write_headers(&mut out, STREAM_SC);
    assert(0x1u32 | 0x200u32 == 0x201) by (bit_vector);
    assert(0x40_0000u32 | 0x1u32 == 0x40_0001) by (bit_vector);
    put_init(&mut out, STREAM_CS, flags::ALWAYS_SET);
    put_init(&mut out, STREAM_CS, flags::ALWAYS_SET | 0x200);
    put_init(&mut out, STREAM_SC, flags::INIT_HANDSHAKE | flags::ALWAYS_SET);
    out
}

/// Decides what to do about a frame while the connection is being opened: the
/// peer's settings are acknowledged and end the wait, and so does the peer's
/// acknowledgement, should it come first.
pub fn opening_frame(frame: &Frame) -> (step: Opening)
    ensures
        match frame@ {
            FrameModel::Settings { flags, .. } => if flags & h2::FLAG_ACK == 0 {
                step matches Opening::Acknowledge(out) && out@ == frame_bytes(
                    h2::TYPE_SETTINGS,
                    h2::FLAG_ACK,
                    0,
                    Seq::empty(),
                )
            } else {
                step is Open
            },
            _ => step is Wait,
        },
{
    match frame {
        Frame::Settings { flags, .. } => {
            if *flags & h2::FLAG_ACK == 0 {
                let mut out: Vec<u8> = Vec::new();
                write_settings_ack(&mut out);
                assert(out@ =~= frame_bytes(h2::TYPE_SETTINGS, h2::FLAG_ACK, 0, Seq::empty()));
                Opening::Acknowledge(out)
            } else {
                Opening::Open
            }
        },
        _ => Opening::Wait,
    }
}

/// Whether received bytes hold a whole message, as far as its length field tells.
pub open spec fn complete(buf: Seq<u8>) -> bool {
    buf.len() >= 24 && 24 + le_at(buf, 8, 8) <= buf.len()
}

/// The flags of a request.
pub open spec fn request_flags() -> u32 {
    0x1_0101
}

impl RemoteXpcConn {
    /// The bytes that were received and not used yet.
    pub closed spec fn pending(&self) -> Seq<u8> {
        self.recv_buf@
    }

    /// The identifier of the next message.
    pub closed spec fn next_id(&self) -> u64 {
        self.next_msg_id
    }

    /// A fresh connection.
    pub fn new() -> (conn: RemoteXpcConn)
        ensures
            conn.pending() == Seq::<u8>::empty(),
            conn.next_id() == 1,
    {
        RemoteXpcConn { recv_buf: Vec::new(), next_msg_id: 1 }
    }

    /// Hands out the next identifier. The host's identifiers are odd, the
    /// device's are even.
    pub fn alloc_msg_id(&mut self) -> (id: u64)
        requires
            old(self).next_id() <= u64::MAX - 2,
        ensures
            id == old(self).next_id(),
            final(self).next_id() == id + 2,
            final(self).pending() == old(self).pending(),
    {
        let id: u64 = self.next_msg_id;
        self.next_msg_id = id + 2;
        id
    }

    /// Makes a request of a value: its identifier and its bytes.
    pub fn send(&mut self, value: Value) -> (req: (u64, Vec<u8>))
        requires
            old(self).next_id() <= u64::MAX - 2,
            sizes_fit(value@),
        ensures
            req.0 == old(self).next_id(),
            req.1@ == frame_bytes(
                h2::TYPE_DATA,
                0,
                STREAM_CS,
                message_bytes(request_flags(), req.0, Some(value@)),
            ),
            final(self).next_id() == req.0 + 2,
            final(self).pending() == old(self).pending(),
    {
        let msg_id: u64 = self.alloc_msg_id();
        assert(0x1u32 | 0x100u32 | 0x1_0000u32 == 0x1_0101) by (bit_vector);
        let msg = Message {
            flags: flags::ALWAYS_SET | flags::DATA_PRESENT | flags::WANTING_REPLY,
            msg_id,
            body: Some(value),
        };
        let bytes: Vec<u8> = encode_message(&msg);
        let mut out: Vec<u8> = Vec::new();
        write_data(&mut out, STREAM_CS, bytes.as_slice());
        assert(out@ =~= frame_bytes(h2::TYPE_DATA, 0, STREAM_CS, bytes@));
        (msg_id, out)
    }

    /// Takes a frame in. The payload of a DATA frame joins the bytes that wait
    /// for their message to be complete; settings and pings are answered.
    pub fn take_frame(&mut self, frame: Frame) -> (reaction: Reaction)
        ensures
            final(self).next_id() == old(self).next_id(),
            final(self).pending() == match frame@ {
                FrameModel::Data { payload, .. } => old(self).pending() + payload,
                _ => old(self).pending(),
            },
            match frame@ {
                FrameModel::Settings { flags, .. } if flags & h2::FLAG_ACK == 0 => reaction
                    matches Reaction::Send(out) && out@ == frame_bytes(
                    h2::TYPE_SETTINGS,
                    h2::FLAG_ACK,
                    0,
                    Seq::empty(),
                ),
                FrameModel::Ping { ack: false, opaque } => reaction matches Reaction::Send(out)
                    && out@ == frame_bytes(h2::TYPE_PING, h2::FLAG_ACK, 0, opaque),
                FrameModel::GoAway { .. } => reaction is Closed,
                _ => reaction is Nothing,
            },
    {
        match frame {
            Frame::Data { payload, .. } => {
                put_slice(&mut self.recv_buf, payload.as_slice());
                Reaction::Nothing
            },
            Frame::Settings { flags, .. } => {
                if flags & h2::FLAG_ACK == 0 {
                    let mut out: Vec<u8> = Vec::new();
                    write_settings_ack(&mut out);
                    assert(out@ =~= frame_bytes(h2::TYPE_SETTINGS, h2::FLAG_ACK, 0, Seq::empty()));
                    Reaction::Send(out)
                } else {
                    Reaction::Nothing
                }
            },
            Frame::Ping { ack, opaque } => {
                if ack {
                    Reaction::Nothing
                } else {
                    let mut out: Vec<u8> = Vec::new();
                    write_ping_ack(&mut out, opaque);
                    assert(out@ =~= frame_bytes(h2::TYPE_PING, h2::FLAG_ACK, 0, opaque@));
                    Reaction::Send(out)
                }
            },
            Frame::GoAway { .. } => Reaction::Closed,
            _ => Reaction::Nothing,
        }
    }

    /// Takes the message at the front of the received bytes, if it is complete.
    pub fn receive(&mut self) -> (got: Received)
        ensures
            final(self).next_id() == old(self).next_id(),
            match got {
                Received::Message(msg) => {
                    let total = 24 + le_at(old(self).pending(), 8, 8);
                    &&& complete(old(self).pending())
                    &&& parse_message(old(self).pending().take(total as int))
                        == (ParsedMessage::Done {
                        flags: msg.flags,
                        msg_id: msg.msg_id,
                        body: msg.body_model(),
                        consumed: total,
                    })
                    &&& final(self).pending() == old(self).pending().skip(total as int)
                },
                Received::Refused(e) => {
                    let total = 24 + le_at(old(self).pending(), 8, 8);
                    &&& complete(old(self).pending())
                    &&& parse_message(old(self).pending().take(total as int))
                        == ParsedMessage::Refused(e)
                    &&& final(self).pending() == old(self).pending()
                },
                Received::Incomplete => {
                    &&& !complete(old(self).pending())
                    &&& old(self).pending().len() >= 24 ==> 24 + le_at(old(self).pending(), 8, 8)
                        <= usize::MAX
                    &&& final(self).pending() == old(self).pending()
                },
                Received::Overrun => {
                    let total = 24 + le_at(old(self).pending(), 8, 8);
                    &&& old(self).pending().len() >= 24
                    &&& total > usize::MAX || (complete(old(self).pending()) && parse_message(
                        old(self).pending().take(total as int),
                    ) is Overrun)
                    &&& final(self).pending() == old(self).pending()
                },
            },
    {
        if self.recv_buf.len() < 24 {
            return Received::Incomplete;
        }
        let body_len: u64 = get_le(self.recv_buf.as_slice(), 8, 8);
        if body_len > (usize::MAX - 24) as u64 {
            return Received::Overrun;
        }
        let total: usize = 24 + body_len as usize;
        if self.recv_buf.len() < total {
            return Received::Incomplete;
        }
        let bytes: Vec<u8> = sub_vec(self.recv_buf.as_slice(), 0, total);
        assert(bytes@ =~= old(self).pending().take(total as int));
        assert(bytes@.subrange(8, 16) =~= old(self).pending().subrange(8, 16));
        match try_decode_message(bytes.as_slice()) {
            Some(Ok((msg, _))) => {
                let n: usize = self.recv_buf.len();
                let rest: Vec<u8> = sub_vec(self.recv_buf.as_slice(), total, n);
                assert(rest@ =~= old(self).pending().skip(total as int));
                self.recv_buf = rest;
                Received::Message(msg)
            },
            Some(Err(e)) => Received::Refused(e),
            None => Received::Overrun,
        }
    }
}

/// What a received message means to the request with identifier `id`: `None` if
/// it is no answer, for only a message with the same identifier is. An answer without a
/// body counts as a closed connection.
pub fn answer(msg: Message, id: u64) -> (out: Option<Result<Value, Error>>)
    ensures
        out is Some <==> msg.msg_id == id,
        out matches Some(Ok(v)) ==> msg.body == Some(v),
        out matches Some(Err(e)) ==> msg.body is None && e is Closed,
{
    if msg.msg_id == id {
        match msg.body {
            Some(v) => Some(Ok(v)),
            None => Some(Err(Error::Closed)),
        }
    } else {
        None
    }
}

/// What the wait for the answer to a request comes to.
#[derive(Debug)]
pub enum Awaited {
    /// The answer; it and what came before it is gone from the buffer.
    Answer(Result<Value, Error>),
    /// A message that is refused.
    Refused(XpcError),
    /// No answer yet.
    Incomplete,
    /// A length or a key position lies outside of what a buffer can hold.
    Overrun,
}

/// The mathematical counterpart of [`Awaited`].
pub enum AwaitedModel {
    /// The body of the answer.
    Answer(Option<Model>),
    Refused(XpcError),
    Incomplete,
    Overrun,
}

/// What the answer to the request with identifier `id` is among received bytes, and what
/// is left of them. Messages with another identifier are passed over.
pub open spec fn awaited(pending: Seq<u8>, id: u64) -> (AwaitedModel, Seq<u8>)
    decreases pending.len(),
{
    let total = 24 + le_at(pending, 8, 8);
    if pending.len() < 24 {
        (AwaitedModel::Incomplete, pending)
    } else if total > usize::MAX {
        (AwaitedModel::Overrun, pending)
    } else if !complete(pending) {
        (AwaitedModel::Incomplete, pending)
    } else {
        match parse_message(pending.take(total as int)) {
            ParsedMessage::Done { msg_id, body, .. } => if msg_id == id {
                (AwaitedModel::Answer(body), pending.skip(total as int))
            } else {
                awaited(pending.skip(total as int), id)
            },
            ParsedMessage::Refused(e) => (AwaitedModel::Refused(e), pending),
            ParsedMessage::Overrun => (AwaitedModel::Overrun, pending),
        }
    }
}

impl RemoteXpcConn {
    /// Looks for the answer to the request with identifier `id` among what was received,
    /// and passes over every other message.
    pub fn await_answer(&mut self, id: u64) -> (got: Awaited)
        ensures
            final(self).next_id() == old(self).next_id(),
            final(self).pending() == awaited(old(self).pending(), id).1,
            match awaited(old(self).pending(), id).0 {
                AwaitedModel::Answer(Some(body)) => got matches Awaited::Answer(Ok(v)) && v@ == body,
                AwaitedModel::Answer(None) => got matches Awaited::Answer(Err(Error::Closed)),
                AwaitedModel::Refused(e) => got == Awaited::Refused(e),
                AwaitedModel::Incomplete => got == Awaited::Incomplete,
                AwaitedModel::Overrun => got == Awaited::Overrun,
            },
    {
        loop
            invariant
                self.next_id() == old(self).next_id(),
                awaited(self.pending(), id) == awaited(old(self).pending(), id),
            decreases self.pending().len(),
        {
            assert(self.recv_buf@.len() == self.recv_buf.len());
            match self.receive() {
                Received::Message(msg) => {
                    if let Some(result) = answer(msg, id) {
                        return Awaited::Answer(result);
                    }
                },
                Received::Refused(e) => {
                    return Awaited::Refused(e);
                },
                Received::Incomplete => {
                    return Awaited::Incomplete;
                },
                Received::Overrun => {
                    return Awaited::Overrun;
                },
            }
        }
    }
}

/// The received bytes after the payloads of some DATA frames.
pub open spec fn after_payloads(pending: Seq<u8>, payloads: Seq<Seq<u8>>) -> Seq<u8>
    decreases payloads.len(),
{
    if payloads.len() == 0 {
        pending
    } else {
        after_payloads(pending, payloads.drop_last()) + payloads.last()
    }
}

/// A message comes out the same however it is cut into DATA frames: all that
/// counts is the payloads in a row.
pub proof fn lemma_fragmentation(pending: Seq<u8>, payloads: Seq<Seq<u8>>)
    ensures
        after_payloads(pending, payloads) == pending + payloads.flatten(),
    decreases payloads.len(),
{
    if payloads.len() == 0 {
        assert(payloads.flatten() =~= Seq::<u8>::empty());
        assert(pending + payloads.flatten() =~= pending);
    } else {
        let front = payloads.drop_last();
        lemma_fragmentation(pending, front);
        payloads.lemma_flatten_and_flatten_alt_are_equivalent();
        front.lemma_flatten_and_flatten_alt_are_equivalent();
        assert(payloads.flatten() =~= front.flatten() + payloads.last());
        assert(after_payloads(pending, payloads) =~= pending + payloads.flatten());
    }
}

/// A connection is opened with the preface of the protocol and seven frames: the settings
/// with a hundred streams and a window of a mebibyte, a wider window for the connection,
/// the two streams 1 and 3, and three messages without a body, two of them on stream 1.
pub proof fn lemma_opening_frames()
    ensures
        ({
            let preface = encode_utf8("PRI * HTTP/2.0\r\n\r\nSM\r\n\r\n"@);
            let frames = h2::frames_in(opening_bytes().skip(preface.len() as int));
            &&& opening_bytes().len() > preface.len()
            &&& opening_bytes().take(preface.len() as int) == preface
            &&& frames.len() == 7
            &&& frames[0] == (FrameModel::Settings {
                flags: 0,
                pairs: seq![(3u16, 100u32), (4u16, 1_048_576u32)],
            })
            &&& frames[1] == (FrameModel::WindowUpdate { stream_id: 0, increment: 983_041 })
            &&& frames[2] == (FrameModel::Headers { stream_id: 1, flags: 4 })
            &&& frames[3] == (FrameModel::Headers { stream_id: 3, flags: 4 })
            &&& frames[4] matches FrameModel::Data { stream_id: 1, payload: a } && told(a, 0x1)
            &&& frames[5] matches FrameModel::Data { stream_id: 1, payload: b } && told(b, 0x201)
            &&& frames[6] matches FrameModel::Data { stream_id: 3, payload: c } && told(
                c,
                0x40_0001,
            )
        }),
{
    broadcast use crate::bytes::lemma_be_bytes_len;

    crate::bytes::lemma_byte_ranges();
    let preface = encode_utf8(h2::CLIENT_PREFACE@);
    let none = Seq::<u8>::empty();
    let pairs = seq![
        (h2::SETTING_MAX_CONCURRENT_STREAMS, 100u32),
        (h2::SETTING_INITIAL_WINDOW_SIZE, 1_048_576u32),
    ];
    let settings = settings_payload(pairs);
    let window = crate::bytes::be_bytes(h2::low31(983_041), 4);
    let m1 = message_bytes(0x1, 0, None);
    let m2 = message_bytes(0x201, 0, None);
    let m3 = message_bytes(0x40_0001, 0, None);
    lemma_told(0x1);
    lemma_told(0x201);
    lemma_told(0x40_0001);
    let f1 = frame_bytes(4, 0, 0, settings);
    let f2 = frame_bytes(8, 0, 0, window);
    let f3 = frame_bytes(1, 4, 1, none);
    let f4 = frame_bytes(1, 4, 3, none);
    let f5 = frame_bytes(0, 0, 1, m1);
    let f6 = frame_bytes(0, 0, 1, m2);
    let f7 = frame_bytes(0, 0, 3, m3);
    let r7 = f7 + none;
    let r6 = f6 + r7;
    let r5 = f5 + r6;
    let r4 = f4 + r5;
    let r3 = f3 + r4;
    let r2 = f2 + r3;
    let r1 = f1 + r2;
    assert(settings.len() == 12) by {
        reveal_with_fuel(settings_payload, 3);
        assert(pairs.drop_last().drop_last().len() == 0);
    }
    h2::lemma_settings_roundtrip(pairs);
    crate::bytes::lemma_be_roundtrip(983_041, 4);
    assert(window.subrange(0, 4) =~= window);
    h2::lemma_frame_layout(4, 0, 0, settings);
    h2::lemma_frame_layout(8, 0, 0, window);
    h2::lemma_frame_layout(1, 4, 1, none);
    h2::lemma_frame_layout(1, 4, 3, none);
    h2::lemma_frame_layout(0, 0, 1, m1);
    h2::lemma_frame_layout(0, 0, 1, m2);
    h2::lemma_frame_layout(0, 0, 3, m3);
    h2::lemma_frames_follow(4, 0, 0, settings, r2);
    h2::lemma_frames_follow(8, 0, 0, window, r3);
    h2::lemma_frames_follow(1, 4, 1, none, r4);
    h2::lemma_frames_follow(1, 4, 3, none, r5);
    h2::lemma_frames_follow(0, 0, 1, m1, r6);
    h2::lemma_frames_follow(0, 0, 1, m2, r7);
    h2::lemma_frames_follow(0, 0, 3, m3, none);
    assert(h2::frames_in(none) =~= Seq::<FrameModel>::empty());
    assert(opening_bytes() =~= preface + r1);
    assert(opening_bytes().skip(preface.len() as int) =~= r1);
    assert(opening_bytes().take(preface.len() as int) =~= preface);
}

/// Whether some bytes are a message without a body and with the number zero that has these
/// flags.
pub open spec fn told(bytes: Seq<u8>, flags: u32) -> bool {
    parse_message(bytes) == (ParsedMessage::Done { flags, msg_id: 0, body: None, consumed: 24 })
        && bytes.len() == 24
}

proof fn lemma_told(flags: u32)
    ensures
        told(message_bytes(flags, 0, None), flags),
{
    broadcast use crate::bytes::lemma_le_bytes_len;

    let none = Seq::<u8>::empty();
    let m = message_bytes(flags, 0, None);
    assert(m.len() == 24);
    crate::xpc::codec::lemma_message_roundtrip(flags, 0, None, none);
    assert(m + none =~= m);
}

/// A request is a message of its own on stream 1: it always has the first flag, carries a
/// body, and wants a reply.
pub proof fn lemma_request_flags()
    ensures
        request_flags() == 0x1 + 0x100 + 0x1_0000,
        STREAM_CS == 1,
        STREAM_SC == 3,
{
}

/// A message that is not the answer is passed over, and the first one with the number of
/// the request is the answer.
pub proof fn lemma_awaited(first: Seq<u8>, rest: Seq<u8>, id: u64)
    requires
        first.len() + rest.len() <= usize::MAX,
        parse_message(first) matches ParsedMessage::Done { consumed, .. } && consumed == first.len(),
    ensures
        parse_message(first) matches ParsedMessage::Done { msg_id, body, .. } && awaited(
            first + rest,
            id,
        ) == if msg_id == id {
            (AwaitedModel::Answer(body), rest)
        } else {
            awaited(rest, id)
        },
{
    let all = first + rest;
    crate::xpc::layout::lemma_message_meaning(first);
    assert(all.subrange(8, 16) =~= first.subrange(8, 16));
    assert(all.take(first.len() as int) =~= first);
    assert(all.skip(first.len() as int) =~= rest);
}

} // verus!
