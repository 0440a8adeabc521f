//! The part of HTTP/2 framing that RemoteXPC uses: DATA, HEADERS, SETTINGS, PING,
//! GOAWAY and WINDOW_UPDATE frames. Flow control is left out; one large window
//! update goes out at the start.

use vstd::prelude::*;
use crate::bytes::{
    be_at, be_bytes, get_be, get_be32, lemma_stands_be, lemma_stands_split, put_be, put_slice,
    stands_at, sub_vec, zeros,
};

verus! {

pub const TYPE_DATA: u8 = 0x0;

pub const TYPE_HEADERS: u8 = 0x1;

pub const TYPE_SETTINGS: u8 = 0x4;

pub const TYPE_PING: u8 = 0x6;

pub const TYPE_GOAWAY: u8 = 0x7;

pub const TYPE_WINDOW_UPDATE: u8 = 0x8;

/// On SETTINGS and PING: an acknowledgement.
pub const FLAG_ACK: u8 = 0x1;

/// On HEADERS: no more header frames follow.
pub const FLAG_END_HEADERS: u8 = 0x4;

pub const SETTING_MAX_CONCURRENT_STREAMS: u16 = 0x3;

pub const SETTING_INITIAL_WINDOW_SIZE: u16 = 0x4;

/// What a client sends before its first frame.
pub const CLIENT_PREFACE: &'static str = "PRI * HTTP/2.0\r\n\r\nSM\r\n\r\n";

/// A frame.
#[derive(Debug)]
pub enum Frame {
    Data { stream_id: u32, payload: Vec<u8> },
    Headers { stream_id: u32, flags: u8 },
    Settings { flags: u8, pairs: Vec<(u16, u32)> },
    Ping { ack: bool, opaque: [u8; 8] },
    GoAway { last_stream: u32, error: u32 },
    WindowUpdate { stream_id: u32, increment: u32 },
    Unknown { frame_type: u8, stream_id: u32, payload: Vec<u8> },
}

/// The mathematical counterpart of [`Frame`].
#[verifier::ext_equal]
pub enum FrameModel {
    Data { stream_id: u32, payload: Seq<u8> },
    Headers { stream_id: u32, flags: u8 },
    Settings { flags: u8, pairs: Seq<(u16, u32)> },
    Ping { ack: bool, opaque: Seq<u8> },
    GoAway { last_stream: u32, error: u32 },
    WindowUpdate { stream_id: u32, increment: u32 },
    Unknown { frame_type: u8, stream_id: u32, payload: Seq<u8> },
}

impl View for Frame {
    type V = FrameModel;

    open spec fn view(&self) -> FrameModel {
        match *self {
            Frame::Data { stream_id, payload } => FrameModel::Data { stream_id, payload: payload@ },
            Frame::Headers { stream_id, flags } => FrameModel::Headers { stream_id, flags },
            Frame::Settings { flags, pairs } => FrameModel::Settings { flags, pairs: pairs@ },
            Frame::Ping { ack, opaque } => FrameModel::Ping { ack, opaque: opaque@ },
            Frame::GoAway { last_stream, error } => FrameModel::GoAway { last_stream, error },
            Frame::WindowUpdate { stream_id, increment } => FrameModel::WindowUpdate {
                stream_id,
                increment,
            },
            Frame::Unknown { frame_type, stream_id, payload } => FrameModel::Unknown {
                frame_type,
                stream_id,
                payload: payload@,
            },
        }
    }
}

/// A number without its most significant bit of 32.
pub open spec fn low31(n: nat) -> nat {
    n % 0x8000_0000
}

/// A frame on the wire.
pub open spec fn frame_bytes(frame_type: u8, flags: u8, stream_id: u32, payload: Seq<u8>) -> Seq<
    u8,
> {
    be_bytes(payload.len(), 3) + seq![frame_type, flags] + be_bytes(low31(stream_id as nat), 4)
        + payload
}

/// The settings on the wire.
pub open spec fn settings_payload(pairs: Seq<(u16, u32)>) -> Seq<u8>
    decreases pairs.len(),
{
    if pairs.len() == 0 {
        Seq::empty()
    } else {
        settings_payload(pairs.drop_last()) + be_bytes(pairs.last().0 as nat, 2) + be_bytes(
            pairs.last().1 as nat,
            4,
        )
    }
}

/// The settings in a payload: as many whole pairs as there are, from `at` on.
pub open spec fn settings_from(payload: Seq<u8>, at: int) -> Seq<(u16, u32)>
    decreases payload.len() - at,
{
    if at < 0 || at + 6 > payload.len() {
        Seq::empty()
    } else {
        seq![(be_at(payload, at, 2) as u16, be_at(payload, at + 2, 4) as u32)] + settings_from(
            payload,
            at + 6,
        )
    }
}

/// The number in four bytes of a payload, or zero where the payload ends before.
pub open spec fn word_or_zero(payload: Seq<u8>, at: int) -> nat {
    if payload.len() >= at + 4 {
        be_at(payload, at, 4)
    } else {
        0
    }
}

/// The frame that a header and a payload make.
pub open spec fn frame_of(hdr: Seq<u8>, payload: Seq<u8>) -> FrameModel {
    let frame_type = hdr[3];
    let flags = hdr[4];
    let stream_id = low31(be_at(hdr, 5, 4)) as u32;
    if frame_type == TYPE_DATA {
        FrameModel::Data { stream_id, payload }
    } else if frame_type == TYPE_HEADERS {
        FrameModel::Headers { stream_id, flags }
    } else if frame_type == TYPE_SETTINGS {
        FrameModel::Settings { flags, pairs: settings_from(payload, 0) }
    } else if frame_type == TYPE_PING {
        FrameModel::Ping {
            ack: flags & FLAG_ACK != 0,
            opaque: if payload.len() >= 8 {
                payload.take(8)
            } else {
                zeros(8)
            },
        }
    } else if frame_type == TYPE_GOAWAY {
        FrameModel::GoAway {
            last_stream: low31(word_or_zero(payload, 0)) as u32,
            error: word_or_zero(payload, 4) as u32,
        }
    } else if frame_type == TYPE_WINDOW_UPDATE {
        FrameModel::WindowUpdate { stream_id, increment: low31(be_at(payload, 0, 4)) as u32 }
    } else {
        FrameModel::Unknown { frame_type, stream_id, payload }
    }
}

/// Whether `buf` starts with a whole frame.
pub open spec fn has_frame(buf: Seq<u8>) -> bool {
    buf.len() >= 9 && buf.len() >= 9 + be_at(buf, 0, 3)
}

/// The payload length that the first nine bytes of a frame state.
pub fn payload_len(hdr: &[u8]) -> (len: usize)
    requires
        hdr@.len() >= 9,
    ensures
        len == be_at(hdr@, 0, 3),
        len < 0x100_0000,
{
    proof {
        crate::bytes::lemma_be_value_bound(hdr@.subrange(0, 3));
        crate::bytes::lemma_byte_ranges();
    }
    get_be(hdr, 0, 3) as usize
}

fn read_settings(payload: &[u8]) -> (pairs: Vec<(u16, u32)>)
    ensures
        pairs@ == settings_from(payload@, 0),
{
    let mut pairs: Vec<(u16, u32)> = Vec::new();
    let mut i: usize = 0;
    let ghost whole = settings_from(payload@, 0);
    assert(pairs@ + settings_from(payload@, 0) =~= whole);
    while payload.len() - i >= 6
        invariant
            i <= payload@.len(),
            payload@.len() == payload.len(),
            pairs@ + settings_from(payload@, i as int) == whole,
        decreases payload@.len() - i,
    {
        let ghost before = pairs@;
        proof {
            crate::bytes::lemma_be_value_bound(payload@.subrange(i as int, i + 2));
            crate::bytes::lemma_byte_ranges();
        }
        let id: u16 = get_be(payload, i, 2) as u16;
        let val: u32 = get_be32(payload, i + 2);
        pairs.push((id, val));
        i += 6;
        assert(pairs@ + settings_from(payload@, i as int) =~= before + (seq![(id, val)]
            + settings_from(payload@, i as int)));
    }
    assert(pairs@ =~= whole);
    pairs
}

fn read_opaque(payload: &[u8]) -> (opaque: [u8; 8])
    ensures
        opaque@ == if payload@.len() >= 8 {
            payload@.take(8)
        } else {
            zeros(8)
        },
{
    let mut opaque: [u8; 8] = [0; 8];
    if payload.len() >= 8 {
        let mut i: usize = 0;
        while i < 8
            invariant
                i <= 8,
                payload@.len() >= 8,
                forall|j: int| 0 <= j < i ==> opaque@[j] == payload@[j],
            decreases 8 - i,
        {
            opaque[i] = payload[i];
            i += 1;
        }
        assert(opaque@ =~= payload@.take(8));
    } else {
        assert(opaque@ =~= zeros(8));
    }
    opaque
}

fn read_word(payload: &[u8], at: usize) -> (n: u32)
    requires
        at <= 4,
    ensures
        n == word_or_zero(payload@, at as int),
{
    if payload.len() >= at + 4 {
        get_be32(payload, at)
    } else {
        0
    }
}

/// Reads the frame at the start of `buf`, and tells how many bytes it takes.
/// `None` as long as bytes are missing.
pub fn read_frame(buf: &[u8]) -> (got: Option<(Frame, usize)>)
    requires
        has_frame(buf@) && buf@[3] == TYPE_WINDOW_UPDATE ==> be_at(buf@, 0, 3) >= 4,
    ensures
        got is Some <==> has_frame(buf@),
        got matches Some((frame, n)) ==> {
            &&& n == 9 + be_at(buf@, 0, 3)
            &&& frame@ == frame_of(buf@, buf@.subrange(9, n as int))
        },
{
    if buf.len() < 9 {
        return None;
    }
    assert(buf@.len() == buf.len());
    let len: usize = payload_len(buf);
    if buf.len() - 9 < len {
        return None;
    }
    let payload: Vec<u8> = sub_vec(buf, 9, 9 + len);
    let frame_type: u8 = buf[3];
    let flags: u8 = buf[4];
    let stream_id: u32 = get_be32(buf, 5) % 0x8000_0000;
    let frame: Frame = if frame_type == TYPE_DATA {
        Frame::Data { stream_id, payload }
    } else if frame_type == TYPE_HEADERS {
        Frame::Headers { stream_id, flags }
    } else if frame_type == TYPE_SETTINGS {
        Frame::Settings { flags, pairs: read_settings(payload.as_slice()) }
    } else if frame_type == TYPE_PING {
        Frame::Ping { ack: flags & FLAG_ACK != 0, opaque: read_opaque(payload.as_slice()) }
    } else if frame_type == TYPE_GOAWAY {
        Frame::GoAway {
            last_stream: read_word(payload.as_slice(), 0) % 0x8000_0000,
            error: read_word(payload.as_slice(), 4),
        }
    } else if frame_type == TYPE_WINDOW_UPDATE {
        Frame::WindowUpdate {
            stream_id,
            increment: get_be32(payload.as_slice(), 0) % 0x8000_0000,
        }
    } else {
        Frame::Unknown { frame_type, stream_id, payload }
    };
    Some((frame, 9 + len))
}

/// Appends a frame.
pub fn write_frame_raw(
    out: &mut Vec<u8>,
    frame_type: u8,
    flags: u8,
    stream_id: u32,
    payload: &[u8],
)
    ensures
        final(out)@ == old(out)@ + frame_bytes(frame_type, flags, stream_id, payload@),
{
    put_be(out, payload.len() as u64, 3);
    out.push(frame_type);
    out.push(flags);
    put_be(out, (stream_id % 0x8000_0000) as u64, 4);
    put_slice(out, payload);
    assert(out@ =~= old(out)@ + frame_bytes(frame_type, flags, stream_id, payload@));
}

/// Appends a SETTINGS frame.
pub fn write_settings(out: &mut Vec<u8>, pairs: &[(u16, u32)])
    ensures
        final(out)@ == old(out)@ + frame_bytes(TYPE_SETTINGS, 0, 0, settings_payload(pairs@)),
{
    let mut payload: Vec<u8> = Vec::new();
    let mut i: usize = 0;
    assert(payload@ =~= settings_payload(pairs@.take(0)));
    while i < pairs.len()
        invariant
            i <= pairs@.len(),
            payload@ == settings_payload(pairs@.take(i as int)),
        decreases pairs@.len() - i,
    {
        put_be(&mut payload, pairs[i].0 as u64, 2);
        put_be(&mut payload, pairs[i].1 as u64, 4);
        assert(pairs@.take(i + 1).drop_last() =~= pairs@.take(i as int));
        i += 1;
    }
    assert(pairs@.take(i as int) =~= pairs@);
    write_frame_raw(out, TYPE_SETTINGS, 0, 0, payload.as_slice());
}

/// Appends the acknowledgement of a SETTINGS frame.
pub fn write_settings_ack(out: &mut Vec<u8>)
    ensures
        final(out)@ == old(out)@ + frame_bytes(TYPE_SETTINGS, FLAG_ACK, 0, Seq::empty()),
{
    let none: Vec<u8> = Vec::new();
    write_frame_raw(out, TYPE_SETTINGS, FLAG_ACK, 0, none.as_slice());
}

/// Appends a WINDOW_UPDATE frame.
pub fn write_window_update(out: &mut Vec<u8>, stream_id: u32, increment: u32)
    ensures
        final(out)@ == old(out)@ + frame_bytes(
            TYPE_WINDOW_UPDATE,
            0,
            stream_id,
            be_bytes(low31(increment as nat), 4),
        ),
{
    let mut payload: Vec<u8> = Vec::new();
    put_be(&mut payload, (increment % 0x8000_0000) as u64, 4);
    assert(payload@ =~= be_bytes(low31(increment as nat), 4));
    write_frame_raw(out, TYPE_WINDOW_UPDATE, 0, stream_id, payload.as_slice());
}

/// Appends a HEADERS frame without headers, which is how a stream is opened.
pub fn write_headers(out: &mut Vec<u8>, stream_id: u32)
    ensures
        final(out)@ == old(out)@ + frame_bytes(
            TYPE_HEADERS,
            FLAG_END_HEADERS,
            stream_id,
            Seq::empty(),
        ),
{
    let none: Vec<u8> = Vec::new();
    write_frame_raw(out, TYPE_HEADERS, FLAG_END_HEADERS, stream_id, none.as_slice());
}

/// Appends a DATA frame.
pub fn write_data(out: &mut Vec<u8>, stream_id: u32, payload: &[u8])
    ensures
        final(out)@ == old(out)@ + frame_bytes(TYPE_DATA, 0, stream_id, payload@),
{
    write_frame_raw(out, TYPE_DATA, 0, stream_id, payload);
}

/// Appends the answer to a PING frame.
pub fn write_ping_ack(out: &mut Vec<u8>, opaque: [u8; 8])
    ensures
        final(out)@ == old(out)@ + frame_bytes(TYPE_PING, FLAG_ACK, 0, opaque@),
{
    write_frame_raw(out, TYPE_PING, FLAG_ACK, 0, opaque.as_slice());
}

/// A frame whose payload length fits its field is read back as it was written,
/// whatever follows it.
pub proof fn lemma_frame_roundtrip(
    frame_type: u8,
    flags: u8,
    stream_id: u32,
    payload: Seq<u8>,
    rest: Seq<u8>,
)
    requires
        payload.len() < 0x100_0000,
    ensures
        ({
            let buf = frame_bytes(frame_type, flags, stream_id, payload) + rest;
            &&& has_frame(buf)
            &&& be_at(buf, 0, 3) == payload.len()
            &&& buf[3] == frame_type
            &&& buf[4] == flags
            &&& low31(be_at(buf, 5, 4)) == low31(stream_id as nat)
            &&& buf.subrange(9, 9 + payload.len() as int) == payload
        }),
{
    broadcast use crate::bytes::lemma_be_bytes_len;

    crate::bytes::lemma_byte_ranges();
    let whole = frame_bytes(frame_type, flags, stream_id, payload);
    let buf = whole + rest;
    let f1 = be_bytes(payload.len(), 3);
    let f2 = seq![frame_type, flags];
    let f3 = be_bytes(low31(stream_id as nat), 4);
    assert(stands_at(buf, 0, whole)) by {
        assert(buf.subrange(0, whole.len() as int) =~= whole);
    }
    lemma_stands_split(buf, 0, f1 + f2 + f3, payload);
    lemma_stands_split(buf, 0, f1 + f2, f3);
    lemma_stands_split(buf, 0, f1, f2);
    lemma_stands_be(buf, 0, payload.len(), 3);
    lemma_stands_be(buf, 5, low31(stream_id as nat), 4);
    assert(buf.subrange(3, 5)[0] == f2[0]);
    assert(buf.subrange(3, 5)[1] == f2[1]);
}

proof fn lemma_settings_front(pairs: Seq<(u16, u32)>)
    requires
        pairs.len() > 0,
    ensures
        settings_payload(pairs) == be_bytes(pairs[0].0 as nat, 2) + be_bytes(
            pairs[0].1 as nat,
            4,
        ) + settings_payload(pairs.skip(1)),
    decreases pairs.len(),
{
    let head = be_bytes(pairs[0].0 as nat, 2) + be_bytes(pairs[0].1 as nat, 4);
    if pairs.len() == 1 {
        assert(pairs.drop_last() =~= Seq::<(u16, u32)>::empty());
        assert(pairs.skip(1) =~= Seq::<(u16, u32)>::empty());
        assert(settings_payload(pairs) =~= head + settings_payload(pairs.skip(1)));
    } else {
        let front = pairs.drop_last();
        lemma_settings_front(front);
        assert(pairs.skip(1).drop_last() =~= front.skip(1));
        assert(settings_payload(pairs) =~= head + settings_payload(pairs.skip(1)));
    }
}

proof fn lemma_settings_at(payload: Seq<u8>, at: int, pairs: Seq<(u16, u32)>)
    requires
        stands_at(payload, at, settings_payload(pairs)),
        at + settings_payload(pairs).len() == payload.len(),
    ensures
        settings_from(payload, at) == pairs,
    decreases pairs.len(),
{
    broadcast use crate::bytes::lemma_be_bytes_len;

    crate::bytes::lemma_byte_ranges();
    if pairs.len() == 0 {
        assert(pairs =~= Seq::<(u16, u32)>::empty());
    } else {
        lemma_settings_front(pairs);
        let rest = pairs.skip(1);
        let a = be_bytes(pairs[0].0 as nat, 2);
        let b = be_bytes(pairs[0].1 as nat, 4);
        lemma_stands_split(payload, at, a + b, settings_payload(rest));
        lemma_stands_split(payload, at, a, b);
        lemma_stands_be(payload, at, pairs[0].0 as nat, 2);
        lemma_stands_be(payload, at + 2, pairs[0].1 as nat, 4);
        lemma_settings_at(payload, at + 6, rest);
        assert(pairs =~= seq![pairs[0]] + rest);
    }
}

/// Settings are read back as they were written.
pub proof fn lemma_settings_roundtrip(pairs: Seq<(u16, u32)>)
    ensures
        settings_from(settings_payload(pairs), 0) == pairs,
{
    let payload = settings_payload(pairs);
    assert(payload.subrange(0, payload.len() as int) =~= payload);
    lemma_settings_at(payload, 0, pairs);
}

/// What stands where in a frame: its length, its type, its flags, its stream without the
/// highest bit, and its payload.
pub proof fn lemma_frame_layout(frame_type: u8, flags: u8, stream_id: u32, payload: Seq<u8>)
    requires
        payload.len() < 0x100_0000,
    ensures
        ({
            let f = frame_bytes(frame_type, flags, stream_id, payload);
            &&& f.len() == 9 + payload.len()
            &&& be_at(f, 0, 3) == payload.len()
            &&& f[3] == frame_type
            &&& f[4] == flags
            &&& be_at(f, 5, 4) == stream_id as int % 0x8000_0000
            &&& f.skip(9) == payload
        }),
{
    broadcast use crate::bytes::lemma_be_bytes_len;

    crate::bytes::lemma_byte_ranges();
    let f = frame_bytes(frame_type, flags, stream_id, payload);
    let f1 = be_bytes(payload.len(), 3);
    let f2 = seq![frame_type, flags];
    let f3 = be_bytes(low31(stream_id as nat), 4);
    assert(f.subrange(0, f.len() as int) =~= f);
    lemma_stands_split(f, 0, f1 + f2 + f3, payload);
    lemma_stands_split(f, 0, f1 + f2, f3);
    lemma_stands_split(f, 0, f1, f2);
    lemma_stands_be(f, 0, payload.len(), 3);
    lemma_stands_be(f, 5, low31(stream_id as nat), 4);
    assert(f.subrange(3, 5)[0] == f2[0]);
    assert(f.subrange(3, 5)[1] == f2[1]);
    assert(f.skip(9) =~= payload);
}

/// What a frame means, by the number of its type: 0 is data, 1 opens a stream, 4 tells
/// settings, 6 is a ping, 7 ends the connection, and 8 widens the window.
pub proof fn lemma_frame_meaning(hdr: Seq<u8>, payload: Seq<u8>)
    requires
        hdr.len() >= 9,
    ensures
        ({
            let stream = be_at(hdr, 5, 4) % 0x8000_0000;
            match frame_of(hdr, payload) {
                FrameModel::Data { stream_id, payload: data } => hdr[3] == 0 && stream_id == stream
                    && data == payload,
                FrameModel::Headers { stream_id, flags } => hdr[3] == 1 && stream_id == stream
                    && flags == hdr[4],
                FrameModel::Settings { flags, pairs } => {
                    &&& hdr[3] == 4
                    &&& flags == hdr[4]
                    &&& pairs.len() == payload.len() / 6
                    &&& forall|i: int|
                        0 <= i < pairs.len() ==> (#[trigger] pairs[i]).0 == be_at(payload, 6 * i, 2)
                            && pairs[i].1 == be_at(payload, 6 * i + 2, 4)
                },
                FrameModel::Ping { ack, opaque } => {
                    &&& hdr[3] == 6
                    &&& ack == (hdr[4] & 1 != 0)
                    &&& opaque.len() == 8
                    &&& payload.len() >= 8 ==> opaque == payload.take(8)
                },
                FrameModel::GoAway { last_stream, error } => {
                    &&& hdr[3] == 7
                    &&& payload.len() >= 8 ==> last_stream == be_at(payload, 0, 4) % 0x8000_0000
                        && error == be_at(payload, 4, 4)
                },
                FrameModel::WindowUpdate { stream_id, increment } => hdr[3] == 8 && stream_id
                    == stream && increment == be_at(payload, 0, 4) % 0x8000_0000,
                FrameModel::Unknown { frame_type, stream_id, payload: data } => {
                    &&& frame_type == hdr[3]
                    &&& stream_id == stream
                    &&& data == payload
                    &&& hdr[3] != 0 && hdr[3] != 1 && hdr[3] != 4 && hdr[3] != 6 && hdr[3] != 7
                        && hdr[3] != 8
                },
            }
        }),
{
    crate::bytes::lemma_byte_ranges();
    if hdr[3] == 7 && payload.len() >= 8 {
        crate::bytes::lemma_be_value_bound(payload.subrange(4, 8));
    }
    if hdr[3] == 4 {
        lemma_settings_read(payload, 0);
    }
}

proof fn lemma_settings_read(payload: Seq<u8>, at: int)
    requires
        0 <= at,
    ensures
        ({
            let pairs = settings_from(payload, at);
            &&& at <= payload.len() ==> pairs.len() == (payload.len() - at) / 6
            &&& forall|i: int|
                0 <= i < pairs.len() ==> (#[trigger] pairs[i]).0 == be_at(payload, at + 6 * i, 2)
                    && pairs[i].1 == be_at(payload, at + 6 * i + 2, 4)
        }),
    decreases payload.len() - at,
{
    crate::bytes::lemma_byte_ranges();
    let pairs = settings_from(payload, at);
    if at + 6 <= payload.len() {
        crate::bytes::lemma_be_value_bound(payload.subrange(at, at + 2));
        crate::bytes::lemma_be_value_bound(payload.subrange(at + 2, at + 6));
        lemma_settings_read(payload, at + 6);
        let rest = settings_from(payload, at + 6);
        assert forall|i: int| 0 <= i < pairs.len() implies (#[trigger] pairs[i]).0 == be_at(
            payload,
            at + 6 * i,
            2,
        ) && pairs[i].1 == be_at(payload, at + 6 * i + 2, 4) by {
            if i > 0 {
                assert(pairs[i] == rest[i - 1]);
                assert(at + 6 + 6 * (i - 1) == at + 6 * i);
            }
        }
    }
}

/// The frames in some bytes, one behind the other.
pub open spec fn frames_in(buf: Seq<u8>) -> Seq<FrameModel>
    decreases buf.len(),
{
    if has_frame(buf) {
        let n = 9 + be_at(buf, 0, 3) as int;
        seq![frame_of(buf, buf.subrange(9, n))] + frames_in(buf.skip(n))
    } else {
        Seq::empty()
    }
}

/// The first frame of some bytes is the one that was written there, and the others follow.
pub proof fn lemma_frames_follow(
    frame_type: u8,
    flags: u8,
    stream_id: u32,
    payload: Seq<u8>,
    rest: Seq<u8>,
)
    requires
        payload.len() < 0x100_0000,
    ensures
        frames_in(frame_bytes(frame_type, flags, stream_id, payload) + rest) == seq![
            frame_of(frame_bytes(frame_type, flags, stream_id, payload), payload),
        ] + frames_in(rest),
{
    let f = frame_bytes(frame_type, flags, stream_id, payload);
    let buf = f + rest;
    lemma_frame_roundtrip(frame_type, flags, stream_id, payload, rest);
    lemma_frame_layout(frame_type, flags, stream_id, payload);
    assert(buf.skip(9 + payload.len() as int) =~= rest);
    assert(buf.subrange(5, 9) =~= f.subrange(5, 9));
    assert(buf[3] == f[3] && buf[4] == f[4]);
}

/// The numbers of the frame types, the flags and the settings.
pub proof fn lemma_numbers()
    ensures
        TYPE_DATA == 0,
        TYPE_HEADERS == 1,
        TYPE_SETTINGS == 4,
        TYPE_PING == 6,
        TYPE_GOAWAY == 7,
        TYPE_WINDOW_UPDATE == 8,
        FLAG_ACK == 1,
        FLAG_END_HEADERS == 4,
        SETTING_MAX_CONCURRENT_STREAMS == 3,
        SETTING_INITIAL_WINDOW_SIZE == 4,
{
}

} // verus!
