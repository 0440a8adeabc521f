//! DTX, the binary call protocol of the test and profiling services.
//!
//! A message is a 32-byte header, then (unless its length is zero) a 16-byte
//! payload header, optional auxiliary arguments and an archived payload:
//!
//! | header bytes | field |
//! |---|---|
//! | 0-3   | magic `79 5B 3D 1F` |
//! | 4-7   | header size, 32 |
//! | 8-9   | fragment index |
//! | 10-11 | fragment count |
//! | 12-15 | message length: everything behind the header |
//! | 16-19 | message identifier |
//! | 20-23 | conversation: 0 for requests, for replies the identifier of the request |
//! | 24-27 | channel |
//! | 28-31 | whether a reply is expected |
//!
//! The payload header holds the message type, the length of the auxiliary part
//! with its own 16-byte header, the length of both parts, and flags. All numbers
//! but the magic are little-endian.

pub mod archive;
pub mod conn;

use plist::Error as PlistError;
use vstd::prelude::*;
use crate::bytes::{
    bits_of_i32, bits_of_i64, get_be32, get_le, get_le32, i32_bits, i32_from_bits, i32_of_bits,
    i64_bits, i64_from_bits, i64_of_bits, be_at, le_at, le_bytes, lemma_byte_weights,
    lemma_stands_le, lemma_stands_split, low32, low_word, put_le, put_slice, put_zeros, stands_at, sub_vec, zeros,
};
use crate::dtx::archive::{archive_string, archived, single};
use crate::proplist::format::{
    from_bytes, is_binary, plist_binary, plist_error_text, plist_parse, reads_back,
};
use crate::proplist::{Plist, Tree};

verus! {

/// Why a DTX exchange fails.
#[derive(Debug)]
pub enum Error {
    /// A payload is not a property list.
    Plist(PlistError),
    /// The first four bytes are not the magic.
    BadMagic(u32),
    /// The peer breaks the protocol.
    Protocol(String),
    /// The connection is gone.
    Closed,
}

/// The message types.
#[derive(Clone, Copy, Debug, PartialEq, Eq, Structural)]
pub enum MsgType {
    Ack,
    Unknown1,
    MethodInvoke,
    Reply,
    Error,
}

impl MsgType {
    /// The number of a type on the wire.
    pub open spec fn number(self) -> u32 {
        match self {
            MsgType::Ack => 0,
            MsgType::Unknown1 => 1,
            MsgType::MethodInvoke => 2,
            MsgType::Reply => 3,
            MsgType::Error => 4,
        }
    }

    /// The number of a type on the wire.
    pub fn code(self) -> (n: u32)
        ensures
            n == self.number(),
    {
        match self {
            MsgType::Ack => 0,
            MsgType::Unknown1 => 1,
            MsgType::MethodInvoke => 2,
            MsgType::Reply => 3,
            MsgType::Error => 4,
        }
    }

    /// The type with a number; a number that is no type's comes back.
    pub fn try_from(v: u32) -> (t: Result<MsgType, u32>)
        ensures
            t is Ok <==> v <= 4,
            t is Ok ==> t->Ok_0.number() == v,
            t is Err ==> t->Err_0 == v,
    {
        match v {
            0 => Ok(MsgType::Ack),
            1 => Ok(MsgType::Unknown1),
            2 => Ok(MsgType::MethodInvoke),
            3 => Ok(MsgType::Reply),
            4 => Ok(MsgType::Error),
            n => Err(n),
        }
    }
}

/// An auxiliary argument.
#[derive(Debug)]
pub enum AuxValue {
    Int32(i32),
    Int64(i64),
    Bytes(Vec<u8>),
}

/// The mathematical counterpart of [`AuxValue`].
#[verifier::ext_equal]
pub enum Aux {
    Int32(i32),
    Int64(i64),
    Bytes(Seq<u8>),
}

impl View for AuxValue {
    type V = Aux;

    open spec fn view(&self) -> Aux {
        match *self {
            AuxValue::Int32(n) => Aux::Int32(n),
            AuxValue::Int64(n) => Aux::Int64(n),
            AuxValue::Bytes(b) => Aux::Bytes(b@),
        }
    }
}

/// The models of a list of arguments.
pub open spec fn aux_models(aux: Seq<AuxValue>) -> Seq<Aux> {
    aux.map_values(|a: AuxValue| a@)
}

/// A message as it was read.
#[derive(Debug)]
pub struct DtxMessage {
    pub msg_id: u32,
    pub conv_id: u32,
    pub channel: i32,
    pub expects_reply: bool,
    pub msg_type: u32,
    pub aux: Vec<AuxValue>,
    pub payload: Option<Plist>,
}

impl DtxMessage {
    /// The tree of the payload, where there is one.
    pub open spec fn payload_tree(&self) -> Option<Tree> {
        match self.payload {
            Some(p) => Some(p@),
            None => None,
        }
    }
}

pub const MAGIC: u32 = 0x795B_3D1F;

pub const T_NULL: u32 = 0x0A;

pub const T_UINT32: u32 = 0x03;

pub const T_INT64: u32 = 0x06;

pub const T_BYTEARRAY: u32 = 0x02;

pub const AUX_MAGIC: u32 = 0x1F0;

/// The magic as it stands on the wire.
pub open spec fn magic_bytes() -> Seq<u8> {
    seq![0x79u8, 0x5Bu8, 0x3Du8, 0x1Fu8]
}

/// One argument on the wire.
pub open spec fn aux_entry_bytes(a: Aux) -> Seq<u8> {
    le_bytes(T_NULL as nat, 4) + match a {
        Aux::Int32(n) => le_bytes(T_UINT32 as nat, 4) + le_bytes(i32_bits(n), 4),
        Aux::Int64(n) => le_bytes(T_INT64 as nat, 4) + le_bytes(i64_bits(n), 8),
        Aux::Bytes(b) => le_bytes(T_BYTEARRAY as nat, 4) + le_bytes(low32(b.len()), 4) + b,
    }
}

/// A list of arguments on the wire.
pub open spec fn aux_bytes(aux: Seq<Aux>) -> Seq<u8>
    decreases aux.len(),
{
    if aux.len() == 0 {
        Seq::empty()
    } else {
        aux_bytes(aux.drop_last()) + aux_entry_bytes(aux.last())
    }
}

/// The 32 bytes of a header.
pub open spec fn header_bytes(
    len: nat,
    msg_id: u32,
    conv_id: u32,
    channel: i32,
    expects_reply: bool,
) -> Seq<u8> {
    magic_bytes() + le_bytes(32, 4) + le_bytes(0, 2) + le_bytes(1, 2) + le_bytes(low32(len), 4)
        + le_bytes(msg_id as nat, 4) + le_bytes(conv_id as nat, 4) + le_bytes(i32_bits(channel), 4)
        + le_bytes(
        if expects_reply {
            1
        } else {
            0
        },
        4,
    )
}

/// The length of the auxiliary part with its header.
pub open spec fn aux_part_len(entries: Seq<u8>) -> nat {
    if entries.len() > 0 {
        entries.len() + 16
    } else {
        0
    }
}

/// The length of everything behind the header.
pub open spec fn message_len(entries: Seq<u8>, payload: Seq<u8>) -> nat {
    if aux_part_len(entries) + payload.len() > 0 {
        16 + aux_part_len(entries) + payload.len()
    } else {
        0
    }
}

/// The auxiliary part: its header and the arguments.
pub open spec fn aux_part(entries: Seq<u8>) -> Seq<u8> {
    if entries.len() > 0 {
        le_bytes(AUX_MAGIC as nat, 4) + le_bytes(0, 4) + le_bytes(low32(entries.len()), 4)
            + le_bytes(0, 4) + entries
    } else {
        Seq::empty()
    }
}

/// Everything behind the header, where there is anything.
pub open spec fn body_bytes(msg_type: u32, entries: Seq<u8>, payload: Seq<u8>) -> Seq<u8> {
    if message_len(entries, payload) > 0 {
        le_bytes(msg_type as nat, 4) + le_bytes(low32(aux_part_len(entries)), 4) + le_bytes(
            low32(aux_part_len(entries) + payload.len()),
            4,
        ) + le_bytes(0, 4) + aux_part(entries) + payload
    } else {
        Seq::empty()
    }
}

/// A whole message on the wire.
pub open spec fn frame_bytes(
    msg_id: u32,
    conv_id: u32,
    channel: i32,
    expects_reply: bool,
    msg_type: u32,
    aux: Seq<Aux>,
    payload: Seq<u8>,
) -> Seq<u8> {
    let entries = aux_bytes(aux);
    header_bytes(message_len(entries, payload), msg_id, conv_id, channel, expects_reply)
        + body_bytes(msg_type, entries, payload)
}

fn put_header(
    out: &mut Vec<u8>,
    len: u64,
    msg_id: u32,
    conv_id: u32,
    channel: i32,
    expects_reply: bool,
)
    requires
        old(out)@.len() == 0,
        len < 0x1_0000_0000,
    ensures
        final(out)@ == header_bytes(len as nat, msg_id, conv_id, channel, expects_reply),
        final(out)@.len() == 32,
        final(out)@.take(4) == seq![0x79u8, 0x5Bu8, 0x3Du8, 0x1Fu8],
        le_at(final(out)@, 4, 4) == 32,
        le_at(final(out)@, 8, 2) == 0,
        le_at(final(out)@, 10, 2) == 1,
        le_at(final(out)@, 12, 4) == len,
        le_at(final(out)@, 16, 4) == msg_id,
        le_at(final(out)@, 20, 4) == conv_id,
        le_at(final(out)@, 24, 4) as int == channel as int % 0x1_0000_0000,
        le_at(final(out)@, 28, 4) == if expects_reply {
            1nat
        } else {
            0nat
        },
{
    proof {
        lemma_header_layout(len as nat, msg_id, conv_id, channel, expects_reply);
    }
    out.push(0x79);
    out.push(0x5B);
    out.push(0x3D);
    out.push(0x1F);
    put_le(out, 32, 4);
    put_le(out, 0, 2);
    put_le(out, 1, 2);
    put_le(out, len, 4);
    put_le(out, msg_id as u64, 4);
    put_le(out, conv_id as u64, 4);
    put_le(out, bits_of_i32(channel) as u64, 4);
    put_le(
        out,
        if expects_reply {
            1
        } else {
            0
        },
        4,
    );
    assert(out@ =~= header_bytes(len as nat, msg_id, conv_id, channel, expects_reply));
}

/// Encodes a list of arguments.
pub fn encode_aux_entries(args: &[AuxValue]) -> (out: Vec<u8>)
    ensures
        out@ == aux_bytes(aux_models(args@)),
{
    let mut out: Vec<u8> = Vec::new();
    let mut i: usize = 0;
    let ghost models = aux_models(args@);
    assert(out@ =~= aux_bytes(models.take(0)));
    while i < args.len()
        invariant
            models == aux_models(args@),
            i <= args@.len(),
            out@ == aux_bytes(models.take(i as int)),
        decreases args@.len() - i,
    {
        let ghost before = out@;
        put_le(&mut out, T_NULL as u64, 4);
        match &args[i] {
            AuxValue::Int32(n) => {
                put_le(&mut out, T_UINT32 as u64, 4);
                put_le(&mut out, bits_of_i32(*n) as u64, 4);
            },
            AuxValue::Int64(n) => {
                put_le(&mut out, T_INT64 as u64, 4);
                put_le(&mut out, bits_of_i64(*n), 8);
            },
            AuxValue::Bytes(b) => {
                put_le(&mut out, T_BYTEARRAY as u64, 4);
                put_le(&mut out, low_word(b.len()), 4);
                put_slice(&mut out, b.as_slice());
            },
        }
        assert(out@ =~= before + aux_entry_bytes(models[i as int]));
        assert(models.take(i + 1).drop_last() =~= models.take(i as int));
        i += 1;
    }
    assert(models.take(i as int) =~= models);
    out
}

/// Encodes a message of any type.
pub fn encode_raw(
    msg_id: u32,
    conv_id: u32,
    channel: i32,
    expects_reply: bool,
    msg_type: MsgType,
    aux: &[AuxValue],
    payload: &[u8],
) -> (out: Vec<u8>)
    ensures
        out@ == frame_bytes(
            msg_id,
            conv_id,
            channel,
            expects_reply,
            msg_type.number(),
            aux_models(aux@),
            payload@,
        ),
        out@.len() >= 32,
        out@.take(4) == seq![0x79u8, 0x5Bu8, 0x3Du8, 0x1Fu8],
        le_at(out@, 4, 4) == 32,
        le_at(out@, 12, 4) == (out@.len() - 32) % 0x1_0000_0000,
        le_at(out@, 16, 4) == msg_id,
        le_at(out@, 20, 4) == conv_id,
        le_at(out@, 24, 4) as int == (channel as int) % 0x1_0000_0000,
        le_at(out@, 28, 4) == if expects_reply {
            1nat
        } else {
            0nat
        },
        out@.len() > 32 ==> le_at(out@, 32, 4) == msg_type.number(),
        out@.len() > 32 <==> aux@.len() > 0 || payload@.len() > 0,
        out@.skip(out@.len() - payload@.len()) == payload@,
{
    proof {
        lemma_frame_layout(
            msg_id,
            conv_id,
            channel,
            expects_reply,
            msg_type.number(),
            aux_models(aux@),
            payload@,
        );
    }
    put_frame(msg_id, conv_id, channel, expects_reply, msg_type, aux, payload)
}

fn put_frame(
    msg_id: u32,
    conv_id: u32,
    channel: i32,
    expects_reply: bool,
    msg_type: MsgType,
    aux: &[AuxValue],
    payload: &[u8],
) -> (out: Vec<u8>)
    ensures
        out@ == frame_bytes(
            msg_id,
            conv_id,
            channel,
            expects_reply,
            msg_type.number(),
            aux_models(aux@),
            payload@,
        ),
{
    let entries: Vec<u8> = encode_aux_entries(aux);
    let has_body: bool = entries.len() > 0 || payload.len() > 0;
    let len: u64 = if has_body {
        (both_len(entries.as_slice(), payload) + 16) % 0x1_0000_0000
    } else {
        0
    };
    let ghost whole = message_len(entries@, payload@);
    assert(len == low32(whole));
    let mut out: Vec<u8> = Vec::new();
    put_header(&mut out, len, msg_id, conv_id, channel, expects_reply);
    assert(out@ == header_bytes(whole, msg_id, conv_id, channel, expects_reply)) by {
        assert(low32(len as nat) == low32(whole));
    }
    put_body(&mut out, msg_type, entries.as_slice(), payload);
    out
}

/// The low 32 bits of the length of the auxiliary part.
fn aux_len(entries: &[u8]) -> (len: u64)
    ensures
        len == low32(aux_part_len(entries@)),
{
    if entries.len() > 0 {
        (low_word(entries.len()) + 16) % 0x1_0000_0000
    } else {
        0
    }
}

/// The low 32 bits of the length of the auxiliary part and the payload.
fn both_len(entries: &[u8], payload: &[u8]) -> (len: u64)
    ensures
        len == low32(aux_part_len(entries@) + payload@.len()),
{
    (aux_len(entries) + low_word(payload.len())) % 0x1_0000_0000
}

fn put_body(out: &mut Vec<u8>, msg_type: MsgType, entries: &[u8], payload: &[u8])
    ensures
        final(out)@ == old(out)@ + body_bytes(msg_type.number(), entries@, payload@),
{
    if entries.len() > 0 || payload.len() > 0 {
        put_le(out, msg_type.code() as u64, 4);
        put_le(out, aux_len(entries), 4);
        put_le(out, both_len(entries, payload), 4);
        put_le(out, 0, 4);
        let ghost before = out@;
        if entries.len() > 0 {
            put_le(out, AUX_MAGIC as u64, 4);
            put_le(out, 0, 4);
            put_le(out, low_word(entries.len()), 4);
            put_le(out, 0, 4);
            put_slice(out, entries);
        }
        assert(out@ =~= before + aux_part(entries@));
        put_slice(out, payload);
    }
    assert(out@ =~= old(out)@ + body_bytes(msg_type.number(), entries@, payload@));
}

/// Encodes a method call. Its payload is the archived selector.
pub fn encode_call(
    msg_id: u32,
    conv_id: u32,
    channel: i32,
    expects_reply: bool,
    selector: &str,
    aux: &[AuxValue],
) -> (out: Vec<u8>)
    ensures
        is_call(out@, msg_id, conv_id, channel, expects_reply, selector@, aux_models(aux@)),
        out@.len() >= 32,
        out@.take(4) == seq![0x79u8, 0x5Bu8, 0x3Du8, 0x1Fu8],
        le_at(out@, 4, 4) == 32,
        le_at(out@, 12, 4) == (out@.len() - 32) % 0x1_0000_0000,
        le_at(out@, 16, 4) == msg_id,
        le_at(out@, 20, 4) == conv_id,
        le_at(out@, 24, 4) as int == (channel as int) % 0x1_0000_0000,
        le_at(out@, 28, 4) == if expects_reply {
            1nat
        } else {
            0nat
        },
        out@.len() > 48,
        le_at(out@, 32, 4) == 2,
{
    let out: Vec<u8> = make_call(msg_id, conv_id, channel, expects_reply, selector, aux);
    proof {
        lemma_frame_layout(
            msg_id,
            conv_id,
            channel,
            expects_reply,
            MsgType::MethodInvoke.number(),
            aux_models(aux@),
            plist_binary(archived(single(Tree::String(selector@)), 1)),
        );
    }
    out
}

fn make_call(
    msg_id: u32,
    conv_id: u32,
    channel: i32,
    expects_reply: bool,
    selector: &str,
    aux: &[AuxValue],
) -> (out: Vec<u8>)
    ensures
        is_call(out@, msg_id, conv_id, channel, expects_reply, selector@, aux_models(aux@)),
{
    let payload: Vec<u8> = archive_string(selector);
    put_frame(
        msg_id,
        conv_id,
        channel,
        expects_reply,
        MsgType::MethodInvoke,
        aux,
        payload.as_slice(),
    )
}

/// Whether some bytes are a method call on the wire: a frame whose payload is the
/// archived selector.
pub open spec fn is_call(
    bytes: Seq<u8>,
    msg_id: u32,
    conv_id: u32,
    channel: i32,
    expects_reply: bool,
    selector: Seq<char>,
    aux: Seq<Aux>,
) -> bool {
    let archive = archived(single(Tree::String(selector)), 1);
    let payload = plist_binary(archive);
    &&& is_binary(payload, archive)
    &&& bytes == frame_bytes(
        msg_id,
        conv_id,
        channel,
        expects_reply,
        MsgType::MethodInvoke.number(),
        aux,
        payload,
    )
}

/// An acknowledgement on the wire: a header, and a payload header that is zero
/// throughout.
pub open spec fn ack_bytes(msg_id: u32, conv_id: u32, channel: i32) -> Seq<u8> {
    header_bytes(16, msg_id, conv_id, channel, false) + zeros(16)
}

/// Encodes the acknowledgement of a message.
pub fn encode_ack(msg: &DtxMessage) -> (out: Vec<u8>)
    requires
        msg.conv_id < u32::MAX,
    ensures
        out@ == ack_bytes(msg.msg_id, (msg.conv_id + 1) as u32, msg.channel),
        out@.len() == 48,
        out@.take(4) == seq![0x79u8, 0x5Bu8, 0x3Du8, 0x1Fu8],
        le_at(out@, 4, 4) == 32,
        le_at(out@, 12, 4) == (out@.len() - 32) % 0x1_0000_0000,
        le_at(out@, 16, 4) == msg.msg_id,
        le_at(out@, 20, 4) == msg.conv_id + 1,
        le_at(out@, 24, 4) as int == (msg.channel as int) % 0x1_0000_0000,
        le_at(out@, 28, 4) == 0,
        out@.skip(32) == zeros(16),
{
    proof {
        lemma_ack_layout(msg.msg_id, (msg.conv_id + 1) as u32, msg.channel);
    }
    let mut out: Vec<u8> = Vec::new();
    put_header(&mut out, 16, msg.msg_id, msg.conv_id + 1, msg.channel, false);
    put_zeros(&mut out, 16);
    out
}

/// The reply to a message on the wire. Its conversation is the identifier of the message.
pub open spec fn reply_bytes(req: DtxMessage, payload: Seq<u8>) -> Seq<u8> {
    frame_bytes(
        req.msg_id,
        req.msg_id,
        req.channel,
        false,
        MsgType::Reply.number(),
        Seq::empty(),
        payload,
    )
}

/// Encodes the reply to a message.
pub fn encode_reply(req: &DtxMessage, payload_bytes: &[u8]) -> (out: Vec<u8>)
    ensures
        out@ == reply_bytes(*req, payload_bytes@),
        out@.len() >= 32,
        out@.take(4) == seq![0x79u8, 0x5Bu8, 0x3Du8, 0x1Fu8],
        le_at(out@, 4, 4) == 32,
        le_at(out@, 12, 4) == (out@.len() - 32) % 0x1_0000_0000,
        le_at(out@, 16, 4) == req.msg_id,
        le_at(out@, 20, 4) == req.msg_id,
        le_at(out@, 24, 4) as int == (req.channel as int) % 0x1_0000_0000,
        le_at(out@, 28, 4) == 0,
        out@.len() > 32 <==> payload_bytes@.len() > 0,
        out@.len() > 32 ==> le_at(out@, 32, 4) == 3,
        out@.skip(out@.len() - payload_bytes@.len()) == payload_bytes@,
{
    let none: Vec<AuxValue> = Vec::new();
    assert(aux_models(none@) =~= Seq::<Aux>::empty());
    encode_raw(
        req.msg_id,
        req.msg_id,
        req.channel,
        false,
        MsgType::Reply,
        none.as_slice(),
        payload_bytes,
    )
}

/// The fields of a header that the reader uses.
#[derive(Clone, Copy, Debug, PartialEq, Eq, Structural)]
pub struct Header {
    pub len: u32,
    pub msg_id: u32,
    pub conv_id: u32,
    pub channel: i32,
    pub expects_reply: bool,
}

/// The header that 32 bytes hold.
pub open spec fn header_of(hdr: Seq<u8>) -> Header {
    Header {
        len: le_at(hdr, 12, 4) as u32,
        msg_id: le_at(hdr, 16, 4) as u32,
        conv_id: le_at(hdr, 20, 4) as u32,
        channel: i32_of_bits(le_at(hdr, 24, 4)),
        expects_reply: le_at(hdr, 28, 4) != 0,
    }
}

/// Reads a header.
pub fn read_header(hdr: &[u8]) -> (h: Result<Header, Error>)
    requires
        hdr@.len() == 32,
    ensures
        match h {
            Ok(h) => be_at(hdr@, 0, 4) == MAGIC && h == header_of(hdr@),
            Err(e) => be_at(hdr@, 0, 4) != MAGIC && e == Error::BadMagic(
                be_at(hdr@, 0, 4) as u32,
            ),
        },
        h is Ok <==> hdr@.take(4) == seq![0x79u8, 0x5Bu8, 0x3Du8, 0x1Fu8],
        h matches Ok(h) ==> {
            &&& h.len == le_at(hdr@, 12, 4)
            &&& h.msg_id == le_at(hdr@, 16, 4)
            &&& h.conv_id == le_at(hdr@, 20, 4)
            &&& h.channel as int % 0x1_0000_0000 == le_at(hdr@, 24, 4)
            &&& h.expects_reply <==> le_at(hdr@, 28, 4) != 0
        },
{
    proof {
        lemma_magic(hdr@);
        lemma_word_bounds(hdr@);
    }
    let magic: u32 = get_be32(hdr, 0);
    if magic != MAGIC {
        return Err(Error::BadMagic(magic));
    }
    Ok(
        Header {
            len: get_le32(hdr, 12),
            msg_id: get_le32(hdr, 16),
            conv_id: get_le32(hdr, 20),
            channel: i32_from_bits(get_le32(hdr, 24)),
            expects_reply: get_le32(hdr, 28) != 0,
        },
    )
}

/// The arguments that stand in `data` from `pos` on, up to the first that is
/// malformed or cut off.
pub open spec fn aux_from(data: Seq<u8>, pos: int) -> Seq<Aux>
    decreases data.len() - pos,
{
    if pos < 0 || pos + 8 > data.len() || le_at(data, pos, 4) != T_NULL {
        Seq::empty()
    } else {
        let t = le_at(data, pos + 4, 4);
        let p = pos + 8;
        if t == T_UINT32 && p + 4 <= data.len() {
            seq![Aux::Int32(i32_of_bits(le_at(data, p, 4)))] + aux_from(data, p + 4)
        } else if t == T_INT64 && p + 8 <= data.len() {
            seq![Aux::Int64(i64_of_bits(le_at(data, p, 8)))] + aux_from(data, p + 8)
        } else if t == T_BYTEARRAY && p + 4 <= data.len() && p + 4 + le_at(data, p, 4)
            <= data.len() {
            let end = p + 4 + le_at(data, p, 4);
            seq![Aux::Bytes(data.subrange(p + 4, end))] + aux_from(data, end)
        } else {
            Seq::empty()
        }
    }
}

/// Reads a list of arguments.
pub fn decode_aux_entries(data: &[u8]) -> (out: Vec<AuxValue>)
    ensures
        aux_models(out@) == aux_from(data@, 0),
{
    let mut out: Vec<AuxValue> = Vec::new();
    let mut pos: usize = 0;
    let ghost whole = aux_from(data@, 0);
    assert(aux_models(out@) + aux_from(data@, 0) =~= whole);
    assert(data@.len() == data.len());
    loop
        invariant
            data@.len() == data.len(),
            pos <= data@.len(),
            whole == aux_from(data@, 0),
            aux_models(out@) + aux_from(data@, pos as int) == whole,
        decreases data@.len() - pos,
    {
        let ghost before = aux_models(out@);
        let ghost start = pos as int;
        if data.len() - pos < 8 || get_le32(data, pos) != T_NULL {
            assert(aux_from(data@, start) == Seq::<Aux>::empty());
            assert(before + Seq::<Aux>::empty() =~= before);
            return out;
        }
        let t: u32 = get_le32(data, pos + 4);
        let p: usize = pos + 8;
        if t == T_UINT32 && data.len() - p >= 4 {
            let v = AuxValue::Int32(i32_from_bits(get_le32(data, p)));
            let ghost item = v@;
            out.push(v);
            pos = p + 4;
            assert(aux_models(out@) =~= before.push(item));
            assert(aux_models(out@) + aux_from(data@, pos as int) =~= before + (seq![item]
                + aux_from(data@, pos as int)));
        } else if t == T_INT64 && data.len() - p >= 8 {
            let v = AuxValue::Int64(i64_from_bits(get_le(data, p, 8)));
            let ghost item = v@;
            out.push(v);
            pos = p + 8;
            assert(aux_models(out@) =~= before.push(item));
            assert(aux_models(out@) + aux_from(data@, pos as int) =~= before + (seq![item]
                + aux_from(data@, pos as int)));
        } else if t == T_BYTEARRAY && data.len() - p >= 4 && data.len() - p - 4 >= get_le32(
            data,
            p,
        ) as usize {
            let end: usize = p + 4 + get_le32(data, p) as usize;
            let v = AuxValue::Bytes(sub_vec(data, p + 4, end));
            let ghost item = v@;
            out.push(v);
            pos = end;
            assert(aux_models(out@) =~= before.push(item));
            assert(aux_models(out@) + aux_from(data@, pos as int) =~= before + (seq![item]
                + aux_from(data@, pos as int)));
        } else {
            assert(aux_from(data@, start) == Seq::<Aux>::empty());
            assert(before + Seq::<Aux>::empty() =~= before);
            return out;
        }
    }
}

/// The message type that a body states.
pub open spec fn body_type(body: Seq<u8>) -> u32 {
    if body.len() == 0 {
        0
    } else {
        le_at(body, 0, 4) as u32
    }
}

/// The arguments that a body holds.
pub open spec fn body_aux(body: Seq<u8>) -> Seq<Aux> {
    let aux_len = le_at(body, 4, 4);
    let size = if aux_len > 16 {
        aux_len - 16
    } else {
        0
    };
    if body.len() > 0 && aux_len > 0 && body.len() >= 32 + size {
        aux_from(body.subrange(32, 32 + size), 0)
    } else {
        Seq::empty()
    }
}

/// The payload bytes that a body holds.
pub open spec fn body_payload(body: Seq<u8>) -> Option<Seq<u8>> {
    let aux_len = le_at(body, 4, 4);
    let total = le_at(body, 8, 4);
    if body.len() > 0 && total > aux_len && body.len() >= 16 + total {
        Some(body.subrange((16 + aux_len) as int, (16 + total) as int))
    } else {
        None
    }
}

/// Whether a message holds what a header and a body say.
pub open spec fn is_message(msg: DtxMessage, h: Header, body: Seq<u8>) -> bool {
    &&& msg.msg_id == h.msg_id
    &&& msg.conv_id == h.conv_id
    &&& msg.channel == h.channel
    &&& msg.expects_reply == h.expects_reply
    &&& msg.msg_type == body_type(body)
    &&& aux_models(msg.aux@) == body_aux(body)
    &&& match body_payload(body) {
        Some(bytes) => msg.payload is Some && reads_back(bytes, msg.payload->0@),
        None => msg.payload is None,
    }
}

/// Whether a body is refused: its payload is not a property list.
pub open spec fn bad_payload(body: Seq<u8>) -> bool {
    body_payload(body) is Some && plist_parse(body_payload(body)->0) is Err
}

/// Whether an error tells how the payload of a body is refused.
pub open spec fn is_refusal(e: Error, body: Seq<u8>) -> bool {
    &&& e matches Error::Plist(e)
    &&& plist_parse(body_payload(body)->0) == Err::<Tree, Seq<char>>(plist_error_text(e))
}

/// Makes a message of a header and the bytes behind it.
pub fn read_body(h: &Header, body: &[u8]) -> (msg: Result<DtxMessage, Error>)
    requires
        body@.len() == 0 || body@.len() >= 12,
    ensures
        match msg {
            Ok(msg) => !bad_payload(body@) && is_message(msg, *h, body@),
            Err(e) => bad_payload(body@) && is_refusal(e, body@),
        },
{
    let mut aux: Vec<AuxValue> = Vec::new();
    let mut payload: Option<Plist> = None;
    let mut msg_type: u32 = 0;
    assert(aux_models(aux@) =~= Seq::<Aux>::empty());
    assert(body@.len() == body.len());
    if body.len() > 0 {
        msg_type = get_le32(body, 0);
        let aux_len: u64 = get_le32(body, 4) as u64;
        let total: u64 = get_le32(body, 8) as u64;
        let size: u64 = if aux_len > 16 {
            aux_len - 16
        } else {
            0
        };
        if aux_len > 0 && body.len() as u64 >= 32 + size {
            let entries: Vec<u8> = sub_vec(body, 32, (32 + size) as usize);
            aux = decode_aux_entries(entries.as_slice());
        }
        if total > aux_len && body.len() as u64 >= 16 + total {
            let bytes: Vec<u8> = sub_vec(body, (16 + aux_len) as usize, (16 + total) as usize);
            match from_bytes(bytes.as_slice()) {
                Ok(p) => {
                    payload = Some(p);
                },
                Err(e) => {
                    return Err(Error::Plist(e));
                },
            }
        }
    }
    Ok(
        DtxMessage {
            msg_id: h.msg_id,
            conv_id: h.conv_id,
            channel: h.channel,
            expects_reply: h.expects_reply,
            msg_type,
            aux,
            payload,
        },
    )
}

/// Whether `buf` starts with a header whose message is all there.
pub open spec fn has_message(buf: Seq<u8>) -> bool {
    buf.len() >= 32 && buf.len() >= 32 + header_of(buf.take(32)).len
}

/// Reads the message at the start of `buf`. `None` as long as bytes are missing.
pub fn read_message(buf: &[u8]) -> (msg: Result<Option<DtxMessage>, Error>)
    requires
        buf@.len() >= 32 && be_at(buf@.take(32), 0, 4) == MAGIC ==> {
            let len = header_of(buf@.take(32)).len;
            len == 0 || len >= 12
        },
    ensures
        match msg {
            Ok(None) => buf@.len() < 32 || (be_at(buf@.take(32), 0, 4) == MAGIC && !has_message(
                buf@,
            )),
            Ok(Some(msg)) => {
                let h = header_of(buf@.take(32));
                let body = buf@.subrange(32, 32 + h.len);
                &&& has_message(buf@)
                &&& be_at(buf@.take(32), 0, 4) == MAGIC
                &&& !bad_payload(body)
                &&& is_message(msg, h, body)
            },
            Err(e) => buf@.len() >= 32 && if be_at(buf@.take(32), 0, 4) != MAGIC {
                e == Error::BadMagic(be_at(buf@.take(32), 0, 4) as u32)
            } else {
                let body = buf@.subrange(32, 32 + header_of(buf@.take(32)).len);
                &&& has_message(buf@)
                &&& bad_payload(body)
                &&& is_refusal(e, body)
            },
        },
        msg matches Ok(Some(msg)) ==> {
            let len = le_at(buf@, 12, 4);
            &&& buf@.len() >= 32 + len
            &&& buf@.take(4) == seq![0x79u8, 0x5Bu8, 0x3Du8, 0x1Fu8]
            &&& msg.msg_id == le_at(buf@, 16, 4)
            &&& msg.conv_id == le_at(buf@, 20, 4)
            &&& msg.channel as int % 0x1_0000_0000 == le_at(buf@, 24, 4)
            &&& msg.expects_reply <==> le_at(buf@, 28, 4) != 0
            &&& msg.msg_type == if len == 0 {
                0
            } else {
                le_at(buf@, 32, 4)
            }
        },
{
    if buf.len() < 32 {
        return Ok(None);
    }
    assert(buf@.len() == buf.len());
    let hdr: Vec<u8> = sub_vec(buf, 0, 32);
    assert(hdr@ =~= buf@.take(32));
    let h: Header = match read_header(hdr.as_slice()) {
        Ok(h) => h,
        Err(e) => {
            return Err(e);
        },
    };
    if buf.len() - 32 < h.len as usize {
        return Ok(None);
    }
    proof {
        lemma_words_in_front(buf@, h.len as int);
    }
    let body: Vec<u8> = sub_vec(buf, 32, 32 + h.len as usize);
    proof {
        if body@.len() > 0 {
            crate::bytes::lemma_byte_ranges();
            crate::bytes::lemma_le_value_bound(buf@.subrange(32, 36));
        }
    }
    assert(body@.len() > 0 ==> le_at(body@, 0, 4) == le_at(buf@, 32, 4));
    match read_body(&h, body.as_slice()) {
        Ok(msg) => Ok(Some(msg)),
        Err(e) => Err(e),
    }
}

/// Whether the length of every argument fits its field.
pub open spec fn aux_safe(aux: Seq<Aux>) -> bool {
    forall|i: int|
        0 <= i < aux.len() ==> ((#[trigger] aux[i]) matches Aux::Bytes(b) ==> b.len() <= u32::MAX)
}

proof fn lemma_aux_bytes_front(aux: Seq<Aux>)
    requires
        aux.len() > 0,
    ensures
        aux_bytes(aux) == aux_entry_bytes(aux[0]) + aux_bytes(aux.skip(1)),
    decreases aux.len(),
{
    if aux.len() == 1 {
        assert(aux.drop_last() =~= Seq::<Aux>::empty());
        assert(aux.skip(1) =~= Seq::<Aux>::empty());
        assert(aux_bytes(aux) =~= aux_entry_bytes(aux[0]) + aux_bytes(aux.skip(1)));
    } else {
        let front = aux.drop_last();
        lemma_aux_bytes_front(front);
        assert(aux.skip(1).drop_last() =~= front.skip(1));
        assert(aux_bytes(aux) =~= aux_entry_bytes(aux[0]) + aux_bytes(aux.skip(1)));
    }
}

proof fn lemma_aux_at(data: Seq<u8>, pos: int, aux: Seq<Aux>)
    requires
        aux_safe(aux),
        stands_at(data, pos, aux_bytes(aux)),
        pos + aux_bytes(aux).len() == data.len(),
    ensures
        aux_from(data, pos) == aux,
    decreases aux.len(),
{
    broadcast use crate::bytes::lemma_le_bytes_len;

    crate::bytes::lemma_byte_ranges();
    if aux.len() == 0 {
        assert(aux =~= Seq::<Aux>::empty());
    } else {
        let rest = aux.skip(1);
        lemma_aux_bytes_front(aux);
        let entry = aux_entry_bytes(aux[0]);
        lemma_stands_split(data, pos, entry, aux_bytes(rest));
        assert(aux_safe(rest)) by {
            assert forall|i: int| 0 <= i < rest.len() implies ((#[trigger] rest[i]) matches Aux::Bytes(
                b,
            ) ==> b.len() <= u32::MAX) by {
                assert(aux[i + 1] matches Aux::Bytes(b) ==> b.len() <= u32::MAX);
            }
        }
        lemma_aux_at(data, pos + entry.len(), rest);
        let null = le_bytes(T_NULL as nat, 4);
        assert(aux[0] matches Aux::Bytes(b) ==> b.len() <= u32::MAX);
        match aux[0] {
            Aux::Int32(n) => {
                let t = le_bytes(T_UINT32 as nat, 4);
                lemma_stands_split(data, pos, null, t + le_bytes(i32_bits(n), 4));
                lemma_stands_split(data, pos + 4, t, le_bytes(i32_bits(n), 4));
                lemma_stands_le(data, pos, T_NULL as nat, 4);
                lemma_stands_le(data, pos + 4, T_UINT32 as nat, 4);
                lemma_stands_le(data, pos + 8, i32_bits(n), 4);
            },
            Aux::Int64(n) => {
                let t = le_bytes(T_INT64 as nat, 4);
                lemma_stands_split(data, pos, null, t + le_bytes(i64_bits(n), 8));
                lemma_stands_split(data, pos + 4, t, le_bytes(i64_bits(n), 8));
                lemma_stands_le(data, pos, T_NULL as nat, 4);
                lemma_stands_le(data, pos + 4, T_INT64 as nat, 4);
                lemma_stands_le(data, pos + 8, i64_bits(n), 8);
            },
            Aux::Bytes(b) => {
                let t = le_bytes(T_BYTEARRAY as nat, 4);
                let len = le_bytes(low32(b.len()), 4);
                lemma_stands_split(data, pos, null, t + len + b);
                lemma_stands_split(data, pos + 4, t + len, b);
                lemma_stands_split(data, pos + 4, t, len);
                lemma_stands_le(data, pos, T_NULL as nat, 4);
                lemma_stands_le(data, pos + 4, T_BYTEARRAY as nat, 4);
                lemma_stands_le(data, pos + 8, low32(b.len()), 4);
            },
        }
        assert(aux =~= seq![aux[0]] + rest);
    }
}

/// Arguments are read back as they were written.
pub proof fn lemma_aux_roundtrip(aux: Seq<Aux>)
    requires
        aux_safe(aux),
    ensures
        aux_from(aux_bytes(aux), 0) == aux,
{
    let data = aux_bytes(aux);
    assert(data.subrange(0, data.len() as int) =~= data);
    lemma_aux_at(data, 0, aux);
}

/// A header is read back as it was written, as long as the length fits.
pub proof fn lemma_header_roundtrip(
    len: nat,
    msg_id: u32,
    conv_id: u32,
    channel: i32,
    expects_reply: bool,
)
    requires
        len <= u32::MAX,
    ensures
        ({
            let hdr = header_bytes(len, msg_id, conv_id, channel, expects_reply);
            &&& hdr.len() == 32
            &&& be_at(hdr, 0, 4) == MAGIC
            &&& header_of(hdr) == (Header {
                len: len as u32,
                msg_id,
                conv_id,
                channel,
                expects_reply,
            })
        }),
{
    broadcast use crate::bytes::lemma_le_bytes_len;

    crate::bytes::lemma_byte_ranges();
    let hdr = header_bytes(len, msg_id, conv_id, channel, expects_reply);
    let flag: nat = if expects_reply {
        1
    } else {
        0
    };
    let f1 = magic_bytes();
    let f2 = le_bytes(32, 4);
    let f3 = le_bytes(0, 2);
    let f4 = le_bytes(1, 2);
    let f5 = le_bytes(low32(len), 4);
    let f6 = le_bytes(msg_id as nat, 4);
    let f7 = le_bytes(conv_id as nat, 4);
    let f8 = le_bytes(i32_bits(channel), 4);
    let f9 = le_bytes(flag, 4);
    assert(hdr.subrange(0, hdr.len() as int) =~= hdr);
    lemma_stands_split(hdr, 0, f1 + f2 + f3 + f4 + f5 + f6 + f7 + f8, f9);
    lemma_stands_split(hdr, 0, f1 + f2 + f3 + f4 + f5 + f6 + f7, f8);
    lemma_stands_split(hdr, 0, f1 + f2 + f3 + f4 + f5 + f6, f7);
    lemma_stands_split(hdr, 0, f1 + f2 + f3 + f4 + f5, f6);
    lemma_stands_split(hdr, 0, f1 + f2 + f3 + f4, f5);
    lemma_stands_split(hdr, 0, f1 + f2 + f3, f4);
    lemma_stands_split(hdr, 0, f1 + f2, f3);
    lemma_stands_split(hdr, 0, f1, f2);
    lemma_stands_le(hdr, 12, low32(len), 4);
    lemma_stands_le(hdr, 16, msg_id as nat, 4);
    lemma_stands_le(hdr, 20, conv_id as nat, 4);
    lemma_stands_le(hdr, 24, i32_bits(channel), 4);
    lemma_stands_le(hdr, 28, flag, 4);
    assert(be_at(hdr, 0, 4) == MAGIC) by {
        assert(hdr.subrange(0, 4) == f1);
        reveal_with_fuel(crate::bytes::be_value, 5);
        assert(f1.drop_last() =~= seq![0x79u8, 0x5Bu8, 0x3Du8]);
        assert(f1.drop_last().drop_last() =~= seq![0x79u8, 0x5Bu8]);
        assert(f1.drop_last().drop_last().drop_last() =~= seq![0x79u8]);
        assert(f1.drop_last().drop_last().drop_last().drop_last() =~= Seq::<u8>::empty());
    }
}

#[verifier::spinoff_prover]
#[verifier::rlimit(40)]
proof fn lemma_body_roundtrip(msg_type: u32, aux: Seq<Aux>, payload: Seq<u8>)
    requires
        aux_safe(aux),
        aux.len() > 0 || payload.len() > 0,
        message_len(aux_bytes(aux), payload) <= u32::MAX,
    ensures
        ({
            let body = body_bytes(msg_type, aux_bytes(aux), payload);
            &&& body.len() == message_len(aux_bytes(aux), payload)
            &&& body.len() >= 16
            &&& body_type(body) == msg_type
            &&& body_aux(body) == aux
            &&& body_payload(body) == if payload.len() > 0 {
                Some(payload)
            } else {
                None
            }
        }),
{
    broadcast use crate::bytes::lemma_le_bytes_len;

    crate::bytes::lemma_byte_ranges();
    let entries = aux_bytes(aux);
    if aux.len() > 0 {
        lemma_aux_bytes_front(aux);
    }
    let body = body_bytes(msg_type, entries, payload);
    let b1 = le_bytes(msg_type as nat, 4);
    let b2 = le_bytes(low32(aux_part_len(entries)), 4);
    let b3 = le_bytes(low32(aux_part_len(entries) + payload.len()), 4);
    let b4 = le_bytes(0, 4);
    let part = aux_part(entries);
    assert(body.subrange(0, body.len() as int) =~= body);
    lemma_stands_split(body, 0, b1 + b2 + b3 + b4 + part, payload);
    lemma_stands_split(body, 0, b1 + b2 + b3 + b4, part);
    lemma_stands_split(body, 0, b1 + b2 + b3, b4);
    lemma_stands_split(body, 0, b1 + b2, b3);
    lemma_stands_split(body, 0, b1, b2);
    lemma_stands_le(body, 0, msg_type as nat, 4);
    lemma_stands_le(body, 4, low32(aux_part_len(entries)), 4);
    lemma_stands_le(body, 8, low32(aux_part_len(entries) + payload.len()), 4);
    if entries.len() > 0 {
        let a1 = le_bytes(AUX_MAGIC as nat, 4) + le_bytes(0, 4) + le_bytes(
            low32(entries.len()),
            4,
        ) + le_bytes(0, 4);
        lemma_stands_split(body, 16, a1, entries);
        lemma_aux_roundtrip(aux);
    } else {
        if aux.len() > 0 {
            assert(aux_entry_bytes(aux[0]).len() > 0);
        }
        assert(aux =~= Seq::<Aux>::empty());
    }
}

/// A message with a payload or arguments is read back as it was written: the
/// header, the type, the arguments and the payload bytes.
pub proof fn lemma_frame_roundtrip(
    msg_id: u32,
    conv_id: u32,
    channel: i32,
    expects_reply: bool,
    msg_type: u32,
    aux: Seq<Aux>,
    payload: Seq<u8>,
)
    requires
        aux_safe(aux),
        aux.len() > 0 || payload.len() > 0,
        message_len(aux_bytes(aux), payload) <= u32::MAX,
    ensures
        ({
            let frame = frame_bytes(
                msg_id,
                conv_id,
                channel,
                expects_reply,
                msg_type,
                aux,
                payload,
            );
            let h = header_of(frame.take(32));
            let body = frame.skip(32);
            &&& frame.len() >= 32
            &&& be_at(frame.take(32), 0, 4) == MAGIC
            &&& h == (Header {
                len: body.len() as u32,
                msg_id,
                conv_id,
                channel,
                expects_reply,
            })
            &&& body.len() >= 16
            &&& body_type(body) == msg_type
            &&& body_aux(body) == aux
            &&& body_payload(body) == if payload.len() > 0 {
                Some(payload)
            } else {
                None
            }
        }),
{
    let entries = aux_bytes(aux);
    let len = message_len(entries, payload);
    lemma_header_roundtrip(len, msg_id, conv_id, channel, expects_reply);
    let hdr = header_bytes(len, msg_id, conv_id, channel, expects_reply);
    let body = body_bytes(msg_type, entries, payload);
    let frame = frame_bytes(msg_id, conv_id, channel, expects_reply, msg_type, aux, payload);
    assert(frame =~= hdr + body);
    assert(frame.take(32) =~= hdr);
    assert(frame.skip(32) =~= body);
    lemma_body_roundtrip(msg_type, aux, payload);
}

/// A reply is read back as one of the conversation that the request began, with its
/// payload.
pub proof fn lemma_reply_roundtrip(req: DtxMessage, payload: Seq<u8>)
    requires
        0 < payload.len() <= u32::MAX - 16,
    ensures
        ({
            let frame = reply_bytes(req, payload);
            let h = header_of(frame.take(32));
            let body = frame.skip(32);
            &&& frame.len() == 48 + payload.len()
            &&& be_at(frame.take(32), 0, 4) == MAGIC
            &&& h == (Header {
                len: (16 + payload.len()) as u32,
                msg_id: req.msg_id,
                conv_id: req.msg_id,
                channel: req.channel,
                expects_reply: false,
            })
            &&& body_type(body) == MsgType::Reply.number()
            &&& body_aux(body) == Seq::<Aux>::empty()
            &&& body_payload(body) == Some(payload)
            &&& frame.skip(48) == payload
        }),
{
    broadcast use crate::bytes::lemma_le_bytes_len;

    let none = Seq::<Aux>::empty();
    assert(aux_bytes(none) =~= Seq::<u8>::empty());
    assert(message_len(aux_bytes(none), payload) == 16 + payload.len());
    lemma_frame_roundtrip(
        req.msg_id,
        req.msg_id,
        req.channel,
        false,
        MsgType::Reply.number(),
        none,
        payload,
    );
    assert(reply_bytes(req, payload).skip(48) =~= payload);
}

/// An acknowledgement has 48 bytes and is read as one: type zero, no arguments,
/// no payload.
pub proof fn lemma_ack_roundtrip(msg_id: u32, conv_id: u32, channel: i32)
    ensures
        ({
            let frame = ack_bytes(msg_id, conv_id, channel);
            let body = frame.skip(32);
            &&& frame.len() == 48
            &&& be_at(frame.take(32), 0, 4) == MAGIC
            &&& header_of(frame.take(32)) == (Header {
                len: 16,
                msg_id,
                conv_id,
                channel,
                expects_reply: false,
            })
            &&& body_type(body) == MsgType::Ack.number()
            &&& body_aux(body) == Seq::<Aux>::empty()
            &&& body_payload(body) is None
        }),
{
    lemma_header_roundtrip(16, msg_id, conv_id, channel, false);
    let hdr = header_bytes(16, msg_id, conv_id, channel, false);
    let frame = ack_bytes(msg_id, conv_id, channel);
    let body = frame.skip(32);
    assert(frame.take(32) =~= hdr);
    assert(body =~= zeros(16));
    assert forall|at: int| 0 <= at <= 12 implies #[trigger] le_at(body, at, 4) == 0 by {
        let s = body.subrange(at, at + 4);
        reveal_with_fuel(crate::bytes::le_value, 5);
        assert(s.skip(1)[0] == 0 && s.skip(1).skip(1)[0] == 0 && s.skip(1).skip(1).skip(1)[0]
            == 0);
    }
}

proof fn lemma_magic(hdr: Seq<u8>)
    requires
        hdr.len() >= 4,
    ensures
        be_at(hdr, 0, 4) == 0x795B_3D1F <==> hdr.take(4) == seq![0x79u8, 0x5Bu8, 0x3Du8, 0x1Fu8],
{
    lemma_byte_weights(hdr, 0);
    let magic = seq![0x79u8, 0x5Bu8, 0x3Du8, 0x1Fu8];
    if be_at(hdr, 0, 4) == 0x795B_3D1F {
        assert(hdr.take(4) =~= magic);
    }
    if hdr.take(4) == magic {
        assert(hdr[0] == magic[0] && hdr[1] == magic[1] && hdr[2] == magic[2] && hdr[3]
            == magic[3]) by {
            assert(hdr.take(4)[0] == hdr[0] && hdr.take(4)[1] == hdr[1] && hdr.take(4)[2] == hdr[2]
                && hdr.take(4)[3] == hdr[3]);
        }
    }
}

proof fn lemma_word_bounds(hdr: Seq<u8>)
    requires
        hdr.len() >= 32,
    ensures
        forall|at: int| 0 <= at <= 28 ==> #[trigger] le_at(hdr, at, 4) < 0x1_0000_0000,
{
    crate::bytes::lemma_byte_ranges();
    assert forall|at: int| 0 <= at <= 28 implies #[trigger] le_at(hdr, at, 4) < 0x1_0000_0000 by {
        crate::bytes::lemma_le_value_bound(hdr.subrange(at, at + 4));
    }
}

proof fn lemma_words_in_front(buf: Seq<u8>, len: int)
    requires
        0 <= len,
        buf.len() >= 32 + len,
    ensures
        forall|at: int|
            0 <= at <= 28 ==> #[trigger] le_at(buf.take(32), at, 4) == le_at(buf, at, 4),
        buf.take(32).take(4) == buf.take(4),
        len >= 4 ==> le_at(buf.subrange(32, 32 + len), 0, 4) == le_at(buf, 32, 4),
{
    let hdr = buf.take(32);
    assert forall|at: int| 0 <= at <= 28 implies #[trigger] le_at(hdr, at, 4) == le_at(
        buf,
        at,
        4,
    ) by {
        assert(hdr.subrange(at, at + 4) =~= buf.subrange(at, at + 4));
    }
    assert(hdr.take(4) =~= buf.take(4));
    if len >= 4 {
        let body = buf.subrange(32, 32 + len);
        assert(body.subrange(0, 4) =~= buf.subrange(32, 36));
    }
}

/// Each field of a header stands at its place: the magic, the size of the header, the one
/// fragment, the length, the message, the conversation, the channel, and whether a reply
/// is expected.
pub proof fn lemma_header_layout(
    len: nat,
    msg_id: u32,
    conv_id: u32,
    channel: i32,
    expects_reply: bool,
)
    ensures
        ({
            let hdr = header_bytes(len, msg_id, conv_id, channel, expects_reply);
            &&& hdr.len() == 32
            &&& hdr.take(4) == seq![0x79u8, 0x5Bu8, 0x3Du8, 0x1Fu8]
            &&& le_at(hdr, 4, 4) == 32
            &&& le_at(hdr, 8, 2) == 0
            &&& le_at(hdr, 10, 2) == 1
            &&& le_at(hdr, 12, 4) == len % 0x1_0000_0000
            &&& le_at(hdr, 16, 4) == msg_id
            &&& le_at(hdr, 20, 4) == conv_id
            &&& le_at(hdr, 24, 4) as int == channel as int % 0x1_0000_0000
            &&& le_at(hdr, 28, 4) == if expects_reply {
                1nat
            } else {
                0nat
            }
        }),
{
    broadcast use crate::bytes::lemma_le_bytes_len;

    crate::bytes::lemma_byte_ranges();
    let hdr = header_bytes(len, msg_id, conv_id, channel, expects_reply);
    let flag: nat = if expects_reply {
        1
    } else {
        0
    };
    let f1 = magic_bytes();
    let f2 = le_bytes(32, 4);
    let f3 = le_bytes(0, 2);
    let f4 = le_bytes(1, 2);
    let f5 = le_bytes(low32(len), 4);
    let f6 = le_bytes(msg_id as nat, 4);
    let f7 = le_bytes(conv_id as nat, 4);
    let f8 = le_bytes(i32_bits(channel), 4);
    let f9 = le_bytes(flag, 4);
    assert(hdr.subrange(0, hdr.len() as int) =~= hdr);
    lemma_stands_split(hdr, 0, f1 + f2 + f3 + f4 + f5 + f6 + f7 + f8, f9);
    lemma_stands_split(hdr, 0, f1 + f2 + f3 + f4 + f5 + f6 + f7, f8);
    lemma_stands_split(hdr, 0, f1 + f2 + f3 + f4 + f5 + f6, f7);
    lemma_stands_split(hdr, 0, f1 + f2 + f3 + f4 + f5, f6);
    lemma_stands_split(hdr, 0, f1 + f2 + f3 + f4, f5);
    lemma_stands_split(hdr, 0, f1 + f2 + f3, f4);
    lemma_stands_split(hdr, 0, f1 + f2, f3);
    lemma_stands_split(hdr, 0, f1, f2);
    assert(hdr.take(4) =~= f1);
    lemma_stands_le(hdr, 4, 32, 4);
    lemma_stands_le(hdr, 8, 0, 2);
    lemma_stands_le(hdr, 10, 1, 2);
    lemma_stands_le(hdr, 12, low32(len), 4);
    lemma_stands_le(hdr, 16, msg_id as nat, 4);
    lemma_stands_le(hdr, 20, conv_id as nat, 4);
    lemma_stands_le(hdr, 24, i32_bits(channel), 4);
    lemma_stands_le(hdr, 28, flag, 4);
}

proof fn lemma_header_in_front(hdr: Seq<u8>, frame: Seq<u8>)
    requires
        hdr.len() == 32,
        frame.len() >= 32,
        frame.take(32) == hdr,
    ensures
        frame.take(4) == hdr.take(4),
        forall|at: int| 0 <= at <= 28 ==> #[trigger] le_at(frame, at, 4) == le_at(hdr, at, 4),
        le_at(frame, 8, 2) == le_at(hdr, 8, 2),
        le_at(frame, 10, 2) == le_at(hdr, 10, 2),
{
    assert(frame.take(4) =~= hdr.take(4));
    assert forall|at: int| 0 <= at <= 28 implies #[trigger] le_at(frame, at, 4) == le_at(
        hdr,
        at,
        4,
    ) by {
        assert(frame.subrange(at, at + 4) =~= hdr.subrange(at, at + 4));
    }
    assert(frame.subrange(8, 10) =~= hdr.subrange(8, 10));
    assert(frame.subrange(10, 12) =~= hdr.subrange(10, 12));
}

proof fn lemma_aux_bytes_some(aux: Seq<Aux>)
    ensures
        aux.len() > 0 <==> aux_bytes(aux).len() > 0,
{
    broadcast use crate::bytes::lemma_le_bytes_len;

    if aux.len() > 0 {
        lemma_aux_bytes_front(aux);
    }
}

/// What stands where in a message. The header tells the message, its conversation, its
/// channel and how much follows. What follows starts with the type and the lengths of its
/// parts; behind them stand the arguments, if there are any, and the payload comes last.
pub proof fn lemma_frame_layout(
    msg_id: u32,
    conv_id: u32,
    channel: i32,
    expects_reply: bool,
    msg_type: u32,
    aux: Seq<Aux>,
    payload: Seq<u8>,
)
    ensures
        ({
            let f = frame_bytes(msg_id, conv_id, channel, expects_reply, msg_type, aux, payload);
            let args = aux_bytes(aux);
            let front: nat = if aux.len() > 0 {
                16 + args.len()
            } else {
                0
            };
            &&& f.len() >= 32
            &&& f.take(4) == seq![0x79u8, 0x5Bu8, 0x3Du8, 0x1Fu8]
            &&& le_at(f, 4, 4) == 32
            &&& le_at(f, 8, 2) == 0
            &&& le_at(f, 10, 2) == 1
            &&& le_at(f, 12, 4) == (f.len() - 32) % 0x1_0000_0000
            &&& le_at(f, 16, 4) == msg_id
            &&& le_at(f, 20, 4) == conv_id
            &&& le_at(f, 24, 4) as int == channel as int % 0x1_0000_0000
            &&& le_at(f, 28, 4) == if expects_reply {
                1nat
            } else {
                0nat
            }
            &&& if aux.len() == 0 && payload.len() == 0 {
                f.len() == 32
            } else {
                &&& f.len() == 48 + front + payload.len()
                &&& le_at(f, 32, 4) == msg_type
                &&& le_at(f, 36, 4) == front % 0x1_0000_0000
                &&& le_at(f, 40, 4) == (front + payload.len()) % 0x1_0000_0000
                &&& le_at(f, 44, 4) == 0
            }
            &&& aux.len() > 0 ==> {
                &&& le_at(f, 48, 4) == 0x1F0
                &&& le_at(f, 52, 4) == 0
                &&& le_at(f, 56, 4) == args.len() % 0x1_0000_0000
                &&& le_at(f, 60, 4) == 0
                &&& f.subrange(64, 64int + args.len()) == args
            }
            &&& f.skip(f.len() - payload.len()) == payload
        }),
{
    broadcast use crate::bytes::lemma_le_bytes_len;

    crate::bytes::lemma_byte_ranges();
    let args = aux_bytes(aux);
    let len = message_len(args, payload);
    let hdr = header_bytes(len, msg_id, conv_id, channel, expects_reply);
    let body = body_bytes(msg_type, args, payload);
    let f = frame_bytes(msg_id, conv_id, channel, expects_reply, msg_type, aux, payload);
    lemma_aux_bytes_some(aux);
    lemma_header_layout(len, msg_id, conv_id, channel, expects_reply);
    assert(f.take(32) =~= hdr);
    lemma_header_in_front(hdr, f);
    assert(body.len() == len);
    assert(f.skip(f.len() - payload.len()) =~= payload);
    if len > 0 {
        let b1 = le_bytes(msg_type as nat, 4);
        let b2 = le_bytes(low32(aux_part_len(args)), 4);
        let b3 = le_bytes(low32(aux_part_len(args) + payload.len()), 4);
        let b4 = le_bytes(0, 4);
        let part = aux_part(args);
        assert(f.subrange(32, f.len() as int) =~= body);
        lemma_stands_split(f, 32, b1 + b2 + b3 + b4 + part, payload);
        lemma_stands_split(f, 32, b1 + b2 + b3 + b4, part);
        lemma_stands_split(f, 32, b1 + b2 + b3, b4);
        lemma_stands_split(f, 32, b1 + b2, b3);
        lemma_stands_split(f, 32, b1, b2);
        lemma_stands_le(f, 32, msg_type as nat, 4);
        lemma_stands_le(f, 36, low32(aux_part_len(args)), 4);
        lemma_stands_le(f, 40, low32(aux_part_len(args) + payload.len()), 4);
        lemma_stands_le(f, 44, 0, 4);
        if args.len() > 0 {
            let a1 = le_bytes(AUX_MAGIC as nat, 4);
            let a2 = le_bytes(0, 4);
            let a3 = le_bytes(low32(args.len()), 4);
            lemma_stands_split(f, 48, a1 + a2 + a3 + a2, args);
            lemma_stands_split(f, 48, a1 + a2 + a3, a2);
            lemma_stands_split(f, 48, a1 + a2, a3);
            lemma_stands_split(f, 48, a1, a2);
            lemma_stands_le(f, 48, AUX_MAGIC as nat, 4);
            lemma_stands_le(f, 52, 0, 4);
            lemma_stands_le(f, 56, low32(args.len()), 4);
            lemma_stands_le(f, 60, 0, 4);
        }
    }
}

/// What stands where in an acknowledgement: the fields of the header, and sixteen zeros.
pub proof fn lemma_ack_layout(msg_id: u32, conv_id: u32, channel: i32)
    ensures
        ({
            let f = ack_bytes(msg_id, conv_id, channel);
            &&& f.len() == 48
            &&& f.take(4) == seq![0x79u8, 0x5Bu8, 0x3Du8, 0x1Fu8]
            &&& le_at(f, 4, 4) == 32
            &&& le_at(f, 8, 2) == 0
            &&& le_at(f, 10, 2) == 1
            &&& le_at(f, 12, 4) == 16
            &&& le_at(f, 16, 4) == msg_id
            &&& le_at(f, 20, 4) == conv_id
            &&& le_at(f, 24, 4) as int == channel as int % 0x1_0000_0000
            &&& le_at(f, 28, 4) == 0
            &&& forall|i: int| 32 <= i < 48 ==> #[trigger] f[i] == 0
        }),
{
    let hdr = header_bytes(16, msg_id, conv_id, channel, false);
    let f = ack_bytes(msg_id, conv_id, channel);
    lemma_header_layout(16, msg_id, conv_id, channel, false);
    assert(f.take(32) =~= hdr);
    lemma_header_in_front(hdr, f);
}

/// What an argument looks like: the word 10, then a word for its kind, then its value. A
/// number of 32 bits is of kind 3 and one of 64 bits of kind 6, least significant byte
/// first; bytes are of kind 2 and stand behind their length.
pub proof fn lemma_argument_layout(a: Aux)
    ensures
        ({
            let e = aux_entry_bytes(a);
            &&& le_at(e, 0, 4) == 10
            &&& match a {
                Aux::Int32(n) => {
                    &&& e.len() == 12
                    &&& le_at(e, 4, 4) == 3
                    &&& le_at(e, 8, 4) as int == n as int % 0x1_0000_0000
                },
                Aux::Int64(n) => {
                    &&& e.len() == 16
                    &&& le_at(e, 4, 4) == 6
                    &&& le_at(e, 8, 8) as int == n as int % 0x1_0000_0000_0000_0000
                },
                Aux::Bytes(b) => {
                    &&& e.len() == 12 + b.len()
                    &&& le_at(e, 4, 4) == 2
                    &&& le_at(e, 8, 4) == b.len() % 0x1_0000_0000
                    &&& e.skip(12) == b
                },
            }
        }),
{
    broadcast use crate::bytes::lemma_le_bytes_len;

    crate::bytes::lemma_byte_ranges();
    let e = aux_entry_bytes(a);
    let null = le_bytes(T_NULL as nat, 4);
    assert(e.subrange(0, e.len() as int) =~= e);
    match a {
        Aux::Int32(n) => {
            let t = le_bytes(T_UINT32 as nat, 4);
            lemma_stands_split(e, 0, null, t + le_bytes(i32_bits(n), 4));
            lemma_stands_split(e, 4, t, le_bytes(i32_bits(n), 4));
            lemma_stands_le(e, 4, T_UINT32 as nat, 4);
            lemma_stands_le(e, 8, i32_bits(n), 4);
        },
        Aux::Int64(n) => {
            let t = le_bytes(T_INT64 as nat, 4);
            lemma_stands_split(e, 0, null, t + le_bytes(i64_bits(n), 8));
            lemma_stands_split(e, 4, t, le_bytes(i64_bits(n), 8));
            lemma_stands_le(e, 4, T_INT64 as nat, 4);
            lemma_stands_le(e, 8, i64_bits(n), 8);
        },
        Aux::Bytes(b) => {
            let t = le_bytes(T_BYTEARRAY as nat, 4);
            let len = le_bytes(low32(b.len()), 4);
            lemma_stands_split(e, 0, null, t + len + b);
            lemma_stands_split(e, 4, t + len, b);
            lemma_stands_split(e, 4, t, len);
            lemma_stands_le(e, 4, T_BYTEARRAY as nat, 4);
            lemma_stands_le(e, 8, low32(b.len()), 4);
            assert(e.skip(12) =~= b);
        },
    }
    lemma_stands_le(e, 0, T_NULL as nat, 4);
}

/// Arguments stand one behind the other, in their order.
pub proof fn lemma_arguments_in_order(a: Seq<Aux>, b: Seq<Aux>)
    ensures
        aux_bytes(a + b) == aux_bytes(a) + aux_bytes(b),
        a.len() == 1 ==> aux_bytes(a) == aux_entry_bytes(a[0]),
    decreases b.len(),
{
    if b.len() == 0 {
        assert(a + b =~= a);
        assert(aux_bytes(a + b) =~= aux_bytes(a) + aux_bytes(b));
    } else {
        lemma_arguments_in_order(a, b.drop_last());
        assert((a + b).drop_last() =~= a + b.drop_last());
        assert(aux_bytes(a + b) =~= aux_bytes(a) + aux_bytes(b));
    }
    if a.len() == 1 {
        assert(aux_bytes(a.drop_last()) =~= Seq::<u8>::empty());
        assert(aux_bytes(a) =~= aux_entry_bytes(a[0]));
    }
}

/// The numbers of the message types: 0 acknowledges, 2 calls, 3 replies, and 4 tells of an
/// error. Each type is the one that its number is read as.
pub proof fn lemma_type_numbers(a: MsgType, b: MsgType)
    ensures
        a.number() == b.number() <==> a == b,
        a.number() == 0 <==> a is Ack,
        a.number() == 2 <==> a is MethodInvoke,
        a.number() == 3 <==> a is Reply,
        a.number() == 4 <==> a is Error,
{
}

/// The type of a message stands in the first four bytes of its body, the lowest first; a
/// message without a body has the type of an acknowledgement.
pub proof fn lemma_body_type(body: Seq<u8>)
    ensures
        body.len() == 0 ==> body_type(body) == 0,
        body.len() >= 4 ==> body_type(body)
            == body[0] + 256 * body[1] + 65536 * body[2] + 16777216 * body[3],
{
    crate::bytes::lemma_byte_weights(body, 0);
}

} // verus!
