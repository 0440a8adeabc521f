//! The frames of a tunnel handshake, and the packets that follow it.

use vstd::prelude::*;
use crate::bytes::{
    be_at, be_bytes, get_be, lemma_be_bytes_len, lemma_be_roundtrip,
    lemma_be_value_bound, lemma_byte_ranges, put_be, put_slice, same_bytes, sub_vec,
};
use crate::text::own;
use super::error::Error;

verus! {

/// The word that every handshake message starts with: `CDTunnel`.
pub open spec fn magic() -> Seq<u8> {
    seq![0x43u8, 0x44u8, 0x54u8, 0x75u8, 0x6eu8, 0x6eu8, 0x65u8, 0x6cu8]
}

fn magic_bytes() -> (m: Vec<u8>)
    ensures
        m@ == magic(),
{
    let m: Vec<u8> = vec![0x43u8, 0x44u8, 0x54u8, 0x75u8, 0x6eu8, 0x6eu8, 0x65u8, 0x6cu8];
    assert(m@ =~= magic());
    m
}

/// How many bytes stand before the body of a handshake message.
pub const HEAD_SIZE: usize = 10;

/// How many bytes the header of a packet has.
pub const PACKET_HEAD_SIZE: usize = 40;

/// A handshake message: the magic word, the length of the body in two bytes, the body.
pub open spec fn framed(body: Seq<u8>) -> Seq<u8> {
    magic() + be_bytes(body.len(), 2) + body
}

/// Frames the body of a handshake message.
pub fn frame(body: &[u8]) -> (out: Vec<u8>)
    requires
        body@.len() <= 0xffff,
    ensures
        out@ == framed(body@),
{
    let mut out: Vec<u8> = magic_bytes();
    put_be(&mut out, body.len() as u64, 2);
    put_slice(&mut out, body);
    out
}

proof fn lemma_two_bytes(s: Seq<u8>, at: int)
    requires
        0 <= at,
        at + 2 <= s.len(),
    ensures
        be_at(s, at, 2) <= 0xffff,
{
    lemma_be_value_bound(s.subrange(at, at + 2));
    lemma_byte_ranges();
}

/// The length of the body behind the head of a handshake message; a head without the
/// magic word is refused.
pub fn body_len(head: &[u8]) -> (len: Result<usize, Error>)
    requires
        head@.len() == HEAD_SIZE,
    ensures
        match len {
            Ok(n) => head@.take(8) == magic() && n == be_at(head@, 8, 2),
            Err(Error::Protocol(why)) => {
                &&& head@.take(8) != magic()
                &&& why@ == "CDTunnel: bad magic"@
            },
        },
{
    let word: Vec<u8> = sub_vec(head, 0, 8);
    assert(word@ =~= head@.take(8));
    if !same_bytes(word.as_slice(), magic_bytes().as_slice()) {
        return Err(Error::Protocol(own("CDTunnel: bad magic")));
    }
    let n: u64 = get_be(head, 8, 2);
    proof {
        lemma_two_bytes(head@, 8);
    }
    Ok(n as usize)
}

/// The length of the whole packet that starts with a header: the header, and as many
/// bytes as it states.
pub fn packet_len(head: &[u8]) -> (len: usize)
    requires
        head@.len() == PACKET_HEAD_SIZE,
    ensures
        len == PACKET_HEAD_SIZE + be_at(head@, 4, 2),
{
    let n: u64 = get_be(head, 4, 2);
    proof {
        lemma_two_bytes(head@, 4);
    }
    PACKET_HEAD_SIZE + n as usize
}

/// The head of a framed message tells the length of its body.
pub proof fn lemma_frame_roundtrip(body: Seq<u8>)
    requires
        body.len() <= 0xffff,
    ensures
        framed(body).take(8) == magic(),
        be_at(framed(body).take(HEAD_SIZE as int), 8, 2) == body.len(),
        framed(body).skip(HEAD_SIZE as int) == body,
{
    lemma_byte_ranges();
    lemma_be_bytes_len(body.len(), 2);
    lemma_be_roundtrip(body.len(), 2);
    let buf = framed(body);
    assert(buf.take(8) =~= magic());
    assert(buf.take(HEAD_SIZE as int).subrange(8, 10) =~= be_bytes(body.len(), 2));
    assert(buf.skip(HEAD_SIZE as int) =~= body);
}

/// What stands where in a handshake message: the letters of `CDTunnel`, the length of the
/// body with its higher byte first, and the body.
pub proof fn lemma_frame_layout(body: Seq<u8>)
    requires
        body.len() <= 0xffff,
    ensures
        ({
            let f = framed(body);
            &&& f.len() == 10 + body.len()
            &&& f.take(8) == seq![67u8, 68, 84, 117, 110, 110, 101, 108]
            &&& 256 * f[8] + f[9] == body.len()
            &&& f.skip(10) == body
        }),
{
    lemma_frame_roundtrip(body);
    lemma_be_bytes_len(body.len(), 2);
    let f = framed(body);
    let w = f.take(HEAD_SIZE as int).subrange(8, 10);
    assert(w.drop_last().drop_last() =~= Seq::<u8>::empty());
    reveal_with_fuel(crate::bytes::be_value, 3);
    assert(crate::bytes::be_value(w) == 256 * w[0] + w[1]);
    assert(w[0] == f[8] && w[1] == f[9]);
}

/// The head of a handshake message has ten bytes, and that of a packet forty.
pub proof fn lemma_head_sizes()
    ensures
        HEAD_SIZE == 10,
        PACKET_HEAD_SIZE == 40,
{
}

} // verus!
