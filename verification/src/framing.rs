//! Bodies behind a length: four bytes, most significant first, then the body.

use vstd::prelude::*;
use crate::bytes::{
    be_at, be_bytes, get_be32, lemma_stands_be, lemma_stands_split, low32, low_word, put_be,
    put_slice, stands_at,
};
use crate::proplist::format::{plist_xml, reads_back};
use crate::proplist::Tree;

verus! {

/// A body behind its length.
pub open spec fn prefixed(body: Seq<u8>) -> Seq<u8> {
    be_bytes(low32(body.len()), 4) + body
}

/// Whether some bytes are the XML of a tree behind its length, and the XML is read as
/// that tree again.
pub open spec fn carries(bytes: Seq<u8>, t: Tree) -> bool {
    plist_xml(t) matches Ok(xml) && bytes == prefixed(xml) && reads_back(xml, t)
}

/// Puts a body behind its length.
pub fn prefix(body: &[u8]) -> (out: Vec<u8>)
    ensures
        out@ == prefixed(body@),
{
    let mut out: Vec<u8> = Vec::new();
    put_be(&mut out, low_word(body.len()), 4);
    put_slice(&mut out, body);
    assert(out@ =~= prefixed(body@));
    out
}

/// The length that four bytes state.
pub fn body_len(head: &[u8]) -> (len: u32)
    requires
        head@.len() == 4,
    ensures
        len == be_at(head@, 0, 4),
{
    get_be32(head, 0)
}

/// A body whose length fits is behind its length, whatever follows it.
pub proof fn lemma_prefixed(body: Seq<u8>, rest: Seq<u8>)
    requires
        body.len() <= u32::MAX,
    ensures
        ({
            let buf = prefixed(body) + rest;
            &&& be_at(buf, 0, 4) == body.len()
            &&& buf.subrange(4, 4 + body.len() as int) == body
        }),
{
    broadcast use crate::bytes::lemma_be_bytes_len;

    crate::bytes::lemma_byte_ranges();
    let buf = prefixed(body) + rest;
    assert(stands_at(buf, 0, prefixed(body))) by {
        assert(buf.subrange(0, prefixed(body).len() as int) =~= prefixed(body));
    }
    lemma_stands_split(buf, 0, be_bytes(low32(body.len()), 4), body);
    lemma_stands_be(buf, 0, low32(body.len()), 4);
}

/// Whoever reads the stated number of bytes behind the length of a message reads the
/// tree that it carries, whatever follows it.
pub proof fn lemma_carried(bytes: Seq<u8>, t: Tree, rest: Seq<u8>)
    requires
        carries(bytes, t),
        bytes.len() <= u32::MAX,
    ensures
        ({
            let buf = bytes + rest;
            let n = be_at(buf, 0, 4);
            &&& 4 + n == bytes.len()
            &&& reads_back(buf.subrange(4, 4 + n as int), t)
        }),
{
    broadcast use crate::bytes::lemma_be_bytes_len;

    lemma_prefixed(plist_xml(t)->Ok_0, rest);
}

} // verus!
