//! The part of DER that certificates and signed messages need.

use vstd::prelude::*;
use crate::bytes::{be_value, put_slice, sub_vec};

verus! {

/// A length as it stands behind a tag: one byte up to 127, one byte behind `81`
/// up to 255, else the two low bytes behind `82`.
pub open spec fn length_bytes(len: nat) -> Seq<u8> {
    if len < 0x80 {
        seq![len as u8]
    } else if len < 0x100 {
        seq![0x81u8, len as u8]
    } else {
        seq![0x82u8, (len / 256 % 256) as u8, (len % 256) as u8]
    }
}

/// A value: tag, length, content.
#[verifier::opaque]
pub open spec fn der(tag: u8, content: Seq<u8>) -> Seq<u8> {
    seq![tag] + length_bytes(content.len()) + content
}

/// A sequence.
pub open spec fn sequence(content: Seq<u8>) -> Seq<u8> {
    der(0x30, content)
}

/// The content of a positive integer: a leading zero keeps the sign bit clear.
pub open spec fn integer_content(v: Seq<u8>) -> Seq<u8> {
    if v[0] >= 0x80 {
        seq![0u8] + v
    } else {
        v
    }
}

/// The digits of `n` to base 128, each with the continuation bit; nothing for zero.
pub open spec fn base128_high(n: nat) -> Seq<u8>
    decreases n,
{
    if n == 0 {
        Seq::empty()
    } else {
        base128_high(n / 128).push((n % 128 + 128) as u8)
    }
}

/// The digits of `n` to base 128, with the continuation bit on all but the last.
pub open spec fn base128(n: nat) -> Seq<u8> {
    base128_high(n / 128).push((n % 128) as u8)
}

/// A run of object identifier arcs.
pub open spec fn arcs_bytes(arcs: Seq<u32>) -> Seq<u8>
    decreases arcs.len(),
{
    if arcs.len() == 0 {
        Seq::empty()
    } else {
        arcs_bytes(arcs.drop_last()) + base128(arcs.last() as nat)
    }
}

/// An object identifier. The first two arcs share a byte.
pub open spec fn oid(arcs: Seq<u32>) -> Seq<u8> {
    der(0x06, seq![((40 * arcs[0] + arcs[1]) % 256) as u8] + arcs_bytes(arcs.skip(2)))
}

/// A truth value.
pub open spec fn boolean(b: bool) -> Seq<u8> {
    der(
        0x01,
        seq![
            if b {
                0xffu8
            } else {
                0u8
            },
        ],
    )
}

/// Encodes a value with its tag.
pub fn der_tag(tag: u8, content: &[u8]) -> (out: Vec<u8>)
    ensures
        out@ == der(tag, content@),
{
    let mut out: Vec<u8> = Vec::new();
    out.push(tag);
    let len: usize = content.len();
    if len < 0x80 {
        out.push(len as u8);
    } else if len < 0x100 {
        out.push(0x81);
        out.push(len as u8);
    } else {
        out.push(0x82);
        out.push((len / 256 % 256) as u8);
        out.push((len % 256) as u8);
    }
    put_slice(&mut out, content);
    proof {
        reveal(der);
    }
    assert(out@ =~= der(tag, content@));
    out
}

/// Encodes a sequence of what is already encoded.
pub fn der_seq(content: &[u8]) -> (out: Vec<u8>)
    ensures
        out@ == sequence(content@),
{
    der_tag(0x30, content)
}

/// Encodes a value with context tag `n`.
pub fn der_ctx(n: u8, content: &[u8]) -> (out: Vec<u8>)
    ensures
        out@ == der(0xa0u8 | n, content@),
{
    der_tag(0xa0u8 | n, content)
}

/// Encodes a positive integer.
pub fn der_int(v: &[u8]) -> (out: Vec<u8>)
    requires
        v@.len() > 0,
    ensures
        out@ == der(0x02, integer_content(v@)),
{
    let mut body: Vec<u8> = Vec::new();
    if v[0] >= 0x80 {
        body.push(0);
    }
    put_slice(&mut body, v);
    assert(body@ =~= integer_content(v@));
    der_tag(0x02, body.as_slice())
}

/// Encodes a truth value.
pub fn der_bool(b: bool) -> (out: Vec<u8>)
    ensures
        out@ == boolean(b),
{
    let content: Vec<u8> = vec![
        if b {
            0xff
        } else {
            0x00
        },
    ];
    assert(content@ =~= seq![
        if b {
            0xffu8
        } else {
            0u8
        },
    ]);
    der_tag(0x01, content.as_slice())
}

fn put_base128_high(out: &mut Vec<u8>, n: u32)
    ensures
        final(out)@ == old(out)@ + base128_high(n as nat),
    decreases n,
{
    if n > 0 {
        put_base128_high(out, n / 128);
        out.push((n % 128 + 128) as u8);
    }
    assert(out@ =~= old(out)@ + base128_high(n as nat));
}

/// Encodes an object identifier.
pub fn der_oid(arcs: &[u32]) -> (out: Vec<u8>)
    requires
        arcs@.len() >= 2,
        40 * arcs@[0] + arcs@[1] <= u32::MAX,
    ensures
        out@ == oid(arcs@),
{
    let mut body: Vec<u8> = Vec::new();
    body.push(((40 * arcs[0] + arcs[1]) % 256) as u8);
    let ghost first = body@;
    let ghost rest = arcs@.skip(2);
    let mut i: usize = 2;
    assert(body@ =~= first + arcs_bytes(rest.take(0)));
    while i < arcs.len()
        invariant
            2 <= i <= arcs@.len(),
            rest == arcs@.skip(2),
            body@ == first + arcs_bytes(rest.take(i - 2)),
        decreases arcs@.len() - i,
    {
        let ghost before = body@;
        put_base128_high(&mut body, arcs[i] / 128);
        body.push((arcs[i] % 128) as u8);
        assert(body@ =~= before + base128(arcs@[i as int] as nat));
        assert(rest.take(i - 1).drop_last() =~= rest.take(i - 2));
        assert(rest.take(i - 1).last() == arcs@[i as int]);
        i += 1;
        assert(body@ =~= first + arcs_bytes(rest.take(i - 2)));
    }
    assert(rest.take(i - 2) =~= rest);
    assert(first =~= seq![((40 * arcs@[0] + arcs@[1]) % 256) as u8]);
    der_tag(0x06, body.as_slice())
}

/// What follows a tag: where the content starts and where it ends, seen from the
/// first length byte.
pub open spec fn content_span(buf: Seq<u8>) -> Option<(int, int)> {
    if buf.len() == 0 {
        None
    } else if buf[0] < 0x80 {
        if buf.len() < 1 + buf[0] {
            None
        } else {
            Some((1, 1 + buf[0]))
        }
    } else {
        let n = buf[0] - 0x80;
        if buf.len() < 1 + n {
            None
        } else {
            let len = be_value(buf.subrange(1, 1 + n)) % 0x1_0000_0000_0000_0000;
            if buf.len() < 1 + n + len {
                None
            } else {
                Some((1 + n, 1 + n + len))
            }
        }
    }
}

/// The content and the rest behind it, after a tag.
#[verifier::opaque]
pub open spec fn peeled_length(buf: Seq<u8>) -> Option<(Seq<u8>, Seq<u8>)> {
    match content_span(buf) {
        Some((start, end)) => Some((buf.subrange(start, end), buf.skip(end))),
        None => None,
    }
}

/// The content of the first value and what follows it.
pub open spec fn peeled(buf: Seq<u8>) -> Option<(Seq<u8>, Seq<u8>)> {
    if buf.len() == 0 {
        None
    } else {
        peeled_length(buf.skip(1))
    }
}

/// The content of the first value and what follows it, if its tag is `tag`.
pub open spec fn peeled_tag(buf: Seq<u8>, tag: u8) -> Option<(Seq<u8>, Seq<u8>)> {
    if buf.len() == 0 || buf[0] != tag {
        None
    } else {
        peeled_length(buf.skip(1))
    }
}

/// Whether a pair of vectors holds a pair of sequences.
pub open spec fn holds(
    got: Option<(Vec<u8>, Vec<u8>)>,
    want: Option<(Seq<u8>, Seq<u8>)>,
) -> bool {
    match got {
        Some((a, b)) => want == Some((a@, b@)),
        None => want is None,
    }
}

/// Splits what follows a tag into the content and the rest.
pub fn peel_length(buf: &[u8]) -> (got: Option<(Vec<u8>, Vec<u8>)>)
    ensures
        holds(got, peeled_length(buf@)),
{
    proof {
        reveal(peeled_length);
    }
    assert(buf@.len() == buf.len());
    if buf.len() == 0 {
        return None;
    }
    let first: u8 = buf[0];
    let mut len: u64 = 0;
    let mut start: usize = 1;
    if first < 0x80 {
        len = first as u64;
    } else {
        let n: usize = (first - 0x80) as usize;
        if buf.len() < 1 + n {
            return None;
        }
        let mut i: usize = 0;
        assert(buf@.subrange(1, 1) =~= Seq::<u8>::empty());
        while i < n
            invariant
                i <= n,
                n < 0x80,
                buf@.len() >= 1 + n,
                len == be_value(buf@.subrange(1, 1 + i)) % 0x1_0000_0000_0000_0000,
            decreases n - i,
        {
            let ghost next = buf@.subrange(1, 1 + i + 1);
            assert(next.drop_last() =~= buf@.subrange(1, 1 + i));
            assert(next.last() == buf@[1 + i]);
            let low: u64 = len % 0x100_0000_0000_0000;
            proof {
                lemma_shift_in(be_value(buf@.subrange(1, 1 + i)), buf@[1 + i] as nat);
            }
            len = low * 256 + buf[1 + i] as u64;
            i += 1;
        }
        start = 1 + n;
    }
    if len > (buf.len() - start) as u64 {
        return None;
    }
    let end: usize = start + len as usize;
    let n: usize = buf.len();
    assert(buf@.subrange(end as int, n as int) =~= buf@.skip(end as int));
    Some((sub_vec(buf, start, end), sub_vec(buf, end, n)))
}

proof fn lemma_shift_in(n: nat, b: nat)
    requires
        b < 256,
    ensures
        (256 * n + b) % 0x1_0000_0000_0000_0000 == (n % 0x1_0000_0000_0000_0000)
            % 0x100_0000_0000_0000 * 256 + b,
{
    let q = n / 0x100_0000_0000_0000;
    let r = n % 0x100_0000_0000_0000;
    assert(n == q * 0x100_0000_0000_0000 + r);
    assert((n % 0x1_0000_0000_0000_0000) % 0x100_0000_0000_0000 == r);
    assert(256 * n + b == q * 0x1_0000_0000_0000_0000 + (r * 256 + b));
}

/// Splits the first value into its content and the rest.
pub fn peel_tlv(buf: &[u8]) -> (got: Option<(Vec<u8>, Vec<u8>)>)
    ensures
        holds(got, peeled(buf@)),
{
    if buf.len() == 0 {
        return None;
    }
    let n: usize = buf.len();
    assert(buf@.subrange(1, n as int) =~= buf@.skip(1));
    peel_length(vstd::slice::slice_subrange(buf, 1, n))
}

/// Splits the first value into its content and the rest, if its tag is `expected`.
pub fn peel_tag(buf: &[u8], expected: u8) -> (got: Option<(Vec<u8>, Vec<u8>)>)
    ensures
        holds(got, peeled_tag(buf@, expected)),
{
    if buf.len() == 0 || buf[0] != expected {
        return None;
    }
    peel_tlv(buf)
}

/// A value of fewer than 65536 bytes is split off again as it was put together,
/// whatever follows it.
pub proof fn lemma_der_roundtrip(tag: u8, content: Seq<u8>, rest: Seq<u8>)
    requires
        content.len() < 0x1_0000,
    ensures
        peeled_tag(der(tag, content) + rest, tag) == Some((content, rest)),
        peeled(der(tag, content) + rest) == Some((content, rest)),
{
    reveal(der);
    reveal(peeled_length);
    let buf = der(tag, content) + rest;
    let after = buf.skip(1);
    let len = length_bytes(content.len());
    let n = content.len();
    assert(after =~= len + content + rest);
    reveal_with_fuel(be_value, 3);
    if n >= 0x100 {
        let field = after.subrange(1, 3);
        assert(field =~= seq![(n / 256 % 256) as u8, (n % 256) as u8]);
        assert(field.drop_last() =~= seq![(n / 256 % 256) as u8]);
        assert(field.drop_last().drop_last() =~= Seq::<u8>::empty());
        assert(be_value(field) == n);
    } else if n >= 0x80 {
        let field = after.subrange(1, 2);
        assert(field =~= seq![n as u8]);
        assert(field.drop_last() =~= Seq::<u8>::empty());
        assert(be_value(field) == n);
    }
    let start = len.len() as int;
    assert(content_span(after) == Some((start, start + n)));
    assert(after.subrange(start, start + n) =~= content);
    assert(after.skip(start + n) =~= rest);
}

/// What stands where in a value: the tag, the length (in one byte below 128, else behind
/// `81` or `82`, most significant byte first), and the content.
pub proof fn lemma_der_layout(tag: u8, content: Seq<u8>)
    requires
        content.len() < 0x1_0000,
    ensures
        ({
            let v = der(tag, content);
            let n = content.len();
            &&& v[0] == tag
            &&& n < 128 ==> v.len() == 2 + n && v[1] == n && v.skip(2) == content
            &&& 128 <= n < 256 ==> v.len() == 3 + n && v[1] == 0x81 && v[2] == n && v.skip(3)
                == content
            &&& 256 <= n ==> v.len() == 4 + n && v[1] == 0x82 && 256 * v[2] + v[3] == n && v.skip(4)
                == content
        }),
{
    reveal(der);
    let v = der(tag, content);
    let n = content.len();
    if n < 128 {
        assert(v.skip(2) =~= content);
    } else if n < 256 {
        assert(v.skip(3) =~= content);
    } else {
        assert(v.skip(4) =~= content);
    }
}

/// The tags of sequences and truth values, and the byte of a truth value.
pub proof fn lemma_simple_values(content: Seq<u8>, b: bool)
    ensures
        sequence(content)[0] == 0x30,
        sequence(content) == der(0x30, content),
        boolean(b).len() == 3,
        boolean(b)[0] == 1,
        boolean(b)[1] == 1,
        boolean(b)[2] == if b {
            255u8
        } else {
            0u8
        },
{
    reveal(der);
}

/// The content of an integer counts what its bytes count, and its first bit is clear; it
/// is not longer than it has to be made for that.
pub proof fn lemma_integer(v: Seq<u8>)
    requires
        v.len() > 0,
    ensures
        be_value(integer_content(v)) == be_value(v),
        integer_content(v)[0] < 128,
        v[0] < 128 ==> integer_content(v) == v,
        v[0] >= 128 ==> integer_content(v).len() == v.len() + 1,
{
    if v[0] >= 0x80 {
        lemma_leading_zero(v);
    }
}

proof fn lemma_leading_zero(v: Seq<u8>)
    ensures
        be_value(seq![0u8] + v) == be_value(v),
    decreases v.len(),
{
    let w = seq![0u8] + v;
    if v.len() == 0 {
        assert(w.drop_last() =~= Seq::<u8>::empty());
        reveal_with_fuel(be_value, 2);
    } else {
        lemma_leading_zero(v.drop_last());
        assert(w.drop_last() =~= seq![0u8] + v.drop_last());
    }
}

/// What a run of seven-bit digits counts.
pub open spec fn base128_value(s: Seq<u8>) -> nat
    decreases s.len(),
{
    if s.len() == 0 {
        0
    } else {
        128 * base128_value(s.drop_last()) + (s.last() % 128) as nat
    }
}

/// The digits of a number count it; all but the last have the continuation bit.
pub proof fn lemma_base128(n: nat)
    ensures
        base128_value(base128(n)) == n,
        base128(n).last() < 128,
        forall|i: int| 0 <= i < base128(n).len() - 1 ==> #[trigger] base128(n)[i] >= 128,
{
    let s = base128(n);
    lemma_base128_high(n / 128);
    assert(s.drop_last() =~= base128_high(n / 128));
}

proof fn lemma_base128_high(n: nat)
    ensures
        base128_value(base128_high(n)) == n,
        forall|i: int| 0 <= i < base128_high(n).len() ==> #[trigger] base128_high(n)[i] >= 128,
    decreases n,
{
    if n > 0 {
        lemma_base128_high(n / 128);
        assert(base128_high(n).drop_last() =~= base128_high(n / 128));
    }
}

/// The arcs of an identifier follow each other.
pub proof fn lemma_arcs(arcs: Seq<u32>, arc: u32)
    ensures
        arcs_bytes(arcs.push(arc)) == arcs_bytes(arcs) + base128(arc as nat),
        arcs_bytes(Seq::<u32>::empty()).len() == 0,
{
    assert(arcs.push(arc).drop_last() =~= arcs);
}

/// An identifier has a tag of its own; its first byte holds the first two arcs, and the
/// others follow.
pub proof fn lemma_oid(arcs: Seq<u32>)
    requires
        arcs.len() >= 2,
        40 * arcs[0] + arcs[1] < 256,
    ensures
        oid(arcs)[0] == 6,
        oid(arcs).len() < 0x1_0000 ==> (peeled(oid(arcs)) matches Some((content, rest)) && rest.len()
            == 0 && content.len() > 0 && content[0] == 40 * arcs[0] + arcs[1] && content.skip(1)
            == arcs_bytes(arcs.skip(2))),
{
    reveal(der);
    let content = seq![((40 * arcs[0] + arcs[1]) % 256) as u8] + arcs_bytes(arcs.skip(2));
    if oid(arcs).len() < 0x1_0000 {
        lemma_der_roundtrip(6, content, Seq::empty());
        assert(der(6, content) + Seq::<u8>::empty() =~= oid(arcs));
        assert(content.skip(1) =~= arcs_bytes(arcs.skip(2)));
    }
}

/// What follows the first `n` values.
pub open spec fn past(values: Seq<u8>, n: nat) -> Seq<u8>
    decreases n,
{
    if n == 0 {
        values
    } else {
        match peeled(past(values, (n - 1) as nat)) {
            Some((_, rest)) => rest,
            None => Seq::empty(),
        }
    }
}

/// Behind one value stands what was put behind it.
pub proof fn lemma_past(values: Seq<u8>, n: nat, tag: u8, content: Seq<u8>, rest: Seq<u8>)
    requires
        past(values, n) == der(tag, content) + rest,
        content.len() < 0x1_0000,
    ensures
        peeled_tag(past(values, n), tag) == Some((content, rest)),
        past(values, n + 1) == rest,
{
    lemma_der_roundtrip(tag, content, rest);
}

/// The identifiers under 1.2.840.113549.1, and one arc below each of two.
pub proof fn lemma_rsa_arcs(a: u32, b: u32)
    requires
        a < 128,
        b < 128,
    ensures
        oid(seq![1u32, 2, 840, 113549, 1, a, b]) == seq![
            0x06u8,
            0x09,
            0x2a,
            0x86,
            0x48,
            0x86,
            0xf7,
            0x0d,
            0x01,
            a as u8,
            b as u8,
        ],
{
    let arcs = seq![1u32, 2, 840, 113549, 1, a, b];
    let e = Seq::<u32>::empty();
    lemma_arcs(e, 840);
    lemma_arcs(e.push(840), 113549);
    lemma_arcs(e.push(840).push(113549), 1);
    lemma_arcs(e.push(840).push(113549).push(1), a);
    lemma_arcs(e.push(840).push(113549).push(1).push(a), b);
    assert(arcs.skip(2) =~= e.push(840).push(113549).push(1).push(a).push(b));
    reveal_with_fuel(base128_high, 3);
    assert(base128(840) =~= seq![0x86u8, 0x48]);
    assert(base128(113549) =~= seq![0x86u8, 0xf7, 0x0d]);
    assert(base128(1) =~= seq![1u8]);
    assert(base128(a as nat) =~= seq![a as u8]);
    assert(base128(b as nat) =~= seq![b as u8]);
    assert(arcs_bytes(arcs.skip(2)) =~= seq![
        0x86u8,
        0x48,
        0x86,
        0xf7,
        0x0d,
        0x01,
        a as u8,
        b as u8,
    ]);
    reveal(der);
    assert(oid(arcs) =~= seq![
        0x06u8,
        0x09,
        0x2a,
        0x86,
        0x48,
        0x86,
        0xf7,
        0x0d,
        0x01,
        a as u8,
        b as u8,
    ]);
}

/// A value starts with its tag and takes two to four bytes more than its content.
pub broadcast proof fn lemma_der_len(tag: u8, content: Seq<u8>)
    ensures
        content.len() + 2 <= (#[trigger] der(tag, content)).len() <= content.len() + 4,
        content.len() < 128 ==> der(tag, content).len() == content.len() + 2,
        der(tag, content)[0] == tag,
{
    reveal(der);
}

} // verus!
