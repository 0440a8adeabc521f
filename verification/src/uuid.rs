//! Unique identifiers of sixteen bytes.

use vstd::prelude::*;
use crate::bytes::le_bytes;

verus! {

/// The hexadecimal digit that stands for `n`.
pub open spec fn hex_digit(n: int, upper: bool) -> char {
    if n < 10 {
        ('0' as u32 + n) as char
    } else if upper {
        ('A' as u32 + (n - 10)) as char
    } else {
        ('a' as u32 + (n - 10)) as char
    }
}

/// The two hexadecimal digits of a byte.
pub open spec fn hex_byte(b: u8, upper: bool) -> Seq<char> {
    seq![hex_digit(b as int / 16, upper), hex_digit(b as int % 16, upper)]
}

/// The hexadecimal digits of some bytes.
pub open spec fn hex_text(bytes: Seq<u8>, upper: bool) -> Seq<char>
    decreases bytes.len(),
{
    if bytes.len() == 0 {
        Seq::empty()
    } else {
        hex_text(bytes.drop_last(), upper) + hex_byte(bytes.last(), upper)
    }
}

/// An identifier as text: groups of 8, 4, 4, 4 and 12 digits.
pub open spec fn uuid_text(bytes: Seq<u8>, upper: bool) -> Seq<char> {
    hex_text(bytes.subrange(0, 4), upper) + "-"@ + hex_text(bytes.subrange(4, 6), upper) + "-"@
        + hex_text(bytes.subrange(6, 8), upper) + "-"@ + hex_text(bytes.subrange(8, 10), upper)
        + "-"@ + hex_text(bytes.subrange(10, 16), upper)
}

fn digit(n: u8, upper: bool) -> (c: char)
    requires
        n < 16,
    ensures
        c == hex_digit(n as int, upper),
{
    if n < 10 {
        (48u8 + n) as char
    } else if upper {
        (65u8 + (n - 10)) as char
    } else {
        (97u8 + (n - 10)) as char
    }
}

/// Appends the hexadecimal digits of some bytes.
pub fn put_hex(out: &mut String, bytes: &[u8], upper: bool)
    ensures
        final(out)@ == old(out)@ + hex_text(bytes@, upper),
{
    let mut i: usize = 0;
    assert(out@ =~= old(out)@ + hex_text(bytes@.take(0), upper));
    while i < bytes.len()
        invariant
            i <= bytes@.len(),
            out@ == old(out)@ + hex_text(bytes@.take(i as int), upper),
        decreases bytes@.len() - i,
    {
        let b: u8 = bytes[i];
        out.push(digit(b / 16, upper));
        out.push(digit(b % 16, upper));
        i += 1;
        assert(bytes@.take(i as int).drop_last() =~= bytes@.take(i - 1));
        assert(out@ =~= old(out)@ + hex_text(bytes@.take(i as int), upper));
    }
    assert(bytes@.take(i as int) =~= bytes@);
}

fn uuid_string(bytes: &[u8; 16], upper: bool) -> (out: String)
    ensures
        out@ == uuid_text(bytes@, upper),
{
    let b: &[u8] = bytes.as_slice();
    let mut out: String = String::new();
    proof {
        reveal_strlit("-");
    }
    put_hex(&mut out, vstd::slice::slice_subrange(b, 0, 4), upper);
    out.push('-');
    put_hex(&mut out, vstd::slice::slice_subrange(b, 4, 6), upper);
    out.push('-');
    put_hex(&mut out, vstd::slice::slice_subrange(b, 6, 8), upper);
    out.push('-');
    put_hex(&mut out, vstd::slice::slice_subrange(b, 8, 10), upper);
    out.push('-');
    put_hex(&mut out, vstd::slice::slice_subrange(b, 10, 16), upper);
    assert(out@ =~= uuid_text(bytes@, upper));
    out
}

/// Writes an identifier with capital digits.
pub fn uuid_to_upper_string(bytes: &[u8; 16]) -> (out: String)
    ensures
        out@ == uuid_text(bytes@, true),
{
    uuid_string(bytes, true)
}

/// Writes an identifier with small digits.
pub fn uuid_to_lower_string(bytes: &[u8; 16]) -> (out: String)
    ensures
        out@ == uuid_text(bytes@, false),
{
    uuid_string(bytes, false)
}

/// Sixteen bytes marked as a random identifier (version 4, variant 1).
pub open spec fn marked(raw: Seq<u8>) -> Seq<u8> {
    raw.update(6, (0x40 + raw[6] % 16) as u8).update(8, (0x80 + raw[8] % 64) as u8)
}

/// Marks sixteen bytes as a random identifier.
pub fn mark_random(raw: &[u8; 16]) -> (out: [u8; 16])
    ensures
        out@ == marked(raw@),
{
    let mut out: [u8; 16] = *raw;
    out[6] = 0x40 + raw[6] % 16;
    out[8] = 0x80 + raw[8] % 64;
    assert(out@ =~= marked(raw@));
    out
}

/// Makes an identifier of a time, in whatever unit.
pub fn uuid_from_time(t: u128) -> (out: [u8; 16])
    ensures
        out@ == marked(le_bytes(t as nat, 16)),
{
    let mut raw: [u8; 16] = [0; 16];
    let mut rest: u128 = t;
    let mut i: usize = 0;
    let ghost whole = le_bytes(t as nat, 16);
    assert(raw@.take(0) + le_bytes(rest as nat, 16) =~= whole);
    while i < 16
        invariant
            i <= 16,
            raw@.take(i as int) + le_bytes(rest as nat, (16 - i) as nat) == whole,
        decreases 16 - i,
    {
        let ghost head = raw@.take(i as int);
        let ghost tail = le_bytes((rest / 256) as nat, (16 - i - 1) as nat);
        raw[i] = (rest % 256) as u8;
        assert(le_bytes(rest as nat, (16 - i) as nat) == seq![(rest % 256) as u8] + tail);
        assert(raw@.take(i + 1) + tail =~= head + (seq![(rest % 256) as u8] + tail));
        rest = rest / 256;
        i += 1;
    }
    assert(raw@.take(16) + le_bytes(rest as nat, 0) =~= raw@);
    mark_random(&raw)
}

/// A marked identifier states version 4 and variant 1.
pub proof fn lemma_marked(raw: Seq<u8>)
    requires
        raw.len() == 16,
    ensures
        marked(raw)[6] / 16 == 4,
        marked(raw)[8] / 64 == 2,
        marked(raw)[6] % 16 == raw[6] % 16,
        marked(raw)[8] % 64 == raw[8] % 64,
        marked(raw).len() == 16,
        forall|i: int| 0 <= i < 16 && i != 6 && i != 8 ==> marked(raw)[i] == raw[i],
{
}

/// What a hexadecimal digit counts, whether it is a capital or not.
pub open spec fn nibble(c: char) -> int {
    if '0' <= c && c <= '9' {
        c as int - '0' as int
    } else if 'A' <= c && c <= 'F' {
        c as int - 'A' as int + 10
    } else {
        c as int - 'a' as int + 10
    }
}

/// Each byte is written as two digits, the one that counts sixteens first; the letters
/// among the digits are capitals exactly as asked for.
pub proof fn lemma_hex_digits(bytes: Seq<u8>, upper: bool, i: int)
    requires
        0 <= i < bytes.len(),
    ensures
        hex_text(bytes, upper).len() == 2 * bytes.len(),
        16 * nibble(hex_text(bytes, upper)[2 * i]) + nibble(hex_text(bytes, upper)[2 * i + 1])
            == bytes[i],
        forall|j: int|
            #![trigger hex_text(bytes, upper)[j]]
            2 * i <= j <= 2 * i + 1 ==> {
                let c = hex_text(bytes, upper)[j];
                ('0' <= c && c <= '9') || (upper && 'A' <= c && c <= 'F') || (!upper && 'a' <= c && c
                    <= 'f')
            },
    decreases bytes.len(),
{
    let front = bytes.drop_last();
    let s = hex_text(bytes, upper);
    lemma_hex_len(bytes, upper);
    lemma_hex_len(front, upper);
    if i < front.len() {
        lemma_hex_digits(front, upper, i);
        assert(s[2 * i] == hex_text(front, upper)[2 * i]);
        assert(s[2 * i + 1] == hex_text(front, upper)[2 * i + 1]);
    } else {
        let b = bytes[i];
        assert(s[2 * i] == hex_digit(b as int / 16, upper));
        assert(s[2 * i + 1] == hex_digit(b as int % 16, upper));
    }
}

proof fn lemma_hex_len(bytes: Seq<u8>, upper: bool)
    ensures
        hex_text(bytes, upper).len() == 2 * bytes.len(),
    decreases bytes.len(),
{
    if bytes.len() > 0 {
        lemma_hex_len(bytes.drop_last(), upper);
    }
}

/// An identifier is written with 36 characters: a dash behind its fourth, sixth, eighth
/// and tenth byte, and else the digits of its bytes in order.
pub proof fn lemma_uuid_text(bytes: Seq<u8>, upper: bool)
    requires
        bytes.len() == 16,
    ensures
        ({
            let t = uuid_text(bytes, upper);
            &&& t.len() == 36
            &&& t[8] == '-' && t[13] == '-' && t[18] == '-' && t[23] == '-'
            &&& t.subrange(0, 8) + t.subrange(9, 13) + t.subrange(14, 18) + t.subrange(19, 23)
                + t.subrange(24, 36) == hex_text(bytes, upper)
        }),
{
    reveal_strlit("-");
    let t = uuid_text(bytes, upper);
    let a = hex_text(bytes.subrange(0, 4), upper);
    let b = hex_text(bytes.subrange(4, 6), upper);
    let c = hex_text(bytes.subrange(6, 8), upper);
    let d = hex_text(bytes.subrange(8, 10), upper);
    let e = hex_text(bytes.subrange(10, 16), upper);
    lemma_hex_len(bytes.subrange(0, 4), upper);
    lemma_hex_len(bytes.subrange(4, 6), upper);
    lemma_hex_len(bytes.subrange(6, 8), upper);
    lemma_hex_len(bytes.subrange(8, 10), upper);
    lemma_hex_len(bytes.subrange(10, 16), upper);
    assert(t.subrange(0, 8) =~= a);
    assert(t.subrange(9, 13) =~= b);
    assert(t.subrange(14, 18) =~= c);
    assert(t.subrange(19, 23) =~= d);
    assert(t.subrange(24, 36) =~= e);
    lemma_hex_joined(bytes.subrange(0, 4), bytes.subrange(4, 6), upper);
    lemma_hex_joined(bytes.subrange(0, 6), bytes.subrange(6, 8), upper);
    lemma_hex_joined(bytes.subrange(0, 8), bytes.subrange(8, 10), upper);
    lemma_hex_joined(bytes.subrange(0, 10), bytes.subrange(10, 16), upper);
    assert(bytes.subrange(0, 4) + bytes.subrange(4, 6) =~= bytes.subrange(0, 6));
    assert(bytes.subrange(0, 6) + bytes.subrange(6, 8) =~= bytes.subrange(0, 8));
    assert(bytes.subrange(0, 8) + bytes.subrange(8, 10) =~= bytes.subrange(0, 10));
    assert(bytes.subrange(0, 10) + bytes.subrange(10, 16) =~= bytes);
}

/// The digits of joined bytes are their joined digits.
pub proof fn lemma_hex_joined(a: Seq<u8>, b: Seq<u8>, upper: bool)
    ensures
        hex_text(a + b, upper) == hex_text(a, upper) + hex_text(b, upper),
    decreases b.len(),
{
    if b.len() == 0 {
        assert(a + b =~= a);
        assert(hex_text(b, upper) =~= Seq::<char>::empty());
        assert(hex_text(a, upper) + hex_text(b, upper) =~= hex_text(a, upper));
    } else {
        lemma_hex_joined(a, b.drop_last(), upper);
        assert((a + b).drop_last() =~= a + b.drop_last());
        assert(hex_text(a + b, upper) =~= hex_text(a, upper) + hex_text(b, upper));
    }
}

} // verus!
