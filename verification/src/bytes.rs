//! Fixed-width integers in byte buffers, and small helpers on byte vectors.

use vstd::prelude::*;

verus! {

/// The `width` low-order bytes of `n`, least significant first.
pub open spec fn le_bytes(n: nat, width: nat) -> Seq<u8>
    decreases width,
{
    if width == 0 {
        Seq::empty()
    } else {
        seq![(n % 256) as u8] + le_bytes(n / 256, (width - 1) as nat)
    }
}

/// The `width` low-order bytes of `n`, most significant first.
pub open spec fn be_bytes(n: nat, width: nat) -> Seq<u8>
    decreases width,
{
    if width == 0 {
        Seq::empty()
    } else {
        be_bytes(n / 256, (width - 1) as nat).push((n % 256) as u8)
    }
}

/// The number whose bytes, least significant first, are `s`.
pub open spec fn le_value(s: Seq<u8>) -> nat
    decreases s.len(),
{
    if s.len() == 0 {
        0
    } else {
        s[0] as nat + 256 * le_value(s.skip(1))
    }
}

/// The number whose bytes, most significant first, are `s`.
pub open spec fn be_value(s: Seq<u8>) -> nat
    decreases s.len(),
{
    if s.len() == 0 {
        0
    } else {
        256 * be_value(s.drop_last()) + s.last() as nat
    }
}

/// How many values `width` bytes can take.
pub open spec fn byte_range(width: nat) -> nat
    decreases width,
{
    if width == 0 {
        1
    } else {
        256 * byte_range((width - 1) as nat)
    }
}

/// The little-endian number in the `width` bytes of `s` that start at `at`.
pub open spec fn le_at(s: Seq<u8>, at: int, width: int) -> nat {
    le_value(s.subrange(at, at + width))
}

/// The big-endian number in the `width` bytes of `s` that start at `at`.
pub open spec fn be_at(s: Seq<u8>, at: int, width: int) -> nat {
    be_value(s.subrange(at, at + width))
}

pub broadcast proof fn lemma_le_bytes_len(n: nat, width: nat)
    ensures
        #[trigger] le_bytes(n, width).len() == width,
    decreases width,
{
    if width > 0 {
        lemma_le_bytes_len(n / 256, (width - 1) as nat);
    }
}

pub broadcast proof fn lemma_be_bytes_len(n: nat, width: nat)
    ensures
        #[trigger] be_bytes(n, width).len() == width,
    decreases width,
{
    if width > 0 {
        lemma_be_bytes_len(n / 256, (width - 1) as nat);
    }
}

/// The values of the widths that the formats use.
pub proof fn lemma_byte_ranges()
    ensures
        byte_range(1) == 0x100,
        byte_range(2) == 0x1_0000,
        byte_range(3) == 0x100_0000,
        byte_range(4) == 0x1_0000_0000,
        byte_range(8) == 0x1_0000_0000_0000_0000,
{
    reveal_with_fuel(byte_range, 9);
}

/// A number that fits its width is read back from its little-endian bytes.
pub proof fn lemma_le_roundtrip(n: nat, width: nat)
    requires
        n < byte_range(width),
    ensures
        le_value(le_bytes(n, width)) == n,
    decreases width,
{
    if width > 0 {
        lemma_le_roundtrip(n / 256, (width - 1) as nat);
        assert(le_bytes(n, width).skip(1) =~= le_bytes(n / 256, (width - 1) as nat));
    }
}

/// A number that fits its width is read back from its big-endian bytes.
pub proof fn lemma_be_roundtrip(n: nat, width: nat)
    requires
        n < byte_range(width),
    ensures
        be_value(be_bytes(n, width)) == n,
    decreases width,
{
    if width > 0 {
        lemma_be_roundtrip(n / 256, (width - 1) as nat);
        assert(be_bytes(n, width).drop_last() =~= be_bytes(n / 256, (width - 1) as nat));
    }
}

/// A little-endian number is below the range of its width.
pub proof fn lemma_le_value_bound(s: Seq<u8>)
    ensures
        le_value(s) < byte_range(s.len()),
    decreases s.len(),
{
    if s.len() > 0 {
        lemma_le_value_bound(s.skip(1));
    }
}

/// A big-endian number is below the range of its width.
pub proof fn lemma_be_value_bound(s: Seq<u8>)
    ensures
        be_value(s) < byte_range(s.len()),
    decreases s.len(),
{
    if s.len() > 0 {
        lemma_be_value_bound(s.drop_last());
    }
}

/// Little-endian bytes of a value read from bytes are those bytes.
pub proof fn lemma_le_value_roundtrip(s: Seq<u8>)
    ensures
        le_bytes(le_value(s), s.len()) == s,
    decreases s.len(),
{
    if s.len() > 0 {
        lemma_le_value_roundtrip(s.skip(1));
        assert(s =~= seq![s[0]] + s.skip(1));
    } else {
        assert(s =~= Seq::<u8>::empty());
    }
}

/// Appends `s` to `out`.
pub fn put_slice(out: &mut Vec<u8>, s: &[u8])
    ensures
        final(out)@ == old(out)@ + s@,
{
    out.extend_from_slice(s);
    assert(out@ =~= old(out)@ + s@);
}

/// Appends `count` zero bytes to `out`.
pub fn put_zeros(out: &mut Vec<u8>, count: usize)
    ensures
        final(out)@ == old(out)@ + zeros(count as nat),
{
    let mut i: usize = 0;
    while i < count
        invariant
            i <= count,
            out@ == old(out)@ + zeros(i as nat),
        decreases count - i,
    {
        out.push(0);
        i += 1;
        assert(out@ =~= old(out)@ + zeros(i as nat));
    }
}

/// A run of zero bytes.
pub open spec fn zeros(count: nat) -> Seq<u8> {
    Seq::new(count, |i: int| 0u8)
}

/// Appends the `width` low-order bytes of `n`, least significant first.
pub fn put_le(out: &mut Vec<u8>, n: u64, width: usize)
    ensures
        final(out)@ == old(out)@ + le_bytes(n as nat, width as nat),
{
    let mut rest: u64 = n;
    let mut i: usize = 0;
    assert(out@ + le_bytes(n as nat, width as nat) =~= old(out)@ + le_bytes(
        n as nat,
        width as nat,
    ));
    while i < width
        invariant
            i <= width,
            out@ + le_bytes(rest as nat, (width - i) as nat) == old(out)@ + le_bytes(
                n as nat,
                width as nat,
            ),
        decreases width - i,
    {
        let ghost before = out@;
        let ghost tail = le_bytes((rest / 256) as nat, (width - i - 1) as nat);
        out.push((rest % 256) as u8);
        assert(le_bytes(rest as nat, (width - i) as nat) == seq![(rest % 256) as u8] + tail);
        assert(out@ + tail =~= before + le_bytes(rest as nat, (width - i) as nat));
        rest = rest / 256;
        i += 1;
    }
    assert(out@ =~= out@ + le_bytes(rest as nat, 0));
}

/// Appends the `width` low-order bytes of `n`, most significant first.
pub fn put_be(out: &mut Vec<u8>, n: u64, width: usize)
    ensures
        final(out)@ == old(out)@ + be_bytes(n as nat, width as nat),
    decreases width,
{
    if width > 0 {
        put_be(out, n / 256, width - 1);
        out.push((n % 256) as u8);
    }
    assert(out@ =~= old(out)@ + be_bytes(n as nat, width as nat));
}

/// Reads `width` bytes, least significant first.
pub fn get_le(s: &[u8], at: usize, width: usize) -> (n: u64)
    requires
        width <= 8,
        at + width <= s@.len(),
    ensures
        n as nat == le_at(s@, at as int, width as int),
    decreases width,
{
    if width == 0 {
        0
    } else {
        assert(s@.len() == s.len());
        let high: u64 = get_le(s, at + 1, width - 1);
        proof {
            let whole = s@.subrange(at as int, at + width);
            assert(whole.skip(1) =~= s@.subrange(at + 1, at + 1 + (width - 1)));
            lemma_le_value_bound(whole);
            lemma_le_value_bound(whole.skip(1));
            lemma_byte_range_monotone(width as nat, 8);
            lemma_byte_ranges();
        }
        s[at] as u64 + 256 * high
    }
}

/// Reads `width` bytes, most significant first.
pub fn get_be(s: &[u8], at: usize, width: usize) -> (n: u64)
    requires
        width <= 8,
        at + width <= s@.len(),
    ensures
        n as nat == be_at(s@, at as int, width as int),
    decreases width,
{
    if width == 0 {
        0
    } else {
        assert(s@.len() == s.len());
        let high: u64 = get_be(s, at, width - 1);
        proof {
            let whole = s@.subrange(at as int, at + width);
            assert(whole.drop_last() =~= s@.subrange(at as int, at + (width - 1)));
            lemma_be_value_bound(whole);
            lemma_be_value_bound(whole.drop_last());
            lemma_byte_range_monotone(width as nat, 8);
            lemma_byte_ranges();
        }
        256 * high + s[at + width - 1] as u64
    }
}

/// A wider field holds at least as many values.
pub proof fn lemma_byte_range_monotone(a: nat, b: nat)
    requires
        a <= b,
    ensures
        byte_range(a) <= byte_range(b),
        byte_range(a) >= 1,
    decreases b,
{
    if a < b {
        lemma_byte_range_monotone(a, (b - 1) as nat);
    } else if a > 0 {
        lemma_byte_range_monotone((a - 1) as nat, (b - 1) as nat);
    }
}

/// A copy of `s[from..to]`.
pub fn sub_vec(s: &[u8], from: usize, to: usize) -> (out: Vec<u8>)
    requires
        from <= to <= s@.len(),
    ensures
        out@ == s@.subrange(from as int, to as int),
{
    vstd::slice::slice_to_vec(vstd::slice::slice_subrange(s, from, to))
}

/// A copy of a byte slice.
pub fn copy_bytes(s: &[u8]) -> (out: Vec<u8>)
    ensures
        out@ == s@,
{
    vstd::slice::slice_to_vec(s)
}

/// Whether two byte slices hold the same bytes.
pub fn same_bytes(a: &[u8], b: &[u8]) -> (same: bool)
    ensures
        same == (a@ == b@),
{
    if a.len() != b.len() {
        return false;
    }
    let mut i: usize = 0;
    while i < a.len()
        invariant
            a@.len() == b@.len(),
            i <= a@.len(),
            forall|j: int| 0 <= j < i ==> a@[j] == b@[j],
        decreases a@.len() - i,
    {
        if a[i] != b[i] {
            return false;
        }
        i += 1;
    }
    assert(a@ =~= b@);
    true
}

/// The low 32 bits of a length, which is what a length field of four bytes holds.
pub open spec fn low32(n: nat) -> nat {
    n % 0x1_0000_0000
}

/// The low 32 bits of a length.
pub fn low_word(n: usize) -> (m: u64)
    ensures
        m == low32(n as nat),
{
    n as u64 % 0x1_0000_0000
}

/// The bit pattern of a signed number of 32 bits.
pub open spec fn i32_bits(n: i32) -> nat {
    if n >= 0 {
        n as nat
    } else {
        (n + 0x1_0000_0000) as nat
    }
}

/// The signed number of 32 bits with a bit pattern.
pub open spec fn i32_of_bits(bits: nat) -> i32 {
    if bits < 0x8000_0000 {
        bits as i32
    } else {
        (bits - 0x1_0000_0000) as i32
    }
}

/// The bit pattern of a signed number of 64 bits.
pub open spec fn i64_bits(n: i64) -> nat {
    if n >= 0 {
        n as nat
    } else {
        (n + 0x1_0000_0000_0000_0000) as nat
    }
}

/// The signed number of 64 bits with a bit pattern.
pub open spec fn i64_of_bits(bits: nat) -> i64 {
    if bits < 0x8000_0000_0000_0000 {
        bits as i64
    } else {
        (bits - 0x1_0000_0000_0000_0000) as i64
    }
}

/// The bit pattern of a signed number of 32 bits.
pub fn bits_of_i32(n: i32) -> (bits: u32)
    ensures
        bits == i32_bits(n),
{
    if n >= 0 {
        n as u32
    } else {
        (n as i64 + 0x1_0000_0000) as u32
    }
}

/// The signed number of 32 bits with a bit pattern.
pub fn i32_from_bits(bits: u32) -> (n: i32)
    ensures
        n == i32_of_bits(bits as nat),
{
    if bits < 0x8000_0000 {
        bits as i32
    } else {
        (bits as i64 - 0x1_0000_0000) as i32
    }
}

/// The bit pattern of a signed number of 64 bits.
pub fn bits_of_i64(n: i64) -> (bits: u64)
    ensures
        bits == i64_bits(n),
{
    if n >= 0 {
        n as u64
    } else {
        (n as i128 + 0x1_0000_0000_0000_0000) as u64
    }
}

/// The signed number of 64 bits with a bit pattern.
pub fn i64_from_bits(bits: u64) -> (n: i64)
    ensures
        n == i64_of_bits(bits as nat),
{
    if bits < 0x8000_0000_0000_0000 {
        bits as i64
    } else {
        (bits as i128 - 0x1_0000_0000_0000_0000) as i64
    }
}

/// Whether `part` stands in `buf` at `pos`.
pub open spec fn stands_at(buf: Seq<u8>, pos: int, part: Seq<u8>) -> bool {
    &&& 0 <= pos
    &&& pos + part.len() <= buf.len()
    &&& buf.subrange(pos, pos + part.len()) == part
}

/// Where two parts stand in a row, each stands in its place.
pub proof fn lemma_stands_split(buf: Seq<u8>, pos: int, a: Seq<u8>, b: Seq<u8>)
    requires
        stands_at(buf, pos, a + b),
    ensures
        stands_at(buf, pos, a),
        stands_at(buf, pos + a.len(), b),
{
    let whole = a + b;
    assert forall|i: int| 0 <= i < whole.len() implies buf[pos + i] == whole[i] by {
        assert(buf.subrange(pos, pos + whole.len())[i] == whole[i]);
    }
    assert(buf.subrange(pos, pos + a.len()) =~= a) by {
        assert forall|i: int| 0 <= i < a.len() implies buf[pos + i] == a[i] by {
            assert(whole[i] == a[i]);
        }
    }
    assert(buf.subrange(pos + a.len(), pos + a.len() + b.len()) =~= b) by {
        assert forall|i: int| 0 <= i < b.len() implies buf[pos + a.len() + i] == b[i] by {
            assert(whole[a.len() + i] == b[i]);
            assert(buf[pos + (a.len() + i)] == whole[a.len() + i]);
        }
    }
}

/// A number that stands in a buffer, least significant byte first, is read there.
pub proof fn lemma_stands_le(buf: Seq<u8>, pos: int, n: nat, width: nat)
    requires
        stands_at(buf, pos, le_bytes(n, width)),
        n < byte_range(width),
    ensures
        pos + width <= buf.len(),
        le_at(buf, pos, width as int) == n,
{
    lemma_le_bytes_len(n, width);
    lemma_le_roundtrip(n, width);
}

/// A number that stands in a buffer, most significant byte first, is read there.
pub proof fn lemma_stands_be(buf: Seq<u8>, pos: int, n: nat, width: nat)
    requires
        stands_at(buf, pos, be_bytes(n, width)),
        n < byte_range(width),
    ensures
        pos + width <= buf.len(),
        be_at(buf, pos, width as int) == n,
{
    lemma_be_bytes_len(n, width);
    lemma_be_roundtrip(n, width);
}

/// Reads four bytes, least significant first.
pub fn get_le32(s: &[u8], at: usize) -> (n: u32)
    requires
        at + 4 <= s@.len(),
    ensures
        n as nat == le_at(s@, at as int, 4),
{
    proof {
        lemma_le_value_bound(s@.subrange(at as int, at + 4));
        lemma_byte_ranges();
    }
    get_le(s, at, 4) as u32
}

/// Reads four bytes, most significant first.
pub fn get_be32(s: &[u8], at: usize) -> (n: u32)
    requires
        at + 4 <= s@.len(),
    ensures
        n as nat == be_at(s@, at as int, 4),
{
    proof {
        lemma_be_value_bound(s@.subrange(at as int, at + 4));
        lemma_byte_ranges();
    }
    get_be(s, at, 4) as u32
}

/// The first of two or four bytes of a little-endian number counts ones, and each further
/// byte counts 256 times what the one before it counts; of a big-endian number it is the
/// last byte that counts ones.
pub proof fn lemma_byte_weights(s: Seq<u8>, at: int)
    requires
        0 <= at,
    ensures
        at + 1 <= s.len() ==> le_at(s, at, 1) == s[at] && be_at(s, at, 1) == s[at],
        at + 2 <= s.len() ==> le_at(s, at, 2) == s[at] + 256 * s[at + 1],
        at + 2 <= s.len() ==> be_at(s, at, 2) == 256 * s[at] + s[at + 1],
        at + 3 <= s.len() ==> be_at(s, at, 3) == 65_536 * s[at] + 256 * s[at + 1] + s[at + 2],
        at + 4 <= s.len() ==> le_at(s, at, 4) == s[at] + 256 * s[at + 1] + 65_536 * s[at + 2]
            + 16_777_216 * s[at + 3],
        at + 4 <= s.len() ==> be_at(s, at, 4) == 16_777_216 * s[at] + 65_536 * s[at + 1] + 256
            * s[at + 2] + s[at + 3],
{
    reveal_with_fuel(le_value, 5);
    reveal_with_fuel(be_value, 5);
    if at + 1 <= s.len() {
        let a = s.subrange(at, at + 1);
        assert(a[0] == s[at]);
    }
    if at + 2 <= s.len() {
        let a = s.subrange(at, at + 2);
        assert(a.skip(1)[0] == s[at + 1]);
        assert(a.drop_last()[0] == s[at]);
    }
    if at + 3 <= s.len() {
        let a = s.subrange(at, at + 3);
        assert(a.drop_last()[1] == s[at + 1]);
        assert(a.drop_last().drop_last()[0] == s[at]);
    }
    if at + 4 <= s.len() {
        let a = s.subrange(at, at + 4);
        assert(a.skip(1)[0] == s[at + 1]);
        assert(a.skip(1).skip(1)[0] == s[at + 2]);
        assert(a.skip(1).skip(1).skip(1)[0] == s[at + 3]);
        assert(a.drop_last()[2] == s[at + 2]);
        assert(a.drop_last().drop_last()[1] == s[at + 1]);
        assert(a.drop_last().drop_last().drop_last()[0] == s[at]);
    }
}

/// A little-endian number of eight bytes is its low half and 2^32 times its high half; a
/// big-endian one has the high half first.
pub proof fn lemma_halves(s: Seq<u8>, at: int)
    requires
        0 <= at,
        at + 8 <= s.len(),
    ensures
        le_at(s, at, 8) == le_at(s, at, 4) + 0x1_0000_0000 * le_at(s, at + 4, 4),
        be_at(s, at, 8) == 0x1_0000_0000 * be_at(s, at, 4) + be_at(s, at + 4, 4),
{
    let a = s.subrange(at, at + 8);
    reveal_with_fuel(le_value, 9);
    reveal_with_fuel(be_value, 9);
    lemma_byte_weights(s, at);
    lemma_byte_weights(s, at + 4);
    let a1 = a.skip(1);
    let a2 = a1.skip(1);
    let a3 = a2.skip(1);
    let a4 = a3.skip(1);
    assert(a4 =~= s.subrange(at + 4, at + 8));
    assert(a[0] == s[at] && a1[0] == s[at + 1] && a2[0] == s[at + 2] && a3[0] == s[at + 3]);
    let b1 = a.drop_last();
    let b2 = b1.drop_last();
    let b3 = b2.drop_last();
    let b4 = b3.drop_last();
    assert(b4 =~= s.subrange(at, at + 4));
    assert(a[7] == s[at + 7] && b1[6] == s[at + 6] && b2[5] == s[at + 5] && b3[4] == s[at + 4]);
}

/// The bit pattern of a signed number is the number itself, or what is left of it modulo
/// the number of patterns.
pub proof fn lemma_bit_patterns(n: i32, m: i64)
    ensures
        i32_bits(n) < 0x1_0000_0000,
        (i32_bits(n) - n) % 0x1_0000_0000 == 0,
        i32_of_bits(i32_bits(n)) == n,
        i64_bits(m) < 0x1_0000_0000_0000_0000,
        (i64_bits(m) - m) % 0x1_0000_0000_0000_0000 == 0,
        i64_of_bits(i64_bits(m)) == m,
{
}

/// A run of zero bytes is as long as asked for and nothing but zeros.
pub proof fn lemma_zeros(count: nat, i: int)
    ensures
        zeros(count).len() == count,
        0 <= i < count ==> zeros(count)[i] == 0,
{
}

} // verus!
