//! What stands where in an XPC message, and what its bytes mean.

use vstd::prelude::*;
use vstd::utf8::{decode_utf8, encode_utf8};
use crate::bytes::{
    i64_bits, le_at, le_bytes, lemma_stands_le, lemma_stands_split, low32, zeros,
};
use super::codec::{
    entries_bytes, items_bytes, key_bytes, message_bytes, nul_from, pad4_spec, padding,
    parse_entries, parse_items, parse_message, parse_value, tag, until_nul, value_bytes, Parsed,
    ParsedEntries, ParsedItems, ParsedMessage, TYPE_ARRAY, TYPE_BOOL, TYPE_DATA, TYPE_DICTIONARY, TYPE_DOUBLE, TYPE_INT64, TYPE_NULL,
    TYPE_STRING, TYPE_UINT64, TYPE_UUID,
};
use crate::entries::Entries;
use super::{Model, PAYLOAD_MAGIC, PAYLOAD_VERSION, WRAPPER_MAGIC};

verus! {

/// What stands where in a value: a word for its type, then what the type calls for, in a
/// multiple of four bytes. A truth value is one byte, 1 for true and 0 for false.
#[verifier::rlimit(40)]
pub proof fn lemma_value_layout(v: Model)
    ensures
        ({
            let b = value_bytes(v);
            match v {
                Model::Null => b.len() == 4 && le_at(b, 0, 4) == 0x1000,
                Model::Bool(yes) => {
                    &&& b.len() == 8
                    &&& le_at(b, 0, 4) == 0x2000
                    &&& b[4] == if yes {
                        1u8
                    } else {
                        0u8
                    }
                    &&& b[5] == 0 && b[6] == 0 && b[7] == 0
                },
                Model::Int64(n) => {
                    &&& b.len() == 12
                    &&& le_at(b, 0, 4) == 0x3000
                    &&& le_at(b, 4, 8) as int == n as int % 0x1_0000_0000_0000_0000
                },
                Model::Uint64(n) => b.len() == 12 && le_at(b, 0, 4) == 0x4000 && le_at(b, 4, 8)
                    == n,
                Model::Double(bits) => b.len() == 12 && le_at(b, 0, 4) == 0x5000 && le_at(b, 4, 8)
                    == bits,
                Model::Data(data) => {
                    &&& 8 + data.len() <= b.len() < 12 + data.len()
                    &&& b.len() % 4 == 0
                    &&& le_at(b, 0, 4) == 0x8000
                    &&& le_at(b, 4, 4) == data.len() % 0x1_0000_0000
                    &&& b.subrange(8, 8 + data.len() as int) == data
                    &&& forall|i: int| 8 + data.len() <= i < b.len() ==> #[trigger] b[i] == 0
                },
                Model::String(s) => {
                    let raw = encode_utf8(s);
                    &&& 8 + raw.len() < b.len() <= 12 + raw.len()
                    &&& b.len() % 4 == 0
                    &&& le_at(b, 0, 4) == 0x9000
                    &&& le_at(b, 4, 4) == (raw.len() + 1) % 0x1_0000_0000
                    &&& b.subrange(8, 8 + raw.len() as int) == raw
                    &&& forall|i: int| 8 + raw.len() <= i < b.len() ==> #[trigger] b[i] == 0
                },
                Model::Uuid(u) => le_at(b, 0, 4) == 0xa000 && b.skip(4) == u,
                Model::Array(items) => {
                    &&& b.len() == 12 + items_bytes(items).len()
                    &&& le_at(b, 0, 4) == 0xe000
                    &&& b.len() - 8 <= u32::MAX ==> le_at(b, 4, 4) == b.len() - 8
                    &&& le_at(b, 8, 4) == items.len() % 0x1_0000_0000
                    &&& b.skip(12) == items_bytes(items)
                },
                Model::Dictionary(entries) => {
                    &&& b.len() == 12 + entries_bytes(entries).len()
                    &&& le_at(b, 0, 4) == 0xf000
                    &&& b.len() - 8 <= u32::MAX ==> le_at(b, 4, 4) == b.len() - 8
                    &&& le_at(b, 8, 4) == entries.len() % 0x1_0000_0000
                    &&& b.skip(12) == entries_bytes(entries)
                },
            }
        }),
{
    broadcast use crate::bytes::lemma_le_bytes_len;

    crate::bytes::lemma_byte_ranges();
    let b = value_bytes(v);
    assert(b.subrange(0, b.len() as int) =~= b);
    match v {
        Model::Null => {
            lemma_stands_le(b, 0, TYPE_NULL as nat, 4);
        },
        Model::Bool(yes) => {
            let flag = seq![
                if yes {
                    1u8
                } else {
                    0u8
                },
            ];
            lemma_stands_split(b, 0, tag(TYPE_BOOL) + flag, zeros(3));
            lemma_stands_split(b, 0, tag(TYPE_BOOL), flag);
            lemma_stands_le(b, 0, TYPE_BOOL as nat, 4);
        },
        Model::Int64(n) => {
            lemma_stands_split(b, 0, tag(TYPE_INT64), le_bytes(i64_bits(n), 8));
            lemma_stands_le(b, 0, TYPE_INT64 as nat, 4);
            lemma_stands_le(b, 4, i64_bits(n), 8);
        },
        Model::Uint64(n) => {
            lemma_stands_split(b, 0, tag(TYPE_UINT64), le_bytes(n as nat, 8));
            lemma_stands_le(b, 0, TYPE_UINT64 as nat, 4);
            lemma_stands_le(b, 4, n as nat, 8);
        },
        Model::Double(n) => {
            lemma_stands_split(b, 0, tag(TYPE_DOUBLE), le_bytes(n as nat, 8));
            lemma_stands_le(b, 0, TYPE_DOUBLE as nat, 4);
            lemma_stands_le(b, 4, n as nat, 8);
        },
        Model::Data(data) => {
            let len = le_bytes(low32(data.len()), 4);
            let head = tag(TYPE_DATA) + len;
            lemma_stands_split(b, 0, head + data, zeros(padding(data.len())));
            lemma_stands_split(b, 0, head, data);
            lemma_stands_split(b, 0, tag(TYPE_DATA), len);
            lemma_stands_le(b, 0, TYPE_DATA as nat, 4);
            lemma_stands_le(b, 4, low32(data.len()), 4);
        },
        Model::String(s) => {
            let raw = encode_utf8(s);
            let len = le_bytes(low32(raw.len() + 1), 4);
            let head = tag(TYPE_STRING) + len;
            let pad = zeros(padding(raw.len() + 1));
            lemma_stands_split(b, 0, head + raw + zeros(1), pad);
            lemma_stands_split(b, 0, head + raw, zeros(1));
            lemma_stands_split(b, 0, head, raw);
            lemma_stands_split(b, 0, tag(TYPE_STRING), len);
            lemma_stands_le(b, 0, TYPE_STRING as nat, 4);
            lemma_stands_le(b, 4, low32(raw.len() + 1), 4);
        },
        Model::Uuid(u) => {
            lemma_stands_split(b, 0, tag(TYPE_UUID), u);
            lemma_stands_le(b, 0, TYPE_UUID as nat, 4);
            assert(b.skip(4) =~= u);
        },
        Model::Array(items) => {
            lemma_group_layout(b, TYPE_ARRAY, items_bytes(items), items.len());
        },
        Model::Dictionary(entries) => {
            lemma_group_layout(b, TYPE_DICTIONARY, entries_bytes(entries), entries.len());
        },
    }
}

proof fn lemma_group_layout(b: Seq<u8>, t: u32, inner: Seq<u8>, count: nat)
    requires
        b == tag(t) + le_bytes(4 + low32(inner.len()), 4) + le_bytes(low32(count), 4) + inner,
    ensures
        b.len() == 12 + inner.len(),
        le_at(b, 0, 4) == t,
        b.len() - 8 <= u32::MAX ==> le_at(b, 4, 4) == b.len() - 8,
        le_at(b, 8, 4) == count % 0x1_0000_0000,
        b.skip(12) == inner,
{
    broadcast use crate::bytes::lemma_le_bytes_len;

    crate::bytes::lemma_byte_ranges();
    let size = le_bytes(4 + low32(inner.len()), 4);
    let n = le_bytes(low32(count), 4);
    assert(b.subrange(0, b.len() as int) =~= b);
    lemma_stands_split(b, 0, tag(t) + size + n, inner);
    lemma_stands_split(b, 0, tag(t) + size, n);
    lemma_stands_split(b, 0, tag(t), size);
    lemma_stands_le(b, 0, t as nat, 4);
    lemma_stands_le(b, 8, low32(count), 4);
    if b.len() - 8 <= u32::MAX {
        lemma_stands_le(b, 4, 4 + low32(inner.len()), 4);
    }
    assert(b.skip(12) =~= inner);
}

/// The items of an array stand one behind the other, in their order.
pub proof fn lemma_items_in_order(a: Seq<Model>, b: Seq<Model>)
    ensures
        items_bytes(a + b) == items_bytes(a) + items_bytes(b),
        a.len() == 1 ==> items_bytes(a) == value_bytes(a[0]),
    decreases b.len(),
{
    if b.len() == 0 {
        assert(a + b =~= a);
        assert(items_bytes(a + b) =~= items_bytes(a) + items_bytes(b));
    } else {
        lemma_items_in_order(a, b.drop_last());
        assert((a + b).drop_last() =~= a + b.drop_last());
        assert(items_bytes(a + b) =~= items_bytes(a) + items_bytes(b));
    }
    if a.len() == 1 {
        assert(items_bytes(a.drop_last()) =~= Seq::<u8>::empty());
        assert(items_bytes(a) =~= value_bytes(a[0]));
    }
}

/// The entries of a dictionary stand one behind the other, in their order. Each is its key,
/// ended by a zero byte and filled up to a multiple of four bytes, and then its value.
pub proof fn lemma_entries_in_order(a: Seq<(Seq<char>, Model)>, b: Seq<(Seq<char>, Model)>)
    ensures
        entries_bytes(a + b) == entries_bytes(a) + entries_bytes(b),
        a.len() == 1 ==> {
            let raw = encode_utf8(a[0].0);
            let e = entries_bytes(a);
            let n = e.len() - value_bytes(a[0].1).len();
            &&& raw.len() < n <= raw.len() + 4
            &&& n % 4 == 0
            &&& e.take(raw.len() as int) == raw
            &&& forall|i: int| raw.len() <= i < n ==> #[trigger] e[i] == 0
            &&& e.skip(n) == value_bytes(a[0].1)
        },
    decreases b.len(),
{
    if b.len() == 0 {
        assert(a + b =~= a);
        assert(entries_bytes(a + b) =~= entries_bytes(a) + entries_bytes(b));
    } else {
        lemma_entries_in_order(a, b.drop_last());
        assert((a + b).drop_last() =~= a + b.drop_last());
        assert(entries_bytes(a + b) =~= entries_bytes(a) + entries_bytes(b));
    }
    if a.len() == 1 {
        let raw = encode_utf8(a[0].0);
        let e = entries_bytes(a);
        assert(entries_bytes(a.drop_last()) =~= Seq::<u8>::empty());
        assert(e =~= key_bytes(a[0].0) + value_bytes(a[0].1));
        assert(e.take(raw.len() as int) =~= raw);
        assert(e.skip(key_bytes(a[0].0).len() as int) =~= value_bytes(a[0].1));
    }
}

/// What stands where in a message: its magic, its flags, the length of its body, its
/// identifier; the body has a magic and a version before its value.
pub proof fn lemma_message_layout(flags: u32, msg_id: u64, body: Option<Model>)
    requires
        message_bytes(flags, msg_id, body).len() <= u64::MAX,
    ensures
        ({
            let m = message_bytes(flags, msg_id, body);
            &&& m.len() >= 24
            &&& le_at(m, 0, 4) == 0x29b0_0b92
            &&& le_at(m, 4, 4) == flags
            &&& le_at(m, 8, 8) == m.len() - 24
            &&& le_at(m, 16, 8) == msg_id
            &&& match body {
                Some(v) => {
                    &&& m.len() >= 32
                    &&& le_at(m, 24, 4) == 0x4213_3742
                    &&& le_at(m, 28, 4) == 5
                    &&& m.skip(32) == value_bytes(v)
                },
                None => m.len() == 24,
            }
        }),
{
    broadcast use crate::bytes::lemma_le_bytes_len;

    crate::bytes::lemma_byte_ranges();
    let m = message_bytes(flags, msg_id, body);
    let p1 = le_bytes(PAYLOAD_MAGIC as nat, 4);
    let p2 = le_bytes(PAYLOAD_VERSION as nat, 4);
    let payload = match body {
        Some(v) => p1 + p2 + value_bytes(v),
        None => Seq::empty(),
    };
    let w1 = le_bytes(WRAPPER_MAGIC as nat, 4);
    let w2 = le_bytes(flags as nat, 4);
    let w3 = le_bytes(payload.len(), 8);
    let w4 = le_bytes(msg_id as nat, 8);
    assert(m.subrange(0, m.len() as int) =~= m);
    lemma_stands_split(m, 0, w1 + w2 + w3 + w4, payload);
    lemma_stands_split(m, 0, w1 + w2 + w3, w4);
    lemma_stands_split(m, 0, w1 + w2, w3);
    lemma_stands_split(m, 0, w1, w2);
    lemma_stands_le(m, 0, WRAPPER_MAGIC as nat, 4);
    lemma_stands_le(m, 4, flags as nat, 4);
    lemma_stands_le(m, 8, payload.len(), 8);
    lemma_stands_le(m, 16, msg_id as nat, 8);
    if let Some(v) = body {
        lemma_stands_split(m, 24, p1 + p2, value_bytes(v));
        lemma_stands_split(m, 24, p1, p2);
        lemma_stands_le(m, 24, PAYLOAD_MAGIC as nat, 4);
        lemma_stands_le(m, 28, PAYLOAD_VERSION as nat, 4);
        assert(m.skip(32) =~= value_bytes(v));
    }
}

/// What the bytes of a value mean, by the word of its type. A truth value is true exactly
/// if its byte is not zero; numbers have eight bytes; data and text have a length and are
/// followed up to a multiple of four bytes; text ends at its first zero byte.
#[verifier::spinoff_prover]
#[verifier::rlimit(80)]
pub proof fn lemma_value_meaning(buf: Seq<u8>, pos: nat)
    requires
        pos + 4 <= buf.len() <= usize::MAX,
    ensures
        ({
            let at = pos as int;
            let t = le_at(buf, at, 4);
            let len = le_at(buf, at + 4, 4);
            let p = parse_value(buf, pos);
            &&& t == 0x1000 ==> p == Parsed::Done(Model::Null, pos + 4)
            &&& t == 0x2000 && pos + 8 <= buf.len() ==> p == Parsed::Done(
                Model::Bool(buf[at + 4] != 0),
                pos + 8,
            )
            &&& t == 0x3000 && pos + 12 <= buf.len() ==> {
                &&& p matches Parsed::Done(Model::Int64(n), next)
                &&& next == pos + 12
                &&& n as int % 0x1_0000_0000_0000_0000 == le_at(buf, at + 4, 8)
            }
            &&& t == 0x4000 && pos + 12 <= buf.len() ==> {
                &&& p matches Parsed::Done(Model::Uint64(n), next)
                &&& next == pos + 12
                &&& n == le_at(buf, at + 4, 8)
            }
            &&& (t == 0x5000 || t == 0x7000) && pos + 12 <= buf.len() ==> {
                &&& p matches Parsed::Done(Model::Double(bits), next)
                &&& next == pos + 12
                &&& bits == le_at(buf, at + 4, 8)
            }
            &&& t == 0x8000 && pos + 12 + len <= buf.len() ==> {
                &&& p matches Parsed::Done(Model::Data(data), next)
                &&& data == buf.subrange(at + 8, at + 8 + len)
                &&& pos + 8 + len <= next < pos + 12 + len
                &&& (next - pos) % 4 == 0
            }
            &&& t == 0x9000 ==> (p matches Parsed::Done(v, next) ==> {
                let raw = buf.subrange(at + 8, at + 8 + len);
                &&& v matches Model::String(s)
                &&& pos + 8 + len <= next < pos + 12 + len
                &&& (next - pos) % 4 == 0
                &&& exists|n: int|
                    0 <= n <= raw.len() && s == decode_utf8(#[trigger] raw.take(n)) && (n
                        == raw.len() || raw[n] == 0) && forall|i: int|
                        0 <= i < n ==> raw[i] != 0
            })
            &&& t == 0xa000 && pos + 20 <= buf.len() ==> p == Parsed::Done(
                Model::Uuid(buf.subrange(at + 4, at + 20)),
                pos + 20,
            )
            &&& t == 0xe000 ==> (p matches Parsed::Done(v, next) ==> {
                &&& v matches Model::Array(items)
                &&& items.len() == le_at(buf, at + 8, 4)
                &&& next == pos + 8 + len
            })
            &&& t == 0xf000 ==> (p matches Parsed::Done(v, next) ==> v is Dictionary && next == pos
                + 8 + len)
        }),
{
    crate::bytes::lemma_byte_ranges();
    let at = pos as int;
    let t = le_at(buf, at, 4);
    let len = le_at(buf, at + 4, 4);
    if pos + 12 <= buf.len() {
        crate::bytes::lemma_le_value_bound(buf.subrange(at + 4, at + 12));
    }
    if t == 0x9000 && pos + 8 + len <= buf.len() {
        let raw = buf.subrange(at + 8, at + 8 + len);
        lemma_nul_is_first(raw, 0);
        let n = nul_from(raw, 0);
        assert(until_nul(raw) == raw.take(n));
        assert(0 <= n <= raw.len() && decode_utf8(until_nul(raw)) == decode_utf8(raw.take(n)) && (n
            == raw.len() || raw[n] == 0) && forall|i: int| 0 <= i < n ==> raw[i] != 0);
    }
    if t == 0xe000 && pos + 12 <= buf.len() {
        lemma_items_count(buf, pos + 12, le_at(buf, at + 8, 4));
    }
}

proof fn lemma_nul_is_first(s: Seq<u8>, at: int)
    requires
        0 <= at <= s.len(),
    ensures
        at <= nul_from(s, at) <= s.len(),
        nul_from(s, at) < s.len() ==> s[nul_from(s, at)] == 0,
        forall|i: int| at <= i < nul_from(s, at) ==> s[i] != 0,
    decreases s.len() - at,
{
    if at < s.len() && s[at] != 0 {
        lemma_nul_is_first(s, at + 1);
    }
}

proof fn lemma_value_goes_on(buf: Seq<u8>, pos: nat)
    ensures
        parse_value(buf, pos) matches Parsed::Done(_, next) ==> next > pos,
{
}

proof fn lemma_items_count(buf: Seq<u8>, start: nat, count: nat)
    ensures
        parse_items(buf, start, count) matches ParsedItems::Done(items, cur) ==> items.len() == count
            && cur >= start,
    decreases count,
{
    if count > 0 {
        lemma_items_count(buf, start, (count - 1) as nat);
        if let ParsedItems::Done(_, cur) = parse_items(buf, start, (count - 1) as nat) {
            lemma_value_goes_on(buf, cur);
        }
    }
}

/// What the bytes of a message mean: it is read only behind its magic, and its flags, its
/// length and its identifier stand at their places.
pub proof fn lemma_message_meaning(buf: Seq<u8>)
    ensures
        parse_message(buf) matches ParsedMessage::Done { flags, msg_id, body, consumed } ==> {
            &&& 24 <= consumed <= buf.len()
            &&& le_at(buf, 0, 4) == 0x29b0_0b92
            &&& flags == le_at(buf, 4, 4)
            &&& consumed == 24 + le_at(buf, 8, 8)
            &&& msg_id == le_at(buf, 16, 8)
            &&& body is Some <==> consumed >= 32
            &&& body matches Some(v) ==> {
                let payload = buf.subrange(24, consumed as int);
                &&& le_at(payload, 0, 4) == 0x4213_3742
                &&& parse_value(payload, 8) matches Parsed::Done(w, _) && w == v
            }
        },
{
    crate::bytes::lemma_byte_ranges();
    if buf.len() >= 24 {
        crate::bytes::lemma_le_value_bound(buf.subrange(4, 8));
        crate::bytes::lemma_le_value_bound(buf.subrange(16, 24));
    }
}

/// Items are read one after the other, each where the one before it ends.
pub proof fn lemma_items_read(buf: Seq<u8>, start: nat, count: nat)
    ensures
        parse_items(buf, start, 0) == ParsedItems::Done(Seq::<Model>::empty(), start),
        parse_items(buf, start, count + 1) matches ParsedItems::Done(items, next) ==> {
            &&& items.len() == count + 1
            &&& parse_items(buf, start, count) matches ParsedItems::Done(front, cur)
            &&& front == items.drop_last()
            &&& parse_value(buf, cur) == Parsed::Done(items.last(), next)
        },
{
    lemma_items_count(buf, start, count);
    lemma_items_count(buf, start, count + 1);
    if let ParsedItems::Done(items, next) = parse_items(buf, start, count + 1) {
        let front = parse_items(buf, start, count)->Done_0;
        assert(items.drop_last() =~= front);
    }
}

/// Whether a key of so many bytes stands at a place, with a zero byte behind it, and is
/// filled up to a multiple of four bytes at another.
pub open spec fn key_spans(buf: Seq<u8>, cur: nat, n: nat, at: nat) -> bool {
    &&& cur + n < buf.len()
    &&& buf[cur as int + n] == 0
    &&& forall|i: int| cur <= i < cur + n ==> #[trigger] buf[i] != 0
    &&& cur + n + 1 <= at < cur + n + 5
    &&& (at - cur) % 4 == 0
}

/// Whether entries are others with the value at a place under the key before it.
pub open spec fn entry_taken(
    buf: Seq<u8>,
    front: Seq<(Seq<char>, Model)>,
    entries: Seq<(Seq<char>, Model)>,
    cur: nat,
    n: nat,
    at: nat,
    next: nat,
    other: Seq<char>,
) -> bool {
    let name = decode_utf8(buf.subrange(cur as int, cur as int + n));
    &&& parse_value(buf, at) matches Parsed::Done(v, end)
    &&& end == next
    &&& entries.lookup(name) == Some(v)
    &&& other != name ==> entries.lookup(other) == front.lookup(other)
}

/// Entries are read one after the other: the key up to its zero byte, what fills it up to a
/// multiple of four bytes, and the value; a key that occurs again takes the later value.
pub proof fn lemma_entries_read(buf: Seq<u8>, start: nat, count: nat, key: Seq<char>)
    ensures
        parse_entries(buf, start, 0) == ParsedEntries::Done(
            Seq::<(Seq<char>, Model)>::empty(),
            start,
        ),
        parse_entries(buf, start, count + 1) matches ParsedEntries::Done(entries, next) ==> {
            &&& parse_entries(buf, start, count) matches ParsedEntries::Done(front, cur)
            &&& exists|n: nat, at: nat| #[trigger]
                key_spans(buf, cur, n, at) && entry_taken(buf, front, entries, cur, n, at, next, key)
        },
{
    broadcast use crate::entries::lemma_lookup_with;

    lemma_entries_forward(buf, start, count);
    if let ParsedEntries::Done(entries, next) = parse_entries(buf, start, count + 1) {
        let front = parse_entries(buf, start, count)->Done_0;
        let cur = parse_entries(buf, start, count)->Done_1;
        let nul = nul_from(buf, cur as int) as nat;
        lemma_nul_is_first(buf, cur as int);
        let n = (nul - cur) as nat;
        let raw = buf.subrange(cur as int, nul as int);
        let at = cur + pad4_spec((nul - cur + 1) as nat);
        let v = parse_value(buf, at)->Done_0;
        assert(cur + n == nul);
        assert(buf[(cur + n) as int] == 0);
        assert(entries == front.with(decode_utf8(raw), v));
        assert(cur + n + 1 <= at < cur + n + 5 && (at - cur) % 4 == 0);
        assert forall|i: int| cur <= i < cur + n implies #[trigger] buf[i] != 0 by {}
        assert(key_spans(buf, cur, n, at));
        assert(entry_taken(buf, front, entries, cur, n, at, next, key));
    }
}

proof fn lemma_entries_forward(buf: Seq<u8>, start: nat, count: nat)
    ensures
        parse_entries(buf, start, count) matches ParsedEntries::Done(_, cur) ==> cur >= start,
    decreases count,
{
    if count > 0 {
        lemma_entries_forward(buf, start, (count - 1) as nat);
        if let ParsedEntries::Done(_, cur) = parse_entries(buf, start, (count - 1) as nat) {
            let nul = nul_from(buf, cur as int) as nat;
            lemma_value_goes_on(buf, cur + pad4_spec((nul - cur + 1) as nat));
        }
    }
}

} // verus!
