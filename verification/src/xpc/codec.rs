//! The wire format of XPC messages.
//!
//! A message is a 24-byte wrapper (magic, flags, body length, identifier), then
//! the body: magic, version, and one value. A value is a type tag and what the
//! type calls for, padded to a multiple of four bytes.

use vstd::prelude::*;
use vstd::utf8::{decode_utf8, encode_utf8, valid_utf8};
use crate::bytes::{
    bits_of_i64, get_le, i64_bits, i64_from_bits, i64_of_bits, le_at, le_bytes, lemma_stands_le,
    lemma_stands_split, low32, low_word, put_le, put_slice, put_zeros, stands_at, sub_vec, zeros,
};
use crate::entries::Entries;
use crate::text::{lemma_nul_free_bytes, nul_free, str_bytes, utf8_text};
use super::{
    Dictionary, Message, Model, Value, XpcError, PAYLOAD_MAGIC, PAYLOAD_VERSION, WRAPPER_MAGIC,
};

verus! {

pub const TYPE_NULL: u32 = 0x0000_1000;

pub const TYPE_BOOL: u32 = 0x0000_2000;

pub const TYPE_INT64: u32 = 0x0000_3000;

pub const TYPE_UINT64: u32 = 0x0000_4000;

pub const TYPE_DOUBLE: u32 = 0x0000_5000;

/// Seconds since the reference epoch, as a double.
pub const TYPE_DATE: u32 = 0x0000_7000;

pub const TYPE_DATA: u32 = 0x0000_8000;

pub const TYPE_STRING: u32 = 0x0000_9000;

pub const TYPE_UUID: u32 = 0x0000_a000;

pub const TYPE_ARRAY: u32 = 0x0000_e000;

pub const TYPE_DICTIONARY: u32 = 0x0000_f000;

/// How many bytes bring `n` up to a multiple of four.
pub open spec fn padding(n: nat) -> nat {
    ((4 - n % 4) % 4) as nat
}

/// `n` rounded up to a multiple of four.
pub open spec fn pad4_spec(n: nat) -> nat {
    n + padding(n)
}

pub open spec fn tag(t: u32) -> Seq<u8> {
    le_bytes(t as nat, 4)
}

/// A dictionary key on the wire.
pub open spec fn key_bytes(key: Seq<char>) -> Seq<u8> {
    let raw = encode_utf8(key);
    raw + zeros(1) + zeros(padding(raw.len() + 1))
}

/// A value on the wire.
pub open spec fn value_bytes(v: Model) -> Seq<u8>
    decreases v,
{
    match v {
        Model::Null => tag(TYPE_NULL),
        Model::Bool(b) => tag(TYPE_BOOL) + seq![
            if b {
                1u8
            } else {
                0u8
            },
        ] + zeros(3),
        Model::Int64(n) => tag(TYPE_INT64) + le_bytes(i64_bits(n), 8),
        Model::Uint64(n) => tag(TYPE_UINT64) + le_bytes(n as nat, 8),
        Model::Double(bits) => tag(TYPE_DOUBLE) + le_bytes(bits as nat, 8),
        Model::Data(data) => tag(TYPE_DATA) + le_bytes(low32(data.len()), 4) + data + zeros(
            padding(data.len()),
        ),
        Model::String(s) => {
            let raw = encode_utf8(s);
            tag(TYPE_STRING) + le_bytes(low32(raw.len() + 1), 4) + raw + zeros(1) + zeros(
                padding(raw.len() + 1),
            )
        },
        Model::Uuid(u) => tag(TYPE_UUID) + u,
        Model::Array(items) => {
            let inner = items_bytes(items);
            tag(TYPE_ARRAY) + le_bytes(4 + low32(inner.len()), 4) + le_bytes(
                low32(items.len()),
                4,
            ) + inner
        },
        Model::Dictionary(entries) => {
            let inner = entries_bytes(entries);
            tag(TYPE_DICTIONARY) + le_bytes(4 + low32(inner.len()), 4) + le_bytes(
                low32(entries.len()),
                4,
            ) + inner
        },
    }
}

/// The items of an array on the wire.
pub open spec fn items_bytes(items: Seq<Model>) -> Seq<u8>
    decreases items,
{
    if items.len() == 0 {
        Seq::empty()
    } else {
        items_bytes(items.drop_last()) + value_bytes(items.last())
    }
}

/// The entries of a dictionary on the wire.
pub open spec fn entries_bytes(entries: Seq<(Seq<char>, Model)>) -> Seq<u8>
    decreases entries,
{
    if entries.len() == 0 {
        Seq::empty()
    } else {
        entries_bytes(entries.drop_last()) + key_bytes(entries.last().0) + value_bytes(
            entries.last().1,
        )
    }
}

/// Whether the size field of every array and dictionary in a value is computed
/// without overflow.
pub open spec fn sizes_fit(v: Model) -> bool
    decreases v,
{
    match v {
        Model::Array(items) => {
            &&& low32(items_bytes(items).len()) + 4 <= u32::MAX
            &&& forall|i: int| 0 <= i < items.len() ==> sizes_fit(#[trigger] items[i])
        },
        Model::Dictionary(entries) => {
            &&& low32(entries_bytes(entries).len()) + 4 <= u32::MAX
            &&& forall|i: int| 0 <= i < entries.len() ==> sizes_fit((#[trigger] entries[i]).1)
        },
        _ => true,
    }
}

/// A whole message on the wire.
pub open spec fn message_bytes(flags: u32, msg_id: u64, body: Option<Model>) -> Seq<u8> {
    let payload = match body {
        Some(v) => le_bytes(PAYLOAD_MAGIC as nat, 4) + le_bytes(PAYLOAD_VERSION as nat, 4)
            + value_bytes(v),
        None => Seq::empty(),
    };
    le_bytes(WRAPPER_MAGIC as nat, 4) + le_bytes(flags as nat, 4) + le_bytes(payload.len(), 8)
        + le_bytes(msg_id as nat, 8) + payload
}

/// Rounds `n` up to the next 4-byte boundary.
pub fn pad4(n: usize) -> (m: usize)
    requires
        pad4_spec(n as nat) <= usize::MAX,
    ensures
        m == pad4_spec(n as nat),
{
    n + (4 - n % 4) % 4
}

/// Appends a dictionary key.
pub fn encode_dict_key(key: &str, out: &mut Vec<u8>)
    ensures
        final(out)@ == old(out)@ + key_bytes(key@),
{
    let raw: Vec<u8> = str_bytes(key);
    put_slice(out, raw.as_slice());
    put_zeros(out, 1);
    put_zeros(out, 3 - raw.len() % 4);
    assert(out@ =~= old(out)@ + key_bytes(key@));
}

/// Appends a value that holds no other values.
#[verifier::spinoff_prover]
#[verifier::rlimit(60)]
fn encode_leaf(val: &Value, out: &mut Vec<u8>)
    requires
        val !is Array,
        val !is Dictionary,
    ensures
        final(out)@ == old(out)@ + value_bytes(val@),
{
    let ghost start = out@;
    match val {
        Value::Null => {
            put_le(out, TYPE_NULL as u64, 4);
            assert(out@ =~= start + (tag(TYPE_NULL)));
        },
        Value::Bool(b) => {
            put_le(out, TYPE_BOOL as u64, 4);
            out.push(if *b { 1 } else { 0 });
            put_zeros(out, 3);
            assert(out@ =~= start + (tag(TYPE_BOOL) + seq![if *b { 1u8 } else { 0u8 }] + zeros(3)));
        },
        Value::Int64(n) => {
            put_le(out, TYPE_INT64 as u64, 4);
            put_le(out, bits_of_i64(*n), 8);
            assert(out@ =~= start + (tag(TYPE_INT64) + le_bytes(i64_bits(*n), 8)));
        },
        Value::Uint64(n) => {
            put_le(out, TYPE_UINT64 as u64, 4);
            put_le(out, *n, 8);
            assert(out@ =~= start + (tag(TYPE_UINT64) + le_bytes(*n as nat, 8)));
        },
        Value::Double(bits) => {
            put_le(out, TYPE_DOUBLE as u64, 4);
            put_le(out, *bits, 8);
            assert(out@ =~= start + (tag(TYPE_DOUBLE) + le_bytes(*bits as nat, 8)));
        },
        Value::Data(data) => {
            put_le(out, TYPE_DATA as u64, 4);
            put_le(out, low_word(data.len()), 4);
            put_slice(out, data.as_slice());
            put_zeros(out, (4 - data.len() % 4) % 4);
            assert(out@ =~= start + (tag(TYPE_DATA) + le_bytes(low32(data@.len()), 4) + data@ + zeros(padding(data@.len()))));
        },
        Value::String(s) => {
            let raw: Vec<u8> = str_bytes(s.as_str());
            put_le(out, TYPE_STRING as u64, 4);
            put_le(out, (low_word(raw.len()) + 1) % 0x1_0000_0000, 4);
            put_slice(out, raw.as_slice());
            put_zeros(out, 1);
            put_zeros(out, 3 - raw.len() % 4);
            assert(out@ =~= start + (tag(TYPE_STRING) + le_bytes(low32(raw@.len() + 1), 4) + raw@ + zeros(1) + zeros(padding(raw@.len() + 1))));
        },
        Value::Uuid(u) => {
            put_le(out, TYPE_UUID as u64, 4);
            put_slice(out, u.as_slice());
            assert(out@ =~= start + (tag(TYPE_UUID) + u@));
        },
        Value::Array(_) => {},
        Value::Dictionary(_) => {},
    }
}

/// Appends a value.
#[verifier::rlimit(40)]
pub fn encode_value(val: &Value, out: &mut Vec<u8>)
    requires
        sizes_fit(val@),
    ensures
        final(out)@ == old(out)@ + value_bytes(val@),
    decreases val,
{
    match val {
        Value::Array(items) => {
            proof {
                let models = val@->Array_0;
                assert(models =~= super::models(items@));
                assert forall|i: int| 0 <= i < items@.len() implies sizes_fit(
                    (#[trigger] items@[i])@,
                ) by {
                    assert(sizes_fit(models[i]));
                }
            }
            let inner: Vec<u8> = encode_items(items);
            put_le(out, TYPE_ARRAY as u64, 4);
            put_le(out, 4 + low_word(inner.len()), 4);
            put_le(out, low_word(items.len()), 4);
            put_slice(out, inner.as_slice());
        },
        Value::Dictionary(d) => {
            let inner: Vec<u8> = encode_entries(d);
            put_le(out, TYPE_DICTIONARY as u64, 4);
            put_le(out, 4 + low_word(inner.len()), 4);
            put_le(out, low_word(d.len()), 4);
            put_slice(out, inner.as_slice());
        },
        _ => {
            encode_leaf(val, out);
        },
    }
    assert(out@ =~= old(out)@ + value_bytes(val@));
}

fn encode_items(items: &Vec<Value>) -> (out: Vec<u8>)
    requires
        forall|i: int| 0 <= i < items@.len() ==> sizes_fit((#[trigger] items@[i])@),
    ensures
        out@ == items_bytes(super::models(items@)),
    decreases items,
{
    let mut out: Vec<u8> = Vec::new();
    let mut i: usize = 0;
    let ghost models = super::models(items@);
    assert(out@ =~= items_bytes(models.take(0)));
    while i < items.len()
        invariant
            models == super::models(items@),
            i <= items@.len(),
            forall|i: int| 0 <= i < items@.len() ==> sizes_fit((#[trigger] items@[i])@),
            out@ == items_bytes(models.take(i as int)),
        decreases items@.len() - i,
    {
        encode_value(&items[i], &mut out);
        assert(models.take(i + 1).drop_last() =~= models.take(i as int));
        i += 1;
    }
    assert(models.take(i as int) =~= models);
    out
}

fn encode_entries(d: &Dictionary) -> (out: Vec<u8>)
    requires
        forall|i: int| 0 <= i < d@.len() ==> sizes_fit((#[trigger] d@[i]).1),
    ensures
        out@ == entries_bytes(d@),
    decreases d,
{
    let mut out: Vec<u8> = Vec::new();
    let mut i: usize = 0;
    assert(out@ =~= entries_bytes(d@.take(0)));
    while i < d.len()
        invariant
            i <= d@.len(),
            forall|i: int| 0 <= i < d@.len() ==> sizes_fit((#[trigger] d@[i]).1),
            out@ == entries_bytes(d@.take(i as int)),
        decreases d@.len() - i,
    {
        encode_dict_key(d.key_at(i), &mut out);
        let ghost before = out@;
        encode_value(d.value_at(i), &mut out);
        assert(d@.take(i + 1).drop_last() =~= d@.take(i as int));
        assert(d@.take(i + 1).last() == d@[i as int]);
        i += 1;
    }
    assert(d@.take(i as int) =~= d@);
    out
}

/// Tests whether the size fields of a value are computed without overflow.
pub fn has_fitting_sizes(val: &Value) -> (yes: bool)
    ensures
        yes == sizes_fit(val@),
    decreases val,
{
    match val {
        Value::Array(items) => {
            let ghost models = val@->Array_0;
            assert(models =~= super::models(items@));
            let mut i: usize = 0;
            while i < items.len()
                invariant
                    val@ == Model::Array(models),
                    models == super::models(items@),
                    val == Value::Array(*items),
                    i <= items@.len(),
                    forall|j: int| 0 <= j < i ==> sizes_fit((#[trigger] items@[j])@),
                decreases items@.len() - i,
            {
                if !has_fitting_sizes(&items[i]) {
                    assert(!sizes_fit(models[i as int]));
                    return false;
                }
                i += 1;
            }
            assert forall|j: int| 0 <= j < models.len() implies sizes_fit(#[trigger] models[j]) by {
                assert(sizes_fit(items@[j]@));
            }
            low_word(encode_items(items).len()) + 4 <= 0xffff_ffff
        },
        Value::Dictionary(d) => {
            let mut i: usize = 0;
            while i < d.len()
                invariant
                    val == Value::Dictionary(*d),
                    val@ == Model::Dictionary(d@),
                    i <= d@.len(),
                    forall|j: int| 0 <= j < i ==> sizes_fit((#[trigger] d@[j]).1),
                decreases d@.len() - i,
            {
                if !has_fitting_sizes(d.value_at(i)) {
                    assert(!sizes_fit(d@[i as int].1));
                    return false;
                }
                i += 1;
            }
            low_word(encode_entries(d).len()) + 4 <= 0xffff_ffff
        },
        _ => true,
    }
}

/// Encodes a message.
pub fn encode_message(msg: &Message) -> (out: Vec<u8>)
    requires
        msg.body is Some ==> sizes_fit(msg.body->0@),
    ensures
        out@ == message_bytes(msg.flags, msg.msg_id, msg.body_model()),
{
    let mut payload: Vec<u8> = Vec::new();
    if let Some(v) = &msg.body {
        put_le(&mut payload, PAYLOAD_MAGIC as u64, 4);
        put_le(&mut payload, PAYLOAD_VERSION as u64, 4);
        encode_value(v, &mut payload);
        assert(payload@ =~= le_bytes(PAYLOAD_MAGIC as nat, 4) + le_bytes(
            PAYLOAD_VERSION as nat,
            4,
        ) + value_bytes(v@));
    }
    let mut out: Vec<u8> = Vec::new();
    put_le(&mut out, WRAPPER_MAGIC as u64, 4);
    put_le(&mut out, msg.flags as u64, 4);
    put_le(&mut out, payload.len() as u64, 8);
    put_le(&mut out, msg.msg_id, 8);
    put_slice(&mut out, payload.as_slice());
    assert(out@ =~= message_bytes(msg.flags, msg.msg_id, msg.body_model()));
    out
}

/// What reading a value at some position comes to.
pub enum Parsed {
    /// The value, and the position after it.
    Done(Model, nat),
    /// The bytes are refused.
    Refused(XpcError),
    /// A position leaves the range of `usize`, or a key would start beyond the
    /// end of the buffer. No answer is defined there.
    Overrun,
}

/// What reading the items of an array comes to.
pub enum ParsedItems {
    Done(Seq<Model>, nat),
    Refused(XpcError),
    Overrun,
}

/// What reading the entries of a dictionary comes to.
pub enum ParsedEntries {
    Done(Seq<(Seq<char>, Model)>, nat),
    Refused(XpcError),
    Overrun,
}

/// The refusal of a buffer that ends before byte `need`.
pub open spec fn too_short(buf: Seq<u8>, need: nat) -> XpcError {
    XpcError::TooShort { need: need as usize, got: buf.len() as usize }
}

/// The position of the first zero byte of `s` from `at` on, or the length of `s`.
pub open spec fn nul_from(s: Seq<u8>, at: int) -> int
    decreases s.len() - at,
{
    if at >= s.len() || s[at] == 0 {
        at
    } else {
        nul_from(s, at + 1)
    }
}

/// The part of `s` before its first zero byte.
pub open spec fn until_nul(s: Seq<u8>) -> Seq<u8> {
    s.take(nul_from(s, 0))
}

/// How many bytes of the buffer are left at `pos`.
pub open spec fn left(buf: Seq<u8>, pos: nat) -> nat {
    if pos < buf.len() {
        (buf.len() - pos) as nat
    } else {
        0
    }
}

/// What reading the value at `pos` comes to.
pub open spec fn parse_value(buf: Seq<u8>, pos: nat) -> Parsed
    decreases left(buf, pos), 0nat, 0nat,
{
    if pos + 4 > usize::MAX {
        Parsed::Overrun
    } else if pos + 4 > buf.len() {
        Parsed::Refused(too_short(buf, pos + 4))
    } else {
        let p = pos + 4;
        let t = le_at(buf, pos as int, 4);
        if t == TYPE_NULL {
            Parsed::Done(Model::Null, p)
        } else if t == TYPE_BOOL {
            if p >= buf.len() {
                if p + 1 > usize::MAX {
                    Parsed::Overrun
                } else {
                    Parsed::Refused(too_short(buf, p + 1))
                }
            } else if p + 4 > usize::MAX {
                Parsed::Overrun
            } else {
                Parsed::Done(Model::Bool(buf[p as int] != 0), p + 4)
            }
        } else if t == TYPE_INT64 || t == TYPE_UINT64 || t == TYPE_DOUBLE || t == TYPE_DATE {
            if p + 8 > usize::MAX {
                Parsed::Overrun
            } else if p + 8 > buf.len() {
                Parsed::Refused(too_short(buf, p + 8))
            } else {
                let n = le_at(buf, p as int, 8);
                let v = if t == TYPE_INT64 {
                    Model::Int64(i64_of_bits(n))
                } else if t == TYPE_UINT64 {
                    Model::Uint64(n as u64)
                } else {
                    Model::Double(n as u64)
                };
                Parsed::Done(v, p + 8)
            }
        } else if t == TYPE_DATA || t == TYPE_STRING {
            if p + 4 > usize::MAX {
                Parsed::Overrun
            } else if p + 4 > buf.len() {
                Parsed::Refused(too_short(buf, p + 4))
            } else {
                let len = le_at(buf, p as int, 4);
                let start = p + 4;
                if start + len > usize::MAX {
                    Parsed::Overrun
                } else if start + len > buf.len() {
                    Parsed::Refused(too_short(buf, start + len))
                } else {
                    let raw = buf.subrange(start as int, (start + len) as int);
                    if t == TYPE_STRING && !valid_utf8(until_nul(raw)) {
                        Parsed::Refused(XpcError::InvalidUtf8)
                    } else if start + pad4_spec(len) > usize::MAX {
                        Parsed::Overrun
                    } else if t == TYPE_DATA {
                        Parsed::Done(Model::Data(raw), start + pad4_spec(len))
                    } else {
                        Parsed::Done(
                            Model::String(decode_utf8(until_nul(raw))),
                            start + pad4_spec(len),
                        )
                    }
                }
            }
        } else if t == TYPE_UUID {
            if p + 16 > usize::MAX {
                Parsed::Overrun
            } else if p + 16 > buf.len() {
                Parsed::Refused(too_short(buf, p + 16))
            } else {
                Parsed::Done(Model::Uuid(buf.subrange(p as int, (p + 16) as int)), p + 16)
            }
        } else if t == TYPE_ARRAY || t == TYPE_DICTIONARY {
            if p + 4 > usize::MAX {
                Parsed::Overrun
            } else if p + 4 > buf.len() {
                Parsed::Refused(too_short(buf, p + 4))
            } else if p + 8 > usize::MAX {
                Parsed::Overrun
            } else if p + 8 > buf.len() {
                Parsed::Refused(too_short(buf, p + 8))
            } else {
                let end = p + 4 + le_at(buf, p as int, 4);
                let count = le_at(buf, (p + 4) as int, 4);
                if end > usize::MAX {
                    Parsed::Overrun
                } else if t == TYPE_ARRAY {
                    match parse_items(buf, p + 8, count) {
                        ParsedItems::Done(items, _) => Parsed::Done(Model::Array(items), end),
                        ParsedItems::Refused(e) => Parsed::Refused(e),
                        ParsedItems::Overrun => Parsed::Overrun,
                    }
                } else {
                    match parse_entries(buf, p + 8, count) {
                        ParsedEntries::Done(entries, _) => Parsed::Done(
                            Model::Dictionary(entries),
                            end,
                        ),
                        ParsedEntries::Refused(e) => Parsed::Refused(e),
                        ParsedEntries::Overrun => Parsed::Overrun,
                    }
                }
            }
        } else if p + 8 > usize::MAX {
            Parsed::Overrun
        } else {
            // An unknown type is taken for a scalar of eight bytes and passed over.
            Parsed::Done(Model::Null, p + 8)
        }
    }
}

/// What reading `count` items from `start` on comes to.
pub open spec fn parse_items(buf: Seq<u8>, start: nat, count: nat) -> ParsedItems
    decreases left(buf, start), 1nat, count,
{
    if count == 0 {
        ParsedItems::Done(Seq::empty(), start)
    } else {
        match parse_items(buf, start, (count - 1) as nat) {
            // Positions only grow, so the cursor is never before `start`.
            ParsedItems::Done(items, cur) if cur >= start => match parse_value(buf, cur) {
                Parsed::Done(v, next) => ParsedItems::Done(items.push(v), next),
                Parsed::Refused(e) => ParsedItems::Refused(e),
                Parsed::Overrun => ParsedItems::Overrun,
            },
            other => other,
        }
    }
}

/// What reading `count` entries from `start` on comes to. A key that occurs
/// again takes the later value.
pub open spec fn parse_entries(buf: Seq<u8>, start: nat, count: nat) -> ParsedEntries
    decreases left(buf, start), 1nat, count,
{
    if count == 0 {
        ParsedEntries::Done(Seq::empty(), start)
    } else {
        match parse_entries(buf, start, (count - 1) as nat) {
            ParsedEntries::Done(entries, cur) if cur >= start => {
                let nul = nul_from(buf, cur as int) as nat;
                if cur > buf.len() {
                    ParsedEntries::Overrun
                } else if nul >= buf.len() || !valid_utf8(buf.subrange(cur as int, nul as int)) {
                    ParsedEntries::Refused(XpcError::InvalidUtf8)
                } else {
                    let key = decode_utf8(buf.subrange(cur as int, nul as int));
                    let at = cur + pad4_spec((nul - cur + 1) as nat);
                    if at > usize::MAX {
                        ParsedEntries::Overrun
                    } else {
                        match parse_value(buf, at) {
                            Parsed::Done(v, next) => ParsedEntries::Done(
                                entries.with(key, v),
                                next,
                            ),
                            Parsed::Refused(e) => ParsedEntries::Refused(e),
                            Parsed::Overrun => ParsedEntries::Overrun,
                        }
                    }
                }
            },
            other => other,
        }
    }
}

/// Why a value is not handed out.
#[derive(Clone, Copy, Debug, PartialEq, Eq, Structural)]
pub enum Stop {
    /// The bytes are refused.
    Refused(XpcError),
    /// A position leaves the buffer or the range of `usize`.
    Overrun,
}

/// Whether `got` is what reading a value comes to.
pub open spec fn agrees(got: Result<(Value, usize), Stop>, parsed: Parsed) -> bool {
    match got {
        Ok((v, next)) => parsed == Parsed::Done(v@, next as nat),
        Err(Stop::Refused(e)) => parsed == Parsed::Refused(e),
        Err(Stop::Overrun) => parsed is Overrun,
    }
}

fn check_len(buf: &[u8], at: usize, width: usize) -> (end: Result<usize, Stop>)
    ensures
        match end {
            Ok(n) => n == at + width && n <= buf@.len(),
            Err(Stop::Overrun) => at + width > usize::MAX,
            Err(Stop::Refused(e)) => {
                &&& at + width <= usize::MAX
                &&& at + width > buf@.len()
                &&& e == too_short(buf@, (at + width) as nat)
            },
        },
{
    match at.checked_add(width) {
        None => Err(Stop::Overrun),
        Some(end) => if end <= buf.len() {
            Ok(end)
        } else {
            Err(Stop::Refused(XpcError::TooShort { need: end, got: buf.len() }))
        },
    }
}

/// Reads the 32-bit number at `pos`.
pub fn read_u32le(buf: &[u8], pos: usize) -> (n: Result<u32, Stop>)
    ensures
        match n {
            Ok(n) => pos + 4 <= buf@.len() && n == le_at(buf@, pos as int, 4),
            Err(Stop::Overrun) => pos + 4 > usize::MAX,
            Err(Stop::Refused(e)) => {
                &&& pos + 4 <= usize::MAX
                &&& pos + 4 > buf@.len()
                &&& e == too_short(buf@, (pos + 4) as nat)
            },
        },
{
    match check_len(buf, pos, 4) {
        Err(stop) => Err(stop),
        Ok(_) => {
            proof {
                crate::bytes::lemma_le_value_bound(buf@.subrange(pos as int, pos + 4));
                crate::bytes::lemma_byte_ranges();
            }
            Ok(get_le(buf, pos, 4) as u32)
        },
    }
}

/// Reads the 64-bit number at `pos`.
pub fn read_u64le(buf: &[u8], pos: usize) -> (n: Result<u64, Stop>)
    ensures
        match n {
            Ok(n) => pos + 8 <= buf@.len() && n == le_at(buf@, pos as int, 8),
            Err(Stop::Overrun) => pos + 8 > usize::MAX,
            Err(Stop::Refused(e)) => {
                &&& pos + 8 <= usize::MAX
                &&& pos + 8 > buf@.len()
                &&& e == too_short(buf@, (pos + 8) as nat)
            },
        },
{
    match check_len(buf, pos, 8) {
        Err(stop) => Err(stop),
        Ok(_) => Ok(get_le(buf, pos, 8)),
    }
}

/// The position of the first zero byte from `at` on, or the length of `buf`.
pub(crate) fn find_nul(buf: &[u8], at: usize) -> (nul: usize)
    requires
        at <= buf@.len(),
    ensures
        nul == nul_from(buf@, at as int),
        at <= nul <= buf@.len(),
{
    let mut i: usize = at;
    while i < buf.len() && buf[i] != 0
        invariant
            at <= i <= buf@.len(),
            nul_from(buf@, at as int) == nul_from(buf@, i as int),
        decreases buf@.len() - i,
    {
        i += 1;
    }
    i
}

/// Adds the padding of `len` bytes to a position.
fn step_over(start: usize, len: usize) -> (next: Result<usize, Stop>)
    ensures
        match next {
            Ok(n) => n == start + pad4_spec(len as nat),
            Err(stop) => stop is Overrun && start + pad4_spec(len as nat) > usize::MAX,
        },
{
    match start.checked_add(len) {
        None => Err(Stop::Overrun),
        Some(end) => match end.checked_add((4 - len % 4) % 4) {
            None => Err(Stop::Overrun),
            Some(next) => Ok(next),
        },
    }
}

fn decode_scalar(buf: &[u8], p: usize, t: u32) -> (got: Result<(Value, usize), Stop>)
    requires
        4 <= p <= buf@.len(),
        t == le_at(buf@, p - 4, 4),
        t != TYPE_ARRAY && t != TYPE_DICTIONARY && t != TYPE_DATA && t != TYPE_STRING,
    ensures
        agrees(got, parse_value(buf@, (p - 4) as nat)),
{
    assert(buf@.len() == buf.len());
    if t == TYPE_NULL {
        return Ok((Value::Null, p));
    }
    if t == TYPE_BOOL {
        let _end: usize = match check_len(buf, p, 1) {
            Ok(end) => end,
            Err(stop) => {
                return Err(stop);
            },
        };
        return match p.checked_add(4) {
            None => Err(Stop::Overrun),
            Some(next) => Ok((Value::Bool(buf[p] != 0), next)),
        };
    }
    if t == TYPE_INT64 || t == TYPE_UINT64 || t == TYPE_DOUBLE || t == TYPE_DATE {
        let n: u64 = match read_u64le(buf, p) {
            Ok(n) => n,
            Err(stop) => {
                return Err(stop);
            },
        };
        let v: Value = if t == TYPE_INT64 {
            Value::Int64(i64_from_bits(n))
        } else if t == TYPE_UINT64 {
            Value::Uint64(n)
        } else {
            Value::Double(n)
        };
        return Ok((v, p + 8));
    }
    if t == TYPE_UUID {
        let end: usize = match check_len(buf, p, 16) {
            Ok(end) => end,
            Err(stop) => {
                return Err(stop);
            },
        };
        let mut u: [u8; 16] = [0; 16];
        let mut i: usize = 0;
        while i < 16
            invariant
                i <= 16,
                end == p + 16,
                end <= buf@.len(),
                forall|j: int| 0 <= j < i ==> u@[j] == buf@[p + j],
            decreases 16 - i,
        {
            u[i] = buf[p + i];
            i += 1;
        }
        assert(u@ =~= buf@.subrange(p as int, p + 16));
        return Ok((Value::Uuid(u), end));
    }
    match p.checked_add(8) {
        None => Err(Stop::Overrun),
        Some(next) => Ok((Value::Null, next)),
    }
}

fn decode_blob(buf: &[u8], p: usize, t: u32) -> (got: Result<(Value, usize), Stop>)
    requires
        4 <= p <= buf@.len(),
        t == le_at(buf@, p - 4, 4),
        t == TYPE_DATA || t == TYPE_STRING,
    ensures
        agrees(got, parse_value(buf@, (p - 4) as nat)),
{
    assert(buf@.len() == buf.len());
    let len: usize = match read_u32le(buf, p) {
        Ok(len) => len as usize,
        Err(stop) => {
            return Err(stop);
        },
    };
    let start: usize = p + 4;
    let end: usize = match check_len(buf, start, len) {
        Ok(end) => end,
        Err(stop) => {
            return Err(stop);
        },
    };
    let raw: Vec<u8> = sub_vec(buf, start, end);
    if t == TYPE_DATA {
        match step_over(start, len) {
            Ok(next) => Ok((Value::Data(raw), next)),
            Err(stop) => Err(stop),
        }
    } else {
        let nul: usize = find_nul(raw.as_slice(), 0);
        let head: Vec<u8> = sub_vec(raw.as_slice(), 0, nul);
        assert(head@ =~= until_nul(raw@));
        match utf8_text(head.as_slice()) {
            None => Err(Stop::Refused(XpcError::InvalidUtf8)),
            Some(s) => match step_over(start, len) {
                Ok(next) => Ok((Value::String(s), next)),
                Err(stop) => Err(stop),
            },
        }
    }
}

/// Once an item is not handed out, no longer run of items is.
proof fn lemma_items_stop(buf: Seq<u8>, start: nat, few: nat, many: nat)
    requires
        few <= many,
        !(parse_items(buf, start, few) is Done),
    ensures
        parse_items(buf, start, many) == parse_items(buf, start, few),
    decreases many,
{
    if few < many {
        lemma_items_stop(buf, start, few, (many - 1) as nat);
    }
}

/// Once an entry is not handed out, no longer run of entries is.
proof fn lemma_entries_stop(buf: Seq<u8>, start: nat, few: nat, many: nat)
    requires
        few <= many,
        !(parse_entries(buf, start, few) is Done),
    ensures
        parse_entries(buf, start, many) == parse_entries(buf, start, few),
    decreases many,
{
    if few < many {
        lemma_entries_stop(buf, start, few, (many - 1) as nat);
    }
}

/// Reads the value at `pos`, and tells the position after it.
pub fn decode_value(buf: &[u8], pos: usize) -> (got: Result<(Value, usize), Stop>)
    ensures
        agrees(got, parse_value(buf@, pos as nat)),
        got is Ok ==> got->Ok_0.1 > pos,
    decreases left(buf@, pos as nat), 0nat,
{
    let t: u32 = match read_u32le(buf, pos) {
        Ok(t) => t,
        Err(stop) => {
            return Err(stop);
        },
    };
    assert(buf@.len() == buf.len());
    let p: usize = pos + 4;
    if t != TYPE_ARRAY && t != TYPE_DICTIONARY {
        let got = if t == TYPE_DATA || t == TYPE_STRING {
            decode_blob(buf, p, t)
        } else {
            decode_scalar(buf, p, t)
        };
        return got;
    }
    let total_size: usize = match read_u32le(buf, p) {
        Ok(n) => n as usize,
        Err(stop) => {
            return Err(stop);
        },
    };
    let count: usize = match read_u32le(buf, p + 4) {
        Ok(n) => n as usize,
        Err(stop) => {
            return Err(stop);
        },
    };
    let end: usize = match (p + 4).checked_add(total_size) {
        Some(end) => end,
        None => {
            return Err(Stop::Overrun);
        },
    };
    if t == TYPE_ARRAY {
        match decode_items(buf, p + 8, count) {
            Ok(items) => {
                let v = Value::Array(items);
                assert(v@->Array_0 =~= super::models(items@));
                Ok((v, end))
            },
            Err(stop) => Err(stop),
        }
    } else {
        match decode_entries(buf, p + 8, count) {
            Ok(d) => Ok((Value::Dictionary(d), end)),
            Err(stop) => Err(stop),
        }
    }
}

fn decode_items(buf: &[u8], start: usize, count: usize) -> (got: Result<Vec<Value>, Stop>)
    ensures
        match got {
            Ok(items) => parse_items(buf@, start as nat, count as nat) matches ParsedItems::Done(
                models,
                _,
            ) && models == super::models(items@),
            Err(Stop::Refused(e)) => parse_items(buf@, start as nat, count as nat)
                == ParsedItems::Refused(e),
            Err(Stop::Overrun) => parse_items(buf@, start as nat, count as nat) is Overrun,
        },
    decreases left(buf@, start as nat), 1nat,
{
    let mut items: Vec<Value> = Vec::new();
    let mut cur: usize = start;
    let mut i: usize = 0;
    assert(super::models(items@) =~= Seq::<Model>::empty());
    while i < count
        invariant
            i <= count,
            start <= cur,
            parse_items(buf@, start as nat, i as nat) == ParsedItems::Done(
                super::models(items@),
                cur as nat,
            ),
        decreases count - i,
    {
        let got = decode_value(buf, cur);
        let ghost before = super::models(items@);
        match got {
            Ok((v, next)) => {
                items.push(v);
                assert(super::models(items@) =~= before.push(v@));
                cur = next;
            },
            Err(stop) => {
                proof {
                    lemma_items_stop(buf@, start as nat, (i + 1) as nat, count as nat);
                }
                return Err(stop);
            },
        }
        i += 1;
    }
    Ok(items)
}

fn decode_entries(buf: &[u8], start: usize, count: usize) -> (got: Result<Dictionary, Stop>)
    ensures
        match got {
            Ok(d) => parse_entries(buf@, start as nat, count as nat) matches ParsedEntries::Done(
                model,
                _,
            ) && model == d@,
            Err(Stop::Refused(e)) => parse_entries(buf@, start as nat, count as nat)
                == ParsedEntries::Refused(e),
            Err(Stop::Overrun) => parse_entries(buf@, start as nat, count as nat) is Overrun,
        },
    decreases left(buf@, start as nat), 1nat,
{
    let mut d: Dictionary = Dictionary::new();
    let mut cur: usize = start;
    let mut i: usize = 0;
    assert(buf@.len() == buf.len());
    while i < count
        invariant
            i <= count,
            start <= cur,
            buf@.len() == buf.len(),
            parse_entries(buf@, start as nat, i as nat) == ParsedEntries::Done(d@, cur as nat),
        decreases count - i,
    {
        if cur > buf.len() {
            proof {
                lemma_entries_stop(buf@, start as nat, (i + 1) as nat, count as nat);
            }
            return Err(Stop::Overrun);
        }
        let nul: usize = find_nul(buf, cur);
        if nul >= buf.len() {
            proof {
                lemma_entries_stop(buf@, start as nat, (i + 1) as nat, count as nat);
            }
            return Err(Stop::Refused(XpcError::InvalidUtf8));
        }
        let raw: Vec<u8> = sub_vec(buf, cur, nul);
        let key: String = match utf8_text(raw.as_slice()) {
            Some(key) => key,
            None => {
                proof {
                    lemma_entries_stop(buf@, start as nat, (i + 1) as nat, count as nat);
                }
                return Err(Stop::Refused(XpcError::InvalidUtf8));
            },
        };
        let at: usize = match step_over(cur, nul - cur + 1) {
            Ok(at) => at,
            Err(stop) => {
                proof {
                    lemma_entries_stop(buf@, start as nat, (i + 1) as nat, count as nat);
                }
                return Err(stop);
            },
        };
        let got = decode_value(buf, at);
        match got {
            Ok((v, next)) => {
                d.insert(key, v);
                cur = next;
            },
            Err(stop) => {
                proof {
                    lemma_entries_stop(buf@, start as nat, (i + 1) as nat, count as nat);
                }
                return Err(stop);
            },
        }
        i += 1;
    }
    Ok(d)
}

/// What reading a message comes to: the message's parts and its length.
pub enum ParsedMessage {
    Done { flags: u32, msg_id: u64, body: Option<Model>, consumed: nat },
    Refused(XpcError),
    Overrun,
}

/// What reading the message at the start of `buf` comes to.
pub open spec fn parse_message(buf: Seq<u8>) -> ParsedMessage {
    if buf.len() < 24 {
        ParsedMessage::Refused(too_short(buf, 24))
    } else if le_at(buf, 0, 4) != WRAPPER_MAGIC {
        ParsedMessage::Refused(XpcError::BadMagic(le_at(buf, 0, 4) as u32))
    } else {
        let flags = le_at(buf, 4, 4) as u32;
        let body_len = le_at(buf, 8, 8);
        let msg_id = le_at(buf, 16, 8) as u64;
        if 24 + body_len > usize::MAX {
            ParsedMessage::Overrun
        } else if 24 + body_len > buf.len() {
            ParsedMessage::Refused(too_short(buf, 24 + body_len))
        } else if body_len < 8 {
            ParsedMessage::Done { flags, msg_id, body: None, consumed: 24 + body_len }
        } else {
            let payload = buf.subrange(24, (24 + body_len) as int);
            if le_at(payload, 0, 4) != PAYLOAD_MAGIC {
                ParsedMessage::Refused(XpcError::BadMagic(le_at(payload, 0, 4) as u32))
            } else {
                match parse_value(payload, 8) {
                    Parsed::Done(v, _) => ParsedMessage::Done {
                        flags,
                        msg_id,
                        body: Some(v),
                        consumed: 24 + body_len,
                    },
                    Parsed::Refused(e) => ParsedMessage::Refused(e),
                    Parsed::Overrun => ParsedMessage::Overrun,
                }
            }
        }
    }
}

/// Reads the message at the start of `buf`, and tells how many bytes it takes.
/// `None` where no answer is defined: a length or a key position lies outside
/// of what the buffer could hold.
pub fn try_decode_message(buf: &[u8]) -> (got: Option<Result<(Message, usize), XpcError>>)
    ensures
        match got {
            Some(Ok((msg, n))) => parse_message(buf@) == (ParsedMessage::Done {
                flags: msg.flags,
                msg_id: msg.msg_id,
                body: msg.body_model(),
                consumed: n as nat,
            }),
            Some(Err(e)) => parse_message(buf@) == ParsedMessage::Refused(e),
            None => parse_message(buf@) is Overrun,
        },
{
    assert(buf@.len() == buf.len());
    if buf.len() < 24 {
        return Some(Err(XpcError::TooShort { need: 24, got: buf.len() }));
    }
    proof {
        crate::bytes::lemma_byte_ranges();
        crate::bytes::lemma_le_value_bound(buf@.subrange(0, 4));
        crate::bytes::lemma_le_value_bound(buf@.subrange(4, 8));
    }
    let magic: u32 = get_le(buf, 0, 4) as u32;
    if magic != WRAPPER_MAGIC {
        return Some(Err(XpcError::BadMagic(magic)));
    }
    let flags: u32 = get_le(buf, 4, 4) as u32;
    let body_len: u64 = get_le(buf, 8, 8);
    let msg_id: u64 = get_le(buf, 16, 8);
    if body_len > (usize::MAX - 24) as u64 {
        return None;
    }
    let total: usize = 24 + body_len as usize;
    if buf.len() < total {
        return Some(Err(XpcError::TooShort { need: total, got: buf.len() }));
    }
    if body_len < 8 {
        return Some(Ok((Message { flags, msg_id, body: None }, total)));
    }
    let payload: Vec<u8> = sub_vec(buf, 24, total);
    proof {
        crate::bytes::lemma_le_value_bound(payload@.subrange(0, 4));
    }
    let payload_magic: u32 = get_le(payload.as_slice(), 0, 4) as u32;
    if payload_magic != PAYLOAD_MAGIC {
        return Some(Err(XpcError::BadMagic(payload_magic)));
    }
    match decode_value(payload.as_slice(), 8) {
        Ok((v, _)) => Some(Ok((Message { flags, msg_id, body: Some(v) }, total))),
        Err(Stop::Refused(e)) => Some(Err(e)),
        Err(Stop::Overrun) => None,
    }
}

/// Reads the message at the start of `buf`, and tells how many bytes it takes.
pub fn decode_message(buf: &[u8]) -> (got: Result<(Message, usize), XpcError>)
    requires
        !(parse_message(buf@) is Overrun),
    ensures
        match got {
            Ok((msg, n)) => parse_message(buf@) == (ParsedMessage::Done {
                flags: msg.flags,
                msg_id: msg.msg_id,
                body: msg.body_model(),
                consumed: n as nat,
            }),
            Err(e) => parse_message(buf@) == ParsedMessage::Refused(e),
        },
{
    match try_decode_message(buf) {
        Some(got) => got,
        None => Err(XpcError::InvalidUtf8),
    }
}

/// Whether every part of a value survives the trip over the wire: lengths and
/// counts fit their 32-bit fields, no string or key holds a NUL, no key occurs
/// twice, and identifiers have sixteen bytes.
pub open spec fn wire_safe(v: Model) -> bool
    decreases v,
{
    match v {
        Model::Data(data) => data.len() <= u32::MAX,
        Model::String(s) => nul_free(s) && encode_utf8(s).len() < u32::MAX,
        Model::Uuid(u) => u.len() == 16,
        Model::Array(items) => {
            &&& items.len() <= u32::MAX
            &&& items_bytes(items).len() + 4 <= u32::MAX
            &&& forall|i: int| 0 <= i < items.len() ==> wire_safe(#[trigger] items[i])
        },
        Model::Dictionary(entries) => {
            &&& entries.distinct()
            &&& entries.len() <= u32::MAX
            &&& entries_bytes(entries).len() + 4 <= u32::MAX
            &&& forall|i: int|
                0 <= i < entries.len() ==> nul_free((#[trigger] entries[i]).0) && wire_safe(
                    entries[i].1,
                )
        },
        _ => true,
    }
}

/// The first zero byte after bytes that are not zero is right behind them.
proof fn lemma_nul_behind(buf: Seq<u8>, pos: int, raw: Seq<u8>)
    requires
        stands_at(buf, pos, raw),
        pos + raw.len() < buf.len(),
        buf[pos + raw.len()] == 0,
        forall|i: int| 0 <= i < raw.len() ==> #[trigger] raw[i] != 0,
    ensures
        nul_from(buf, pos) == pos + raw.len(),
    decreases raw.len(),
{
    if raw.len() > 0 {
        assert(buf.subrange(pos, pos + raw.len())[0] == raw[0]);
        let rest = raw.skip(1);
        assert(stands_at(buf, pos + 1, rest)) by {
            assert(buf.subrange(pos + 1, pos + 1 + rest.len()) =~= buf.subrange(
                pos,
                pos + raw.len(),
            ).skip(1));
        }
        assert forall|i: int| 0 <= i < rest.len() implies #[trigger] rest[i] != 0 by {
            assert(raw[i + 1] != 0);
        }
        lemma_nul_behind(buf, pos + 1, rest);
    }
}

#[verifier::spinoff_prover]
#[verifier::rlimit(40)]
proof fn lemma_scalar_roundtrip(v: Model, buf: Seq<u8>, pos: nat)
    requires
        !(v is Data || v is String || v is Array || v is Dictionary),
        wire_safe(v),
        buf.len() <= usize::MAX,
        stands_at(buf, pos as int, value_bytes(v)),
    ensures
        parse_value(buf, pos) == Parsed::Done(v, pos + value_bytes(v).len()),
{
    broadcast use crate::bytes::lemma_le_bytes_len;

    crate::bytes::lemma_byte_ranges();
    let p = pos as int;
    match v {
        Model::Null => {
            lemma_stands_le(buf, p, TYPE_NULL as nat, 4);
        },
        Model::Bool(b) => {
            let flag = seq![
                if b {
                    1u8
                } else {
                    0u8
                },
            ];
            lemma_stands_split(buf, p, tag(TYPE_BOOL) + flag, zeros(3));
            lemma_stands_split(buf, p, tag(TYPE_BOOL), flag);
            lemma_stands_le(buf, p, TYPE_BOOL as nat, 4);
            assert(buf.subrange(p + 4, p + 5)[0] == flag[0]);
        },
        Model::Int64(n) => {
            lemma_stands_split(buf, p, tag(TYPE_INT64), le_bytes(i64_bits(n), 8));
            lemma_stands_le(buf, p, TYPE_INT64 as nat, 4);
            lemma_stands_le(buf, p + 4, i64_bits(n), 8);
        },
        Model::Uint64(n) => {
            lemma_stands_split(buf, p, tag(TYPE_UINT64), le_bytes(n as nat, 8));
            lemma_stands_le(buf, p, TYPE_UINT64 as nat, 4);
            lemma_stands_le(buf, p + 4, n as nat, 8);
        },
        Model::Double(n) => {
            lemma_stands_split(buf, p, tag(TYPE_DOUBLE), le_bytes(n as nat, 8));
            lemma_stands_le(buf, p, TYPE_DOUBLE as nat, 4);
            lemma_stands_le(buf, p + 4, n as nat, 8);
        },
        Model::Uuid(u) => {
            lemma_stands_split(buf, p, tag(TYPE_UUID), u);
            lemma_stands_le(buf, p, TYPE_UUID as nat, 4);
        },
        _ => {},
    }
}

#[verifier::spinoff_prover]
#[verifier::rlimit(40)]
proof fn lemma_blob_roundtrip(v: Model, buf: Seq<u8>, pos: nat)
    requires
        v is Data || v is String,
        wire_safe(v),
        buf.len() <= usize::MAX,
        stands_at(buf, pos as int, value_bytes(v)),
    ensures
        parse_value(buf, pos) == Parsed::Done(v, pos + value_bytes(v).len()),
{
    broadcast use crate::bytes::lemma_le_bytes_len;

    crate::bytes::lemma_byte_ranges();
    let p = pos as int;
    match v {
        Model::Data(data) => {
            let len = le_bytes(low32(data.len()), 4);
            let head = tag(TYPE_DATA) + len;
            lemma_stands_split(buf, p, head + data, zeros(padding(data.len())));
            lemma_stands_split(buf, p, head, data);
            lemma_stands_split(buf, p, tag(TYPE_DATA), len);
            lemma_stands_le(buf, p, TYPE_DATA as nat, 4);
            lemma_stands_le(buf, p + 4, low32(data.len()), 4);
        },
        Model::String(s) => {
            let raw = encode_utf8(s);
            let len = le_bytes(low32(raw.len() + 1), 4);
            let head = tag(TYPE_STRING) + len;
            let pad = zeros(padding(raw.len() + 1));
            lemma_stands_split(buf, p, head + raw + zeros(1), pad);
            lemma_stands_split(buf, p, head + raw, zeros(1));
            lemma_stands_split(buf, p, head, raw);
            lemma_stands_split(buf, p, tag(TYPE_STRING), len);
            lemma_stands_le(buf, p, TYPE_STRING as nat, 4);
            lemma_stands_le(buf, p + 4, low32(raw.len() + 1), 4);
            let field = buf.subrange(p + 8, p + 8 + raw.len() + 1);
            assert(field[raw.len() as int] == buf.subrange(
                p + 8 + raw.len(),
                p + 8 + raw.len() + 1,
            )[0]);
            assert(stands_at(field, 0, raw)) by {
                assert(field.subrange(0, raw.len() as int) =~= buf.subrange(
                    p + 8,
                    p + 8 + raw.len(),
                ));
            }
            lemma_nul_free_bytes(s);
            lemma_nul_behind(field, 0, raw);
            assert(until_nul(field) =~= raw);
            vstd::utf8::encode_utf8_valid_utf8(s);
            vstd::utf8::encode_utf8_decode_utf8(s);
        },
        _ => {},
    }
}

/// A value that stands in a buffer in its wire format is read back as it was.
#[verifier::spinoff_prover]
#[verifier::rlimit(40)]
pub proof fn lemma_value_roundtrip(v: Model, buf: Seq<u8>, pos: nat)
    requires
        wire_safe(v),
        buf.len() <= usize::MAX,
        stands_at(buf, pos as int, value_bytes(v)),
    ensures
        parse_value(buf, pos) == Parsed::Done(v, pos + value_bytes(v).len()),
    decreases v,
{
    broadcast use crate::bytes::lemma_le_bytes_len;

    crate::bytes::lemma_byte_ranges();
    let p = pos as int;
    match v {
        Model::Data(_) | Model::String(_) => {
            lemma_blob_roundtrip(v, buf, pos);
        },
        Model::Array(items) => {
            let inner = items_bytes(items);
            let size = le_bytes(4 + low32(inner.len()), 4);
            let count = le_bytes(low32(items.len()), 4);
            lemma_stands_split(buf, p, tag(TYPE_ARRAY) + size + count, inner);
            lemma_stands_split(buf, p, tag(TYPE_ARRAY) + size, count);
            lemma_stands_split(buf, p, tag(TYPE_ARRAY), size);
            lemma_stands_le(buf, p, TYPE_ARRAY as nat, 4);
            lemma_stands_le(buf, p + 4, 4 + low32(inner.len()), 4);
            lemma_stands_le(buf, p + 8, low32(items.len()), 4);
            lemma_items_roundtrip(items, buf, pos + 12);
        },
        Model::Dictionary(entries) => {
            let inner = entries_bytes(entries);
            let size = le_bytes(4 + low32(inner.len()), 4);
            let count = le_bytes(low32(entries.len()), 4);
            lemma_stands_split(buf, p, tag(TYPE_DICTIONARY) + size + count, inner);
            lemma_stands_split(buf, p, tag(TYPE_DICTIONARY) + size, count);
            lemma_stands_split(buf, p, tag(TYPE_DICTIONARY), size);
            lemma_stands_le(buf, p, TYPE_DICTIONARY as nat, 4);
            lemma_stands_le(buf, p + 4, 4 + low32(inner.len()), 4);
            lemma_stands_le(buf, p + 8, low32(entries.len()), 4);
            lemma_entries_roundtrip(entries, buf, pos + 12);
        },
        _ => {
            lemma_scalar_roundtrip(v, buf, pos);
        },
    }
}

proof fn lemma_items_roundtrip(items: Seq<Model>, buf: Seq<u8>, pos: nat)
    requires
        forall|i: int| 0 <= i < items.len() ==> wire_safe(#[trigger] items[i]),
        buf.len() <= usize::MAX,
        stands_at(buf, pos as int, items_bytes(items)),
    ensures
        parse_items(buf, pos, items.len()) == ParsedItems::Done(
            items,
            pos + items_bytes(items).len(),
        ),
    decreases items,
{
    if items.len() == 0 {
        assert(items =~= Seq::<Model>::empty());
    } else {
        let front = items.drop_last();
        lemma_stands_split(buf, pos as int, items_bytes(front), value_bytes(items.last()));
        assert forall|i: int| 0 <= i < front.len() implies wire_safe(#[trigger] front[i]) by {
            assert(wire_safe(items[i]));
        }
        lemma_items_roundtrip(front, buf, pos);
        assert(wire_safe(items[items.len() - 1]));
        lemma_value_roundtrip(items.last(), buf, pos + items_bytes(front).len());
        assert(items =~= front.push(items.last()));
    }
}

proof fn lemma_entries_roundtrip(entries: Seq<(Seq<char>, Model)>, buf: Seq<u8>, pos: nat)
    requires
        entries.distinct(),
        forall|i: int|
            0 <= i < entries.len() ==> nul_free((#[trigger] entries[i]).0) && wire_safe(
                entries[i].1,
            ),
        buf.len() <= usize::MAX,
        stands_at(buf, pos as int, entries_bytes(entries)),
    ensures
        parse_entries(buf, pos, entries.len()) == ParsedEntries::Done(
            entries,
            pos + entries_bytes(entries).len(),
        ),
    decreases entries,
{
    if entries.len() == 0 {
        assert(entries =~= Seq::<(Seq<char>, Model)>::empty());
    } else {
        let front = entries.drop_last();
        let last = entries.last();
        assert(last == entries[entries.len() - 1]);
        let raw = encode_utf8(last.0);
        let pad = zeros(padding(raw.len() + 1));
        lemma_stands_split(
            buf,
            pos as int,
            entries_bytes(front) + key_bytes(last.0),
            value_bytes(last.1),
        );
        lemma_stands_split(buf, pos as int, entries_bytes(front), key_bytes(last.0));
        let cur = pos + entries_bytes(front).len();
        lemma_stands_split(buf, cur as int, raw + zeros(1), pad);
        lemma_stands_split(buf, cur as int, raw, zeros(1));
        assert(buf[(cur + raw.len()) as int] == buf.subrange(
            (cur + raw.len()) as int,
            (cur + raw.len()) as int + 1,
        )[0]);
        assert forall|i: int| 0 <= i < front.len() implies nul_free((#[trigger] front[i]).0)
            && wire_safe(front[i].1) by {
            assert(nul_free(entries[i].0) && wire_safe(entries[i].1));
        }
        assert(front.distinct()) by {
            assert forall|i: int, j: int| 0 <= i < j < front.len() implies front[i].0
                != front[j].0 by {
                assert(entries[i].0 != entries[j].0);
            }
        }
        lemma_entries_roundtrip(front, buf, pos);
        lemma_nul_free_bytes(last.0);
        lemma_nul_behind(buf, cur as int, raw);
        vstd::utf8::encode_utf8_valid_utf8(last.0);
        vstd::utf8::encode_utf8_decode_utf8(last.0);
        assert(!front.has_key(last.0)) by {
            assert forall|i: int| 0 <= i < front.len() implies (#[trigger] front[i]).0
                != last.0 by {
                assert(entries[i].0 != entries[entries.len() - 1].0);
            }
        }
        lemma_value_roundtrip(last.1, buf, cur + key_bytes(last.0).len());
        assert(entries =~= front.push(last));
    }
}

/// Decoding an encoded message gives the message back and takes all of its
/// bytes, whatever follows them.
pub proof fn lemma_message_roundtrip(flags: u32, msg_id: u64, body: Option<Model>, rest: Seq<u8>)
    requires
        body is Some ==> wire_safe(body->0),
        message_bytes(flags, msg_id, body).len() + rest.len() <= usize::MAX,
    ensures
        parse_message(message_bytes(flags, msg_id, body) + rest) == (ParsedMessage::Done {
            flags,
            msg_id,
            body,
            consumed: message_bytes(flags, msg_id, body).len(),
        }),
{
    broadcast use crate::bytes::lemma_le_bytes_len;

    crate::bytes::lemma_byte_ranges();
    let whole = message_bytes(flags, msg_id, body);
    let buf = whole + rest;
    let payload = match body {
        Some(v) => le_bytes(PAYLOAD_MAGIC as nat, 4) + le_bytes(PAYLOAD_VERSION as nat, 4)
            + value_bytes(v),
        None => Seq::empty(),
    };
    let w1 = le_bytes(WRAPPER_MAGIC as nat, 4);
    let w2 = le_bytes(flags as nat, 4);
    let w3 = le_bytes(payload.len(), 8);
    let w4 = le_bytes(msg_id as nat, 8);
    assert(stands_at(buf, 0, whole)) by {
        assert(buf.subrange(0, whole.len() as int) =~= whole);
    }
    lemma_stands_split(buf, 0, w1 + w2 + w3 + w4, payload);
    lemma_stands_split(buf, 0, w1 + w2 + w3, w4);
    lemma_stands_split(buf, 0, w1 + w2, w3);
    lemma_stands_split(buf, 0, w1, w2);
    lemma_stands_le(buf, 0, WRAPPER_MAGIC as nat, 4);
    lemma_stands_le(buf, 4, flags as nat, 4);
    lemma_stands_le(buf, 8, payload.len(), 8);
    lemma_stands_le(buf, 16, msg_id as nat, 8);
    if let Some(v) = body {
        let p1 = le_bytes(PAYLOAD_MAGIC as nat, 4);
        let p2 = le_bytes(PAYLOAD_VERSION as nat, 4);
        assert(stands_at(payload, 0, payload)) by {
            assert(payload.subrange(0, payload.len() as int) =~= payload);
        }
        lemma_stands_split(payload, 0, p1 + p2, value_bytes(v));
        lemma_stands_split(payload, 0, p1, p2);
        lemma_stands_le(payload, 0, PAYLOAD_MAGIC as nat, 4);
        lemma_value_roundtrip(v, payload, 8);
    }
}

} // verus!
