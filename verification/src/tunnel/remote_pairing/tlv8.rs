//! Values under one-byte types, each behind a one-byte length. A value of more than
//! 255 bytes goes into several entries of its type.

use std::collections::HashMap;
use vstd::prelude::*;
use crate::bytes::{put_slice, sub_vec};

verus! {

pub const METHOD: u8 = 0x00;

pub const IDENTIFIER: u8 = 0x01;

pub const SALT: u8 = 0x02;

pub const PUBLIC_KEY: u8 = 0x03;

pub const PROOF: u8 = 0x04;

pub const ENCRYPTED_DATA: u8 = 0x05;

pub const STATE: u8 = 0x06;

pub const ERROR: u8 = 0x07;

pub const SIGNATURE: u8 = 0x0a;

pub const INFO: u8 = 0x11;

/// The bytes of a value.
pub open spec fn value_bytes(typ: u8, val: Seq<u8>) -> Seq<u8>
    decreases val.len(),
{
    if val.len() <= 255 {
        seq![typ, val.len() as u8] + val
    } else {
        seq![typ, 255u8] + val.take(255) + value_bytes(typ, val.skip(255))
    }
}

/// The bytes of some values, one after the other.
pub open spec fn encoded(entries: Seq<(u8, Seq<u8>)>) -> Seq<u8>
    decreases entries.len(),
{
    if entries.len() == 0 {
        Seq::empty()
    } else {
        encoded(entries.drop_last()) + value_bytes(entries.last().0, entries.last().1)
    }
}

/// The contents of some entries.
pub open spec fn entry_views(entries: Seq<(u8, &[u8])>) -> Seq<(u8, Seq<u8>)> {
    entries.map_values(|e: (u8, &[u8])| (e.0, e.1@))
}

fn put_value(out: &mut Vec<u8>, typ: u8, val: &[u8])
    ensures
        final(out)@ == old(out)@ + value_bytes(typ, val@),
{
    assert(val@.len() == val.len());
    let mut at: usize = 0;
    assert(val@.skip(0) =~= val@);
    while val.len() - at > 255
        invariant
            val@.len() == val.len(),
            at <= val@.len(),
            out@ + value_bytes(typ, val@.skip(at as int)) == old(out)@ + value_bytes(typ, val@),
        decreases val@.len() - at,
    {
        let ghost before = out@;
        let ghost rest = val@.skip(at as int);
        out.push(typ);
        out.push(255);
        let chunk: Vec<u8> = sub_vec(val, at, at + 255);
        put_slice(out, chunk.as_slice());
        assert(chunk@ =~= rest.take(255));
        assert(rest.skip(255) =~= val@.skip(at + 255));
        assert(out@ + value_bytes(typ, val@.skip(at + 255)) =~= before + value_bytes(typ, rest));
        at += 255;
    }
    let ghost before = out@;
    let ghost rest = val@.skip(at as int);
    out.push(typ);
    let n: usize = val.len() - at;
    out.push(n as u8);
    let chunk: Vec<u8> = sub_vec(val, at, val.len());
    put_slice(out, chunk.as_slice());
    assert(chunk@ =~= rest);
    assert(out@ =~= before + value_bytes(typ, rest));
}

/// Encodes values under their types.
pub fn encode(entries: &[(u8, &[u8])]) -> (out: Vec<u8>)
    ensures
        out@ == encoded(entry_views(entries@)),
{
    let mut out: Vec<u8> = Vec::new();
    let ghost all = entry_views(entries@);
    let mut i: usize = 0;
    assert(all.take(0) =~= Seq::<(u8, Seq<u8>)>::empty());
    assert(out@ =~= encoded(all.take(0)));
    assert(entries@.len() == entries.len());
    while i < entries.len()
        invariant
            entries@.len() == entries.len(),
            i <= entries@.len(),
            all == entry_views(entries@),
            out@ == encoded(all.take(i as int)),
        decreases entries@.len() - i,
    {
        put_value(&mut out, entries[i].0, entries[i].1);
        assert(all.take(i + 1).drop_last() =~= all.take(i as int));
        assert(all.take(i + 1).last() == all[i as int]);
        i += 1;
    }
    assert(all.take(i as int) =~= all);
    out
}

/// What is under a type: nothing where the type does not occur.
pub open spec fn under(m: Map<u8, Seq<u8>>, typ: u8) -> Seq<u8> {
    if m.contains_key(typ) {
        m[typ]
    } else {
        Seq::empty()
    }
}

/// A value behind what is already under its type.
pub open spec fn appended(m: Map<u8, Seq<u8>>, typ: u8, part: Seq<u8>) -> Map<u8, Seq<u8>> {
    m.insert(typ, under(m, typ) + part)
}

/// Where the first entry ends: at the latest where the bytes end.
pub open spec fn entry_end(data: Seq<u8>) -> int {
    if 2 + data[1] <= data.len() {
        2 + data[1]
    } else {
        data.len() as int
    }
}

/// The values in some bytes, put behind those in `m`.
pub open spec fn gathered(data: Seq<u8>, m: Map<u8, Seq<u8>>) -> Map<u8, Seq<u8>>
    decreases data.len(),
{
    if data.len() < 2 {
        m
    } else {
        let end = entry_end(data);
        gathered(data.skip(end), appended(m, data[0], data.subrange(2, end)))
    }
}

/// The values in some bytes.
pub open spec fn decoded(data: Seq<u8>) -> Map<u8, Seq<u8>> {
    gathered(data, Map::empty())
}

/// The contents of a map.
pub open spec fn contents(m: Map<u8, Vec<u8>>) -> Map<u8, Seq<u8>> {
    m.map_values(|v: Vec<u8>| v@)
}

/// Decodes values under their types; the parts of one value are put together.
pub fn decode(data: &[u8]) -> (map: HashMap<u8, Vec<u8>>)
    ensures
        contents(map@) == decoded(data@),
{
    broadcast use vstd::std_specs::hash::group_hash_axioms;

    let mut map: HashMap<u8, Vec<u8>> = HashMap::new();
    let mut i: usize = 0;
    assert(data@.len() == data.len());
    assert(data@.skip(0) =~= data@);
    assert(contents(map@) =~= Map::<u8, Seq<u8>>::empty());
    while data.len() - i >= 2
        invariant
            data@.len() == data.len(),
            i <= data@.len(),
            gathered(data@.skip(i as int), contents(map@)) == decoded(data@),
        decreases data@.len() - i,
    {
        broadcast use vstd::std_specs::hash::group_hash_axioms;

        let ghost rest = data@.skip(i as int);
        let ghost before = contents(map@);
        let typ: u8 = data[i];
        let len: usize = data[i + 1] as usize;
        let start: usize = i + 2;
        let end: usize = if data.len() - start < len {
            data.len()
        } else {
            start + len
        };
        let part: Vec<u8> = sub_vec(data, start, end);
        assert(part@ =~= rest.subrange(2, entry_end(rest)));
        let mut value: Vec<u8> = match map.remove(&typ) {
            Some(v) => v,
            None => Vec::new(),
        };
        assert(value@ =~= under(before, typ));
        put_slice(&mut value, part.as_slice());
        let ghost now = value@;
        map.insert(typ, value);
        assert(contents(map@) =~= before.insert(typ, now));
        assert(rest.skip(entry_end(rest)) =~= data@.skip(end as int));
        i = end;
    }
    map
}

/// The value under a type, if the type occurs.
pub fn find(map: &HashMap<u8, Vec<u8>>, key: u8) -> (value: Option<&Vec<u8>>)
    ensures
        match value {
            Some(v) => contents(map@).contains_key(key) && contents(map@)[key] == v@,
            None => !contents(map@).contains_key(key),
        },
{
    broadcast use vstd::std_specs::hash::group_hash_axioms;

    map.get(&key)
}

/// The first byte under a type.
pub open spec fn first_byte(m: Map<u8, Seq<u8>>, key: u8) -> Option<u8> {
    if m.contains_key(key) && m[key].len() > 0 {
        Some(m[key][0])
    } else {
        None
    }
}

/// The first byte of the value under a type.
pub fn get_u8(map: &HashMap<u8, Vec<u8>>, key: u8) -> (b: Option<u8>)
    ensures
        b == first_byte(contents(map@), key),
{
    match find(map, key) {
        Some(v) => if v.len() > 0 {
            Some(v[0])
        } else {
            None
        },
        None => None,
    }
}

/// Values put behind those in `m`, one after the other.
pub open spec fn all_appended(entries: Seq<(u8, Seq<u8>)>, m: Map<u8, Seq<u8>>) -> Map<
    u8,
    Seq<u8>,
>
    decreases entries.len(),
{
    if entries.len() == 0 {
        m
    } else {
        appended(all_appended(entries.drop_last(), m), entries.last().0, entries.last().1)
    }
}

proof fn lemma_value_gathered(typ: u8, val: Seq<u8>, rest: Seq<u8>, m: Map<u8, Seq<u8>>)
    ensures
        gathered(value_bytes(typ, val) + rest, m) == gathered(rest, appended(m, typ, val)),
    decreases val.len(),
{
    let data = value_bytes(typ, val) + rest;
    if val.len() <= 255 {
        assert(entry_end(data) == 2 + val.len());
        assert(data.skip(entry_end(data)) =~= rest);
        assert(data.subrange(2, entry_end(data)) =~= val);
    } else {
        let more = value_bytes(typ, val.skip(255)) + rest;
        assert(data[1] == 255);
        assert(entry_end(data) == 257);
        assert(data.skip(257) =~= more);
        assert(data.subrange(2, 257) =~= val.take(255));
        let m1 = appended(m, typ, val.take(255));
        lemma_value_gathered(typ, val.skip(255), rest, m1);
        assert(val =~= val.take(255) + val.skip(255));
        assert(under(m1, typ) + val.skip(255) =~= under(m, typ) + val);
        assert(appended(m1, typ, val.skip(255)) =~= appended(m, typ, val));
    }
}

proof fn lemma_gathered_concat(entries: Seq<(u8, Seq<u8>)>, rest: Seq<u8>, m: Map<u8, Seq<u8>>)
    ensures
        gathered(encoded(entries) + rest, m) == gathered(rest, all_appended(entries, m)),
    decreases entries.len(),
{
    if entries.len() == 0 {
        assert(encoded(entries) + rest =~= rest);
    } else {
        let last = entries.last();
        let tail = value_bytes(last.0, last.1) + rest;
        assert(encoded(entries) + rest =~= encoded(entries.drop_last()) + tail);
        lemma_gathered_concat(entries.drop_last(), tail, m);
        lemma_value_gathered(last.0, last.1, rest, all_appended(entries.drop_last(), m));
    }
}

/// What was encoded decodes to the same values, however long they are; values of one
/// type come out as one.
pub proof fn lemma_roundtrip(entries: Seq<(u8, Seq<u8>)>)
    ensures
        decoded(encoded(entries)) == all_appended(entries, Map::empty()),
{
    lemma_gathered_concat(entries, Seq::empty(), Map::empty());
    assert(encoded(entries) + Seq::<u8>::empty() =~= encoded(entries));
}

/// What stands where in the bytes of a value: its type, its length, and the value; of a
/// longer value 255 bytes at a time, each piece under the type again.
pub proof fn lemma_value_layout(typ: u8, val: Seq<u8>)
    ensures
        ({
            let b = value_bytes(typ, val);
            &&& b.len() >= 2
            &&& b[0] == typ
            &&& val.len() <= 255 ==> b.len() == 2 + val.len() && b[1] == val.len() && b.skip(2)
                == val
            &&& val.len() > 255 ==> b[1] == 255 && b.subrange(2, 257) == val.take(255) && b.skip(257)
                == value_bytes(typ, val.skip(255))
        }),
{
    let b = value_bytes(typ, val);
    if val.len() <= 255 {
        assert(b.skip(2) =~= val);
    } else {
        assert(b.subrange(2, 257) =~= val.take(255));
        assert(b.skip(257) =~= value_bytes(typ, val.skip(255)));
    }
}

/// Values are encoded one after the other.
pub proof fn lemma_encoded_in_order(entries: Seq<(u8, Seq<u8>)>, typ: u8, val: Seq<u8>)
    ensures
        encoded(entries.push((typ, val))) == encoded(entries) + value_bytes(typ, val),
        encoded(Seq::<(u8, Seq<u8>)>::empty()).len() == 0,
{
    assert(entries.push((typ, val)).drop_last() =~= entries);
}

/// Of values under types that all differ, each is found under its type, and nothing is
/// found under another.
pub proof fn lemma_found(entries: Seq<(u8, Seq<u8>)>, typ: u8)
    requires
        forall|i: int, j: int| 0 <= i < j < entries.len() ==> entries[i].0 != entries[j].0,
    ensures
        decoded(encoded(entries)).contains_key(typ) <==> exists|i: int|
            0 <= i < entries.len() && (#[trigger] entries[i]).0 == typ,
        forall|i: int|
            0 <= i < entries.len() ==> decoded(encoded(entries))[(#[trigger] entries[i]).0]
                == entries[i].1,
    decreases entries.len(),
{
    lemma_roundtrip(entries);
    if entries.len() > 0 {
        let front = entries.drop_last();
        let last = entries.last();
        assert forall|i: int, j: int| 0 <= i < j < front.len() implies front[i].0 != front[j].0 by {
            assert(entries[i].0 != entries[j].0);
        }
        lemma_found(front, typ);
        lemma_found(front, last.0);
        lemma_roundtrip(front);
        let m = all_appended(front, Map::empty());
        assert(!m.contains_key(last.0)) by {
            if m.contains_key(last.0) {
                let i = choose|i: int| 0 <= i < front.len() && (#[trigger] front[i]).0 == last.0;
                assert(entries[i].0 != entries[entries.len() - 1].0);
            }
        }
        assert(under(m, last.0) + last.1 =~= last.1);
        assert forall|i: int| 0 <= i < entries.len() implies decoded(encoded(entries))[(
        #[trigger] entries[i]).0] == entries[i].1 by {
            if i < front.len() {
                assert(front[i] == entries[i]);
                assert(entries[i].0 != entries[entries.len() - 1].0);
            }
        }
        if m.contains_key(typ) {
            let i = choose|i: int| 0 <= i < front.len() && (#[trigger] front[i]).0 == typ;
            assert(entries[i].0 == typ);
        }
        if typ == last.0 {
            assert(entries[entries.len() - 1].0 == typ);
        }
        if exists|i: int| 0 <= i < entries.len() && (#[trigger] entries[i]).0 == typ {
            let i = choose|i: int| 0 <= i < entries.len() && (#[trigger] entries[i]).0 == typ;
            if i < front.len() {
                assert(front[i].0 == typ);
            }
        }
    }
}

/// The first byte under a type, if there is one.
pub proof fn lemma_first_byte(m: Map<u8, Seq<u8>>, key: u8)
    ensures
        first_byte(m, key) is Some <==> m.contains_key(key) && m[key].len() > 0,
        first_byte(m, key) matches Some(b) ==> b == m[key][0],
{
}

/// The numbers of the types.
pub proof fn lemma_types()
    ensures
        METHOD == 0,
        IDENTIFIER == 1,
        SALT == 2,
        PUBLIC_KEY == 3,
        PROOF == 4,
        ENCRYPTED_DATA == 5,
        STATE == 6,
        ERROR == 7,
        SIGNATURE == 10,
        INFO == 17,
{
}

} // verus!
