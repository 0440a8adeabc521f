//! The XML and binary formats of property lists, as the `plist` crate reads and
//! writes them.

use plist::Date;
use plist::Dictionary as OuterDictionary;
use plist::Error as PlistError;
use plist::Value as OuterValue;
use std::io::Cursor;
use std::time::{SystemTime, UNIX_EPOCH};
use vstd::prelude::*;
use crate::entries::Entries;
use crate::text::own;
use super::dates::{dates_are_fit, dates_fit};
use super::{no_entries, plain, trees, uid_free, Dict, Opaque, Plist, Tree};

verus! {

#[verifier::external_type_specification]
#[verifier::external_body]
pub struct ExValue(OuterValue);

#[verifier::external_type_specification]
#[verifier::external_body]
pub struct ExDictionary(OuterDictionary);

#[verifier::external_type_specification]
#[verifier::external_body]
pub struct ExError(PlistError);

/// The tree that a `plist::Value` is.
pub uninterp spec fn value_tree(v: OuterValue) -> Tree;

/// The entries that a `plist::Dictionary` holds, in the order of its iteration.
pub uninterp spec fn dictionary_entries(d: OuterDictionary) -> Seq<(Seq<char>, Tree)>;

/// What `plist::to_writer_xml` writes for a tree, or how it words its refusal.
pub uninterp spec fn plist_xml(t: Tree) -> Result<Seq<u8>, Seq<char>>;

/// What `plist::to_writer_binary` writes for a tree.
pub uninterp spec fn plist_binary(t: Tree) -> Seq<u8>;

/// The tree that `plist::Value::from_reader` reads from some bytes, or how it words its
/// refusal.
pub uninterp spec fn plist_read(bytes: Seq<u8>) -> Result<Tree, Seq<char>>;

/// How the `plist` crate words an error.
pub uninterp spec fn plist_error_text(e: PlistError) -> Seq<char>;

/// How the `Debug` format of the `plist` crate shows a tree.
pub uninterp spec fn shown_tree(t: Tree) -> Seq<char>;

/// The time of a date in a `plist::Value`: whether it is before 1970, and how many seconds
/// and nanoseconds from there.
pub uninterp spec fn date_time(v: OuterValue) -> Option<(bool, u64, u32)>;

/// The seconds from the start of the year 0 to 1970.
pub const BEFORE_1970: u64 = 62_167_219_200;

/// The seconds from 1970 to the end of the year 9999.
pub const AFTER_1970: u64 = 253_402_300_800;

/// Whether a time is in the years 0 to 9999, the only ones that can be shown.
pub open spec fn in_era(before: bool, secs: u64, nanos: u32) -> bool {
    if before {
        secs < BEFORE_1970 || (secs == BEFORE_1970 && nanos == 0)
    } else {
        secs < AFTER_1970
    }
}

/// Whether a `plist::Value` holds no date, or one that can be shown.
pub open spec fn date_shows(v: OuterValue) -> bool {
    match date_time(v) {
        Some((before, secs, nanos)) => in_era(before, secs, nanos),
        None => true,
    }
}

/// Whether every date in a tree can be shown.
pub open spec fn showable(t: Tree) -> bool
    decreases t,
{
    match t {
        Tree::Array(items) => forall|i: int|
            0 <= i < items.len() ==> showable(#[trigger] items[i]),
        Tree::Dictionary(entries) => forall|i: int|
            0 <= i < entries.len() ==> showable((#[trigger] entries[i]).1),
        Tree::Other(o) => date_shows(o.content()),
        _ => true,
    }
}

/// The tree in some bytes, or how they are refused. Dates that cannot be shown are.
#[verifier::opaque]
pub open spec fn plist_parse(bytes: Seq<u8>) -> Result<Tree, Seq<char>> {
    if !dates_fit(bytes) {
        Err("InvalidDateString"@)
    } else {
        match plist_read(bytes) {
            Ok(t) => if showable(t) {
                Ok(t)
            } else {
                Err("InvalidDateString"@)
            },
            Err(e) => Err(e),
        }
    }
}

/// Whether some bytes are read as a tree.
pub open spec fn reads_back(bytes: Seq<u8>, t: Tree) -> bool {
    plist_parse(bytes) == Ok::<Tree, Seq<char>>(t)
}

/// Whether some bytes are the XML of a tree, and are read as that tree again.
pub open spec fn is_xml(bytes: Seq<u8>, t: Tree) -> bool {
    plist_xml(t) == Ok::<Seq<u8>, Seq<char>>(bytes) && reads_back(bytes, t)
}

/// Whether some bytes are the binary form of a tree, and are read as that tree again.
pub open spec fn is_binary(bytes: Seq<u8>, t: Tree) -> bool {
    bytes == plist_binary(t) && bytes.len() > 0 && reads_back(bytes, t)
}

/// Whether a tree survives being written as XML: it holds neither object references nor
/// dates nor reals.
pub open spec fn writable(t: Tree) -> bool {
    plain(t) && uid_free(t)
}

/// The trees of the values in a sequence.
pub open spec fn value_trees(items: Seq<OuterValue>) -> Seq<Tree> {
    items.map_values(|v: OuterValue| value_tree(v))
}

/// The entries with their trees.
pub open spec fn pair_trees(items: Seq<(String, OuterValue)>) -> Seq<(Seq<char>, Tree)> {
    items.map_values(|e: (String, OuterValue)| (e.0@, value_tree(e.1)))
}

/// The variants of `plist::Value` that hold no other values: each becomes the
/// variant of the same name with the same content.
#[verifier::external_body]
fn leaf_value(p: &Plist) -> (v: OuterValue)
    requires
        p !is Array,
        p !is Dictionary,
    ensures
        value_tree(v) == p@,
{
    match p {
        Plist::Boolean(b) => OuterValue::Boolean(*b),
        Plist::Data(d) => OuterValue::Data(d.clone()),
        Plist::Int(n) => OuterValue::Integer((*n).into()),
        Plist::Uint(n) => OuterValue::Integer((*n).into()),
        Plist::String(s) => OuterValue::String(s.clone()),
        Plist::Uid(n) => OuterValue::Uid(plist::Uid::new(*n)),
        Plist::Other(o) => o.value.clone(),
        Plist::Array(_) | Plist::Dictionary(_) => OuterValue::Boolean(false),
    }
}

/// `plist::Value::Array` holds the given values.
#[verifier::external_body]
fn array_value(items: Vec<OuterValue>) -> (v: OuterValue)
    ensures
        value_tree(v) == Tree::Array(value_trees(items@)),
{
    OuterValue::Array(items)
}

/// `plist::Value::Dictionary` holds the given dictionary.
#[verifier::external_body]
fn dictionary_value(d: OuterDictionary) -> (v: OuterValue)
    ensures
        value_tree(v) == Tree::Dictionary(dictionary_entries(d)),
{
    OuterValue::Dictionary(d)
}

/// `plist::Dictionary::new` makes a dictionary without entries.
#[verifier::external_body]
fn new_dictionary() -> (d: OuterDictionary)
    ensures
        dictionary_entries(d) == no_entries(),
{
    OuterDictionary::new()
}

/// `plist::Dictionary::insert` replaces the value of a key that is there, and
/// else adds the entry at the end.
#[verifier::external_body]
fn dictionary_insert(d: &mut OuterDictionary, key: String, v: OuterValue)
    ensures
        dictionary_entries(*final(d)) == dictionary_entries(*old(d)).with(key@, value_tree(v)),
{
    d.insert(key, v);
}

/// A `plist::Value` taken apart, one level deep.
enum Parts {
    Array(Vec<OuterValue>),
    Dictionary(Vec<(String, OuterValue)>),
    Boolean(bool),
    Data(Vec<u8>),
    Integer(Option<i64>, Option<u64>),
    String(String),
    Uid(u64),
    Other(OuterValue),
}

/// Matching on a `plist::Value` hands out what the variant holds. Iteration over a
/// `plist::Dictionary` gives its entries in order, no key twice;
/// `Integer::as_signed` and `Integer::as_unsigned` give the number where it fits,
/// and every number fits one of the two.
#[verifier::external_body]
fn take_apart(v: OuterValue) -> (parts: Parts)
    ensures
        match parts {
            Parts::Array(items) => value_tree(v) == Tree::Array(value_trees(items@)),
            Parts::Dictionary(entries) => value_tree(v) == Tree::Dictionary(pair_trees(entries@))
                && pair_trees(entries@).distinct(),
            Parts::Boolean(b) => value_tree(v) == Tree::Boolean(b),
            Parts::Data(d) => value_tree(v) == Tree::Data(d@),
            Parts::Integer(signed, unsigned) => value_tree(v) is Integer && signed == value_tree(
                v,
            ).signed() && unsigned == value_tree(v).unsigned() && (signed is Some
                || unsigned is Some),
            Parts::String(s) => value_tree(v) == Tree::String(s@),
            Parts::Uid(n) => value_tree(v) == Tree::Uid(n),
            Parts::Other(value) => value_tree(v) == Tree::Other(Opaque { value }),
        },
{
    match v {
        OuterValue::Array(items) => Parts::Array(items),
        OuterValue::Dictionary(d) => Parts::Dictionary(d.into_iter().collect()),
        OuterValue::Boolean(b) => Parts::Boolean(b),
        OuterValue::Data(d) => Parts::Data(d),
        OuterValue::Integer(n) => Parts::Integer(n.as_signed(), n.as_unsigned()),
        OuterValue::String(s) => Parts::String(s),
        OuterValue::Uid(n) => Parts::Uid(n.get()),
        value => Parts::Other(value),
    }
}

/// `plist::Value::as_date`, and the `SystemTime` that the date is, by its distance from
/// `UNIX_EPOCH`: they depend on the value alone.
#[verifier::external_body]
fn time_of(v: &OuterValue) -> (time: Option<(bool, u64, u32)>)
    ensures
        time == date_time(*v),
{
    v.as_date().map(|d| match SystemTime::from(d).duration_since(UNIX_EPOCH) {
        Ok(t) => (false, t.as_secs(), t.subsec_nanos()),
        Err(e) => (true, e.duration().as_secs(), e.duration().subsec_nanos()),
    })
}

fn can_show(v: &OuterValue) -> (yes: bool)
    ensures
        yes == date_shows(*v),
{
    match time_of(v) {
        Some((before, secs, nanos)) => if before {
            secs < BEFORE_1970 || (secs == BEFORE_1970 && nanos == 0)
        } else {
            secs < AFTER_1970
        },
        None => true,
    }
}

/// `plist::to_writer_xml` into a vector: the bytes, or the error, depend on the tree
/// alone. A tree is refused where it holds object references, and only there. Where it
/// holds neither dates nor reals `plist::Value::from_reader` reads it back.
#[verifier::external_body]
fn write_xml(v: &OuterValue) -> (out: Result<Vec<u8>, PlistError>)
    requires
        showable(value_tree(*v)),
    ensures
        match out {
            Ok(bytes) => plist_xml(value_tree(*v)) == Ok::<Seq<u8>, Seq<char>>(bytes@) && uid_free(
                value_tree(*v),
            ) && (plain(value_tree(*v)) ==> reads_back(bytes@, value_tree(*v))),
            Err(e) => plist_xml(value_tree(*v)) == Err::<Seq<u8>, Seq<char>>(plist_error_text(e))
                && !uid_free(value_tree(*v)),
        },
{
    let mut buf = Vec::new();
    plist::to_writer_xml(&mut buf, v).map(|_| buf)
}

/// `plist::to_writer_binary` into a vector, which refuses nothing: the bytes depend on the
/// tree alone and start with a magic number. Where the tree holds neither dates nor reals
/// `plist::Value::from_reader` reads it back.
#[verifier::external_body]
fn write_binary(v: &OuterValue) -> (out: Vec<u8>)
    requires
        showable(value_tree(*v)),
    ensures
        out@ == plist_binary(value_tree(*v)),
        out@.len() > 0,
        plain(value_tree(*v)) ==> reads_back(out@, value_tree(*v)),
{
    let mut buf = Vec::new();
    plist::to_writer_binary(&mut buf, v).expect("a vector takes all bytes");
    buf
}

/// `plist::Value::from_reader`: the value, or the error, depends on the bytes alone. It
/// brings each date to universal time, and panics where that is past the year 9999; the
/// bytes that may hold such a date stay out.
#[verifier::external_body]
fn read_value(bytes: &[u8]) -> (v: Result<OuterValue, PlistError>)
    requires
        dates_fit(bytes@),
    ensures
        match v {
            Ok(v) => plist_read(bytes@) == Ok::<Tree, Seq<char>>(value_tree(v)),
            Err(e) => plist_read(bytes@) == Err::<Tree, Seq<char>>(plist_error_text(e)),
        },
{
    OuterValue::from_reader(Cursor::new(bytes))
}

/// The `plist::Error` that `plist::Date::from_xml_format` gives for a text that is no date.
/// Its words are the name of its kind.
#[verifier::external_body]
fn bad_date() -> (e: PlistError)
    ensures
        plist_error_text(e) == "InvalidDateString"@,
{
    PlistError::from(Date::from_xml_format("").expect_err("an empty text is no date"))
}

/// The `Display` text of a `plist::Error` depends on the error alone.
#[verifier::external_body]
pub(crate) fn error_text(e: &PlistError) -> (text: String)
    ensures
        text@ == plist_error_text(*e),
{
    e.to_string()
}

/// The `Debug` format of `plist::Value`: a text that depends on the tree alone.
#[verifier::external_body]
fn debug_value(v: &OuterValue) -> (text: String)
    requires
        showable(value_tree(*v)),
    ensures
        text@ == shown_tree(value_tree(*v)),
{
    format!("{v:?}")
}

/// `Clone` of a `plist::Value` gives an equal value.
#[verifier::external_body]
fn dup_value(v: &OuterValue) -> (copy: OuterValue)
    ensures
        copy == *v,
{
    v.clone()
}

/// A copy of a date or a real number.
pub(crate) fn dup_opaque(o: &Opaque) -> (copy: Opaque)
    ensures
        copy == *o,
{
    proof {
        use_type_invariant(o);
    }
    Opaque { value: dup_value(&o.value) }
}

/// The value of the `plist` crate for a property list. Its dates can be shown.
pub fn to_value(p: &Plist) -> (v: OuterValue)
    ensures
        value_tree(v) == p@,
        showable(p@),
    decreases p,
{
    match p {
        Plist::Array(items) => {
            let out: Vec<OuterValue> = to_values(items);
            assert(p@->Array_0 =~= trees(items@));
            array_value(out)
        },
        Plist::Dictionary(d) => dictionary_value(to_dictionary(d)),
        Plist::Other(o) => {
            proof {
                use_type_invariant(o);
            }
            leaf_value(p)
        },
        _ => leaf_value(p),
    }
}

fn to_values(items: &Vec<Plist>) -> (out: Vec<OuterValue>)
    ensures
        value_trees(out@) == trees(items@),
        forall|i: int| 0 <= i < items@.len() ==> showable(#[trigger] trees(items@)[i]),
    decreases items,
{
    let mut out: Vec<OuterValue> = Vec::new();
    let mut i: usize = 0;
    assert(value_trees(out@) =~= trees(items@).take(0));
    while i < items.len()
        invariant
            i <= items@.len(),
            value_trees(out@) == trees(items@).take(i as int),
            forall|j: int| 0 <= j < i ==> showable(#[trigger] trees(items@)[j]),
        decreases items@.len() - i,
    {
        let ghost before = value_trees(out@);
        let v = to_value(&items[i]);
        out.push(v);
        i += 1;
        assert(value_trees(out@) =~= before.push(value_tree(v)));
        assert(value_trees(out@) =~= trees(items@).take(i as int));
    }
    assert(trees(items@).take(i as int) =~= trees(items@));
    out
}

fn to_dictionary(d: &Dict) -> (out: OuterDictionary)
    ensures
        dictionary_entries(out) == d@,
        forall|i: int| 0 <= i < d@.len() ==> showable((#[trigger] d@[i]).1),
    decreases d,
{
    let mut out: OuterDictionary = new_dictionary();
    let mut i: usize = 0;
    let n: usize = d.len();
    assert(dictionary_entries(out) =~= d@.take(0));
    while i < n
        invariant
            n == d@.len(),
            d@.distinct(),
            i <= n,
            dictionary_entries(out) == d@.take(i as int),
            forall|j: int| 0 <= j < i ==> showable((#[trigger] d@[j]).1),
        decreases n - i,
    {
        let v = to_value(d.value_at(i));
        dictionary_insert(&mut out, own(d.key_at(i)), v);
        proof {
            let front = d@.take(i as int);
            assert(!front.has_key(d@[i as int].0)) by {
                assert forall|j: int| 0 <= j < front.len() implies (#[trigger] front[j]).0
                    != d@[i as int].0 by {
                    assert(d@[j].0 != d@[i as int].0);
                }
            }
            assert(front.push(d@[i as int]) =~= d@.take(i + 1));
        }
        i += 1;
    }
    assert(d@.take(i as int) =~= d@);
    out
}

/// The property list that a value of the `plist` crate is. There is none where a date in
/// the value cannot be shown.
pub fn from_value(v: OuterValue) -> (p: Option<Plist>)
    ensures
        p is Some <==> showable(value_tree(v)),
        p matches Some(p) ==> p@ == value_tree(v),
    decreases value_tree(v),
{
    match take_apart(v) {
        Parts::Array(items) => {
            assert(decreases_to!(value_tree(v) => value_tree(v)->Array_0));
            match from_values(items) {
                Some(out) => {
                    let p = Plist::Array(out);
                    assert(p@->Array_0 =~= trees(out@));
                    Some(p)
                },
                None => None,
            }
        },
        Parts::Dictionary(entries) => {
            assert(decreases_to!(value_tree(v) => value_tree(v)->Dictionary_0));
            match from_pairs(entries) {
                Some(d) => Some(Plist::Dictionary(d)),
                None => None,
            }
        },
        Parts::Boolean(b) => Some(Plist::Boolean(b)),
        Parts::Data(d) => Some(Plist::Data(d)),
        Parts::Integer(signed, unsigned) => match signed {
            Some(n) => Some(Plist::Int(n)),
            None => match unsigned {
                Some(n) => Some(Plist::Uint(n)),
                None => Some(Plist::Int(0)),
            },
        },
        Parts::String(s) => Some(Plist::String(s)),
        Parts::Uid(n) => Some(Plist::Uid(n)),
        Parts::Other(value) => if can_show(&value) {
            Some(Plist::Other(Opaque { value }))
        } else {
            None
        },
    }
}

fn from_values(items: Vec<OuterValue>) -> (out: Option<Vec<Plist>>)
    ensures
        out is Some <==> showable(Tree::Array(value_trees(items@))),
        out matches Some(out) ==> trees(out@) == value_trees(items@),
    decreases value_trees(items@),
{
    let ghost all = items@;
    let ghost whole = value_trees(all);
    let mut rest: Vec<OuterValue> = items;
    let mut back: Vec<Plist> = Vec::new();
    while rest.len() > 0
        invariant
            all == items@,
            whole == value_trees(all),
            forall|i: int| rest@.len() <= i < all.len() ==> showable(#[trigger] whole[i]),
            rest@ == all.take(rest@.len() as int),
            rest@.len() + back@.len() == all.len(),
            rest@.len() <= all.len(),
            forall|i: int|
                0 <= i < back@.len() ==> (#[trigger] back@[i])@ == whole[all.len() - 1 - i],
        decreases rest@.len(),
    {
        let ghost last = rest@.len() - 1;
        if let Some(item) = rest.pop() {
            proof {
                assert(item == all[last]);
                assert(whole[last] == value_tree(item));
                assert(decreases_to!(whole => whole[last]));
            }
            match from_value(item) {
                Some(p) => {
                    back.push(p);
                },
                None => {
                    proof {
                        let t = Tree::Array(whole);
                        assert(!showable(t->Array_0[last]));
                        assert(!showable(t));
                    }
                    return None;
                },
            }
        }
    }
    let mut out: Vec<Plist> = Vec::new();
    while back.len() > 0
        invariant
            whole == value_trees(all),
            forall|i: int| 0 <= i < all.len() ==> showable(#[trigger] whole[i]),
            out@.len() + back@.len() == all.len(),
            forall|i: int|
                0 <= i < back@.len() ==> (#[trigger] back@[i])@ == whole[all.len() - 1 - i],
            forall|i: int| 0 <= i < out@.len() ==> (#[trigger] out@[i])@ == whole[i],
        decreases back@.len(),
    {
        if let Some(item) = back.pop() {
            out.push(item);
        }
    }
    assert(trees(out@) =~= whole);
    Some(out)
}

fn from_pairs(entries: Vec<(String, OuterValue)>) -> (out: Option<Dict>)
    requires
        pair_trees(entries@).distinct(),
    ensures
        out is Some <==> showable(Tree::Dictionary(pair_trees(entries@))),
        out matches Some(out) ==> out@ == pair_trees(entries@),
    decreases pair_trees(entries@),
{
    let ghost all = entries@;
    let ghost whole = pair_trees(all);
    let mut rest: Vec<(String, OuterValue)> = entries;
    let mut back: Vec<(String, Plist)> = Vec::new();
    while rest.len() > 0
        invariant
            all == entries@,
            whole == pair_trees(all),
            forall|i: int| rest@.len() <= i < all.len() ==> showable((#[trigger] whole[i]).1),
            rest@ == all.take(rest@.len() as int),
            rest@.len() + back@.len() == all.len(),
            rest@.len() <= all.len(),
            forall|i: int|
                0 <= i < back@.len() ==> ((#[trigger] back@[i]).0@, back@[i].1@)
                    == whole[all.len() - 1 - i],
        decreases rest@.len(),
    {
        let ghost last = rest@.len() - 1;
        if let Some((key, item)) = rest.pop() {
            proof {
                assert((key, item) == all[last]);
                assert(whole[last] == (key@, value_tree(item)));
                assert(decreases_to!(whole => whole[last]));
                assert(decreases_to!(whole[last] => whole[last].1));
            }
            match from_value(item) {
                Some(p) => {
                    back.push((key, p));
                },
                None => {
                    proof {
                        let t = Tree::Dictionary(whole);
                        assert(!showable(t->Dictionary_0[last].1));
                        assert(!showable(t));
                    }
                    return None;
                },
            }
        }
    }
    let mut out: Dict = Dict::new();
    assert(out@ =~= whole.take(0));
    while back.len() > 0
        invariant
            whole == pair_trees(all),
            whole.distinct(),
            forall|i: int| 0 <= i < all.len() ==> showable((#[trigger] whole[i]).1),
            out@.len() + back@.len() == all.len(),
            out@ == whole.take(out@.len() as int),
            forall|i: int|
                0 <= i < back@.len() ==> ((#[trigger] back@[i]).0@, back@[i].1@)
                    == whole[all.len() - 1 - i],
        decreases back@.len(),
    {
        let ghost n = out@.len() as int;
        let ghost was = out@;
        if let Some((key, item)) = back.pop() {
            let ghost k = key@;
            let ghost t = item@;
            assert((k, t) == whole[n]);
            out.insert(key, item);
            proof {
                assert(!was.has_key(k)) by {
                    assert forall|j: int| 0 <= j < was.len() implies (#[trigger] was[j]).0
                        != k by {
                        assert(whole[j].0 != whole[n].0);
                    }
                }
                assert(out@ =~= whole.take(n + 1));
            }
        }
    }
    assert(out@ =~= whole);
    Some(out)
}

/// Writes a property list as XML.
pub fn to_xml(p: &Plist) -> (out: Result<Vec<u8>, PlistError>)
    ensures
        match out {
            Ok(bytes) => plist_xml(p@) == Ok::<Seq<u8>, Seq<char>>(bytes@),
            Err(e) => plist_xml(p@) == Err::<Seq<u8>, Seq<char>>(plist_error_text(e)),
        },
        out is Ok <==> uid_free(p@),
        writable(p@) ==> (out matches Ok(bytes) && is_xml(bytes@, p@)),
{
    write_xml(&to_value(p))
}

/// Shows a property list to the user.
pub fn shown(p: &Plist) -> (text: String)
    ensures
        text@ == shown_tree(p@),
{
    debug_value(&to_value(p))
}

/// Writes a property list in the binary format.
pub fn to_binary(p: &Plist) -> (out: Vec<u8>)
    ensures
        out@ == plist_binary(p@),
        out@.len() > 0,
        plain(p@) ==> is_binary(out@, p@),
{
    write_binary(&to_value(p))
}

/// Reads a property list of either format. A date that cannot be shown is refused.
pub fn from_bytes(bytes: &[u8]) -> (p: Result<Plist, PlistError>)
    ensures
        match p {
            Ok(p) => reads_back(bytes@, p@),
            Err(e) => plist_parse(bytes@) == Err::<Tree, Seq<char>>(plist_error_text(e)),
        },
{
    proof {
        reveal(plist_parse);
    }
    if !dates_are_fit(bytes) {
        return Err(bad_date());
    }
    match read_value(bytes) {
        Ok(v) => match from_value(v) {
            Some(p) => Ok(p),
            None => Err(bad_date()),
        },
        Err(e) => Err(e),
    }
}

/// The years that can be shown are those from 0 to 9999: they start 719528 days before
/// 1970, and end where the year 10000 starts.
pub proof fn lemma_era(before: bool, secs: u64, nanos: u32)
    ensures
        before ==> (in_era(before, secs, nanos) <==> secs < 86400 * 719528 || (secs == 86400 * 719528
            && nanos == 0)),
        !before ==> (in_era(before, secs, nanos) <==> secs < 86400
            * crate::lockdown::calendar::year_start(10000)),
{
    crate::lockdown::calendar::lemma_year_start(10000);
}

/// A tree is handed out exactly if it is read and none of its dates is past what can be
/// shown; it is the tree that was read.
pub proof fn lemma_parsed(bytes: Seq<u8>)
    ensures
        match plist_parse(bytes) {
            Ok(t) => dates_fit(bytes) && plist_read(bytes) == Ok::<Tree, Seq<char>>(t) && showable(t),
            Err(why) => !dates_fit(bytes) || match plist_read(bytes) {
                Ok(t) => !showable(t) && why == "InvalidDateString"@,
                Err(e) => why == e,
            },
        },
        !dates_fit(bytes) ==> plist_parse(bytes) == Err::<Tree, Seq<char>>("InvalidDateString"@),
{
    reveal(plist_parse);
}

} // verus!
