//! XPC messages: the value tree that remote services exchange, and the message
//! that wraps it.

pub mod codec;
pub mod flags;
pub mod layout;

use vstd::prelude::*;
use crate::bytes::copy_bytes;
use crate::entries::Entries;
use crate::text::{own, same_str};

verus! {

/// First word of every message.
pub const WRAPPER_MAGIC: u32 = 0x29b0_0b92;

/// First word of every payload.
pub const PAYLOAD_MAGIC: u32 = 0x4213_3742;

/// Second word of every payload.
pub const PAYLOAD_VERSION: u32 = 5;

/// Why a buffer is not an XPC message.
#[derive(Clone, Copy, Debug, PartialEq, Eq, Structural)]
pub enum XpcError {
    /// The buffer ends before byte `need`.
    TooShort { need: usize, got: usize },
    /// A magic word is not the expected one.
    BadMagic(u32),
    /// A string or key is not terminated or not UTF-8.
    InvalidUtf8,
}

/// A value of the XPC object tree.
#[derive(Debug)]
pub enum Value {
    Null,
    Bool(bool),
    Int64(i64),
    Uint64(u64),
    /// A double, held as its IEEE 754 bit pattern.
    Double(u64),
    Data(Vec<u8>),
    String(String),
    Uuid([u8; 16]),
    Array(Vec<Value>),
    Dictionary(Dictionary),
}

/// String keys with values; no key occurs twice.
#[derive(Debug)]
pub struct Dictionary {
    entries: Vec<(String, Value)>,
}

/// The mathematical counterpart of [`Value`].
#[verifier::ext_equal]
pub enum Model {
    Null,
    Bool(bool),
    Int64(i64),
    Uint64(u64),
    Double(u64),
    Data(Seq<u8>),
    String(Seq<char>),
    Uuid(Seq<u8>),
    Array(Seq<Model>),
    Dictionary(Seq<(Seq<char>, Model)>),
}

impl Value {
    pub open spec fn model(self) -> Model
        decreases self,
    {
        match self {
            Value::Null => Model::Null,
            Value::Bool(b) => Model::Bool(b),
            Value::Int64(n) => Model::Int64(n),
            Value::Uint64(n) => Model::Uint64(n),
            Value::Double(bits) => Model::Double(bits),
            Value::Data(data) => Model::Data(data@),
            Value::String(s) => Model::String(s@),
            Value::Uuid(u) => Model::Uuid(u@),
            Value::Array(items) => Model::Array(
                Seq::new(
                    items@.len(),
                    |i: int|
                        if 0 <= i < items@.len() {
                            items@[i].model()
                        } else {
                            Model::Null
                        },
                ),
            ),
            Value::Dictionary(d) => Model::Dictionary(d.model()),
        }
    }
}

impl Dictionary {
    pub closed spec fn model(self) -> Seq<(Seq<char>, Model)>
        decreases self,
    {
        Seq::new(
            self.entries@.len(),
            |i: int|
                if 0 <= i < self.entries@.len() {
                    (self.entries@[i].0@, self.entries@[i].1.model())
                } else {
                    (Seq::empty(), Model::Null)
                },
        )
    }

    #[verifier::type_invariant]
    spec fn well_formed(self) -> bool {
        forall|i: int, j: int|
            0 <= i < j < self.entries@.len() ==> self.entries@[i].0@ != self.entries@[j].0@
    }
}

impl View for Value {
    type V = Model;

    open spec fn view(&self) -> Model {
        self.model()
    }
}

impl View for Dictionary {
    type V = Seq<(Seq<char>, Model)>;

    open spec fn view(&self) -> Seq<(Seq<char>, Model)> {
        self.model()
    }
}

impl Dictionary {
    /// A dictionary without entries.
    pub fn new() -> (d: Dictionary)
        ensures
            d@ == Seq::<(Seq<char>, Model)>::empty(),
    {
        let d = Dictionary { entries: Vec::new() };
        assert(d@ =~= Seq::<(Seq<char>, Model)>::empty());
        d
    }

    /// How many entries there are; each has a key of its own.
    pub fn len(&self) -> (n: usize)
        ensures
            n == self@.len(),
            self@.distinct(),
    {
        proof {
            use_type_invariant(self);
        }
        self.entries.len()
    }

    /// The key of the entry at `i`.
    pub fn key_at(&self, i: usize) -> (key: &str)
        requires
            i < self@.len(),
        ensures
            key@ == self@[i as int].0,
    {
        self.entries[i].0.as_str()
    }

    /// The value of the entry at `i`.
    pub fn value_at(&self, i: usize) -> (value: &Value)
        requires
            i < self@.len(),
        ensures
            value@ == self@[i as int].1,
            decreases_to!(self => value),
    {
        &self.entries[i].1
    }

    fn position(&self, key: &str) -> (at: Option<usize>)
        ensures
            at is Some <==> self@.has_key(key@),
            at is Some ==> at->0 < self@.len() && self@[at->0 as int].0 == key@,
    {
        let mut i: usize = 0;
        while i < self.entries.len()
            invariant
                i <= self.entries@.len(),
                forall|j: int| 0 <= j < i ==> (#[trigger] self@[j]).0 != key@,
            decreases self.entries@.len() - i,
        {
            if same_str(self.entries[i].0.as_str(), key) {
                assert(self@[i as int].0 == key@);
                return Some(i);
            }
            i += 1;
        }
        None
    }

    /// The value under `key`.
    pub fn get(&self, key: &str) -> (value: Option<&Value>)
        ensures
            value is Some <==> self@.lookup(key@) is Some,
            value is Some ==> self@.lookup(key@) == Some(value->0@),
    {
        proof {
            use_type_invariant(self);
            crate::entries::lemma_lookup_has_key(self@, key@);
        }
        match self.position(key) {
            Some(i) => {
                proof {
                    assert(self@.distinct());
                    crate::entries::lemma_lookup_at(self@, i as int);
                }
                Some(&self.entries[i].1)
            },
            None => None,
        }
    }

    /// Puts `value` under `key`, in the place of what was there.
    pub fn insert(&mut self, key: String, value: Value)
        ensures
            final(self)@ == old(self)@.with(key@, value@),
    {
        proof {
            use_type_invariant(&*self);
        }
        let ghost key_text = key@;
        let ghost model = value@;
        let found = self.position(key.as_str());
        let mut entries: Vec<(String, Value)> = Vec::new();
        core::mem::swap(&mut entries, &mut self.entries);
        let ghost before = entries@;
        match found {
            Some(i) => {
                entries[i] = (key, value);
            },
            None => {
                entries.push((key, value));
            },
        }
        proof {
            let was = old(self)@;
            assert forall|i: int, j: int| 0 <= i < j < entries@.len() implies entries@[i].0@
                != entries@[j].0@ by {
                if found is Some {
                    let at = found->0 as int;
                    assert(was[at].0 == before[at].0@);
                    assert(entries@[i].0@ == before[i].0@);
                    assert(entries@[j].0@ == before[j].0@);
                } else if j == before.len() {
                    assert(was[i].0 != key_text);
                }
            }
        }
        self.entries = entries;
        proof {
            let was = old(self)@;
            let is = self@;
            assert(is =~= was.with(key_text, model)) by {
                assert forall|i: int| 0 <= i < was.len() implies is[i] == was.with(
                    key_text,
                    model,
                )[i] by {
                    if found is Some {
                        let at = found->0 as int;
                        assert(was[at].0 == key_text);
                        if i != at {
                            assert(before[i].0@ != before[at].0@);
                            assert(was[i].0 != key_text);
                        }
                    }
                }
            }
        }
    }
}

fn dup_items(items: &Vec<Value>) -> (out: Vec<Value>)
    ensures
        models(out@) == models(items@),
    decreases items,
{
    let mut out: Vec<Value> = Vec::new();
    let mut i: usize = 0;
    while i < items.len()
        invariant
            i <= items@.len(),
            out@.len() == i,
            forall|j: int| 0 <= j < i ==> (#[trigger] out@[j])@ == items@[j]@,
        decreases items@.len() - i,
    {
        out.push(items[i].dup());
        i += 1;
    }
    assert(models(out@) =~= models(items@));
    out
}

impl Dictionary {
    /// A copy.
    pub fn dup(&self) -> (d: Dictionary)
        ensures
            d@ == self@,
        decreases self,
    {
        let mut out: Dictionary = Dictionary::new();
        let n: usize = self.len();
        let mut i: usize = 0;
        assert(out@ =~= self@.take(0));
        while i < n
            invariant
                n == self@.len(),
                self@.distinct(),
                i <= n,
                out@ == self@.take(i as int),
            decreases n - i,
        {
            let copy = self.value_at(i).dup();
            out.insert(own(self.key_at(i)), copy);
            proof {
                let front = self@.take(i as int);
                assert(!front.has_key(self@[i as int].0)) by {
                    assert forall|j: int| 0 <= j < front.len() implies (#[trigger] front[j]).0
                        != self@[i as int].0 by {
                        assert(self@[j].0 != self@[i as int].0);
                    }
                }
                assert(front.push(self@[i as int]) =~= self@.take(i + 1));
            }
            i += 1;
        }
        assert(self@.take(i as int) =~= self@);
        out
    }

    /// Puts a value under a literal key.
    pub fn put(&mut self, key: &str, value: Value)
        ensures
            final(self)@ == old(self)@.with(key@, value@),
    {
        self.insert(own(key), value);
    }

    /// Puts a string under a literal key.
    pub fn put_str(&mut self, key: &str, value: &str)
        ensures
            final(self)@ == old(self)@.with(key@, Model::String(value@)),
    {
        self.insert(own(key), Value::String(own(value)));
    }
}

impl Model {
    /// What `key` looks up, in a dictionary.
    pub open spec fn at(self, key: Seq<char>) -> Option<Model> {
        match self {
            Model::Dictionary(entries) => entries.lookup(key),
            _ => None,
        }
    }

    /// The text of a string.
    pub open spec fn text(self) -> Option<Seq<char>> {
        match self {
            Model::String(s) => Some(s),
            _ => None,
        }
    }

    /// The entries of a dictionary.
    pub open spec fn entries(self) -> Option<Seq<(Seq<char>, Model)>> {
        match self {
            Model::Dictionary(entries) => Some(entries),
            _ => None,
        }
    }
}

impl Value {
    /// A copy.
    pub fn dup(&self) -> (v: Value)
        ensures
            v@ == self@,
        decreases self,
    {
        match self {
            Value::Null => Value::Null,
            Value::Bool(b) => Value::Bool(*b),
            Value::Int64(n) => Value::Int64(*n),
            Value::Uint64(n) => Value::Uint64(*n),
            Value::Double(bits) => Value::Double(*bits),
            Value::Data(data) => Value::Data(copy_bytes(data.as_slice())),
            Value::String(s) => Value::String(own(s.as_str())),
            Value::Uuid(u) => Value::Uuid(*u),
            Value::Array(items) => {
                let out: Vec<Value> = dup_items(items);
                let v = Value::Array(out);
                assert(self@->Array_0 =~= models(items@));
                assert(v@->Array_0 =~= models(out@));
                v
            },
            Value::Dictionary(d) => Value::Dictionary(d.dup()),
        }
    }

    /// What `key` looks up, in a dictionary.
    pub fn at(&self, key: &str) -> (value: Option<&Value>)
        ensures
            value is Some <==> self@.at(key@) is Some,
            value is Some ==> self@.at(key@) == Some(value->0@),
    {
        match self {
            Value::Dictionary(d) => d.get(key),
            _ => None,
        }
    }

    /// The text of a string.
    pub fn as_str(&self) -> (text: Option<&str>)
        ensures
            text is Some <==> self@ is String,
            text is Some ==> self@ == Model::String(text->0@),
    {
        match self {
            Value::String(s) => Some(s.as_str()),
            _ => None,
        }
    }

    /// The number of an unsigned integer.
    pub fn as_u64(&self) -> (n: Option<u64>)
        ensures
            n is Some <==> self@ is Uint64,
            n is Some ==> self@ == Model::Uint64(n->0),
    {
        match self {
            Value::Uint64(n) => Some(*n),
            _ => None,
        }
    }

    /// The number of a signed integer.
    pub fn as_i64(&self) -> (n: Option<i64>)
        ensures
            n is Some <==> self@ is Int64,
            n is Some ==> self@ == Model::Int64(n->0),
    {
        match self {
            Value::Int64(n) => Some(*n),
            _ => None,
        }
    }

    /// The truth value of a boolean.
    pub fn as_bool(&self) -> (b: Option<bool>)
        ensures
            b is Some <==> self@ is Bool,
            b is Some ==> self@ == Model::Bool(b->0),
    {
        match self {
            Value::Bool(b) => Some(*b),
            _ => None,
        }
    }

    /// The bytes of a data value.
    pub fn as_data(&self) -> (data: Option<&[u8]>)
        ensures
            data is Some <==> self@ is Data,
            data is Some ==> self@ == Model::Data(data->0@),
    {
        match self {
            Value::Data(data) => Some(data.as_slice()),
            _ => None,
        }
    }

    /// The items of an array.
    pub fn as_array(&self) -> (items: Option<&Vec<Value>>)
        ensures
            items is Some <==> self@ is Array,
            items is Some ==> self@ == Model::Array(models(items->0@)),
    {
        match self {
            Value::Array(items) => {
                assert(self@->Array_0 =~= models(items@));
                Some(items)
            },
            _ => None,
        }
    }

    /// The entries of a dictionary.
    pub fn as_dict(&self) -> (d: Option<&Dictionary>)
        ensures
            d is Some <==> self@ is Dictionary,
            d is Some ==> self@ == Model::Dictionary(d->0@),
    {
        match self {
            Value::Dictionary(d) => Some(d),
            _ => None,
        }
    }
}

/// The models of the values in a sequence.
pub open spec fn models(items: Seq<Value>) -> Seq<Model> {
    items.map_values(|v: Value| v@)
}

/// A message: flags, an identifier and at most one value.
#[derive(Debug)]
pub struct Message {
    pub flags: u32,
    pub msg_id: u64,
    pub body: Option<Value>,
}

impl Message {
    /// The body's model, where there is one.
    pub open spec fn body_model(&self) -> Option<Model> {
        match self.body {
            Some(v) => Some(v@),
            None => None,
        }
    }

    /// A message that carries `body`.
    pub fn with_body(msg_id: u64, body: Value) -> (msg: Message)
        ensures
            msg.flags == 0x101,
            msg.msg_id == msg_id,
            msg.body == Some(body),
    {
        assert(0x1u32 | 0x100u32 == 0x101) by (bit_vector);
        Message { flags: flags::ALWAYS_SET | flags::DATA_PRESENT, msg_id, body: Some(body) }
    }

    /// A message without a body, as the streams are opened with.
    pub fn init(flags: u32) -> (msg: Message)
        ensures
            msg.flags == flags,
            msg.msg_id == 0,
            msg.body is None,
    {
        Message { flags, msg_id: 0, body: None }
    }
}

} // verus!
