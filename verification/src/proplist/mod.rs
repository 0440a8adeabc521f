//! Property lists: a tree of the library's own, with the reading and writing of
//! the XML and binary formats left to the `plist` crate.

pub mod dates;
pub mod format;

use plist::Value as OuterValue;
use vstd::prelude::*;
use crate::bytes::copy_bytes;
use crate::entries::Entries;
use crate::text::{own, same_str};

verus! {

/// A property list.
#[derive(Debug)]
pub enum Plist {
    Array(Vec<Plist>),
    Dictionary(Dict),
    Boolean(bool),
    Data(Vec<u8>),
    Int(i64),
    Uint(u64),
    String(String),
    Uid(u64),
    Other(Opaque),
}

/// A date or a real number, carried along without being looked into.
#[derive(Debug)]
pub struct Opaque {
    pub(crate) value: OuterValue,
}

impl Opaque {
    /// The value that is carried along.
    pub closed spec fn content(self) -> OuterValue {
        self.value
    }

    /// A date can be shown.
    #[verifier::type_invariant]
    pub(crate) closed spec fn well_formed(self) -> bool {
        format::date_shows(self.value)
    }
}

/// String keys with property lists, in the order of their insertion; no key
/// occurs twice.
#[derive(Debug)]
pub struct Dict {
    entries: Vec<(String, Plist)>,
}

/// The mathematical counterpart of [`Plist`].
#[verifier::ext_equal]
pub enum Tree {
    Array(Seq<Tree>),
    Dictionary(Seq<(Seq<char>, Tree)>),
    Boolean(bool),
    Data(Seq<u8>),
    Integer(int),
    String(Seq<char>),
    Uid(u64),
    Other(Opaque),
}

impl Plist {
    pub open spec fn tree(self) -> Tree
        decreases self,
    {
        match self {
            Plist::Array(items) => Tree::Array(
                Seq::new(
                    items@.len(),
                    |i: int|
                        if 0 <= i < items@.len() {
                            items@[i].tree()
                        } else {
                            Tree::Boolean(false)
                        },
                ),
            ),
            Plist::Dictionary(d) => Tree::Dictionary(d.model()),
            Plist::Boolean(b) => Tree::Boolean(b),
            Plist::Data(data) => Tree::Data(data@),
            Plist::Int(n) => Tree::Integer(n as int),
            Plist::Uint(n) => Tree::Integer(n as int),
            Plist::String(s) => Tree::String(s@),
            Plist::Uid(n) => Tree::Uid(n),
            Plist::Other(o) => Tree::Other(o),
        }
    }
}

impl Dict {
    pub closed spec fn model(self) -> Seq<(Seq<char>, Tree)>
        decreases self,
    {
        Seq::new(
            self.entries@.len(),
            |i: int|
                if 0 <= i < self.entries@.len() {
                    (self.entries@[i].0@, self.entries@[i].1.tree())
                } else {
                    (Seq::empty(), Tree::Boolean(false))
                },
        )
    }

    #[verifier::type_invariant]
    spec fn well_formed(self) -> bool {
        forall|i: int, j: int|
            0 <= i < j < self.entries@.len() ==> self.entries@[i].0@ != self.entries@[j].0@
    }
}

impl View for Plist {
    type V = Tree;

    open spec fn view(&self) -> Tree {
        self.tree()
    }
}

impl View for Dict {
    type V = Seq<(Seq<char>, Tree)>;

    open spec fn view(&self) -> Seq<(Seq<char>, Tree)> {
        self.model()
    }
}

/// The trees of the property lists in a sequence.
pub open spec fn trees(items: Seq<Plist>) -> Seq<Tree> {
    items.map_values(|p: Plist| p@)
}

/// No entries.
pub open spec fn no_entries() -> Seq<(Seq<char>, Tree)> {
    Seq::empty()
}

impl Tree {
    /// The text of a string.
    pub open spec fn text(self) -> Option<Seq<char>> {
        match self {
            Tree::String(s) => Some(s),
            _ => None,
        }
    }

    /// The number of an integer that fits 64 unsigned bits.
    pub open spec fn unsigned(self) -> Option<u64> {
        match self {
            Tree::Integer(n) if 0 <= n <= u64::MAX => Some(n as u64),
            _ => None,
        }
    }

    /// The number of an integer that fits 64 signed bits.
    pub open spec fn signed(self) -> Option<i64> {
        match self {
            Tree::Integer(n) if i64::MIN <= n <= i64::MAX => Some(n as i64),
            _ => None,
        }
    }

    pub open spec fn truth(self) -> Option<bool> {
        match self {
            Tree::Boolean(b) => Some(b),
            _ => None,
        }
    }

    pub open spec fn data(self) -> Option<Seq<u8>> {
        match self {
            Tree::Data(d) => Some(d),
            _ => None,
        }
    }

    pub open spec fn items(self) -> Option<Seq<Tree>> {
        match self {
            Tree::Array(items) => Some(items),
            _ => None,
        }
    }

    pub open spec fn entries(self) -> Option<Seq<(Seq<char>, Tree)>> {
        match self {
            Tree::Dictionary(entries) => Some(entries),
            _ => None,
        }
    }

    /// What `key` looks up, in a dictionary.
    pub open spec fn at(self, key: Seq<char>) -> Option<Tree> {
        match self {
            Tree::Dictionary(entries) => entries.lookup(key),
            _ => None,
        }
    }

    /// The text under `key`.
    pub open spec fn text_at(self, key: Seq<char>) -> Option<Seq<char>> {
        match self.at(key) {
            Some(t) => t.text(),
            None => None,
        }
    }

    /// The unsigned number under `key`.
    pub open spec fn unsigned_at(self, key: Seq<char>) -> Option<u64> {
        match self.at(key) {
            Some(t) => t.unsigned(),
            None => None,
        }
    }

    /// The bytes under `key`.
    pub open spec fn data_at(self, key: Seq<char>) -> Option<Seq<u8>> {
        match self.at(key) {
            Some(t) => t.data(),
            None => None,
        }
    }

    /// The truth value under `key`.
    pub open spec fn truth_at(self, key: Seq<char>) -> Option<bool> {
        match self.at(key) {
            Some(t) => t.truth(),
            None => None,
        }
    }
}

/// Whether a tree holds neither dates nor reals.
pub open spec fn plain(t: Tree) -> bool
    decreases t,
{
    match t {
        Tree::Array(items) => forall|i: int| 0 <= i < items.len() ==> plain(#[trigger] items[i]),
        Tree::Dictionary(entries) => forall|i: int|
            0 <= i < entries.len() ==> plain((#[trigger] entries[i]).1),
        Tree::Other(_) => false,
        _ => true,
    }
}

/// Whether a tree holds no object references, which XML cannot express.
pub open spec fn uid_free(t: Tree) -> bool
    decreases t,
{
    match t {
        Tree::Array(items) => forall|i: int|
            0 <= i < items.len() ==> uid_free(#[trigger] items[i]),
        Tree::Dictionary(entries) => forall|i: int|
            0 <= i < entries.len() ==> uid_free((#[trigger] entries[i]).1),
        Tree::Uid(_) => false,
        _ => true,
    }
}

/// Whether every entry's value holds neither dates nor reals.
pub open spec fn plain_entries(entries: Seq<(Seq<char>, Tree)>) -> bool {
    forall|i: int| 0 <= i < entries.len() ==> plain((#[trigger] entries[i]).1)
}

/// Whether every entry's value holds no object references.
pub open spec fn uid_free_entries(entries: Seq<(Seq<char>, Tree)>) -> bool {
    forall|i: int| 0 <= i < entries.len() ==> uid_free((#[trigger] entries[i]).1)
}

pub broadcast proof fn lemma_plain_with(
    entries: Seq<(Seq<char>, Tree)>,
    key: Seq<char>,
    value: Tree,
)
    requires
        plain_entries(entries),
        plain(value),
    ensures
        plain_entries(#[trigger] entries.with(key, value)),
{
    let w = entries.with(key, value);
    assert forall|i: int| 0 <= i < w.len() implies plain((#[trigger] w[i]).1) by {
        if i < entries.len() {
            assert(plain(entries[i].1));
        }
    }
}

pub broadcast proof fn lemma_uid_free_with(
    entries: Seq<(Seq<char>, Tree)>,
    key: Seq<char>,
    value: Tree,
)
    requires
        uid_free_entries(entries),
        uid_free(value),
    ensures
        uid_free_entries(#[trigger] entries.with(key, value)),
{
    let w = entries.with(key, value);
    assert forall|i: int| 0 <= i < w.len() implies uid_free((#[trigger] w[i]).1) by {
        if i < entries.len() {
            assert(uid_free(entries[i].1));
        }
    }
}

fn dup_items(items: &Vec<Plist>) -> (out: Vec<Plist>)
    ensures
        trees(out@) == trees(items@),
    decreases items,
{
    let mut out: Vec<Plist> = Vec::new();
    let mut i: usize = 0;
    while i < items.len()
        invariant
            i <= items@.len(),
            out@.len() == i,
            forall|j: int| 0 <= j < i ==> (#[trigger] out@[j])@ == items@[j]@,
        decreases items@.len() - i,
    {
        out.push(items[i].dup());
        i += 1;
    }
    assert(trees(out@) =~= trees(items@));
    out
}

impl Dict {
    /// A copy.
    pub fn dup(&self) -> (d: Dict)
        ensures
            d@ == self@,
        decreases self,
    {
        let mut out: Dict = Dict::new();
        let n: usize = self.len();
        let mut i: usize = 0;
        assert(out@ =~= self@.take(0));
        while i < n
            invariant
                n == self@.len(),
                self@.distinct(),
                i <= n,
                out@ == self@.take(i as int),
            decreases n - i,
        {
            let copy = self.value_at(i).dup();
            out.insert(own(self.key_at(i)), copy);
            proof {
                let front = self@.take(i as int);
                assert(!front.has_key(self@[i as int].0)) by {
                    assert forall|j: int| 0 <= j < front.len() implies (#[trigger] front[j]).0
                        != self@[i as int].0 by {
                        assert(self@[j].0 != self@[i as int].0);
                    }
                }
                assert(front.push(self@[i as int]) =~= self@.take(i + 1));
            }
            i += 1;
        }
        assert(self@.take(i as int) =~= self@);
        out
    }

    /// A dictionary without entries.
    pub fn new() -> (d: Dict)
        ensures
            d@ == no_entries(),
    {
        let d = Dict { entries: Vec::new() };
        assert(d@ =~= no_entries());
        d
    }

    /// How many entries there are; each has a key of its own.
    pub fn len(&self) -> (n: usize)
        ensures
            n == self@.len(),
            self@.distinct(),
    {
        proof {
            use_type_invariant(self);
        }
        self.entries.len()
    }

    /// The key of the entry at `i`.
    pub fn key_at(&self, i: usize) -> (key: &str)
        requires
            i < self@.len(),
        ensures
            key@ == self@[i as int].0,
    {
        self.entries[i].0.as_str()
    }

    /// The value of the entry at `i`.
    pub fn value_at(&self, i: usize) -> (value: &Plist)
        requires
            i < self@.len(),
        ensures
            value@ == self@[i as int].1,
            decreases_to!(self => value),
    {
        &self.entries[i].1
    }

    fn position(&self, key: &str) -> (at: Option<usize>)
        ensures
            at is Some <==> self@.has_key(key@),
            at is Some ==> at->0 < self@.len() && self@[at->0 as int].0 == key@,
    {
        let mut i: usize = 0;
        while i < self.entries.len()
            invariant
                i <= self.entries@.len(),
                forall|j: int| 0 <= j < i ==> (#[trigger] self@[j]).0 != key@,
            decreases self.entries@.len() - i,
        {
            if same_str(self.entries[i].0.as_str(), key) {
                assert(self@[i as int].0 == key@);
                return Some(i);
            }
            i += 1;
        }
        None
    }

    /// The value under `key`.
    pub fn get(&self, key: &str) -> (value: Option<&Plist>)
        ensures
            value is Some <==> self@.lookup(key@) is Some,
            value is Some ==> self@.lookup(key@) == Some(value->0@),
    {
        proof {
            use_type_invariant(self);
            crate::entries::lemma_lookup_has_key(self@, key@);
        }
        match self.position(key) {
            Some(i) => {
                proof {
                    assert(self@.distinct());
                    crate::entries::lemma_lookup_at(self@, i as int);
                }
                Some(&self.entries[i].1)
            },
            None => None,
        }
    }

    /// Puts `value` under `key`, in the place of what was there.
    pub fn insert(&mut self, key: String, value: Plist)
        ensures
            final(self)@ == old(self)@.with(key@, value@),
    {
        proof {
            use_type_invariant(&*self);
        }
        let ghost key_text = key@;
        let ghost model = value@;
        let found = self.position(key.as_str());
        let mut entries: Vec<(String, Plist)> = Vec::new();
        core::mem::swap(&mut entries, &mut self.entries);
        let ghost before = entries@;
        match found {
            Some(i) => {
                entries[i] = (key, value);
            },
            None => {
                entries.push((key, value));
            },
        }
        proof {
            let was = old(self)@;
            assert forall|i: int, j: int| 0 <= i < j < entries@.len() implies entries@[i].0@
                != entries@[j].0@ by {
                if found is Some {
                    let at = found->0 as int;
                    assert(was[at].0 == before[at].0@);
                    assert(entries@[i].0@ == before[i].0@);
                    assert(entries@[j].0@ == before[j].0@);
                } else if j == before.len() {
                    assert(was[i].0 != key_text);
                }
            }
        }
        self.entries = entries;
        proof {
            let was = old(self)@;
            let is = self@;
            assert(is =~= was.with(key_text, model)) by {
                assert forall|i: int| 0 <= i < was.len() implies is[i] == was.with(
                    key_text,
                    model,
                )[i] by {
                    if found is Some {
                        let at = found->0 as int;
                        assert(was[at].0 == key_text);
                        if i != at {
                            assert(before[i].0@ != before[at].0@);
                            assert(was[i].0 != key_text);
                        }
                    }
                }
            }
        }
    }

    /// Puts a value under a literal key.
    pub fn put(&mut self, key: &str, value: Plist)
        ensures
            final(self)@ == old(self)@.with(key@, value@),
    {
        self.insert(own(key), value);
    }

    /// Puts a string under a literal key.
    pub fn put_str(&mut self, key: &str, value: &str)
        ensures
            final(self)@ == old(self)@.with(key@, Tree::String(value@)),
    {
        self.insert(own(key), Plist::String(own(value)));
    }
}

impl Plist {
    /// A copy.
    pub fn dup(&self) -> (p: Plist)
        ensures
            p@ == self@,
        decreases self,
    {
        match self {
            Plist::Array(items) => {
                let out: Vec<Plist> = dup_items(items);
                let p = Plist::Array(out);
                assert(self@->Array_0 =~= trees(items@));
                assert(p@->Array_0 =~= trees(out@));
                p
            },
            Plist::Dictionary(d) => Plist::Dictionary(d.dup()),
            Plist::Boolean(b) => Plist::Boolean(*b),
            Plist::Data(data) => Plist::Data(copy_bytes(data.as_slice())),
            Plist::Int(n) => Plist::Int(*n),
            Plist::Uint(n) => Plist::Uint(*n),
            Plist::String(s) => Plist::String(own(s.as_str())),
            Plist::Uid(n) => Plist::Uid(*n),
            Plist::Other(o) => Plist::Other(format::dup_opaque(o)),
        }
    }

    /// A string value.
    pub fn text(s: &str) -> (p: Plist)
        ensures
            p@ == Tree::String(s@),
    {
        Plist::String(own(s))
    }

    /// An object reference.
    pub fn uid(n: u64) -> (p: Plist)
        ensures
            p@ == Tree::Uid(n),
    {
        Plist::Uid(n)
    }

    /// A number.
    pub fn number(n: i64) -> (p: Plist)
        ensures
            p@ == Tree::Integer(n as int),
    {
        Plist::Int(n)
    }

    /// A truth value.
    pub fn truth(b: bool) -> (p: Plist)
        ensures
            p@ == Tree::Boolean(b),
    {
        Plist::Boolean(b)
    }

    /// An array.
    pub fn array(items: Vec<Plist>) -> (p: Plist)
        ensures
            p@ == Tree::Array(trees(items@)),
    {
        let p = Plist::Array(items);
        assert(p@->Array_0 =~= trees(items@));
        p
    }

    /// A dictionary.
    pub fn dict(d: Dict) -> (p: Plist)
        ensures
            p@ == Tree::Dictionary(d@),
    {
        Plist::Dictionary(d)
    }

    /// A data value.
    pub fn bytes(data: &[u8]) -> (p: Plist)
        ensures
            p@ == Tree::Data(data@),
    {
        Plist::Data(copy_bytes(data))
    }

    /// The text of a string.
    pub fn as_string(&self) -> (text: Option<&str>)
        ensures
            text is Some <==> self@.text() is Some,
            text is Some ==> self@.text() == Some(text->0@),
    {
        match self {
            Plist::String(s) => Some(s.as_str()),
            _ => None,
        }
    }

    /// The number of an integer that fits 64 unsigned bits.
    pub fn as_unsigned_integer(&self) -> (n: Option<u64>)
        ensures
            n == self@.unsigned(),
    {
        match self {
            Plist::Int(n) => if *n >= 0 {
                Some(*n as u64)
            } else {
                None
            },
            Plist::Uint(n) => Some(*n),
            _ => None,
        }
    }

    /// The number of an integer that fits 64 signed bits.
    pub fn as_signed_integer(&self) -> (n: Option<i64>)
        ensures
            n == self@.signed(),
    {
        match self {
            Plist::Int(n) => Some(*n),
            Plist::Uint(n) => if *n <= i64::MAX as u64 {
                Some(*n as i64)
            } else {
                None
            },
            _ => None,
        }
    }

    /// The truth value of a boolean.
    pub fn as_boolean(&self) -> (b: Option<bool>)
        ensures
            b == self@.truth(),
    {
        match self {
            Plist::Boolean(b) => Some(*b),
            _ => None,
        }
    }

    /// The bytes of a data value.
    pub fn as_data(&self) -> (data: Option<&[u8]>)
        ensures
            data is Some <==> self@.data() is Some,
            data is Some ==> self@.data() == Some(data->0@),
    {
        match self {
            Plist::Data(data) => Some(data.as_slice()),
            _ => None,
        }
    }

    /// The items of an array.
    pub fn as_array(&self) -> (items: Option<&Vec<Plist>>)
        ensures
            items is Some <==> self@.items() is Some,
            items is Some ==> self@.items() == Some(trees(items->0@)),
    {
        match self {
            Plist::Array(items) => {
                assert(self@->Array_0 =~= trees(items@));
                Some(items)
            },
            _ => None,
        }
    }

    /// The entries of a dictionary.
    pub fn as_dictionary(&self) -> (d: Option<&Dict>)
        ensures
            d is Some <==> self@.entries() is Some,
            d is Some ==> self@ == Tree::Dictionary(d->0@),
    {
        match self {
            Plist::Dictionary(d) => Some(d),
            _ => None,
        }
    }

    /// What `key` looks up, in a dictionary.
    pub fn at(&self, key: &str) -> (value: Option<&Plist>)
        ensures
            value is Some <==> self@.at(key@) is Some,
            value is Some ==> self@.at(key@) == Some(value->0@),
    {
        match self {
            Plist::Dictionary(d) => d.get(key),
            _ => None,
        }
    }

    /// The text under `key`.
    pub fn text_at(&self, key: &str) -> (text: Option<&str>)
        ensures
            text is Some <==> self@.text_at(key@) is Some,
            text is Some ==> self@.text_at(key@) == Some(text->0@),
    {
        match self.at(key) {
            Some(p) => p.as_string(),
            None => None,
        }
    }

    /// The unsigned number under `key`.
    pub fn unsigned_at(&self, key: &str) -> (n: Option<u64>)
        ensures
            n == self@.unsigned_at(key@),
    {
        match self.at(key) {
            Some(p) => p.as_unsigned_integer(),
            None => None,
        }
    }

    /// The bytes under `key`.
    pub fn data_at(&self, key: &str) -> (data: Option<&[u8]>)
        ensures
            data is Some <==> self@.data_at(key@) is Some,
            data is Some ==> self@.data_at(key@) == Some(data->0@),
    {
        match self.at(key) {
            Some(p) => p.as_data(),
            None => None,
        }
    }

    /// The truth value under `key`.
    pub fn truth_at(&self, key: &str) -> (b: Option<bool>)
        ensures
            b == self@.truth_at(key@),
    {
        match self.at(key) {
            Some(p) => p.as_boolean(),
            None => None,
        }
    }
}

/// What is read of a tree is what it holds, if it is of the kind that is asked for; numbers
/// have to fit.
pub proof fn lemma_readers(t: Tree, key: Seq<char>)
    ensures
        t.text() matches Some(s) ==> t == Tree::String(s),
        t matches Tree::String(s) ==> t.text() == Some(s),
        t.truth() matches Some(b) ==> t == Tree::Boolean(b),
        t matches Tree::Boolean(b) ==> t.truth() == Some(b),
        t.data() matches Some(d) ==> t == Tree::Data(d),
        t matches Tree::Data(d) ==> t.data() == Some(d),
        t.items() matches Some(i) ==> t == Tree::Array(i),
        t matches Tree::Array(i) ==> t.items() == Some(i),
        t.entries() matches Some(e) ==> t == Tree::Dictionary(e),
        t matches Tree::Dictionary(e) ==> t.entries() == Some(e) && t.at(key) == e.lookup(key),
        !(t is Dictionary) ==> t.at(key) is None,
        t.unsigned() matches Some(n) ==> t == Tree::Integer(n as int),
        t.signed() matches Some(n) ==> t == Tree::Integer(n as int),
        t matches Tree::Integer(n) ==> {
            &&& 0 <= n <= u64::MAX ==> (t.unsigned() matches Some(m) && m == n)
            &&& i64::MIN <= n <= i64::MAX ==> (t.signed() matches Some(m) && m == n)
        },
        t.at(key) matches Some(v) ==> {
            &&& t.text_at(key) == v.text()
            &&& t.data_at(key) == v.data()
            &&& t.truth_at(key) == v.truth()
            &&& t.unsigned_at(key) == v.unsigned()
        },
        t.at(key) is None ==> t.text_at(key) is None && t.data_at(key) is None && t.truth_at(
            key,
        ) is None && t.unsigned_at(key) is None,
{
}

/// Only dates and reals are not plain, and only object references are not free of them;
/// what holds others is as they are.
pub proof fn lemma_plain_trees(t: Tree, i: int)
    ensures
        t is Other ==> !plain(t) && uid_free(t),
        t is Uid ==> plain(t) && !uid_free(t),
        t is Boolean || t is Data || t is Integer || t is String ==> plain(t) && uid_free(t),
        t matches Tree::Array(items) ==> (0 <= i < items.len() ==> {
            &&& plain(t) ==> plain(items[i])
            &&& uid_free(t) ==> uid_free(items[i])
        }),
        t matches Tree::Dictionary(e) ==> (0 <= i < e.len() ==> {
            &&& plain(t) ==> plain(e[i].1)
            &&& uid_free(t) ==> uid_free(e[i].1)
        }),
        t matches Tree::Array(items) ==> (items.len() == 0 ==> plain(t) && uid_free(t)),
{
}

} // verus!
