//! The messages of a pairing: property lists behind their length.

use vstd::prelude::*;
use crate::bytes::copy_bytes;
use crate::entries::Entries;
use crate::framing::{carries, prefix, prefixed};
use crate::proplist::format::{
    error_text, from_bytes, plist_parse, plist_xml, shown, shown_tree, to_xml, writable,
};
use crate::proplist::{no_entries, Dict, Plist, Tree};
use crate::text::{join2, own};
use crate::tunnel::error::Error;
use crate::uuid::{hex_byte, put_hex};

verus! {

/// The version of the protocol.
pub const WIRE_PROTOCOL_VERSION: i64 = 19;

/// The bytes of a message: its XML behind its length.
pub fn send(msg: &Plist) -> (out: Result<Vec<u8>, Error>)
    ensures
        match plist_xml(msg@) {
            Ok(xml) => out matches Ok(bytes) && bytes@ == prefixed(xml),
            Err(why) => out matches Err(Error::Protocol(t)) && t@ == "plist encode: "@ + why,
        },
        writable(msg@) ==> (out matches Ok(bytes) && carries(bytes@, msg@)),
{
    match to_xml(msg) {
        Ok(xml) => Ok(prefix(xml.as_slice())),
        Err(e) => Err(Error::Protocol(join2("plist encode: ", error_text(&e).as_str()))),
    }
}

/// Reads the body of a message.
pub fn recv(body: &[u8]) -> (msg: Result<Plist, Error>)
    ensures
        match plist_parse(body@) {
            Ok(t) => msg matches Ok(p) && p@ == t,
            Err(why) => msg matches Err(Error::Protocol(t)) && t@ == "RemotePairing plist recv: "@
                + why,
        },
{
    match from_bytes(body) {
        Ok(p) => Ok(p),
        Err(e) => Err(
            Error::Protocol(join2("RemotePairing plist recv: ", error_text(&e).as_str())),
        ),
    }
}

/// The first message of the host.
pub open spec fn hello_tree() -> Tree {
    Tree::Dictionary(
        no_entries().with(
            "hostOptions"@,
            Tree::Dictionary(no_entries().with("attemptPairVerify"@, Tree::Boolean(true))),
        ).with("wireProtocolVersion"@, Tree::Integer(19)),
    )
}

/// The first message of the host. It asks to verify a pairing whether there is one
/// or not: the device does not answer a host that does not.
pub fn hello() -> (msg: Plist)
    ensures
        msg@ == hello_tree(),
{
    let mut options: Dict = Dict::new();
    options.put("attemptPairVerify", Plist::truth(true));
    let mut d: Dict = Dict::new();
    d.put("hostOptions", Plist::dict(options));
    d.put("wireProtocolVersion", Plist::number(WIRE_PROTOCOL_VERSION));
    Plist::dict(d)
}

/// A step of a pairing.
pub open spec fn pairing_tree(kind: Seq<char>, new_session: bool, data: Seq<u8>) -> Tree {
    Tree::Dictionary(
        no_entries().with(
            "pairingData"@,
            Tree::Dictionary(
                no_entries().with(
                    "_0"@,
                    Tree::Dictionary(no_entries().with("data"@, Tree::Data(data))),
                ),
            ),
        ).with("kind"@, Tree::String(kind)).with("startNewSession"@, Tree::Boolean(new_session)),
    )
}

/// Builds a step of a pairing.
pub fn pairing_message(kind: &str, new_session: bool, data: &[u8]) -> (msg: Plist)
    ensures
        msg@ == pairing_tree(kind@, new_session, data@),
{
    let mut data_dict: Dict = Dict::new();
    data_dict.put("data", Plist::bytes(data));
    let mut inner: Dict = Dict::new();
    inner.put("_0", Plist::dict(data_dict));
    let mut d: Dict = Dict::new();
    d.put("pairingData", Plist::dict(inner));
    d.put_str("kind", kind);
    d.put("startNewSession", Plist::truth(new_session));
    Plist::dict(d)
}

/// The data two levels down.
pub open spec fn nested_data(t: Tree, outer: Seq<char>, key: Seq<char>) -> Option<Seq<u8>> {
    match t.at(outer) {
        Some(a) => match a.at("_0"@) {
            Some(b) => b.data_at(key),
            None => None,
        },
        None => None,
    }
}

/// The data in a step of the device, or why there are none.
pub open spec fn pairing_data(t: Tree) -> Result<Seq<u8>, Seq<char>> {
    if t.entries() is None {
        Err("pairing response: not a dict"@)
    } else {
        match t.at("error"@) {
            Some(Tree::String(s)) => Err("RemotePairing error: "@ + s),
            Some(other) => Err("RemotePairing error: "@ + shown_tree(other)),
            None => match nested_data(t, "pairingData"@, "data"@) {
                Some(d) => Ok(d),
                None => Err("pairing response: no pairingData"@),
            },
        }
    }
}

/// Takes the data out of a step of the device.
pub fn read_pairing_data(msg: &Plist) -> (data: Result<Vec<u8>, Error>)
    ensures
        match pairing_data(msg@) {
            Ok(d) => data matches Ok(v) && v@ == d,
            Err(e) => data matches Err(Error::Protocol(t)) && t@ == e,
        },
{
    if msg.as_dictionary().is_none() {
        return Err(Error::Protocol(own("pairing response: not a dict")));
    }
    match msg.at("error") {
        Some(Plist::String(s)) => {
            return Err(Error::Protocol(join2("RemotePairing error: ", s.as_str())));
        },
        Some(other) => {
            return Err(Error::Protocol(join2("RemotePairing error: ", shown(other).as_str())));
        },
        None => {},
    }
    if let Some(a) = msg.at("pairingData") {
        if let Some(b) = a.at("_0") {
            if let Some(d) = b.data_at("data") {
                return Ok(copy_bytes(d));
            }
        }
    }
    Err(Error::Protocol(own("pairing response: no pairingData")))
}

/// Bytes in hexadecimal with commas between them.
pub open spec fn comma_hex(b: Seq<u8>) -> Seq<char>
    decreases b.len(),
{
    if b.len() == 0 {
        Seq::empty()
    } else if b.len() == 1 {
        hex_byte(b[0], false)
    } else {
        comma_hex(b.drop_last()) + ", "@ + hex_byte(b.last(), false)
    }
}

/// A list of bytes in hexadecimal.
pub open spec fn hex_list(b: Seq<u8>) -> Seq<char> {
    "["@ + comma_hex(b) + "]"@
}

proof fn lemma_one_byte(b: u8)
    ensures
        crate::uuid::hex_text(seq![b], false) == hex_byte(b, false),
{
    assert(seq![b].drop_last() =~= Seq::<u8>::empty());
    assert(crate::uuid::hex_text(Seq::<u8>::empty(), false) =~= Seq::<char>::empty());
    assert(crate::uuid::hex_text(seq![b], false) =~= hex_byte(b, false));
}

/// Two hexadecimal digits.
pub fn byte_text(b: u8) -> (s: String)
    ensures
        s@ == hex_byte(b, false),
{
    let one: Vec<u8> = vec![b];
    assert(one@ =~= seq![b]);
    let mut s: String = String::new();
    put_hex(&mut s, one.as_slice(), false);
    proof {
        lemma_one_byte(b);
    }
    assert(s@ =~= hex_byte(b, false));
    s
}

/// Writes a list of bytes in hexadecimal.
pub fn byte_list(b: &[u8]) -> (s: String)
    ensures
        s@ == hex_list(b@),
{
    let mut inner: String = String::new();
    let mut i: usize = 0;
    assert(inner@ =~= comma_hex(b@.take(0)));
    assert(b@.len() == b.len());
    while i < b.len()
        invariant
            b@.len() == b.len(),
            i <= b@.len(),
            inner@ == comma_hex(b@.take(i as int)),
        decreases b@.len() - i,
    {
        assert(b@.take(i + 1).drop_last() =~= b@.take(i as int));
        assert(b@.take(i + 1).last() == b@[i as int]);
        let next: String = byte_text(b[i]);
        if i == 0 {
            inner = next;
        } else {
            inner = crate::text::join3(inner.as_str(), ", ", next.as_str());
        }
        i += 1;
    }
    assert(b@.take(i as int) =~= b@);
    crate::text::join3("[", inner.as_str(), "]")
}

/// How a byte that may be missing is shown.
pub open spec fn shown_byte(b: Option<u8>) -> Seq<char> {
    match b {
        Some(n) => "Some("@ + hex_byte(n, false) + ")"@,
        None => "None"@,
    }
}

/// Shows a byte that may be missing.
pub fn show_byte(b: Option<u8>) -> (s: String)
    ensures
        s@ == shown_byte(b),
{
    match b {
        Some(n) => crate::text::join3("Some(", byte_text(n).as_str(), ")"),
        None => own("None"),
    }
}

/// The first message states the version of the protocol, and asks to verify a pairing.
pub proof fn lemma_hello_tells()
    ensures
        hello_tree() matches Tree::Dictionary(d) && {
            &&& d.lookup("wireProtocolVersion"@) == Some(Tree::Integer(19))
            &&& d.lookup("hostOptions"@) matches Some(Tree::Dictionary(options))
            &&& options.lookup("attemptPairVerify"@) == Some(Tree::Boolean(true))
        },
{
    broadcast use crate::entries::lemma_lookup_with;

    reveal_strlit("wireProtocolVersion");
    reveal_strlit("hostOptions");
    assert("wireProtocolVersion"@.len() == 19);
    assert("hostOptions"@.len() == 11);
}

/// A step of a pairing says its kind and whether it starts a session, and carries its data
/// where the data of a step are looked for.
pub proof fn lemma_pairing_tells(kind: Seq<char>, new_session: bool, data: Seq<u8>)
    ensures
        pairing_tree(kind, new_session, data) matches Tree::Dictionary(d) && {
            &&& d.lookup("kind"@) == Some(Tree::String(kind))
            &&& d.lookup("startNewSession"@) == Some(Tree::Boolean(new_session))
            &&& d.lookup("pairingData"@) matches Some(Tree::Dictionary(p))
            &&& p.lookup("_0"@) matches Some(Tree::Dictionary(q))
            &&& q.lookup("data"@) == Some(Tree::Data(data))
        },
        pairing_data(pairing_tree(kind, new_session, data)) == Ok::<Seq<u8>, Seq<char>>(data),
{
    broadcast use crate::entries::lemma_lookup_with;

    reveal_strlit("kind");
    reveal_strlit("startNewSession");
    reveal_strlit("pairingData");
    reveal_strlit("error");
    assert("kind"@.len() == 4);
    assert("startNewSession"@.len() == 15);
    assert("pairingData"@.len() == 11);
    assert("error"@.len() == 5);
}

/// The data of a step stand under `data` under `_0` under `pairingData`; an error that is
/// told takes their place.
pub proof fn lemma_pairing_data(d: Seq<(Seq<char>, Tree)>)
    ensures
        ({
            let t = Tree::Dictionary(d);
            match d.lookup("error"@) {
                Some(Tree::String(s)) => pairing_data(t) == Err::<Seq<u8>, Seq<char>>(
                    "RemotePairing error: "@ + s,
                ),
                Some(_) => pairing_data(t) is Err,
                None => match d.lookup("pairingData"@) {
                    Some(Tree::Dictionary(p)) => match p.lookup("_0"@) {
                        Some(Tree::Dictionary(q)) => match q.lookup("data"@) {
                            Some(Tree::Data(b)) => pairing_data(t) == Ok::<Seq<u8>, Seq<char>>(b),
                            _ => pairing_data(t) is Err,
                        },
                        _ => pairing_data(t) is Err,
                    },
                    _ => pairing_data(t) is Err,
                },
            }
        }),
{
}

/// A list of bytes is shown in brackets, two digits for each byte, with a comma and a space
/// between them.
pub proof fn lemma_hex_list(b: Seq<u8>, i: int)
    requires
        0 <= i < b.len(),
    ensures
        hex_list(b).len() == 4 * b.len(),
        hex_list(b)[0] == '[',
        hex_list(b).last() == ']',
        16 * crate::uuid::nibble(hex_list(b)[4 * i + 1]) + crate::uuid::nibble(
            hex_list(b)[4 * i + 2],
        ) == b[i],
        i > 0 ==> hex_list(b)[4 * i - 1] == ',' && hex_list(b)[4 * i] == ' ',
{
    reveal_strlit("[");
    reveal_strlit("]");
    lemma_comma_hex(b, i);
    let s = comma_hex(b);
    assert(hex_list(b)[4 * i + 1] == s[4 * i]);
    assert(hex_list(b)[4 * i + 2] == s[4 * i + 1]);
    if i > 0 {
        assert(hex_list(b)[4 * i - 1] == s[4 * i - 2]);
        assert(hex_list(b)[4 * i] == s[4 * i - 1]);
    }
}

proof fn lemma_comma_hex(b: Seq<u8>, i: int)
    requires
        0 <= i < b.len(),
    ensures
        comma_hex(b).len() == 4 * b.len() - 2,
        16 * crate::uuid::nibble(comma_hex(b)[4 * i]) + crate::uuid::nibble(
            comma_hex(b)[4 * i + 1],
        ) == b[i],
        i > 0 ==> comma_hex(b)[4 * i - 2] == ',' && comma_hex(b)[4 * i - 1] == ' ',
    decreases b.len(),
{
    reveal_strlit(", ");
    let s = comma_hex(b);
    if b.len() > 1 {
        let front = b.drop_last();
        let f = comma_hex(front);
        if i < front.len() {
            lemma_comma_hex(front, i);
            assert(s[4 * i] == f[4 * i]);
            assert(s[4 * i + 1] == f[4 * i + 1]);
            if i > 0 {
                assert(s[4 * i - 2] == f[4 * i - 2]);
                assert(s[4 * i - 1] == f[4 * i - 1]);
            }
        } else {
            lemma_comma_hex(front, 0);
            assert(s[4 * i] == hex_byte(b[i], false)[0]);
            assert(s[4 * i + 1] == hex_byte(b[i], false)[1]);
            assert(s[4 * i - 2] == ", "@[0]);
            assert(s[4 * i - 1] == ", "@[1]);
        }
    }
}

/// A step of the device is refused for not being a dictionary, for the error it tells, and
/// for carrying no data.
pub proof fn lemma_pairing_refusals(t: Tree, e: Seq<char>)
    ensures
        t.entries() is None ==> pairing_data(t)
            == Err::<Seq<u8>, Seq<char>>("pairing response: not a dict"@),
        t.entries() is Some && t.text_at("error"@) == Some(e)
            ==> pairing_data(t) == Err::<Seq<u8>, Seq<char>>("RemotePairing error: "@ + e),
        t.entries() is Some && t.at("error"@) is None
            && nested_data(t, "pairingData"@, "data"@) is None
            ==> pairing_data(t)
            == Err::<Seq<u8>, Seq<char>>("pairing response: no pairingData"@),
{
}

/// Bytes are listed in square brackets, each in hexadecimal, a comma and blank before each
/// but the first.
pub proof fn lemma_listed_bytes(b: Seq<u8>, n: u8)
    ensures
        hex_list(Seq::empty()) == "["@ + "]"@,
        hex_list(seq![n]) == "["@ + hex_byte(n, false) + "]"@,
        b.len() > 0 ==> hex_list(b.push(n))
            == hex_list(b).drop_last() + ", "@ + hex_byte(n, false) + "]"@,
        shown_byte(None) == "None"@,
        shown_byte(Some(n)) == "Some("@ + hex_byte(n, false) + ")"@,
{
    reveal_strlit("[");
    reveal_strlit("]");
    assert(b.push(n).drop_last() =~= b);
    assert(b.push(n).last() == n);
    assert("["@ + Seq::<char>::empty() + "]"@ =~= "["@ + "]"@);
    assert(hex_list(b).drop_last() =~= "["@ + comma_hex(b));
    assert("["@ + (comma_hex(b) + ", "@ + hex_byte(n, false)) + "]"@ =~= "["@ + comma_hex(b) + ", "@
        + hex_byte(n, false) + "]"@);
}

} // verus!
