//! Pictures of the screen, over the device link protocol.

use vstd::prelude::*;
use crate::bytes::{bits_of_i64, copy_bytes, i64_bits, i64_from_bits, i64_of_bits};
use crate::entries::Entries;
use crate::lockdown::error::Error;
use crate::proplist::{no_entries, trees, Dict, Plist, Tree};
use crate::text::{join2, own, quote, quoted, same_str};
use super::wire::{bad_length, check_length, plausible};

verus! {

/// The name of the service.
pub const SERVICE: &'static str = "com.apple.mobile.screenshotr";

/// Checks the length that a message states.
pub fn reply_len(len: u32) -> (ok: Result<usize, Error>)
    ensures
        if plausible(len, 33_554_432) {
            ok matches Ok(n) && n == len
        } else {
            ok matches Err(Error::Afc(t)) && t@ == bad_length(
                "screenshot: implausible message length "@,
                len,
            )
        },
{
    match check_length("screenshot: implausible message length ", len, 33_554_432) {
        Ok(n) => Ok(n),
        Err(t) => Err(Error::Afc(t)),
    }
}

/// The complaint that a message is not an array.
pub open spec fn no_array(context: Seq<char>) -> Seq<char> {
    "screenshot: expected array for "@ + context
}

fn as_array<'a>(v: &'a Plist, context: &str) -> (items: Result<&'a Vec<Plist>, Error>)
    ensures
        match v@.items() {
            Some(ts) => items matches Ok(a) && trees(a@) == ts,
            None => items matches Err(Error::Afc(t)) && t@ == no_array(context@),
        },
{
    match v.as_array() {
        Some(a) => Ok(a),
        None => Err(Error::Afc(join2("screenshot: expected array for ", context))),
    }
}

/// A version number: 300 where there is none. A negative number keeps its bits.
pub open spec fn version_in(items: Seq<Tree>) -> nat {
    if items.len() > 2 && items[2].items() is Some && items[2].items()->0.len() > 0 {
        let v = items[2].items()->0[0];
        match v.unsigned() {
            Some(n) => n as nat,
            None => match v.signed() {
                Some(i) => i64_bits(i),
                None => 300,
            },
        }
    } else {
        300
    }
}

/// The acceptance of a version.
pub open spec fn versions_ok(version: nat) -> Tree {
    Tree::Array(
        seq![
            Tree::String("DLMessageVersionExchange"@),
            Tree::String("DLVersionsOk"@),
            Tree::Integer(i64_of_bits(version) as int),
        ],
    )
}

fn version_of(items: &Vec<Plist>) -> (n: u64)
    ensures
        n == version_in(trees(items@)),
{
    if items.len() <= 2 {
        return 300;
    }
    assert(trees(items@)[2] == items@[2]@);
    match items[2].as_array() {
        Some(versions) => {
            if versions.len() == 0 {
                return 300;
            }
            assert(trees(versions@)[0] == versions@[0]@);
            match versions[0].as_unsigned_integer() {
                Some(n) => n,
                None => match versions[0].as_signed_integer() {
                    Some(i) => bits_of_i64(i),
                    None => 300,
                },
            }
        },
        None => 300,
    }
}

/// The answer to the first message of the device, which offers versions.
pub fn accept_version(msg: &Plist) -> (answer: Result<Plist, Error>)
    ensures
        match msg@.items() {
            Some(items) => answer matches Ok(p) && p@ == versions_ok(version_in(items)),
            None => answer matches Err(Error::Afc(t)) && t@ == no_array(
                "DLMessageVersionExchange"@,
            ),
        },
{
    match as_array(msg, "DLMessageVersionExchange") {
        Err(e) => Err(e),
        Ok(items) => {
            let version: u64 = version_of(items);
            let parts: Vec<Plist> = vec![
                Plist::text("DLMessageVersionExchange"),
                Plist::text("DLVersionsOk"),
                Plist::number(i64_from_bits(version)),
            ];
            assert(trees(parts@) =~= versions_ok(version as nat)->Array_0);
            Ok(Plist::array(parts))
        },
    }
}

/// The kind of a message: the text in front, empty where there is none.
pub open spec fn kind_of(items: Seq<Tree>) -> Seq<char> {
    if items.len() > 0 && items[0].text() is Some {
        items[0].text()->0
    } else {
        ""@
    }
}

/// The request for a picture.
pub open spec fn picture_request() -> Tree {
    Tree::Array(
        seq![
            Tree::String("DLMessageProcessMessage"@),
            Tree::Dictionary(
                no_entries().with("MessageType"@, Tree::String("ScreenShotRequest"@)),
            ),
        ],
    )
}

fn kind_text(items: &Vec<Plist>) -> (kind: String)
    ensures
        kind@ == kind_of(trees(items@)),
{
    if items.len() == 0 {
        return own("");
    }
    assert(trees(items@)[0] == items@[0]@);
    match items[0].as_string() {
        Some(s) => own(s),
        None => own(""),
    }
}

/// The request for a picture, once the device says that it is ready.
pub fn request_picture(ready: &Plist) -> (req: Result<Plist, Error>)
    ensures
        match ready@.items() {
            None => req matches Err(Error::Afc(t)) && t@ == no_array("DLMessageDeviceReady"@),
            Some(items) => if kind_of(items) == "DLMessageDeviceReady"@ {
                req matches Ok(p) && p@ == picture_request()
            } else {
                req matches Err(Error::Afc(t)) && t@
                    == "screenshot: expected DLMessageDeviceReady, got "@ + quoted(kind_of(items))
            },
        },
{
    let items: &Vec<Plist> = match as_array(ready, "DLMessageDeviceReady") {
        Ok(a) => a,
        Err(e) => {
            return Err(e);
        },
    };
    let kind: String = kind_text(items);
    if !same_str(kind.as_str(), "DLMessageDeviceReady") {
        return Err(
            Error::Afc(
                join2(
                    "screenshot: expected DLMessageDeviceReady, got ",
                    quote(kind.as_str()).as_str(),
                ),
            ),
        );
    }
    let mut d: Dict = Dict::new();
    d.put_str("MessageType", "ScreenShotRequest");
    let parts: Vec<Plist> = vec![Plist::text("DLMessageProcessMessage"), Plist::dict(d)];
    assert(trees(parts@) =~= picture_request()->Array_0);
    Ok(Plist::array(parts))
}

/// The picture in a reply, or why there is none.
pub open spec fn picture_in(t: Tree) -> Result<Seq<u8>, Seq<char>> {
    match t.items() {
        None => Err(no_array("ScreenShotReply"@)),
        Some(items) => if items.len() > 1 && items[1].entries() is Some {
            match items[1].entries()->0.lookup("ScreenShotData"@) {
                Some(Tree::Data(d)) => Ok(d),
                _ => Err("screenshot: no ScreenShotData in reply"@),
            }
        } else {
            Err("screenshot: missing payload dict in reply"@)
        },
    }
}

/// Takes the picture out of a reply.
pub fn picture(reply: &Plist) -> (png: Result<Vec<u8>, Error>)
    ensures
        match picture_in(reply@) {
            Ok(d) => png matches Ok(v) && v@ == d,
            Err(e) => png matches Err(Error::Afc(t)) && t@ == e,
        },
{
    let items: &Vec<Plist> = match as_array(reply, "ScreenShotReply") {
        Ok(a) => a,
        Err(e) => {
            return Err(e);
        },
    };
    if items.len() > 1 {
        assert(trees(items@)[1] == items@[1]@);
        if let Plist::Dictionary(d) = &items[1] {
            return match d.get("ScreenShotData") {
                Some(Plist::Data(b)) => Ok(copy_bytes(b.as_slice())),
                _ => Err(Error::Afc(own("screenshot: no ScreenShotData in reply"))),
            };
        }
    }
    Err(Error::Afc(own("screenshot: missing payload dict in reply")))
}

/// Which version is accepted: the first number of the third part of the offer, with its
/// sign, and 300 where there is none.
pub proof fn lemma_version(kind: Tree, more: Tree, first: Tree, rest: Seq<Tree>)
    ensures
        ({
            let offer = seq![kind, more, Tree::Array(seq![first] + rest)];
            let answer = versions_ok(version_in(offer));
            &&& answer matches Tree::Array(parts) && {
                &&& parts.len() == 3
                &&& parts[0] == Tree::String("DLMessageVersionExchange"@)
                &&& parts[1] == Tree::String("DLVersionsOk"@)
                &&& first matches Tree::Integer(n) ==> (i64::MIN <= n <= i64::MAX ==> parts[2]
                    == Tree::Integer(n))
                &&& !(first is Integer) ==> parts[2] == Tree::Integer(300)
            }
        }),
        version_in(seq![kind, more]) == 300,
{
    let items = seq![first] + rest;
    let offer = seq![kind, more, Tree::Array(items)];
    assert(items[0] == first);
    assert(offer[2].items() == Some(items));
}

/// The request for a picture is a message to process, of the type of requests for pictures.
pub proof fn lemma_picture_request()
    ensures
        picture_request() matches Tree::Array(parts) && {
            &&& parts.len() == 2
            &&& parts[0] == Tree::String("DLMessageProcessMessage"@)
            &&& parts[1] matches Tree::Dictionary(d)
            &&& d.lookup("MessageType"@) == Some(Tree::String("ScreenShotRequest"@))
        },
{
    broadcast use crate::entries::lemma_lookup_with;

}

/// The kind of a message is the text in front of it.
pub proof fn lemma_kinds(items: Seq<Tree>)
    ensures
        items.len() > 0 ==> (items[0] matches Tree::String(s) ==> kind_of(items) == s),
        items.len() == 0 || !(items[0] is String) ==> kind_of(items).len() == 0,
{
    reveal_strlit("");
}

/// The picture is the data under `ScreenShotData` in the dictionary that is the second
/// part of the reply; without it there is none.
pub proof fn lemma_picture(t: Tree)
    ensures
        match t {
            Tree::Array(items) => if items.len() > 1 {
                match items[1] {
                    Tree::Dictionary(d) => match d.lookup("ScreenShotData"@) {
                        Some(Tree::Data(png)) => picture_in(t) == Ok::<Seq<u8>, Seq<char>>(png),
                        _ => picture_in(t) is Err,
                    },
                    _ => picture_in(t) is Err,
                }
            } else {
                picture_in(t) is Err
            },
            _ => picture_in(t) is Err,
        },
{
}

/// A reply without a picture is refused for the outermost part that it lacks: the array,
/// the dictionary in its second place, or the data of the picture there.
pub proof fn lemma_picture_refusals(t: Tree, items: Seq<Tree>)
    ensures
        t.items() is None ==> picture_in(t)
            == Err::<Seq<u8>, Seq<char>>("screenshot: expected array for "@ + "ScreenShotReply"@),
        t.items() == Some(items) && (items.len() < 2 || items[1].entries() is None)
            ==> picture_in(t)
            == Err::<Seq<u8>, Seq<char>>("screenshot: missing payload dict in reply"@),
        t.items() == Some(items) && items.len() >= 2 && items[1].entries() is Some
            && items[1].data_at("ScreenShotData"@) is None
            ==> picture_in(t)
            == Err::<Seq<u8>, Seq<char>>("screenshot: no ScreenShotData in reply"@),
{
}

/// An offer that has no list of versions in its third part, or an empty one, is for version
/// 300.
pub proof fn lemma_no_version(kind: Tree, more: Tree, third: Tree)
    ensures
        version_in(seq![kind]) == 300,
        version_in(seq![kind, more, Tree::Array(Seq::empty())]) == 300,
        third.items() is None ==> version_in(seq![kind, more, third]) == 300,
{
}

} // verus!
