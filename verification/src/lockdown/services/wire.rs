//! What the services have in common: property lists behind a length.

use vstd::prelude::*;
use crate::framing::{carries, prefix, prefixed};
use crate::lockdown::error::Error;
use crate::proplist::format::{
    from_bytes, plist_error_text, plist_parse, plist_xml, to_xml, writable,
};
use crate::proplist::Plist;
use crate::text::{dec_u64, decimal, join2};

verus! {

/// The bytes of a message: its XML behind its length.
pub fn message(p: &Plist) -> (out: Result<Vec<u8>, Error>)
    ensures
        match plist_xml(p@) {
            Ok(xml) => out matches Ok(bytes) && bytes@ == prefixed(xml),
            Err(why) => out matches Err(Error::Plist(e)) && plist_error_text(e) == why,
        },
        writable(p@) ==> (out matches Ok(bytes) && carries(bytes@, p@)),
{
    match to_xml(p) {
        Ok(xml) => Ok(prefix(xml.as_slice())),
        Err(e) => Err(Error::Plist(e)),
    }
}

/// Reads the body of a message.
pub fn body(bytes: &[u8]) -> (p: Result<Plist, Error>)
    ensures
        match plist_parse(bytes@) {
            Ok(t) => p matches Ok(v) && v@ == t,
            Err(why) => p matches Err(Error::Plist(e)) && plist_error_text(e) == why,
        },
{
    match from_bytes(bytes) {
        Ok(p) => Ok(p),
        Err(e) => Err(Error::Plist(e)),
    }
}

/// Whether a length is above zero and not above a limit.
pub open spec fn plausible(len: u32, max: u32) -> bool {
    0 < len <= max
}

/// A complaint about a length.
pub open spec fn bad_length(what: Seq<char>, len: u32) -> Seq<char> {
    what + decimal(len as nat)
}

/// The complaint about a length that is not plausible.
pub fn check_length(what: &str, len: u32, max: u32) -> (ok: Result<usize, String>)
    ensures
        if plausible(len, max) {
            ok matches Ok(n) && n == len
        } else {
            ok matches Err(t) && t@ == bad_length(what@, len)
        },
{
    if len == 0 || len > max {
        Err(join2(what, dec_u64(len as u64).as_str()))
    } else {
        Ok(len as usize)
    }
}

/// A length is plausible from one up to the limit; a complaint about another ends with its
/// digits.
pub proof fn lemma_lengths(what: Seq<char>, len: u32, max: u32)
    ensures
        plausible(len, max) <==> 1 <= len && len <= max,
        bad_length(what, len).take(what.len() as int) == what,
        crate::text::digits_value(bad_length(what, len).skip(what.len() as int)) == len,
{
    assert(bad_length(what, len).take(what.len() as int) =~= what);
    assert(bad_length(what, len).skip(what.len() as int) =~= decimal(len as nat));
    crate::text::lemma_decimal_value(len as nat);
}

} // verus!
