//! Requests and answers in the encrypted stream: JSON values, as the `serde_json` crate
//! reads and writes them.

use serde_json::Value as JsonValue;
use vstd::prelude::*;
use crate::proplist::Plist;
use crate::text::{join2, own};
use crate::tunnel::error::Error;
use super::session::{answer_due, put_into_stream, RemotePairingSession};

verus! {

#[verifier::external_type_specification]
#[verifier::external_body]
pub struct ExJsonValue(JsonValue);

/// What `serde_json::to_vec` writes for a value.
pub uninterp spec fn json_bytes(v: JsonValue) -> Seq<u8>;

/// The value that `serde_json::from_slice` reads from some bytes, or how it words its
/// refusal.
pub uninterp spec fn json_parse(bytes: Seq<u8>) -> Result<JsonValue, Seq<char>>;

/// `serde_json::to_vec` of a `serde_json::Value`, which refuses none: the bytes depend on
/// the value alone.
#[verifier::external_body]
fn write_json(v: &JsonValue) -> (out: Vec<u8>)
    ensures
        out@ == json_bytes(*v),
{
    serde_json::to_vec(v).expect("every value can be written")
}

/// `serde_json::from_slice` into a `serde_json::Value`: the value, or the text of the
/// error, depends on the bytes alone.
#[verifier::external_body]
fn read_json(bytes: &[u8]) -> (v: Result<JsonValue, String>)
    ensures
        match v {
            Ok(v) => json_parse(bytes@) == Ok::<JsonValue, Seq<char>>(v),
            Err(e) => json_parse(bytes@) == Err::<JsonValue, Seq<char>>(e@),
        },
{
    serde_json::from_slice(bytes).map_err(|e| e.to_string())
}

/// Reads the text of an answer.
pub fn json_text(plain: &[u8]) -> (got: Result<JsonValue, Error>)
    ensures
        match json_parse(plain@) {
            Ok(v) => got == Ok::<JsonValue, Error>(v),
            Err(e) => got matches Err(Error::Protocol(t)) && t@ == "decrypt JSON: "@ + e,
        },
{
    match read_json(plain) {
        Ok(v) => Ok(v),
        Err(e) => Err(Error::Protocol(join2("decrypt JSON: ", e.as_str()))),
    }
}

/// Takes the value of an answer out of the stream.
pub fn json_answer(s: &RemotePairingSession, resp: &Plist, seq: u64) -> (got: Result<
    JsonValue,
    Error,
>)
    ensures
        match s.stream() {
            None => got matches Err(Error::Protocol(t)) && t@ == "no session key"@,
            Some((_, server)) => match answer_due(server, resp@, seq) {
                Ok(plain) => match json_parse(plain) {
                    Ok(v) => got == Ok::<JsonValue, Error>(v),
                    Err(e) => got matches Err(Error::Protocol(t)) && t@ == "decrypt JSON: "@ + e,
                },
                Err(e) => got matches Err(Error::Protocol(t)) && t@ == e,
            },
        },
{
    match s.open_answer(resp, seq) {
        Ok(plain) => json_text(plain.as_slice()),
        Err(e) => Err(e),
    }
}

impl RemotePairingSession {
    /// Puts a value into the stream. Without keys nothing is written.
    pub fn encrypted_request(&mut self, req: &JsonValue) -> (msg: Result<(Plist, u64), Error>)
        requires
            old(self).sent() < u64::MAX,
        ensures
            put_into_stream(*old(self), *final(self), json_bytes(*req), msg),
    {
        if !self.has_stream() {
            return Err(Error::Protocol(own("no session key")));
        }
        let plain: Vec<u8> = write_json(req);
        self.seal_request(plain.as_slice())
    }
}

} // verus!
