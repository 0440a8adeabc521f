//! Errors of the multiplexer.

use plist::Error as PlistError;
use vstd::prelude::*;
use crate::proplist::format::{error_text, plist_error_text};
use crate::text::{dec_u64, decimal, join2, join3, own};
use super::types::{ProtoError, ResultCode};

verus! {

/// Why an exchange with the multiplexer fails.
#[derive(Debug)]
pub enum Error {
    Proto(ProtoError),
    ConnectFailed(ResultCode),
    Closed,
    RequestFailed(ResultCode),
    ConnectionClosed,
    Plist(PlistError),
}

impl ProtoError {
    /// What is wrong, in words.
    pub open spec fn words(self) -> Seq<char> {
        match self {
            ProtoError::Plist(e) => "plist error: "@ + plist_error_text(e),
            ProtoError::FrameTooShort { got, need } => "frame too short: got "@ + decimal(
                got as nat,
            ) + ", need "@ + decimal(need as nat),
            ProtoError::UnexpectedMessage(m) => "unexpected message type in response: "@ + m@,
        }
    }

    /// Says what is wrong.
    pub fn text(&self) -> (s: String)
        ensures
            s@ == self.words(),
    {
        match self {
            ProtoError::Plist(e) => join2("plist error: ", error_text(e).as_str()),
            ProtoError::FrameTooShort { got, need } => join2(
                join3(
                    "frame too short: got ",
                    dec_u64(*got as u64).as_str(),
                    ", need ",
                ).as_str(),
                dec_u64(*need as u64).as_str(),
            ),
            ProtoError::UnexpectedMessage(m) => join2(
                "unexpected message type in response: ",
                m.as_str(),
            ),
        }
    }
}

impl Error {
    /// What went wrong, in words.
    pub open spec fn words(self) -> Seq<char> {
        match self {
            Error::Proto(e) => "usbmuxd protocol error: "@ + e.words(),
            Error::ConnectFailed(c) => "usbmuxd connect failed: "@ + c.meaning(),
            Error::Closed => "usbmuxd closed connection unexpectedly"@,
            Error::RequestFailed(c) => "request failed: "@ + c.meaning(),
            Error::ConnectionClosed => "connection closed"@,
            Error::Plist(e) => "plist error: "@ + plist_error_text(e),
        }
    }

    /// Says what went wrong.
    pub fn text(&self) -> (s: String)
        ensures
            s@ == self.words(),
    {
        match self {
            Error::Proto(e) => join2("usbmuxd protocol error: ", e.text().as_str()),
            Error::ConnectFailed(c) => join2("usbmuxd connect failed: ", c.text().as_str()),
            Error::Closed => own("usbmuxd closed connection unexpectedly"),
            Error::RequestFailed(c) => join2("request failed: ", c.text().as_str()),
            Error::ConnectionClosed => own("connection closed"),
            Error::Plist(e) => join2("plist error: ", error_text(e).as_str()),
        }
    }
}

/// What is wrong is said behind what failed: the words of the inner error, the meaning of
/// the result, and the two lengths in digits.
pub proof fn lemma_words(e: ProtoError, c: ResultCode, got: usize, need: usize)
    ensures
        Error::Proto(e).words() == "usbmuxd protocol error: "@ + e.words(),
        Error::ConnectFailed(c).words() == "usbmuxd connect failed: "@ + c.meaning(),
        Error::RequestFailed(c).words() == "request failed: "@ + c.meaning(),
        Error::Closed.words() == "usbmuxd closed connection unexpectedly"@,
        Error::ConnectionClosed.words() == "connection closed"@,
        e matches ProtoError::UnexpectedMessage(m) ==> e.words()
            == "unexpected message type in response: "@ + m@,
        e matches ProtoError::Plist(p) ==> e.words() == "plist error: "@ + plist_error_text(p),
        ({
            let t = (ProtoError::FrameTooShort { got, need }).words();
            let n = decimal(got as nat).len() as int;
            &&& t.take(21) == "frame too short: got "@
            &&& crate::text::digits_value(t.subrange(21, 21 + n)) == got
            &&& t.subrange(21 + n, 28 + n) == ", need "@
            &&& crate::text::digits_value(t.skip(28 + n)) == need
        }),
{
    reveal_strlit("frame too short: got ");
    reveal_strlit(", need ");
    let t = (ProtoError::FrameTooShort { got, need }).words();
    let n = decimal(got as nat).len() as int;
    assert(t.take(21) =~= "frame too short: got "@);
    assert(t.subrange(21, 21 + n) =~= decimal(got as nat));
    assert(t.subrange(21 + n, 28 + n) =~= ", need "@);
    assert(t.skip(28 + n) =~= decimal(need as nat));
    crate::text::lemma_decimal_value(got as nat);
    crate::text::lemma_decimal_value(need as nat);
}

} // verus!
