//! Activation of a device.

use vstd::prelude::*;
use crate::entries::Entries;
use crate::lockdown::error::Error;
use crate::proplist::{no_entries, Dict, Plist, Tree};
use crate::text::{join2, own};
use super::wire::{bad_length, check_length, plausible};

verus! {

/// The name of the service.
pub const SERVICE: &'static str = "com.apple.mobileactivationd";

/// Asks for the session that starts an activation.
pub fn session_info_request() -> (p: Plist)
    ensures
        p@ == Tree::Dictionary(
            no_entries().with("Command"@, Tree::String("CreateTunnel1SessionInfoRequest"@)),
        ),
{
    let mut d: Dict = Dict::new();
    d.put_str("Command", "CreateTunnel1SessionInfoRequest");
    Plist::dict(d)
}

/// Asks for what activates the device, given the answer of the rights service.
pub fn activation_info_request(drm_bytes: &[u8]) -> (p: Plist)
    ensures
        p@ == Tree::Dictionary(
            no_entries().with("Command"@, Tree::String("CreateActivationInfoRequest"@)).with(
                "Value"@,
                Tree::Data(drm_bytes@),
            ).with(
                "Options"@,
                Tree::Dictionary(no_entries().with("BasebandWaitCount"@, Tree::Integer(90))),
            ),
        ),
{
    let mut options: Dict = Dict::new();
    options.put("BasebandWaitCount", Plist::number(90));
    let mut d: Dict = Dict::new();
    d.put_str("Command", "CreateActivationInfoRequest");
    d.put("Value", Plist::bytes(drm_bytes));
    d.put("Options", Plist::dict(options));
    Plist::dict(d)
}

/// Hands the answer of the activation service to the device.
pub fn handle_activation_request(activation_response: &[u8], headers: Dict) -> (p: Plist)
    ensures
        p@ == Tree::Dictionary(
            no_entries().with(
                "Command"@,
                Tree::String("HandleActivationInfoWithSessionRequest"@),
            ).with("Value"@, Tree::Data(activation_response@)).with(
                "ActivationResponseHeaders"@,
                Tree::Dictionary(headers@),
            ),
        ),
{
    let mut d: Dict = Dict::new();
    d.put_str("Command", "HandleActivationInfoWithSessionRequest");
    d.put("Value", Plist::bytes(activation_response));
    d.put("ActivationResponseHeaders", Plist::dict(headers));
    Plist::dict(d)
}

/// Asks to deactivate the device.
pub fn deactivate_request() -> (p: Plist)
    ensures
        p@ == Tree::Dictionary(no_entries().with("Request"@, Tree::String("Deactivate"@))),
{
    let mut d: Dict = Dict::new();
    d.put_str("Request", "Deactivate");
    Plist::dict(d)
}

/// Checks the length that a reply states.
pub fn reply_len(len: u32) -> (ok: Result<usize, Error>)
    ensures
        if plausible(len, 8_388_608) {
            ok matches Ok(n) && n == len
        } else {
            ok matches Err(Error::Lockdown(t)) && t@ == bad_length(
                "activation: bad response length "@,
                len,
            )
        },
{
    match check_length("activation: bad response length ", len, 8_388_608) {
        Ok(n) => Ok(n),
        Err(t) => Err(Error::Lockdown(t)),
    }
}

/// The dictionary under `Value`, or a complaint.
pub open spec fn value_in(t: Tree, complaint: Seq<char>) -> Result<
    Seq<(Seq<char>, Tree)>,
    Seq<char>,
> {
    match t.at("Value"@) {
        Some(Tree::Dictionary(d)) => Ok(d),
        _ => Err(complaint),
    }
}

fn read_value(resp: &Plist, complaint: &str) -> (d: Result<Dict, Error>)
    ensures
        match value_in(resp@, complaint@) {
            Ok(v) => d matches Ok(got) && got@ == v,
            Err(e) => d matches Err(Error::Lockdown(t)) && t@ == e,
        },
{
    match resp.at("Value") {
        Some(Plist::Dictionary(d)) => Ok(d.dup()),
        _ => Err(Error::Lockdown(own(complaint))),
    }
}

/// The session that starts an activation, as a reply gives it.
pub fn session_info(resp: &Plist) -> (d: Result<Dict, Error>)
    ensures
        match value_in(resp@, "activation: no Value in session info response"@) {
            Ok(v) => d matches Ok(got) && got@ == v,
            Err(e) => d matches Err(Error::Lockdown(t)) && t@ == e,
        },
{
    read_value(resp, "activation: no Value in session info response")
}

/// What activates the device, as a reply gives it.
pub fn activation_info(resp: &Plist) -> (d: Result<Dict, Error>)
    ensures
        match value_in(resp@, "activation: no Value in activation info response"@) {
            Ok(v) => d matches Ok(got) && got@ == v,
            Err(e) => d matches Err(Error::Lockdown(t)) && t@ == e,
        },
{
    read_value(resp, "activation: no Value in activation info response")
}

/// Whether the device took the answer of the activation service.
pub fn activation_handled(resp: &Plist) -> (done: Result<(), Error>)
    ensures
        match resp@.text_at("Error"@) {
            Some(e) => done matches Err(Error::Lockdown(t)) && t@ == "handle activation: "@ + e,
            None => done matches Ok(()),
        },
{
    match resp.text_at("Error") {
        Some(e) => Err(Error::Lockdown(join2("handle activation: ", e))),
        None => Ok(()),
    }
}

/// What a reply gives is the dictionary under `Value`; without one there is a complaint.
pub proof fn lemma_value_in(d: Seq<(Seq<char>, Tree)>, complaint: Seq<char>)
    ensures
        match d.lookup("Value"@) {
            Some(Tree::Dictionary(v)) => value_in(Tree::Dictionary(d), complaint) == Ok::<
                Seq<(Seq<char>, Tree)>,
                Seq<char>,
            >(v),
            _ => value_in(Tree::Dictionary(d), complaint) == Err::<
                Seq<(Seq<char>, Tree)>,
                Seq<char>,
            >(complaint),
        },
{
}

} // verus!
