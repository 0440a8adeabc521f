//! Connections over the wireless network.

use vstd::prelude::*;
use crate::entries::Entries;
use crate::lockdown::error::Error;
use crate::proplist::{no_entries, Dict, Plist, Tree};
use crate::text::{join2, join3};
use super::wire::{bad_length, check_length, plausible};

verus! {

/// The name of the service.
pub const SERVICE: &'static str = "com.apple.mobile.wireless_lockdown";

/// Asks whether connections are on.
pub fn get_wifi_request() -> (p: Plist)
    ensures
        p@ == Tree::Dictionary(no_entries().with("Request"@, Tree::String("GetWifiConnections"@))),
{
    let mut d: Dict = Dict::new();
    d.put_str("Request", "GetWifiConnections");
    Plist::dict(d)
}

/// Asks to turn connections on or off.
pub fn set_wifi_request(enabled: bool) -> (p: Plist)
    ensures
        p@ == Tree::Dictionary(
            no_entries().with("Request"@, Tree::String("EnableWifiConnections"@)).with(
                "EnableWifi"@,
                Tree::Boolean(enabled),
            ),
        ),
{
    let mut d: Dict = Dict::new();
    d.put_str("Request", "EnableWifiConnections");
    d.put("EnableWifi", Plist::truth(enabled));
    Plist::dict(d)
}

/// Checks the length that a reply states.
pub fn reply_len(len: u32) -> (ok: Result<usize, Error>)
    ensures
        if plausible(len, 1_048_576) {
            ok matches Ok(n) && n == len
        } else {
            ok matches Err(Error::Lockdown(t)) && t@ == bad_length(
                "wireless: bad response length "@,
                len,
            )
        },
{
    match check_length("wireless: bad response length ", len, 1_048_576) {
        Ok(n) => Ok(n),
        Err(t) => Err(Error::Lockdown(t)),
    }
}

/// Whether a request was refused.
pub fn check_error(resp: &Plist, op: &str) -> (ok: Result<(), Error>)
    ensures
        match resp@.text_at("Error"@) {
            Some(e) => ok matches Err(Error::Lockdown(t)) && t@ == "wireless "@ + op@ + ": "@ + e,
            None => ok matches Ok(()),
        },
{
    match resp.text_at("Error") {
        Some(e) => Err(Error::Lockdown(join2(join3("wireless ", op, ": ").as_str(), e))),
        None => Ok(()),
    }
}

/// Whether connections are on, as a reply says.
pub fn wifi_enabled(resp: &Plist) -> (on: Result<bool, Error>)
    ensures
        match resp@.text_at("Error"@) {
            Some(e) => on matches Err(Error::Lockdown(t)) && t@
                == "wireless "@ + "GetWifiConnections"@ + ": "@ + e,
            None => on matches Ok(b) && b == (resp@.truth_at("EnableWifi"@) == Some(true)),
        },
{
    match check_error(resp, "GetWifiConnections") {
        Err(e) => Err(e),
        Ok(()) => match resp.truth_at("EnableWifi") {
            Some(b) => Ok(b),
            None => Ok(false),
        },
    }
}

/// Whether connections were turned on or off.
pub fn wifi_set(resp: &Plist) -> (done: Result<(), Error>)
    ensures
        match resp@.text_at("Error"@) {
            Some(e) => done matches Err(Error::Lockdown(t)) && t@
                == "wireless "@ + "EnableWifiConnections"@ + ": "@ + e,
            None => done matches Ok(()),
        },
{
    check_error(resp, "EnableWifiConnections")
}

/// Says whether connections are on.
pub fn status_line(enabled: bool) -> (s: &'static str)
    ensures
        s@ == if enabled {
            "wifi connections: enabled"@
        } else {
            "wifi connections: disabled"@
        },
{
    if enabled {
        "wifi connections: enabled"
    } else {
        "wifi connections: disabled"
    }
}

} // verus!
