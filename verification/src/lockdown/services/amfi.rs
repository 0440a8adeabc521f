//! Developer mode.

use vstd::prelude::*;
use crate::entries::Entries;
use crate::lockdown::error::Error;
use crate::proplist::{no_entries, Dict, Plist, Tree};
use crate::text::join2;
use super::wire::{bad_length, check_length, plausible};

verus! {

/// The name of the service.
pub const SERVICE: &'static str = "com.apple.amfi.lockdown";

/// Asks to turn developer mode on, or, without `enable`, whether it is on.
pub fn developer_mode_request(enable: bool) -> (p: Plist)
    ensures
        p@ == Tree::Dictionary(no_entries().with("EnableDeveloperMode"@, Tree::Boolean(enable))),
{
    let mut d: Dict = Dict::new();
    d.put("EnableDeveloperMode", Plist::truth(enable));
    Plist::dict(d)
}

/// Checks the length that a reply states.
pub fn reply_len(len: u32) -> (ok: Result<usize, Error>)
    ensures
        if plausible(len, 1_048_576) {
            ok matches Ok(n) && n == len
        } else {
            ok matches Err(Error::Lockdown(t)) && t@ == bad_length(
                "amfi: bad response length "@,
                len,
            )
        },
{
    match check_length("amfi: bad response length ", len, 1_048_576) {
        Ok(n) => Ok(n),
        Err(t) => Err(Error::Lockdown(t)),
    }
}

/// A flag in a reply, or that the request was refused.
pub open spec fn flag_in(what: Seq<char>, key: Seq<char>, t: Tree) -> Result<bool, Seq<char>> {
    match t.text_at("Error"@) {
        Some(e) => Err(what + e),
        None => Ok(t.truth_at(key) == Some(true)),
    }
}

fn read_flag(what: &str, key: &str, resp: &Plist) -> (on: Result<bool, Error>)
    ensures
        match flag_in(what@, key@, resp@) {
            Ok(b) => on matches Ok(v) && v == b,
            Err(e) => on matches Err(Error::Lockdown(t)) && t@ == e,
        },
{
    match resp.text_at("Error") {
        Some(e) => Err(Error::Lockdown(join2(what, e))),
        None => match resp.truth_at(key) {
            Some(b) => Ok(b),
            None => Ok(false),
        },
    }
}

/// Whether developer mode is on, as a reply says.
pub fn developer_mode_status(resp: &Plist) -> (on: Result<bool, Error>)
    ensures
        match flag_in("amfi status: "@, "DeveloperModeEnabled"@, resp@) {
            Ok(b) => on matches Ok(v) && v == b,
            Err(e) => on matches Err(Error::Lockdown(t)) && t@ == e,
        },
{
    read_flag("amfi status: ", "DeveloperModeEnabled", resp)
}

/// Whether the device has to restart for developer mode, as a reply says.
pub fn enable_developer_mode(resp: &Plist) -> (reboot: Result<bool, Error>)
    ensures
        match flag_in("amfi enable: "@, "RebootRequired"@, resp@) {
            Ok(b) => reboot matches Ok(v) && v == b,
            Err(e) => reboot matches Err(Error::Lockdown(t)) && t@ == e,
        },
{
    read_flag("amfi enable: ", "RebootRequired", resp)
}

/// A flag is the truth value under its key, false where there is none; an error that is
/// told stands behind what was tried.
pub proof fn lemma_flags(what: Seq<char>, key: Seq<char>, d: Seq<(Seq<char>, Tree)>)
    ensures
        match d.lookup("Error"@) {
            Some(Tree::String(e)) => flag_in(what, key, Tree::Dictionary(d)) == Err::<
                bool,
                Seq<char>,
            >(what + e),
            _ => match d.lookup(key) {
                Some(Tree::Boolean(b)) => flag_in(what, key, Tree::Dictionary(d)) == Ok::<
                    bool,
                    Seq<char>,
                >(b),
                _ => flag_in(what, key, Tree::Dictionary(d)) == Ok::<bool, Seq<char>>(false),
            },
        },
{
}

} // verus!
