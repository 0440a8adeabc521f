//! Management: configuration of the setup, and the rights of a supervisor.

use vstd::prelude::*;
use crate::bytes::copy_bytes;
use crate::entries::Entries;
use crate::lockdown::error::Error;
use crate::proplist::{no_entries, Dict, Plist, Tree};
use crate::text::{join2, join3, own, quote, quoted, same_str};
use super::wire::{bad_length, check_length, plausible};

verus! {

/// The name of the service.
pub const SERVICE: &'static str = "com.apple.mobile.MCInstall";

/// The screens of the setup that can be skipped.
pub const SKIP_SETUP_KEYS: [&'static str; 66] = [
    "Accessibility",
    "AccessibilityAppearance",
    "ActionButton",
    "AgeAssurance",
    "AgeBasedSafetySettings",
    "Android",
    "Appearance",
    "AppleID",
    "AppStore",
    "Avatar",
    "Biometric",
    "CameraButton",
    "CloudStorage",
    "DeviceProtection",
    "DeviceToDeviceMigration",
    "Diagnostics",
    "Display",
    "EnableLockdownMode",
    "ExpressLanguage",
    "FileVault",
    "iCloudDiagnostics",
    "iCloudStorage",
    "iMessageAndFaceTime",
    "IntendedUser",
    "Intelligence",
    "Keyboard",
    "Language",
    "LanguageAndLocale",
    "Location",
    "LockdownMode",
    "MessagingActivationUsingPhoneNumber",
    "Multitasking",
    "OSShowCase",
    "Passcode",
    "Payment",
    "PreferredLanguage",
    "Privacy",
    "Region",
    "Registration",
    "Restore",
    "RestoreCompleted",
    "Safety",
    "SafetyAndHandling",
    "ScreenSaver",
    "ScreenTime",
    "SIMSetup",
    "Siri",
    "SoftwareUpdate",
    "SpokenLanguage",
    "TapToSetup",
    "TermsOfAddress",
    "Tips",
    "Tone",
    "TOS",
    "TouchID",
    "TrueToneDisplay",
    "TVHomeScreenSync",
    "TVProviderSignIn",
    "TVRoom",
    "UnlockWithWatch",
    "UpdateCompleted",
    "Wallpaper",
    "WatchMigration",
    "WebContentFiltering",
    "Welcome",
    "WiFi",
];

/// A request by its type.
pub open spec fn typed(name: Seq<char>) -> Seq<(Seq<char>, Tree)> {
    no_entries().with("RequestType"@, Tree::String(name))
}

/// A request without arguments: `Flush`, `GetCloudConfiguration`,
/// `HelloHostIdentifier` or `ProceedWithKeybagMigration`.
pub fn request(name: &str) -> (p: Plist)
    ensures
        p@ == Tree::Dictionary(typed(name@)),
{
    let mut d: Dict = Dict::new();
    d.put_str("RequestType", name);
    Plist::dict(d)
}

/// Hands over a configuration of the setup.
pub fn set_cloud_config_request(config: Dict) -> (p: Plist)
    ensures
        p@ == Tree::Dictionary(
            typed("SetCloudConfiguration"@).with(
                "CloudConfiguration"@,
                Tree::Dictionary(config@),
            ),
        ),
{
    let mut d: Dict = Dict::new();
    d.put_str("RequestType", "SetCloudConfiguration");
    d.put("CloudConfiguration", Plist::dict(config));
    Plist::dict(d)
}

/// Asks for the rights of a supervisor.
pub fn escalate_request(supervisor_cert_der: &[u8]) -> (p: Plist)
    ensures
        p@ == Tree::Dictionary(
            typed("Escalate"@).with("SupervisorCertificate"@, Tree::Data(supervisor_cert_der@)),
        ),
{
    let mut d: Dict = Dict::new();
    d.put_str("RequestType", "Escalate");
    d.put("SupervisorCertificate", Plist::bytes(supervisor_cert_der));
    Plist::dict(d)
}

/// Answers the challenge of the device.
pub fn escalate_response_request(signed: &[u8]) -> (p: Plist)
    ensures
        p@ == Tree::Dictionary(
            typed("EscalateResponse"@).with("SignedRequest"@, Tree::Data(signed@)),
        ),
{
    let mut d: Dict = Dict::new();
    d.put_str("RequestType", "EscalateResponse");
    d.put("SignedRequest", Plist::bytes(signed));
    Plist::dict(d)
}

/// Checks the length that a reply states.
pub fn reply_len(len: u32) -> (ok: Result<usize, Error>)
    ensures
        if plausible(len, 8_388_608) {
            ok matches Ok(n) && n == len
        } else {
            ok matches Err(Error::Lockdown(t)) && t@ == bad_length(
                "MCInstall: bad response length "@,
                len,
            )
        },
{
    match check_length("MCInstall: bad response length ", len, 8_388_608) {
        Ok(n) => Ok(n),
        Err(t) => Err(Error::Lockdown(t)),
    }
}

/// The complaint about a status other than `Acknowledged`; a reply without a
/// status is no reason to complain.
pub open spec fn complaint(op: Seq<char>, t: Tree) -> Option<Seq<char>> {
    match t.text_at("Status"@) {
        None => None,
        Some(s) => if s == "Acknowledged"@ {
            None
        } else {
            Some(
                "MCInstall "@ + op + ": status "@ + quoted(s) + match t.text_at("Error"@) {
                    Some(e) => ": "@ + e,
                    None => Seq::empty(),
                },
            )
        },
    }
}

fn check_status(resp: &Plist, op: &str) -> (ok: Result<(), Error>)
    ensures
        match complaint(op@, resp@) {
            Some(text) => ok matches Err(Error::Lockdown(t)) && t@ == text,
            None => ok matches Ok(()),
        },
{
    match resp.text_at("Status") {
        None => Ok(()),
        Some(s) => {
            if same_str(s, "Acknowledged") {
                return Ok(());
            }
            let front: String = join2(
                join3("MCInstall ", op, ": status ").as_str(),
                quote(s).as_str(),
            );
            match resp.text_at("Error") {
                Some(e) => {
                    let detail: String = join2(": ", e);
                    Err(Error::Lockdown(join2(front.as_str(), detail.as_str())))
                },
                None => {
                    assert(front@ + Seq::<char>::empty() =~= front@);
                    Err(Error::Lockdown(front))
                },
            }
        },
    }
}

/// Whether a request was acknowledged.
pub fn acknowledged(resp: &Plist, op: &str) -> (ok: Result<(), Error>)
    ensures
        if resp@.entries() is None {
            ok matches Err(Error::Lockdown(t)) && t@ == "MCInstall "@ + op@
                + ": response not a dict"@
        } else {
            match complaint(op@, resp@) {
                Some(text) => ok matches Err(Error::Lockdown(t)) && t@ == text,
                None => ok matches Ok(()),
            }
        },
{
    if resp.as_dictionary().is_none() {
        return Err(Error::Lockdown(join3("MCInstall ", op, ": response not a dict")));
    }
    check_status(resp, op)
}

/// The configuration of the setup, as a reply gives it.
pub fn cloud_config(resp: &Plist) -> (config: Result<Dict, Error>)
    ensures
        match resp@.entries() {
            Some(d) => config matches Ok(v) && v@ == d,
            None => config matches Err(Error::Lockdown(t)) && t@
                == "MCInstall: GetCloudConfiguration response not a dict"@,
        },
{
    match resp.as_dictionary() {
        Some(d) => Ok(d.dup()),
        None => Err(
            Error::Lockdown(own("MCInstall: GetCloudConfiguration response not a dict")),
        ),
    }
}

/// The challenge of the device, or why there is none.
pub open spec fn challenge_in(t: Tree) -> Result<Seq<u8>, Seq<char>> {
    if t.entries() is None {
        Err("MCInstall Escalate: response not a dict"@)
    } else {
        match complaint("Escalate"@, t) {
            Some(text) => Err(text),
            None => match t.data_at("Challenge"@) {
                Some(d) => Ok(d),
                None => Err("MCInstall Escalate: no Challenge in response"@),
            },
        }
    }
}

/// Takes the challenge out of the reply to a supervisor's request.
pub fn escalation_challenge(resp: &Plist) -> (challenge: Result<Vec<u8>, Error>)
    ensures
        match challenge_in(resp@) {
            Ok(d) => challenge matches Ok(v) && v@ == d,
            Err(e) => challenge matches Err(Error::Lockdown(t)) && t@ == e,
        },
{
    if resp.as_dictionary().is_none() {
        return Err(Error::Lockdown(own("MCInstall Escalate: response not a dict")));
    }
    match check_status(resp, "Escalate") {
        Err(e) => {
            return Err(e);
        },
        Ok(()) => {},
    }
    match resp.data_at("Challenge") {
        Some(d) => Ok(copy_bytes(d)),
        None => Err(Error::Lockdown(own("MCInstall Escalate: no Challenge in response"))),
    }
}

/// A request names its type, and nothing else.
pub proof fn lemma_typed_tells(name: Seq<char>)
    ensures
        typed(name).len() == 1,
        typed(name).lookup("RequestType"@) == Some(Tree::String(name)),
{
    broadcast use crate::entries::lemma_lookup_with;

}

/// There is a complaint exactly if a status is told and is not `Acknowledged`; it shows the
/// status, and the error where one is told.
pub proof fn lemma_complaints(op: Seq<char>, d: Seq<(Seq<char>, Tree)>)
    ensures
        match d.lookup("Status"@) {
            Some(Tree::String(s)) => {
                &&& s == "Acknowledged"@ ==> complaint(op, Tree::Dictionary(d)) is None
                &&& s != "Acknowledged"@ ==> (complaint(op, Tree::Dictionary(d)) matches Some(t) && {
                    let head = "MCInstall "@ + op + ": status "@ + quoted(s);
                    &&& t.take(head.len() as int) == head
                    &&& d.lookup("Error"@) matches Some(Tree::String(e)) ==> t.skip(
                        head.len() as int,
                    ) == ": "@ + e
                    &&& !(d.lookup("Error"@) matches Some(Tree::String(_))) ==> t == head
                })
            },
            _ => complaint(op, Tree::Dictionary(d)) is None,
        },
{
    if let Some(Tree::String(s)) = d.lookup("Status"@) {
        if s != "Acknowledged"@ {
            let head = "MCInstall "@ + op + ": status "@ + quoted(s);
            let t = complaint(op, Tree::Dictionary(d))->0;
            assert(t.take(head.len() as int) =~= head);
            match d.lookup("Error"@) {
                Some(Tree::String(e)) => {
                    assert(t.skip(head.len() as int) =~= ": "@ + e);
                },
                _ => {
                    assert(t =~= head);
                },
            }
        }
    }
}

/// There is a challenge exactly if the reply is a dictionary without a complaint that holds
/// data under `Challenge`, and it is that data.
pub proof fn lemma_challenge(d: Seq<(Seq<char>, Tree)>)
    ensures
        ({
            let calm = !(d.lookup("Status"@) matches Some(Tree::String(s)) && s
                != "Acknowledged"@);
            match challenge_in(Tree::Dictionary(d)) {
                Ok(c) => calm && d.lookup("Challenge"@) == Some(Tree::Data(c)),
                Err(_) => !calm || !(d.lookup("Challenge"@) matches Some(Tree::Data(_))),
            }
        }),
{
}

/// An answer to an escalation that is no dictionary, or that carries no challenge though
/// the device does not complain, is refused for that.
pub proof fn lemma_challenge_refusals(t: Tree)
    ensures
        t.entries() is None ==> challenge_in(t)
            == Err::<Seq<u8>, Seq<char>>("MCInstall Escalate: response not a dict"@),
        t.entries() is Some && complaint("Escalate"@, t) is Some
            ==> challenge_in(t) == Err::<Seq<u8>, Seq<char>>(complaint("Escalate"@, t)->0),
        t.entries() is Some && complaint("Escalate"@, t) is None
            && t.data_at("Challenge"@) is None
            ==> challenge_in(t)
            == Err::<Seq<u8>, Seq<char>>("MCInstall Escalate: no Challenge in response"@),
{
}

} // verus!
