//! The question for the identity of a device, and its answer.

use vstd::prelude::*;
use crate::entries::Entries;
use crate::text::own;
use crate::xpc::{Dictionary, Model, Value};

verus! {

/// Asks which services there are.
pub fn list_services_request() -> (v: Value)
    ensures
        v@ == Model::Dictionary(
            Seq::<(Seq<char>, Model)>::empty().with("cmd"@, Model::String("list_services"@)),
        ),
{
    let mut d: Dictionary = Dictionary::new();
    d.put_str("cmd", "list_services");
    Value::Dictionary(d)
}

/// Asks for the service that knows the device.
pub fn get_service_request() -> (v: Value)
    ensures
        v@ == Model::Dictionary(
            Seq::<(Seq<char>, Model)>::empty().with("cmd"@, Model::String("get_service"@)).with(
                "name"@,
                Model::String("com.apple.coredevice.deviceinfo"@),
            ),
        ),
{
    let mut d: Dictionary = Dictionary::new();
    d.put_str("cmd", "get_service");
    d.put_str("name", "com.apple.coredevice.deviceinfo");
    Value::Dictionary(d)
}

/// The text under a key, unless it is empty.
pub open spec fn some_text(d: Seq<(Seq<char>, Model)>, key: Seq<char>) -> Option<Seq<char>> {
    match d.lookup(key) {
        Some(Model::String(s)) if s.len() > 0 => Some(s),
        _ => None,
    }
}

/// The identity in an answer: the first of the three names under which it may stand.
pub open spec fn identity(reply: Model) -> Option<Seq<char>> {
    match reply {
        Model::Dictionary(d) => match d.lookup("CoreDevice.output"@) {
            Some(Model::Dictionary(output)) => match some_text(output, "deviceIdentifier"@) {
                Some(s) => Some(s),
                None => match some_text(output, "identifier"@) {
                    Some(s) => Some(s),
                    None => some_text(output, "uniqueDeviceIdentifier"@),
                },
            },
            _ => None,
        },
        _ => None,
    }
}

fn text_in(d: &Dictionary, key: &str) -> (text: Option<String>)
    ensures
        text is Some <==> some_text(d@, key@) is Some,
        text matches Some(t) ==> some_text(d@, key@) == Some(t@),
{
    if let Some(Value::String(s)) = d.get(key) {
        if !s.as_str().is_empty() {
            return Some(own(s.as_str()));
        }
    }
    None
}

/// Takes the identity out of an answer.
pub fn extract_identifier_from_reply(reply: &Value) -> (text: Option<String>)
    ensures
        text is Some <==> identity(reply@) is Some,
        text matches Some(t) ==> identity(reply@) == Some(t@),
{
    let d: &Dictionary = match reply {
        Value::Dictionary(d) => d,
        _ => {
            return None;
        },
    };
    match d.get("CoreDevice.output") {
        Some(Value::Dictionary(output)) => {
            if let Some(s) = text_in(output, "deviceIdentifier") {
                return Some(s);
            }
            if let Some(s) = text_in(output, "identifier") {
                return Some(s);
            }
            text_in(output, "uniqueDeviceIdentifier")
        },
        _ => None,
    }
}

/// The identity stands in the output under the first of its names that holds a text that
/// is not empty.
pub proof fn lemma_identity(d: Seq<(Seq<char>, Model)>, output: Seq<(Seq<char>, Model)>, s: Seq<char>)
    requires
        d.lookup("CoreDevice.output"@) == Some(Model::Dictionary(output)),
        s.len() > 0,
    ensures
        output.lookup("deviceIdentifier"@) == Some(Model::String(s)) ==> identity(
            Model::Dictionary(d),
        ) == Some(s),
        output.lookup("deviceIdentifier"@) is None && output.lookup("identifier"@) == Some(
            Model::String(s),
        ) ==> identity(Model::Dictionary(d)) == Some(s),
        output.lookup("deviceIdentifier"@) is None && output.lookup("identifier"@) is None
            && output.lookup("uniqueDeviceIdentifier"@) == Some(Model::String(s)) ==> identity(
            Model::Dictionary(d),
        ) == Some(s),
        output.lookup("deviceIdentifier"@) is None && output.lookup("identifier"@) is None
            && output.lookup("uniqueDeviceIdentifier"@) is None ==> identity(
            Model::Dictionary(d),
        ) is None,
        identity(Model::Dictionary(d)) matches Some(t) ==> t.len() > 0 && {
            ||| output.lookup("deviceIdentifier"@) == Some(Model::String(t))
            ||| output.lookup("identifier"@) == Some(Model::String(t))
            ||| output.lookup("uniqueDeviceIdentifier"@) == Some(Model::String(t))
        },
{
}

/// Without a dictionary as output there is no identity.
pub proof fn lemma_no_identity(reply: Model)
    ensures
        !(reply is Dictionary) ==> identity(reply) is None,
        reply matches Model::Dictionary(d) ==> (!(d.lookup("CoreDevice.output"@) matches Some(
            Model::Dictionary(_),
        )) ==> identity(reply) is None),
{
}

} // verus!
