//! What the lockdown service tells of services and of the device.

use vstd::prelude::*;
use crate::entries::Entries;
use crate::proplist::{Dict, Plist, Tree};
use crate::text::{own, same_str};

verus! {

/// Where a started service listens.
#[derive(Clone, Copy, Debug, PartialEq, Eq, Structural)]
pub struct ServiceInfo {
    pub port: u16,
    pub enable_service_ssl: bool,
}

/// The values of a device: the common ones by name, all others by key.
#[derive(Debug)]
pub struct DeviceInfo {
    pub device_name: String,
    pub product_type: String,
    pub product_version: String,
    pub serial_number: String,
    pub hardware_model: String,
    pub unique_device_id: String,
    pub cpu_architecture: String,
    pub extra: Dict,
}

/// Whether a value has a field of its own.
pub open spec fn named(key: Seq<char>) -> bool {
    ||| key == "DeviceName"@
    ||| key == "ProductType"@
    ||| key == "ProductVersion"@
    ||| key == "SerialNumber"@
    ||| key == "HardwareModel"@
    ||| key == "UniqueDeviceID"@
    ||| key == "CPUArchitecture"@
}

/// The text under a key, empty where there is none.
pub open spec fn text_or_empty(d: Seq<(Seq<char>, Tree)>, key: Seq<char>) -> Seq<char> {
    match d.lookup(key) {
        Some(Tree::String(s)) => s,
        _ => Seq::empty(),
    }
}

/// The entries without those that have a field of their own.
pub open spec fn unnamed(d: Seq<(Seq<char>, Tree)>) -> Seq<(Seq<char>, Tree)> {
    d.filter(|e: (Seq<char>, Tree)| !named(e.0))
}

fn is_named(key: &str) -> (yes: bool)
    ensures
        yes == named(key@),
{
    same_str(key, "DeviceName") || same_str(key, "ProductType") || same_str(key, "ProductVersion")
        || same_str(key, "SerialNumber") || same_str(key, "HardwareModel") || same_str(
        key,
        "UniqueDeviceID",
    ) || same_str(key, "CPUArchitecture")
}

fn text_in(d: &Dict, key: &str) -> (text: String)
    ensures
        text@ == text_or_empty(d@, key@),
{
    match d.get(key) {
        Some(Plist::String(s)) => own(s.as_str()),
        _ => {
            let none: String = String::new();
            assert(none@ =~= Seq::<char>::empty());
            none
        },
    }
}

impl DeviceInfo {
    /// Sorts the values of a device.
    pub fn from_dict(d: &Dict) -> (info: DeviceInfo)
        ensures
            info.device_name@ == text_or_empty(d@, "DeviceName"@),
            info.product_type@ == text_or_empty(d@, "ProductType"@),
            info.product_version@ == text_or_empty(d@, "ProductVersion"@),
            info.serial_number@ == text_or_empty(d@, "SerialNumber"@),
            info.hardware_model@ == text_or_empty(d@, "HardwareModel"@),
            info.unique_device_id@ == text_or_empty(d@, "UniqueDeviceID"@),
            info.cpu_architecture@ == text_or_empty(d@, "CPUArchitecture"@),
            info.extra@ == unnamed(d@),
    {
        let mut extra: Dict = Dict::new();
        let n: usize = d.len();
        let mut i: usize = 0;
        let ghost keep = |e: (Seq<char>, Tree)| !named(e.0);
        assert(extra@ =~= d@.take(0).filter(keep)) by {
            reveal(Seq::filter);
        }
        while i < n
            invariant
                i <= n == d@.len(),
                keep == (|e: (Seq<char>, Tree)| !named(e.0)),
                d@.distinct(),
                extra@ == d@.take(i as int).filter(keep),
            decreases n - i,
        {
            let ghost before = d@.take(i as int);
            assert(d@.take(i + 1) =~= before.push(d@[i as int]));
            proof {
                reveal(Seq::filter);
                assert(before.push(d@[i as int]).drop_last() =~= before);
                lemma_filtered_key(before, keep, d@[i as int].0);
            }
            if !is_named(d.key_at(i)) {
                extra.put(d.key_at(i), d.value_at(i).dup());
            }
            i += 1;
        }
        assert(d@.take(n as int) =~= d@);
        DeviceInfo {
            device_name: text_in(d, "DeviceName"),
            product_type: text_in(d, "ProductType"),
            product_version: text_in(d, "ProductVersion"),
            serial_number: text_in(d, "SerialNumber"),
            hardware_model: text_in(d, "HardwareModel"),
            unique_device_id: text_in(d, "UniqueDeviceID"),
            cpu_architecture: text_in(d, "CPUArchitecture"),
            extra,
        }
    }
}

proof fn lemma_filtered_key(
    s: Seq<(Seq<char>, Tree)>,
    keep: spec_fn((Seq<char>, Tree)) -> bool,
    key: Seq<char>,
)
    requires
        !s.has_key(key),
    ensures
        !s.filter(keep).has_key(key),
    decreases s.len(),
{
    reveal(Seq::filter);
    if s.len() > 0 {
        let front = s.drop_last();
        assert forall|i: int| 0 <= i < front.len() implies (#[trigger] front[i]).0 != key by {
            assert(s[i].0 != key);
        }
        lemma_filtered_key(front, keep, key);
        assert(s.last() == s[s.len() - 1]);
        let f = s.filter(keep);
        assert forall|i: int| 0 <= i < f.len() implies (#[trigger] f[i]).0 != key by {
            if i < front.filter(keep).len() {
                assert(f[i] == front.filter(keep)[i]);
            }
        }
    }
}

/// The entries without a field of their own are kept under their keys; the others are
/// left out.
pub proof fn lemma_unnamed(d: Seq<(Seq<char>, Tree)>, key: Seq<char>)
    ensures
        unnamed(d).lookup(key) == if key == "DeviceName"@ || key == "ProductType"@ || key
            == "ProductVersion"@ || key == "SerialNumber"@ || key == "HardwareModel"@ || key
            == "UniqueDeviceID"@ || key == "CPUArchitecture"@ {
            None::<Tree>
        } else {
            d.lookup(key)
        },
    decreases d.len(),
{
    reveal(Seq::filter);
    if d.len() > 0 {
        let keep = |e: (Seq<char>, Tree)| !named(e.0);
        let front = d.drop_last();
        lemma_unnamed(front, key);
        if keep(d.last()) {
            assert(unnamed(d).drop_last() =~= unnamed(front));
            assert(unnamed(d).last() == d.last());
        } else {
            assert(unnamed(d) =~= unnamed(front));
        }
    }
}

/// The text under a key is that text; anything else there counts as no characters.
pub proof fn lemma_text_or_empty(d: Seq<(Seq<char>, Tree)>, key: Seq<char>)
    ensures
        d.lookup(key) matches Some(Tree::String(s)) ==> text_or_empty(d, key) == s,
        !(d.lookup(key) matches Some(Tree::String(_))) ==> text_or_empty(d, key).len() == 0,
{
}

} // verus!
