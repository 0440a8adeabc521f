//! What the daemon finds out about a device before it opens a tunnel.

use vstd::prelude::*;
use crate::entries::Entries;
use crate::lockdown::error::Error;
use crate::lockdown::types::DeviceInfo;
use crate::proplist::{no_entries, Dict, Plist, Tree};
use crate::text::{alike, join3, same_ignoring_case};
use crate::usbmux::types::Device;

verus! {

/// The place of the first device with a name, in any case of letters.
pub open spec fn first_named(devices: Seq<Device>, udid: Seq<char>) -> Option<int>
    decreases devices.len(),
{
    if devices.len() == 0 {
        None
    } else {
        match first_named(devices.drop_last(), udid) {
            Some(i) => Some(i),
            None => if alike(devices.last().serial@, udid) {
                Some(devices.len() - 1)
            } else {
                None
            },
        }
    }
}

/// Finds a device by its name, in any case of letters.
pub fn find_device(devices: &Vec<Device>, udid: &str) -> (id: Result<u32, String>)
    ensures
        match first_named(devices@, udid@) {
            Some(i) => id == Ok::<u32, String>(devices@[i].device_id),
            None => id matches Err(t) && t@ == "device "@ + udid@ + " not connected"@,
        },
{
    let mut i: usize = 0;
    assert(devices@.take(0).len() == 0);
    while i < devices.len()
        invariant
            i <= devices@.len(),
            first_named(devices@.take(i as int), udid@) is None,
        decreases devices@.len() - i,
    {
        assert(devices@.take(i + 1).drop_last() =~= devices@.take(i as int));
        if same_ignoring_case(devices[i].serial.as_str(), udid) {
            proof {
                lemma_first_stays(devices@, i + 1, udid@);
            }
            return Ok(devices[i].device_id);
        }
        i += 1;
    }
    assert(devices@.take(i as int) =~= devices@);
    Err(join3("device ", udid, " not connected"))
}

proof fn lemma_first_stays(devices: Seq<Device>, n: int, udid: Seq<char>)
    requires
        0 <= n <= devices.len(),
        first_named(devices.take(n), udid) is Some,
    ensures
        first_named(devices, udid) == first_named(devices.take(n), udid),
    decreases devices.len(),
{
    if n == devices.len() {
        assert(devices.take(n) =~= devices);
    } else {
        assert(devices.drop_last().take(n) =~= devices.take(n));
        lemma_first_stays(devices.drop_last(), n, udid);
    }
}

/// The entries with a text, unless it is empty.
pub open spec fn with_text(
    d: Seq<(Seq<char>, Tree)>,
    key: Seq<char>,
    text: Seq<char>,
) -> Seq<(Seq<char>, Tree)> {
    if text.len() > 0 {
        d.with(key, Tree::String(text))
    } else {
        d
    }
}

/// The entries with what other entries have under a key.
pub open spec fn with_copy(
    d: Seq<(Seq<char>, Tree)>,
    key: Seq<char>,
    other: Seq<(Seq<char>, Tree)>,
) -> Seq<(Seq<char>, Tree)> {
    match other.lookup(key) {
        Some(t) => d.with(key, t),
        None => d,
    }
}

/// The values of a device that clients are told.
pub open spec fn told_values(info: DeviceInfo) -> Seq<(Seq<char>, Tree)> {
    let d1 = with_text(no_entries(), "ProductType"@, info.product_type@);
    let d2 = with_text(d1, "ProductVersion"@, info.product_version@);
    let d3 = with_text(d2, "HardwareModel"@, info.hardware_model@);
    let d4 = with_text(d3, "CPUArchitecture"@, info.cpu_architecture@);
    let d5 = with_text(d4, "UniqueDeviceID"@, info.unique_device_id@);
    let d6 = with_text(d5, "SerialNumber"@, info.serial_number@);
    let d7 = with_copy(d6, "BuildVersion"@, info.extra@);
    let d8 = with_copy(d7, "ProductName"@, info.extra@);
    let d9 = with_copy(d8, "DeviceClass"@, info.extra@);
    let d10 = with_copy(d9, "ChipID"@, info.extra@);
    with_copy(d10, "HardwarePlatform"@, info.extra@)
}

fn put_text(d: &mut Dict, key: &str, text: &str)
    ensures
        final(d)@ == with_text(old(d)@, key@, text@),
{
    if !text.is_empty() {
        d.put_str(key, text);
    }
}

fn put_copy(d: &mut Dict, key: &str, other: &Dict)
    ensures
        final(d)@ == with_copy(old(d)@, key@, other@),
{
    if let Some(v) = other.get(key) {
        d.put(key, v.dup());
    }
}

/// Picks the values of a device that clients are told.
pub fn lockdown_values(info: &DeviceInfo) -> (d: Dict)
    ensures
        d@ == told_values(*info),
{
    let mut d: Dict = Dict::new();
    put_text(&mut d, "ProductType", info.product_type.as_str());
    put_text(&mut d, "ProductVersion", info.product_version.as_str());
    put_text(&mut d, "HardwareModel", info.hardware_model.as_str());
    put_text(&mut d, "CPUArchitecture", info.cpu_architecture.as_str());
    put_text(&mut d, "UniqueDeviceID", info.unique_device_id.as_str());
    put_text(&mut d, "SerialNumber", info.serial_number.as_str());
    put_copy(&mut d, "BuildVersion", &info.extra);
    put_copy(&mut d, "ProductName", &info.extra);
    put_copy(&mut d, "DeviceClass", &info.extra);
    put_copy(&mut d, "ChipID", &info.extra);
    put_copy(&mut d, "HardwarePlatform", &info.extra);
    d
}

/// The number of the chip; zero where the device does not tell one.
pub fn chip_number(value: &Result<Plist, Error>) -> (ecid: u64)
    ensures
        ecid == match value {
            Ok(p) => match p@.unsigned() {
                Some(n) => n,
                None => 0,
            },
            Err(_) => 0,
        },
{
    match value {
        Ok(p) => match p.as_unsigned_integer() {
            Some(n) => n,
            None => 0,
        },
        Err(_) => 0,
    }
}

/// The device that is found is the first with the name, in any case of letters; none is
/// found exactly if none has it.
pub proof fn lemma_first_named(devices: Seq<Device>, udid: Seq<char>)
    ensures
        match first_named(devices, udid) {
            Some(i) => 0 <= i < devices.len() && alike(devices[i].serial@, udid) && forall|j: int|
                0 <= j < i ==> !alike((#[trigger] devices[j]).serial@, udid),
            None => forall|j: int|
                0 <= j < devices.len() ==> !alike((#[trigger] devices[j]).serial@, udid),
        },
    decreases devices.len(),
{
    if devices.len() > 0 {
        let front = devices.drop_last();
        lemma_first_named(front, udid);
        match first_named(devices, udid) {
            Some(i) => {
                assert forall|j: int| 0 <= j < i implies !alike(
                    (#[trigger] devices[j]).serial@,
                    udid,
                ) by {
                    assert(front[j] == devices[j]);
                }
            },
            None => {
                assert forall|j: int| 0 <= j < devices.len() implies !alike(
                    (#[trigger] devices[j]).serial@,
                    udid,
                ) by {
                    if j < front.len() {
                        assert(front[j] == devices[j]);
                    }
                }
            },
        }
    }
}

broadcast proof fn lemma_with_text(
    d: Seq<(Seq<char>, Tree)>,
    key: Seq<char>,
    text: Seq<char>,
    k: Seq<char>,
)
    ensures
        (#[trigger] with_text(d, key, text).lookup(k)) == if k == key && text.len() > 0 {
            Some(Tree::String(text))
        } else {
            d.lookup(k)
        },
{
    broadcast use crate::entries::lemma_lookup_with;

}

broadcast proof fn lemma_with_copy(
    d: Seq<(Seq<char>, Tree)>,
    key: Seq<char>,
    other: Seq<(Seq<char>, Tree)>,
    k: Seq<char>,
)
    ensures
        (#[trigger] with_copy(d, key, other).lookup(k)) == if k == key && other.lookup(key) is Some {
            other.lookup(key)
        } else {
            d.lookup(k)
        },
{
    broadcast use crate::entries::lemma_lookup_with;

}

/// The values that clients are told: what has a field of its own, where it is not empty,
/// and of the others the build, the name, the class, the chip and the platform, where the
/// device tells them; nothing else.
#[verifier::spinoff_prover]
#[verifier::rlimit(60)]
pub proof fn lemma_told_values(info: DeviceInfo, key: Seq<char>)
    ensures
        told_values(info).lookup(key) == if key == "ProductType"@ {
            told(info.product_type@)
        } else if key == "ProductVersion"@ {
            told(info.product_version@)
        } else if key == "HardwareModel"@ {
            told(info.hardware_model@)
        } else if key == "CPUArchitecture"@ {
            told(info.cpu_architecture@)
        } else if key == "UniqueDeviceID"@ {
            told(info.unique_device_id@)
        } else if key == "SerialNumber"@ {
            told(info.serial_number@)
        } else if key == "BuildVersion"@ || key == "ProductName"@ || key == "DeviceClass"@ || key
            == "ChipID"@ || key == "HardwarePlatform"@ {
            info.extra@.lookup(key)
        } else {
            None
        },
{
    broadcast use lemma_with_text, lemma_with_copy;

    reveal_strlit("ProductType");
    reveal_strlit("ProductVersion");
    reveal_strlit("HardwareModel");
    reveal_strlit("CPUArchitecture");
    reveal_strlit("UniqueDeviceID");
    reveal_strlit("SerialNumber");
    reveal_strlit("BuildVersion");
    reveal_strlit("ProductName");
    reveal_strlit("DeviceClass");
    reveal_strlit("ChipID");
    reveal_strlit("HardwarePlatform");
    assert("ProductType"@.len() == 11);
    assert("ProductVersion"@.len() == 14);
    assert("HardwareModel"@.len() == 13);
    assert("CPUArchitecture"@.len() == 15);
    assert("UniqueDeviceID"@.len() == 14);
    assert("SerialNumber"@.len() == 12);
    assert("BuildVersion"@.len() == 12);
    assert("ProductName"@.len() == 11);
    assert("DeviceClass"@.len() == 11);
    assert("ChipID"@.len() == 6);
    assert("HardwarePlatform"@.len() == 16);
    assert("ProductType"@[7] == 'T');
    assert("ProductName"@[7] == 'N');
    assert("DeviceClass"@[7] == 'l');
    assert("ProductVersion"@[0] == 'P');
    assert("UniqueDeviceID"@[0] == 'U');
    assert("SerialNumber"@[0] == 'S');
    assert("BuildVersion"@[0] == 'B');
}

/// A text that is told, unless it is empty.
pub open spec fn told(text: Seq<char>) -> Option<Tree> {
    if text.len() > 0 {
        Some(Tree::String(text))
    } else {
        None
    }
}

} // verus!
