//! Diagnostics: control of the power, and the state of the battery.

use vstd::prelude::*;
use crate::bytes::{bits_of_i64, i64_bits};
use crate::entries::Entries;
use crate::lockdown::error::Error;
use crate::proplist::{no_entries, Dict, Plist, Tree};
use crate::text::{join2, join3, own, quote, quoted, same_str};
use super::wire::{bad_length, check_length, plausible};

verus! {

/// The name of the service.
pub const SERVICE: &'static str = "com.apple.mobile.diagnostics_relay";

/// The state of the battery.
#[derive(Clone, Copy, Debug, PartialEq, Eq, Structural)]
pub struct BatteryInfo {
    /// The charge in percent.
    pub capacity_pct: u64,
    pub voltage_mv: u64,
    pub cycle_count: u64,
    pub design_capacity: u64,
    pub full_capacity: u64,
    pub is_charging: bool,
    pub external_connected: bool,
    pub fully_charged: bool,
}

/// A request by its name.
pub fn request(name: &str) -> (p: Plist)
    ensures
        p@ == Tree::Dictionary(no_entries().with("Request"@, Tree::String(name@))),
{
    let mut d: Dict = Dict::new();
    d.put_str("Request", name);
    Plist::dict(d)
}

/// Checks the length that a reply states.
pub fn reply_len(len: u32) -> (ok: Result<usize, Error>)
    ensures
        if plausible(len, 4_194_304) {
            ok matches Ok(n) && n == len
        } else {
            ok matches Err(Error::Afc(t)) && t@ == bad_length(
                "diagnostics: implausible length "@,
                len,
            )
        },
{
    match check_length("diagnostics: implausible length ", len, 4_194_304) {
        Ok(n) => Ok(n),
        Err(t) => Err(Error::Afc(t)),
    }
}

/// Whether a control request (`Restart`, `Shutdown`, `Sleep`) was obeyed: a reply
/// without a status counts as success.
pub fn obeyed(name: &str, resp: &Plist) -> (done: Result<(), Error>)
    ensures
        match resp@.text_at("Status"@) {
            Some(s) => if s == "Success"@ || s.len() == 0 {
                done matches Ok(())
            } else {
                done matches Err(Error::Afc(t)) && t@ == "diagnostics "@ + name@ + ": status "@
                    + quoted(s)
            },
            None => done matches Ok(()),
        },
{
    match resp.text_at("Status") {
        Some(s) => if same_str(s, "Success") || s.is_empty() {
            Ok(())
        } else {
            Err(
                Error::Afc(
                    join2(
                        join3("diagnostics ", name, ": status ").as_str(),
                        quote(s).as_str(),
                    ),
                ),
            )
        },
        None => Ok(()),
    }
}

/// The diagnostics in the reply to a query, or why there are none.
pub open spec fn diagnostics_in(name: Seq<char>, t: Tree) -> Result<
    Seq<(Seq<char>, Tree)>,
    Seq<char>,
> {
    match t.text_at("Error"@) {
        Some(e) => Err("diagnostics "@ + name + ": "@ + e),
        None => match t.at("Diagnostics"@) {
            Some(Tree::Dictionary(d)) => Ok(d),
            _ => Err("diagnostics "@ + name + ": no Diagnostics in response"@),
        },
    }
}

/// Reads the reply to a query.
pub fn queried(name: &str, resp: &Plist) -> (got: Result<Dict, Error>)
    ensures
        match diagnostics_in(name@, resp@) {
            Ok(d) => got matches Ok(v) && v@ == d,
            Err(e) => got matches Err(Error::Afc(t)) && t@ == e,
        },
{
    if let Some(e) = resp.text_at("Error") {
        return Err(Error::Afc(join2(join3("diagnostics ", name, ": ").as_str(), e)));
    }
    match resp.at("Diagnostics") {
        Some(Plist::Dictionary(d)) => Ok(d.dup()),
        _ => Err(Error::Afc(join3("diagnostics ", name, ": no Diagnostics in response"))),
    }
}

/// A gauge under a key: zero where there is none. A negative number keeps its bits.
pub open spec fn gauge(d: Seq<(Seq<char>, Tree)>, key: Seq<char>) -> nat {
    match d.lookup(key) {
        Some(v) => match v.unsigned() {
            Some(n) => n as nat,
            None => match v.signed() {
                Some(i) => i64_bits(i),
                None => 0,
            },
        },
        None => 0,
    }
}

/// A flag under a key: false where there is none.
pub open spec fn flag(d: Seq<(Seq<char>, Tree)>, key: Seq<char>) -> bool {
    match d.lookup(key) {
        Some(v) => v.truth() == Some(true),
        None => false,
    }
}

fn gg_u64(d: &Dict, key: &str) -> (n: u64)
    ensures
        n == gauge(d@, key@),
{
    match d.get(key) {
        Some(v) => match v.as_unsigned_integer() {
            Some(n) => n,
            None => match v.as_signed_integer() {
                Some(i) => bits_of_i64(i),
                None => 0,
            },
        },
        None => 0,
    }
}

fn gg_bool(d: &Dict, key: &str) -> (b: bool)
    ensures
        b == flag(d@, key@),
{
    match d.get(key) {
        Some(v) => match v.as_boolean() {
            Some(b) => b,
            None => false,
        },
        None => false,
    }
}

impl BatteryInfo {
    /// Whether this is what the gauges say.
    pub open spec fn is_info(self, d: Seq<(Seq<char>, Tree)>) -> bool {
        &&& self.capacity_pct == gauge(d, "BatteryCurrentCapacity"@)
        &&& self.voltage_mv == gauge(d, "BatteryVoltage"@)
        &&& self.cycle_count == gauge(d, "CycleCount"@)
        &&& self.design_capacity == gauge(d, "DesignCapacity"@)
        &&& self.full_capacity == gauge(d, "FullChargeCapacity"@)
        &&& self.is_charging == flag(d, "BatteryIsCharging"@)
        &&& self.external_connected == flag(d, "ExternalConnected"@)
        &&& self.fully_charged == flag(d, "FullyCharged"@)
    }
}

/// The state of the battery, from the diagnostics of `GasGauge`.
pub fn battery(diag: &Dict) -> (info: Result<BatteryInfo, Error>)
    ensures
        match diag@.lookup("GasGauge"@) {
            Some(Tree::Dictionary(d)) => info matches Ok(i) && i.is_info(d),
            _ => info matches Err(Error::Afc(t)) && t@ == "diagnostics: no GasGauge in response"@,
        },
{
    match diag.get("GasGauge") {
        Some(Plist::Dictionary(gg)) => Ok(
            BatteryInfo {
                capacity_pct: gg_u64(gg, "BatteryCurrentCapacity"),
                voltage_mv: gg_u64(gg, "BatteryVoltage"),
                cycle_count: gg_u64(gg, "CycleCount"),
                design_capacity: gg_u64(gg, "DesignCapacity"),
                full_capacity: gg_u64(gg, "FullChargeCapacity"),
                is_charging: gg_bool(gg, "BatteryIsCharging"),
                external_connected: gg_bool(gg, "ExternalConnected"),
                fully_charged: gg_bool(gg, "FullyCharged"),
            },
        ),
        _ => Err(Error::Afc(own("diagnostics: no GasGauge in response"))),
    }
}

/// The diagnostics are the dictionary under `Diagnostics`, unless an error is told.
pub proof fn lemma_diagnostics(name: Seq<char>, d: Seq<(Seq<char>, Tree)>)
    ensures
        match diagnostics_in(name, Tree::Dictionary(d)) {
            Ok(got) => !(d.lookup("Error"@) matches Some(Tree::String(_))) && d.lookup(
                "Diagnostics"@,
            ) == Some(Tree::Dictionary(got)),
            Err(why) => match d.lookup("Error"@) {
                Some(Tree::String(e)) => why == "diagnostics "@ + name + ": "@ + e,
                _ => !(d.lookup("Diagnostics"@) matches Some(Tree::Dictionary(_))),
            },
        },
{
}

/// A gauge is the number under its key, a negative one counted from 2^64 down; a flag is
/// the truth value under its key. What is not there is zero or false.
pub proof fn lemma_gauges(d: Seq<(Seq<char>, Tree)>, key: Seq<char>)
    ensures
        d.lookup(key) is None ==> gauge(d, key) == 0 && !flag(d, key),
        d.lookup(key) matches Some(Tree::Integer(n)) ==> {
            &&& 0 <= n <= u64::MAX ==> gauge(d, key) == n
            &&& i64::MIN <= n < 0 ==> gauge(d, key) == n + 0x1_0000_0000_0000_0000
        },
        d.lookup(key) matches Some(Tree::Boolean(b)) ==> flag(d, key) == b && gauge(d, key) == 0,
        d.lookup(key) matches Some(Tree::String(_)) ==> !flag(d, key) && gauge(d, key) == 0,
{
}

/// What is known of the battery, by the keys of the gauges.
pub proof fn lemma_battery_known(info: BatteryInfo, d: Seq<(Seq<char>, Tree)>)
    requires
        info.is_info(d),
    ensures
        d.lookup("BatteryCurrentCapacity"@) matches Some(Tree::Integer(n)) ==> (0 <= n <= u64::MAX
            ==> info.capacity_pct == n),
        d.lookup("BatteryVoltage"@) matches Some(Tree::Integer(n)) ==> (0 <= n <= u64::MAX
            ==> info.voltage_mv == n),
        d.lookup("CycleCount"@) matches Some(Tree::Integer(n)) ==> (0 <= n <= u64::MAX
            ==> info.cycle_count == n),
        d.lookup("DesignCapacity"@) matches Some(Tree::Integer(n)) ==> (0 <= n <= u64::MAX
            ==> info.design_capacity == n),
        d.lookup("FullChargeCapacity"@) matches Some(Tree::Integer(n)) ==> (0 <= n <= u64::MAX
            ==> info.full_capacity == n),
        d.lookup("BatteryIsCharging"@) matches Some(Tree::Boolean(b)) ==> info.is_charging == b,
        d.lookup("ExternalConnected"@) matches Some(Tree::Boolean(b)) ==> info.external_connected
            == b,
        d.lookup("FullyCharged"@) matches Some(Tree::Boolean(b)) ==> info.fully_charged == b,
{
    lemma_gauges(d, "BatteryCurrentCapacity"@);
    lemma_gauges(d, "BatteryVoltage"@);
    lemma_gauges(d, "CycleCount"@);
    lemma_gauges(d, "DesignCapacity"@);
    lemma_gauges(d, "FullChargeCapacity"@);
    lemma_gauges(d, "BatteryIsCharging"@);
    lemma_gauges(d, "ExternalConnected"@);
    lemma_gauges(d, "FullyCharged"@);
}

/// A reply without diagnostics is refused for that under the name of the query, unless it
/// tells an error, which is then given.
pub proof fn lemma_diagnostics_missing(name: Seq<char>, t: Tree)
    ensures
        t.text_at("Error"@) is None && t.at("Diagnostics"@) is None
            ==> diagnostics_in(name, t)
            == Err::<Seq<(Seq<char>, Tree)>, Seq<char>>(
            "diagnostics "@ + name + ": no Diagnostics in response"@,
        ),
        t.text_at("Error"@) is Some
            ==> diagnostics_in(name, t)
            == Err::<Seq<(Seq<char>, Tree)>, Seq<char>>(
            "diagnostics "@ + name + ": "@ + t.text_at("Error"@)->0,
        ),
{
}

} // verus!
