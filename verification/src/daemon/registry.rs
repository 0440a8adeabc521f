//! The tunnels that are open, by device.

use vstd::prelude::*;
use crate::bytes::{i64_from_bits, i64_of_bits};
use crate::entries::Entries;
use crate::proplist::{no_entries, Dict, Plist, Tree};
use crate::rsd::{Catalog, PeerInfo, ServiceModel};
use crate::text::{own, same_str, texts};

verus! {

/// An open tunnel and the device behind it.
#[derive(Debug)]
pub struct DeviceTunnel {
    pub services: Catalog,
    pub device_id: u32,
    pub peer_info: PeerInfo,
    pub device_name: String,
    pub ecid: u64,
    /// The identity of the device in remote pairing, empty where it is not known.
    pub peer_pairing_identifier: String,
    /// What the lockdown service said of the device before the tunnel was opened.
    pub lockdown_values: Dict,
    pub server_addr: String,
    pub client_addr: String,
    pub server_rsd_port: u16,
}

/// The mathematical counterpart of [`DeviceTunnel`].
#[verifier::ext_equal]
pub struct TunnelModel {
    pub services: Seq<(Seq<char>, ServiceModel)>,
    pub device_id: u32,
    pub peer_udid: Seq<char>,
    pub product_type: Seq<char>,
    pub os_version: Seq<char>,
    pub build_version: Seq<char>,
    pub device_name: Seq<char>,
    pub ecid: u64,
    pub peer_pairing_identifier: Seq<char>,
    pub lockdown_values: Seq<(Seq<char>, Tree)>,
    pub server_addr: Seq<char>,
    pub client_addr: Seq<char>,
    pub server_rsd_port: u16,
}

impl View for DeviceTunnel {
    type V = TunnelModel;

    open spec fn view(&self) -> TunnelModel {
        TunnelModel {
            services: self.services@,
            device_id: self.device_id,
            peer_udid: self.peer_info.udid@,
            product_type: self.peer_info.product_type@,
            os_version: self.peer_info.os_version@,
            build_version: self.peer_info.build_version@,
            device_name: self.device_name@,
            ecid: self.ecid,
            peer_pairing_identifier: self.peer_pairing_identifier@,
            lockdown_values: self.lockdown_values@,
            server_addr: self.server_addr@,
            client_addr: self.client_addr@,
            server_rsd_port: self.server_rsd_port,
        }
    }
}

/// The names and ports of services.
pub open spec fn ports_of(services: Seq<(Seq<char>, ServiceModel)>) -> Seq<(Seq<char>, Tree)> {
    services.map_values(
        |e: (Seq<char>, ServiceModel)| (e.0, Tree::Integer(e.1.port as int)),
    )
}

/// The build of the system: the lockdown service's word for it, if it has one, and
/// otherwise what the handshake says.
pub open spec fn build_of(dt: TunnelModel) -> Seq<char> {
    match dt.lockdown_values.lookup("BuildVersion"@) {
        Some(Tree::String(s)) if s.len() > 0 => s,
        _ => dt.build_version,
    }
}

/// How a tunnel is shown to clients.
pub open spec fn tunnel_entries(udid: Seq<char>, dt: TunnelModel) -> Seq<(Seq<char>, Tree)> {
    let d = no_entries().with("UDID"@, Tree::String(udid)).with(
        "ProductType"@,
        Tree::String(dt.product_type),
    ).with("OSVersion"@, Tree::String(dt.os_version)).with(
        "BuildVersion"@,
        Tree::String(build_of(dt)),
    ).with("LockdownValues"@, Tree::Dictionary(dt.lockdown_values)).with(
        "DeviceName"@,
        Tree::String(dt.device_name),
    ).with("ECID"@, Tree::Integer(i64_of_bits(dt.ecid as nat) as int)).with(
        "Services"@,
        Tree::Integer(i64_of_bits(dt.services.len()) as int),
    ).with("ServicePorts"@, Tree::Dictionary(ports_of(dt.services)));
    let named = if dt.peer_pairing_identifier.len() > 0 {
        d.with("RemotePairingIdentifier"@, Tree::String(dt.peer_pairing_identifier))
    } else {
        d
    };
    named.with("TunnelServerAddr"@, Tree::String(dt.server_addr)).with(
        "TunnelClientAddr"@,
        Tree::String(dt.client_addr),
    ).with("TunnelRSDPort"@, Tree::Integer(dt.server_rsd_port as int))
}

fn service_ports(services: &Catalog) -> (d: Dict)
    ensures
        d@ == ports_of(services@),
{
    let mut d: Dict = Dict::new();
    let n: usize = services.len();
    let mut i: usize = 0;
    assert(d@ =~= ports_of(services@).take(0));
    while i < n
        invariant
            i <= n == services@.len(),
            services@.distinct(),
            d@ == ports_of(services@).take(i as int),
        decreases n - i,
    {
        let ghost all = ports_of(services@);
        let ghost front = all.take(i as int);
        assert(!front.has_key(all[i as int].0)) by {
            assert forall|j: int| 0 <= j < front.len() implies (#[trigger] front[j]).0
                != all[i as int].0 by {
                assert(services@[j].0 != services@[i as int].0);
            }
        }
        d.put(services.name_at(i), Plist::number(services.entry_at(i).port as i64));
        assert(front.push(all[i as int]) =~= all.take(i + 1));
        i += 1;
    }
    assert(ports_of(services@).take(n as int) =~= ports_of(services@));
    d
}

fn build_version(dt: &DeviceTunnel) -> (s: String)
    ensures
        s@ == build_of(dt@),
{
    if let Some(Plist::String(s)) = dt.lockdown_values.get("BuildVersion") {
        if !s.as_str().is_empty() {
            return own(s.as_str());
        }
    }
    own(dt.peer_info.build_version.as_str())
}

/// Shows a tunnel to clients.
pub fn tunnel_plist_dict(udid: &str, dt: &DeviceTunnel) -> (d: Dict)
    ensures
        d@ == tunnel_entries(udid@, dt@),
{
    let mut d: Dict = Dict::new();
    d.put_str("UDID", udid);
    d.put_str("ProductType", dt.peer_info.product_type.as_str());
    d.put_str("OSVersion", dt.peer_info.os_version.as_str());
    d.put_str("BuildVersion", build_version(dt).as_str());
    d.put("LockdownValues", Plist::dict(dt.lockdown_values.dup()));
    d.put_str("DeviceName", dt.device_name.as_str());
    d.put("ECID", Plist::number(i64_from_bits(dt.ecid)));
    d.put("Services", Plist::number(i64_from_bits(dt.services.len() as u64)));
    d.put("ServicePorts", Plist::dict(service_ports(&dt.services)));
    if !dt.peer_pairing_identifier.as_str().is_empty() {
        d.put_str("RemotePairingIdentifier", dt.peer_pairing_identifier.as_str());
    }
    d.put_str("TunnelServerAddr", dt.server_addr.as_str());
    d.put_str("TunnelClientAddr", dt.client_addr.as_str());
    d.put("TunnelRSDPort", Plist::number(dt.server_rsd_port as i64));
    d
}

/// What those who watch the daemon are told.
#[derive(Debug)]
pub enum WatchEvent {
    Attached(Dict),
    Detached { udid: String },
}

impl WatchEvent {
    /// How the event is shown to clients.
    pub open spec fn tree(self) -> Tree {
        match self {
            WatchEvent::Attached(d) => Tree::Dictionary(
                d@.with("Event"@, Tree::String("Attached"@)),
            ),
            WatchEvent::Detached { udid } => Tree::Dictionary(
                no_entries().with("Event"@, Tree::String("Detached"@)).with(
                    "UDID"@,
                    Tree::String(udid@),
                ),
            ),
        }
    }
}

/// Shows an event to clients.
pub fn watch_event_to_plist(event: WatchEvent) -> (p: Plist)
    ensures
        p@ == event.tree(),
{
    match event {
        WatchEvent::Attached(dict) => {
            let mut d: Dict = dict;
            d.put_str("Event", "Attached");
            Plist::dict(d)
        },
        WatchEvent::Detached { udid } => {
            let mut d: Dict = Dict::new();
            d.put_str("Event", "Detached");
            d.put_str("UDID", udid.as_str());
            Plist::dict(d)
        },
    }
}

/// The open tunnels; no device has two.
#[derive(Debug)]
pub struct Registry {
    tunnels: Vec<(String, DeviceTunnel)>,
}

/// The views of the tunnels with their devices.
pub open spec fn tunnel_models(tunnels: Seq<(String, DeviceTunnel)>) -> Seq<
    (Seq<char>, TunnelModel),
> {
    tunnels.map_values(|e: (String, DeviceTunnel)| (e.0@, e.1@))
}

impl View for Registry {
    type V = Seq<(Seq<char>, TunnelModel)>;

    closed spec fn view(&self) -> Seq<(Seq<char>, TunnelModel)> {
        tunnel_models(self.tunnels@)
    }
}

/// Whether a tunnel leads to a device.
pub open spec fn leads_to(e: (Seq<char>, TunnelModel), device_id: u32) -> bool {
    e.1.device_id == device_id
}

/// The tunnels that do not lead to a device.
pub open spec fn without_device(
    tunnels: Seq<(Seq<char>, TunnelModel)>,
    device_id: u32,
) -> Seq<(Seq<char>, TunnelModel)>
    decreases tunnels.len(),
{
    if tunnels.len() == 0 {
        Seq::empty()
    } else {
        let front = without_device(tunnels.drop_last(), device_id);
        if leads_to(tunnels.last(), device_id) {
            front
        } else {
            front.push(tunnels.last())
        }
    }
}

/// The names under which a device has tunnels.
pub open spec fn names_of_device(
    tunnels: Seq<(Seq<char>, TunnelModel)>,
    device_id: u32,
) -> Seq<Seq<char>>
    decreases tunnels.len(),
{
    if tunnels.len() == 0 {
        Seq::empty()
    } else {
        let front = names_of_device(tunnels.drop_last(), device_id);
        if leads_to(tunnels.last(), device_id) {
            front.push(tunnels.last().0)
        } else {
            front
        }
    }
}

/// How all tunnels are shown to clients.
pub open spec fn shown_tunnels(tunnels: Seq<(Seq<char>, TunnelModel)>) -> Seq<Tree> {
    tunnels.map_values(
        |e: (Seq<char>, TunnelModel)| Tree::Dictionary(tunnel_entries(e.0, e.1)),
    )
}

proof fn lemma_without_key(
    tunnels: Seq<(Seq<char>, TunnelModel)>,
    device_id: u32,
    key: Seq<char>,
)
    requires
        !tunnels.has_key(key),
    ensures
        !without_device(tunnels, device_id).has_key(key),
    decreases tunnels.len(),
{
    if tunnels.len() > 0 {
        let front = tunnels.drop_last();
        assert forall|i: int| 0 <= i < front.len() implies (#[trigger] front[i]).0 != key by {
            assert(tunnels[i].0 != key);
        }
        lemma_without_key(front, device_id, key);
        let out = without_device(tunnels, device_id);
        let kept = without_device(front, device_id);
        assert forall|i: int| 0 <= i < out.len() implies (#[trigger] out[i]).0 != key by {
            if i < kept.len() {
                assert(out[i] == kept[i]);
            } else {
                assert(out[i] == tunnels[tunnels.len() - 1]);
            }
        }
    }
}

proof fn lemma_without_distinct(tunnels: Seq<(Seq<char>, TunnelModel)>, device_id: u32)
    requires
        tunnels.distinct(),
    ensures
        without_device(tunnels, device_id).distinct(),
    decreases tunnels.len(),
{
    if tunnels.len() > 0 {
        let front = tunnels.drop_last();
        let last = tunnels.last();
        assert forall|i: int, j: int| 0 <= i < j < front.len() implies front[i].0
            != front[j].0 by {
            assert(tunnels[i].0 != tunnels[j].0);
        }
        lemma_without_distinct(front, device_id);
        assert forall|i: int| 0 <= i < front.len() implies (#[trigger] front[i]).0 != last.0 by {
            assert(tunnels[i].0 != tunnels[tunnels.len() - 1].0);
        }
        lemma_without_key(front, device_id, last.0);
        let kept = without_device(front, device_id);
        let out = without_device(tunnels, device_id);
        assert forall|i: int, j: int| 0 <= i < j < out.len() implies out[i].0 != out[j].0 by {
            if j < kept.len() {
                assert(kept[i].0 != kept[j].0);
            } else {
                assert(out[i] == kept[i]);
            }
        }
    }
}

/// Once a device is gone no tunnel leads to it, and its tunnels are exactly those that
/// were announced as gone.
pub proof fn lemma_detached(tunnels: Seq<(Seq<char>, TunnelModel)>, device_id: u32)
    ensures
        forall|i: int|
            0 <= i < without_device(tunnels, device_id).len() ==> !leads_to(
                #[trigger] without_device(tunnels, device_id)[i],
                device_id,
            ),
        without_device(tunnels, device_id).len() + names_of_device(tunnels, device_id).len()
            == tunnels.len(),
        forall|i: int|
            0 <= i < tunnels.len() && leads_to(#[trigger] tunnels[i], device_id)
                ==> names_of_device(tunnels, device_id).contains(tunnels[i].0),
    decreases tunnels.len(),
{
    if tunnels.len() > 0 {
        let front = tunnels.drop_last();
        lemma_detached(front, device_id);
        let names = names_of_device(tunnels, device_id);
        let before = names_of_device(front, device_id);
        assert forall|i: int|
            0 <= i < tunnels.len() && leads_to(#[trigger] tunnels[i], device_id) implies names
            .contains(tunnels[i].0) by {
            if i < front.len() {
                assert(leads_to(front[i], device_id));
                assert(before.contains(front[i].0));
                let k = choose|k: int| 0 <= k < before.len() && before[k] == front[i].0;
                assert(names[k] == front[i].0);
            } else {
                assert(names[before.len() as int] == tunnels[i].0);
            }
        }
        let kept = without_device(front, device_id);
        let out = without_device(tunnels, device_id);
        assert forall|i: int| 0 <= i < out.len() implies !leads_to(
            #[trigger] out[i],
            device_id,
        ) by {
            if i < kept.len() {
                assert(out[i] == kept[i]);
            }
        }
    }
}

impl Registry {
    #[verifier::type_invariant]
    spec fn well_formed(self) -> bool {
        tunnel_models(self.tunnels@).distinct()
    }

    pub fn new() -> (r: Registry)
        ensures
            r@ == Seq::<(Seq<char>, TunnelModel)>::empty(),
    {
        let r = Registry { tunnels: Vec::new() };
        assert(r@ =~= Seq::<(Seq<char>, TunnelModel)>::empty());
        r
    }

    /// The tunnel to a device.
    pub fn get(&self, udid: &str) -> (dt: Option<&DeviceTunnel>)
        ensures
            dt is Some <==> self@.lookup(udid@) is Some,
            dt is Some ==> self@.lookup(udid@) == Some(dt->0@),
    {
        proof {
            use_type_invariant(self);
            crate::entries::lemma_lookup_has_key(self@, udid@);
        }
        let mut i: usize = 0;
        while i < self.tunnels.len()
            invariant
                i <= self.tunnels@.len(),
                self@.distinct(),
                self@.lookup(udid@) is Some <==> self@.has_key(udid@),
                forall|j: int| 0 <= j < i ==> (#[trigger] self@[j]).0 != udid@,
            decreases self.tunnels@.len() - i,
        {
            if same_str(self.tunnels[i].0.as_str(), udid) {
                proof {
                    assert(self@[i as int].0 == udid@);
                    crate::entries::lemma_lookup_at(self@, i as int);
                }
                return Some(&self.tunnels[i].1);
            }
            i += 1;
        }
        None
    }

    /// Whether a device has a tunnel.
    pub fn contains(&self, udid: &str) -> (yes: bool)
        ensures
            yes == self@.has_key(udid@),
    {
        proof {
            use_type_invariant(self);
            crate::entries::lemma_lookup_has_key(self@, udid@);
        }
        self.get(udid).is_some()
    }

    /// Adds the tunnel to a device that has none, and tells what to announce; a device
    /// that has one keeps it.
    pub fn attach(&mut self, udid: &str, dt: DeviceTunnel) -> (event: Option<WatchEvent>)
        ensures
            if old(self)@.has_key(udid@) {
                event is None && final(self)@ == old(self)@
            } else {
                &&& event matches Some(WatchEvent::Attached(d)) && d@ == tunnel_entries(
                    udid@,
                    dt@,
                )
                &&& final(self)@ == old(self)@.push((udid@, dt@))
            },
    {
        proof {
            use_type_invariant(&*self);
        }
        if self.contains(udid) {
            return None;
        }
        let shown: Dict = tunnel_plist_dict(udid, &dt);
        let ghost was = self@;
        let ghost model = dt@;
        let mut tunnels: Vec<(String, DeviceTunnel)> = Vec::new();
        core::mem::swap(&mut tunnels, &mut self.tunnels);
        tunnels.push((own(udid), dt));
        proof {
            let now = tunnel_models(tunnels@);
            assert(now =~= was.push((udid@, model)));
            assert forall|i: int, j: int| 0 <= i < j < now.len() implies now[i].0
                != now[j].0 by {
                if j == was.len() {
                    assert(was[i].0 != udid@);
                } else {
                    assert(was[i].0 != was[j].0);
                }
            }
        }
        self.tunnels = tunnels;
        Some(WatchEvent::Attached(shown))
    }

    /// Drops the tunnels to a device, and tells which they were.
    pub fn detach(&mut self, device_id: u32) -> (udids: Vec<String>)
        ensures
            final(self)@ == without_device(old(self)@, device_id),
            texts(udids@) == names_of_device(old(self)@, device_id),
    {
        proof {
            use_type_invariant(&*self);
        }
        let ghost was = self@;
        let mut rest: Vec<(String, DeviceTunnel)> = Vec::new();
        core::mem::swap(&mut rest, &mut self.tunnels);
        let mut back: Vec<(String, DeviceTunnel)> = Vec::new();
        while rest.len() > 0
            invariant
                rest@.len() + back@.len() == was.len(),
                tunnel_models(rest@) == was.take(rest@.len() as int),
                forall|j: int|
                    0 <= j < back@.len() ==> ((#[trigger] back@[j]).0@, back@[j].1@) == was[was.len()
                        - 1 - j],
            decreases rest@.len(),
        {
            let ghost n = rest@.len();
            let ghost before = rest@;
            if let Some(e) = rest.pop() {
                assert(tunnel_models(before)[n - 1] == (e.0@, e.1@));
                back.push(e);
                assert(tunnel_models(rest@) =~= was.take(n - 1));
            }
        }
        let ghost whole = back@;
        let mut kept: Vec<(String, DeviceTunnel)> = Vec::new();
        let mut gone: Vec<String> = Vec::new();
        assert(tunnel_models(kept@) =~= without_device(was.take(0), device_id));
        assert(texts(gone@) =~= names_of_device(was.take(0), device_id));
        while back.len() > 0
            invariant
                whole.len() == was.len(),
                back@.len() <= was.len(),
                back@ == whole.take(back@.len() as int),
                forall|j: int|
                    0 <= j < whole.len() ==> ((#[trigger] whole[j]).0@, whole[j].1@)
                        == was[was.len() - 1 - j],
                tunnel_models(kept@) == without_device(was.take(was.len() - back@.len()), device_id),
                texts(gone@) == names_of_device(was.take(was.len() - back@.len()), device_id),
            decreases back@.len(),
        {
            let ghost n = back@.len();
            let ghost at = was.len() - n;
            let ghost kept_before = kept@;
            let ghost gone_before = gone@;
            if let Some(e) = back.pop() {
                assert(e == whole[n - 1]);
                assert(was.take(at + 1).drop_last() =~= was.take(at));
                assert(was.take(at + 1).last() == (e.0@, e.1@));
                if e.1.device_id == device_id {
                    let ghost name = e.0@;
                    gone.push(e.0);
                    assert(texts(gone@) =~= texts(gone_before).push(name));
                } else {
                    let ghost model = (e.0@, e.1@);
                    kept.push(e);
                    assert(tunnel_models(kept@) =~= tunnel_models(kept_before).push(model));
                }
                assert(back@ =~= whole.take(n - 1));
            }
        }
        assert(was.take(was.len() as int) =~= was);
        proof {
            lemma_without_distinct(was, device_id);
        }
        self.tunnels = kept;
        gone
    }

    /// Shows all tunnels to clients.
    pub fn show(&self) -> (devices: Vec<Plist>)
        ensures
            crate::proplist::trees(devices@) == shown_tunnels(self@),
    {
        let mut devices: Vec<Plist> = Vec::new();
        let mut i: usize = 0;
        while i < self.tunnels.len()
            invariant
                i <= self.tunnels@.len(),
                devices@.len() == i,
                forall|j: int|
                    0 <= j < i ==> (#[trigger] devices@[j])@ == Tree::Dictionary(
                        tunnel_entries(self@[j].0, self@[j].1),
                    ),
            decreases self.tunnels@.len() - i,
        {
            let d: Dict = tunnel_plist_dict(self.tunnels[i].0.as_str(), &self.tunnels[i].1);
            devices.push(Plist::dict(d));
            i += 1;
        }
        assert(crate::proplist::trees(devices@) =~= shown_tunnels(self@));
        devices
    }
}

/// The number of the bits of an unsigned one.
pub open spec fn as_signed(n: int) -> int {
    if n < 0x8000_0000_0000_0000 {
        n
    } else {
        n - 0x1_0000_0000_0000_0000
    }
}

/// What clients are told of a tunnel, by keys: whose it is, what is known of the device,
/// how many services there are and on which ports, and the ends of the tunnel; the identity
/// in remote pairing only where it is known.
#[verifier::spinoff_prover]
#[verifier::rlimit(80)]
pub proof fn lemma_tunnel_tells(udid: Seq<char>, dt: TunnelModel)
    requires
        dt.services.len() <= u64::MAX,
    ensures
        ({
            let e = tunnel_entries(udid, dt);
            &&& e.lookup("UDID"@) == Some(Tree::String(udid))
            &&& e.lookup("ProductType"@) == Some(Tree::String(dt.product_type))
            &&& e.lookup("OSVersion"@) == Some(Tree::String(dt.os_version))
            &&& e.lookup("BuildVersion"@) == Some(Tree::String(build_of(dt)))
            &&& e.lookup("LockdownValues"@) == Some(Tree::Dictionary(dt.lockdown_values))
            &&& e.lookup("DeviceName"@) == Some(Tree::String(dt.device_name))
            &&& e.lookup("ECID"@) == Some(Tree::Integer(as_signed(dt.ecid as int)))
            &&& e.lookup("Services"@) == Some(Tree::Integer(as_signed(dt.services.len() as int)))
            &&& e.lookup("ServicePorts"@) == Some(Tree::Dictionary(ports_of(dt.services)))
            &&& e.lookup("RemotePairingIdentifier"@) == if dt.peer_pairing_identifier.len() > 0 {
                Some(Tree::String(dt.peer_pairing_identifier))
            } else {
                None
            }
            &&& e.lookup("TunnelServerAddr"@) == Some(Tree::String(dt.server_addr))
            &&& e.lookup("TunnelClientAddr"@) == Some(Tree::String(dt.client_addr))
            &&& e.lookup("TunnelRSDPort"@) == Some(Tree::Integer(dt.server_rsd_port as int))
        }),
{
    broadcast use crate::entries::lemma_lookup_with;

    reveal_strlit("UDID");
    reveal_strlit("ProductType");
    reveal_strlit("OSVersion");
    reveal_strlit("BuildVersion");
    reveal_strlit("LockdownValues");
    reveal_strlit("DeviceName");
    reveal_strlit("ECID");
    reveal_strlit("Services");
    reveal_strlit("ServicePorts");
    reveal_strlit("RemotePairingIdentifier");
    reveal_strlit("TunnelServerAddr");
    reveal_strlit("TunnelClientAddr");
    reveal_strlit("TunnelRSDPort");
    assert("UDID"@.len() == 4);
    assert("ProductType"@.len() == 11);
    assert("OSVersion"@.len() == 9);
    assert("BuildVersion"@.len() == 12);
    assert("LockdownValues"@.len() == 14);
    assert("DeviceName"@.len() == 10);
    assert("ECID"@.len() == 4);
    assert("Services"@.len() == 8);
    assert("ServicePorts"@.len() == 12);
    assert("RemotePairingIdentifier"@.len() == 23);
    assert("TunnelServerAddr"@.len() == 16);
    assert("TunnelClientAddr"@.len() == 16);
    assert("TunnelRSDPort"@.len() == 13);
    assert("UDID"@[0] == 'U');
    assert("ECID"@[0] == 'E');
    assert("BuildVersion"@[0] == 'B');
    assert("ServicePorts"@[0] == 'S');
    assert("TunnelServerAddr"@[6] == 'S');
    assert("TunnelClientAddr"@[6] == 'C');
}

/// The build is what the lockdown service calls it, unless that is no text or empty; else
/// it is what the handshake says.
pub proof fn lemma_build(dt: TunnelModel)
    ensures
        match dt.lockdown_values.lookup("BuildVersion"@) {
            Some(Tree::String(s)) => build_of(dt) == if s.len() > 0 {
                s
            } else {
                dt.build_version
            },
            _ => build_of(dt) == dt.build_version,
        },
{
}

/// The port of a service stands under its name.
pub proof fn lemma_ports(services: Seq<(Seq<char>, ServiceModel)>, name: Seq<char>)
    ensures
        ports_of(services).len() == services.len(),
        ports_of(services).lookup(name) == match services.lookup(name) {
            Some(s) => Some(Tree::Integer(s.port as int)),
            None => None,
        },
    decreases services.len(),
{
    if services.len() > 0 {
        lemma_ports(services.drop_last(), name);
        assert(ports_of(services).drop_last() =~= ports_of(services.drop_last()));
    }
}

/// Those who watch are told which event it is: of a tunnel that opens all that clients are
/// told of it, of one that closes whose it was.
pub proof fn lemma_events_tell(event: WatchEvent, key: Seq<char>)
    ensures
        event matches WatchEvent::Attached(d) ==> (event.tree() matches Tree::Dictionary(e) && e.lookup(
            "Event"@,
        ) == Some(Tree::String("Attached"@)) && (key != "Event"@ ==> e.lookup(key) == d@.lookup(
            key,
        ))),
        event matches WatchEvent::Detached { udid } ==> (event.tree() matches Tree::Dictionary(e)
            && e.lookup("Event"@) == Some(Tree::String("Detached"@)) && e.lookup("UDID"@) == Some(
            Tree::String(udid@),
        )),
{
    broadcast use crate::entries::lemma_lookup_with;

    reveal_strlit("Event");
    reveal_strlit("UDID");
    assert("Event"@.len() == 5);
    assert("UDID"@.len() == 4);
}

/// Every tunnel to another device is kept, and none is added.
pub proof fn lemma_others_kept(
    tunnels: Seq<(Seq<char>, TunnelModel)>,
    device_id: u32,
    e: (Seq<char>, TunnelModel),
)
    ensures
        without_device(tunnels, device_id).contains(e) <==> tunnels.contains(e) && e.1.device_id
            != device_id,
    decreases tunnels.len(),
{
    if tunnels.len() > 0 {
        let front = tunnels.drop_last();
        let last = tunnels.last();
        let kept = without_device(front, device_id);
        lemma_others_kept(front, device_id, e);
        assert(tunnels =~= front.push(last));
        assert(tunnels.contains(e) <==> front.contains(e) || e == last) by {
            if front.contains(e) {
                let i = choose|i: int| 0 <= i < front.len() && front[i] == e;
                assert(tunnels[i] == e);
            }
            assert(tunnels[tunnels.len() - 1] == last);
            if tunnels.contains(e) && e != last {
                let i = choose|i: int| 0 <= i < tunnels.len() && tunnels[i] == e;
                assert(front[i] == e);
            }
        }
        let out = kept.push(last);
        assert(out.contains(e) <==> kept.contains(e) || e == last) by {
            if kept.contains(e) {
                let i = choose|i: int| 0 <= i < kept.len() && kept[i] == e;
                assert(out[i] == e);
            }
            assert(out[out.len() - 1] == last);
            if out.contains(e) && e != last {
                let i = choose|i: int| 0 <= i < out.len() && out[i] == e;
                assert(kept[i] == e);
            }
        }
    }
}

/// All tunnels are shown, in order.
pub proof fn lemma_all_shown(tunnels: Seq<(Seq<char>, TunnelModel)>, i: int)
    requires
        0 <= i < tunnels.len(),
    ensures
        shown_tunnels(tunnels).len() == tunnels.len(),
        shown_tunnels(tunnels)[i] == Tree::Dictionary(tunnel_entries(tunnels[i].0, tunnels[i].1)),
{
}

/// When a device is gone each tunnel is looked at by itself: it stays, in its place after
/// those before it, unless its number is that of the device, and is announced as gone by
/// its name exactly where it does not stay.
pub proof fn lemma_detach_each(
    tunnels: Seq<(Seq<char>, TunnelModel)>,
    name: Seq<char>,
    dt: TunnelModel,
    device_id: u32,
)
    ensures
        without_device(Seq::empty(), device_id).len() == 0,
        names_of_device(Seq::empty(), device_id).len() == 0,
        dt.device_id == device_id ==> {
            &&& without_device(tunnels.push((name, dt)), device_id)
                    == without_device(tunnels, device_id)
            &&& names_of_device(tunnels.push((name, dt)), device_id)
                    == names_of_device(tunnels, device_id).push(name)
        },
        dt.device_id != device_id ==> {
            &&& without_device(tunnels.push((name, dt)), device_id)
                    == without_device(tunnels, device_id).push((name, dt))
            &&& names_of_device(tunnels.push((name, dt)), device_id)
                    == names_of_device(tunnels, device_id)
        },
{
    assert(tunnels.push((name, dt)).drop_last() =~= tunnels);
}

} // verus!
