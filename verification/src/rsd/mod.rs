//! The service catalogue of a device: what a remote service discovery handshake
//! says about the peer and its services.

use vstd::prelude::*;
use vstd::utf8::encode_utf8;
use crate::entries::Entries;
use crate::framing::{prefix, prefixed};
use crate::text::{
    all_digits, digits_value, occurs_at, occurs_in, own, parse_u16, parse_unsigned, same_str,
    str_bytes,
};
use crate::xpc::{Dictionary, Message, Model, Value};

verus! {

/// The port on which a device always listens for initial discovery.
pub const RSD_PORT: u16 = 58783;

/// What a shim service expects first on a raw connection.
pub const CHECKIN: &'static str = "<?xml version=\"1.0\" encoding=\"UTF-8\"?>\n<!DOCTYPE plist PUBLIC \"-//Apple//DTD PLIST 1.0//EN\" \"http://www.apple.com/DTDs/PropertyList-1.0.dtd\">\n<plist version=\"1.0\"><dict><key>Label</key><string>devicelink</string><key>ProtocolVersion</key><string>2</string><key>Request</key><string>RSDCheckin</string></dict></plist>\n";

/// Why a handshake is refused.
#[derive(Debug)]
pub enum Error {
    Protocol(String),
}

/// The port of a service, and what else the catalogue says of it.
#[derive(Debug)]
pub struct ServiceEntry {
    pub port: u16,
    pub uses_remote_xpc: bool,
    pub properties: Dictionary,
}

/// The mathematical counterpart of [`ServiceEntry`].
#[verifier::ext_equal]
pub struct ServiceModel {
    pub port: u16,
    pub uses_remote_xpc: bool,
    pub properties: Seq<(Seq<char>, Model)>,
}

impl View for ServiceEntry {
    type V = ServiceModel;

    open spec fn view(&self) -> ServiceModel {
        ServiceModel {
            port: self.port,
            uses_remote_xpc: self.uses_remote_xpc,
            properties: self.properties@,
        }
    }
}

/// What the handshake says of the device.
#[derive(Debug)]
pub struct PeerInfo {
    pub udid: String,
    pub product_type: String,
    pub os_version: String,
    pub build_version: String,
}

/// Services by name; no name occurs twice.
#[derive(Debug)]
pub struct Catalog {
    entries: Vec<(String, ServiceEntry)>,
}

impl Catalog {
    pub closed spec fn model(self) -> Seq<(Seq<char>, ServiceModel)> {
        self.entries@.map_values(|e: (String, ServiceEntry)| (e.0@, e.1@))
    }

    #[verifier::type_invariant]
    spec fn well_formed(self) -> bool {
        self.model().distinct()
    }

    /// A catalogue without services.
    pub fn new() -> (catalog: Catalog)
        ensures
            catalog@ == Seq::<(Seq<char>, ServiceModel)>::empty(),
    {
        let catalog = Catalog { entries: Vec::new() };
        assert(catalog@ =~= Seq::<(Seq<char>, ServiceModel)>::empty());
        catalog
    }

    /// Adds a service under a name that is not taken.
    pub fn add(&mut self, name: String, entry: ServiceEntry) -> (added: bool)
        ensures
            added == !old(self)@.has_key(name@),
            final(self)@ == if added {
                old(self)@.push((name@, entry@))
            } else {
                old(self)@
            },
    {
        proof {
            use_type_invariant(&*self);
            crate::entries::lemma_lookup_has_key(self@, name@);
        }
        if self.service(name.as_str()).is_some() {
            return false;
        }
        let ghost was = self@;
        let ghost key = name@;
        let ghost model = entry@;
        let mut entries: Vec<(String, ServiceEntry)> = Vec::new();
        core::mem::swap(&mut entries, &mut self.entries);
        let ghost before = entries@;
        entries.push((name, entry));
        proof {
            let view = |e: (String, ServiceEntry)| (e.0@, e.1@);
            assert(entries@.map_values(view) =~= was.push((key, model)));
            assert forall|i: int, j: int|
                0 <= i < j < entries@.map_values(view).len() implies entries@.map_values(view)[i].0
                != entries@.map_values(view)[j].0 by {
                if j == was.len() {
                    assert(was[i].0 != key);
                } else {
                    assert(was[i].0 != was[j].0);
                }
            }
        }
        self.entries = entries;
        true
    }

    /// How many services there are; each has a name of its own.
    pub fn len(&self) -> (n: usize)
        ensures
            n == self@.len(),
            self@.distinct(),
    {
        proof {
            use_type_invariant(self);
        }
        self.entries.len()
    }

    /// The name of the service at `i`.
    pub fn name_at(&self, i: usize) -> (name: &str)
        requires
            i < self@.len(),
        ensures
            name@ == self@[i as int].0,
    {
        self.entries[i].0.as_str()
    }

    /// The service at `i`.
    pub fn entry_at(&self, i: usize) -> (entry: &ServiceEntry)
        requires
            i < self@.len(),
        ensures
            entry@ == self@[i as int].1,
    {
        &self.entries[i].1
    }

    /// Looks a service up by its name.
    pub fn service(&self, name: &str) -> (entry: Option<&ServiceEntry>)
        ensures
            entry is Some <==> self@.lookup(name@) is Some,
            entry is Some ==> self@.lookup(name@) == Some(entry->0@),
    {
        proof {
            use_type_invariant(self);
            crate::entries::lemma_lookup_has_key(self@, name@);
        }
        let mut i: usize = 0;
        while i < self.entries.len()
            invariant
                i <= self.entries@.len(),
                self@.distinct(),
                self@.lookup(name@) is Some <==> self@.has_key(name@),
                forall|j: int| 0 <= j < i ==> (#[trigger] self@[j]).0 != name@,
            decreases self.entries@.len() - i,
        {
            if same_str(self.entries[i].0.as_str(), name) {
                proof {
                    assert(self@[i as int].0 == name@);
                    crate::entries::lemma_lookup_at(self@, i as int);
                }
                return Some(&self.entries[i].1);
            }
            i += 1;
        }
        None
    }
}

impl View for Catalog {
    type V = Seq<(Seq<char>, ServiceModel)>;

    open spec fn view(&self) -> Seq<(Seq<char>, ServiceModel)> {
        self.model()
    }
}

/// The text under `key`, or nothing.
pub open spec fn text_or_empty(d: Seq<(Seq<char>, Model)>, key: Seq<char>) -> Seq<char> {
    match d.lookup(key) {
        Some(Model::String(s)) => s,
        _ => Seq::empty(),
    }
}

/// The port that an entry states: a decimal text, or the low 16 bits of an
/// unsigned number.
pub open spec fn port_of(v: Model) -> Option<u16> {
    match v {
        Model::String(s) => match parse_unsigned(s, 0xffff) {
            Some(n) => Some(n as u16),
            None => None,
        },
        Model::Uint64(n) => Some((n % 0x1_0000) as u16),
        _ => None,
    }
}

/// The properties that an entry states.
pub open spec fn properties_of(entry: Model) -> Seq<(Seq<char>, Model)> {
    match entry.at("Properties"@) {
        Some(Model::Dictionary(d)) => d,
        _ => Seq::empty(),
    }
}

/// The service that a catalogue entry describes.
pub open spec fn service_of(entry: Model) -> Option<ServiceModel> {
    match entry.at("Port"@) {
        Some(v) => match port_of(v) {
            Some(port) => Some(
                ServiceModel {
                    port,
                    uses_remote_xpc: properties_of(entry).lookup("UsesRemoteXPC"@) == Some(
                        Model::Bool(true),
                    ),
                    properties: properties_of(entry),
                },
            ),
            None => None,
        },
        None => None,
    }
}

/// The services that a catalogue describes; entries without a port are left out.
pub open spec fn services_of(entries: Seq<(Seq<char>, Model)>) -> Seq<(Seq<char>, ServiceModel)>
    decreases entries.len(),
{
    if entries.len() == 0 {
        Seq::empty()
    } else {
        let front = services_of(entries.drop_last());
        match service_of(entries.last().1) {
            Some(s) => front.push((entries.last().0, s)),
            None => front,
        }
    }
}

/// The services that a handshake announces.
pub open spec fn handshake_services(body: Model) -> Seq<(Seq<char>, ServiceModel)> {
    match body.at("Services"@) {
        Some(Model::Dictionary(d)) => services_of(d),
        _ => Seq::empty(),
    }
}

/// The text under `key`, or an empty string.
pub fn str_or(d: &Dictionary, key: &str) -> (out: String)
    ensures
        out@ == text_or_empty(d@, key@),
{
    match d.get(key) {
        Some(Value::String(s)) => own(s.as_str()),
        _ => {
            let out: String = String::new();
            assert(out@ =~= Seq::<char>::empty());
            out
        },
    }
}

/// Reads a catalogue entry.
pub fn parse_service_entry(val: &Value) -> (entry: Option<ServiceEntry>)
    ensures
        match entry {
            Some(e) => service_of(val@) == Some(e@),
            None => service_of(val@) is None,
        },
{
    let port: u16 = match val.at("Port") {
        Some(Value::String(s)) => match parse_u16(s.as_str()) {
            Some(port) => port,
            None => {
                return None;
            },
        },
        Some(Value::Uint64(n)) => (*n % 0x1_0000) as u16,
        _ => {
            return None;
        },
    };
    let properties: Dictionary = match val.at("Properties") {
        Some(Value::Dictionary(d)) => d.dup(),
        _ => Dictionary::new(),
    };
    assert(properties@ == properties_of(val@));
    let uses_remote_xpc: bool = match properties.get("UsesRemoteXPC") {
        Some(Value::Bool(b)) => *b,
        _ => false,
    };
    Some(ServiceEntry { port, uses_remote_xpc, properties })
}

proof fn lemma_services_keys(entries: Seq<(Seq<char>, Model)>, key: Seq<char>)
    requires
        services_of(entries).has_key(key),
    ensures
        entries.has_key(key),
    decreases entries.len(),
{
    if entries.len() > 0 {
        let front = entries.drop_last();
        let s = services_of(entries);
        let i = choose|i: int| 0 <= i < s.len() && (#[trigger] s[i]).0 == key;
        if i < services_of(front).len() {
            assert(services_of(front)[i].0 == key);
            lemma_services_keys(front, key);
            let j = choose|j: int| 0 <= j < front.len() && (#[trigger] front[j]).0 == key;
            assert(entries[j].0 == key);
        } else {
            assert(entries[entries.len() - 1].0 == key);
        }
    }
}

proof fn lemma_services_distinct(entries: Seq<(Seq<char>, Model)>)
    requires
        entries.distinct(),
    ensures
        services_of(entries).distinct(),
    decreases entries.len(),
{
    if entries.len() > 0 {
        let front = entries.drop_last();
        assert(front.distinct()) by {
            assert forall|i: int, j: int| 0 <= i < j < front.len() implies front[i].0
                != front[j].0 by {
                assert(entries[i].0 != entries[j].0);
            }
        }
        lemma_services_distinct(front);
        let s = services_of(entries);
        let fs = services_of(front);
        assert forall|i: int, j: int| 0 <= i < j < s.len() implies s[i].0 != s[j].0 by {
            if j < fs.len() {
                assert(fs[i].0 != fs[j].0);
            } else if s[i].0 == s[j].0 {
                assert(fs[i].0 == entries.last().0);
                lemma_services_keys(front, entries.last().0);
                let k = choose|k: int|
                    0 <= k < front.len() && (#[trigger] front[k]).0 == entries.last().0;
                assert(entries[k].0 != entries[entries.len() - 1].0);
            }
        }
    } else {
        assert(services_of(entries) =~= Seq::<(Seq<char>, ServiceModel)>::empty());
    }
}

fn parse_services(d: &Dictionary) -> (catalog: Catalog)
    ensures
        catalog@ == services_of(d@),
{
    let mut out: Vec<(String, ServiceEntry)> = Vec::new();
    let n: usize = d.len();
    let mut i: usize = 0;
    let ghost view = |e: (String, ServiceEntry)| (e.0@, e.1@);
    assert(out@.map_values(view) =~= services_of(d@.take(0)));
    while i < n
        invariant
            n == d@.len(),
            i <= n,
            view == (|e: (String, ServiceEntry)| (e.0@, e.1@)),
            out@.map_values(view) == services_of(d@.take(i as int)),
        decreases n - i,
    {
        let ghost before = out@;
        assert(d@.take(i + 1).drop_last() =~= d@.take(i as int));
        assert(d@.take(i + 1).last() == d@[i as int]);
        if let Some(entry) = parse_service_entry(d.value_at(i)) {
            out.push((own(d.key_at(i)), entry));
            assert(out@.map_values(view) =~= before.map_values(view).push(
                (d@[i as int].0, entry@),
            ));
        }
        i += 1;
    }
    assert(d@.take(i as int) =~= d@);
    proof {
        lemma_services_distinct(d@);
    }
    Catalog { entries: out }
}

/// Reads a handshake. It has to be a dictionary with a dictionary of properties.
pub fn parse_handshake(body: &Value) -> (got: Result<(PeerInfo, Catalog), Error>)
    ensures
        match got {
            Ok((peer, catalog)) => body@.at("Properties"@) matches Some(Model::Dictionary(props))
                && {
                &&& peer.udid@ == text_or_empty(props, "UniqueDeviceID"@)
                &&& peer.product_type@ == text_or_empty(props, "ProductType"@)
                &&& peer.os_version@ == text_or_empty(props, "OSVersion"@)
                &&& peer.build_version@ == text_or_empty(props, "BuildVersion"@)
                &&& catalog@ == handshake_services(body@)
            },
            Err(Error::Protocol(text)) => if body@ is Dictionary {
                !(body@.at("Properties"@) matches Some(Model::Dictionary(_))) && text@
                    == "no Properties in Handshake"@
            } else {
                text@ == "Handshake body not a dict"@
            },
        },
{
    let dict: &Dictionary = match body.as_dict() {
        Some(d) => d,
        None => {
            return Err(Error::Protocol(own("Handshake body not a dict")));
        },
    };
    let props: &Dictionary = match dict.get("Properties") {
        Some(Value::Dictionary(d)) => d,
        _ => {
            return Err(Error::Protocol(own("no Properties in Handshake")));
        },
    };
    let peer = PeerInfo {
        udid: str_or(props, "UniqueDeviceID"),
        product_type: str_or(props, "ProductType"),
        os_version: str_or(props, "OSVersion"),
        build_version: str_or(props, "BuildVersion"),
    };
    let catalog: Catalog = match dict.get("Services") {
        Some(Value::Dictionary(d)) => parse_services(d),
        _ => {
            let catalog = Catalog { entries: Vec::new() };
            assert(catalog@ =~= Seq::<(Seq<char>, ServiceModel)>::empty());
            catalog
        },
    };
    Ok((peer, catalog))
}

/// Whether a message is the handshake that a client waits for.
pub open spec fn is_handshake(msg: Message) -> bool {
    msg.body is Some && msg.body->0@.at("Properties"@) matches Some(Model::Dictionary(_))
}

/// What a message means to a client that waits for the handshake: everything
/// else is passed over.
pub fn await_handshake(msg: &Message) -> (got: Option<(PeerInfo, Catalog)>)
    ensures
        got is Some <==> is_handshake(*msg),
        got matches Some((peer, catalog)) ==> {
            let body = msg.body->0@;
            &&& catalog@ == handshake_services(body)
            &&& body.at("Properties"@) matches Some(Model::Dictionary(props)) && {
                &&& peer.udid@ == text_or_empty(props, "UniqueDeviceID"@)
                &&& peer.product_type@ == text_or_empty(props, "ProductType"@)
                &&& peer.os_version@ == text_or_empty(props, "OSVersion"@)
                &&& peer.build_version@ == text_or_empty(props, "BuildVersion"@)
            }
        },
{
    match &msg.body {
        Some(body) => match parse_handshake(body) {
            Ok(got) => Some(got),
            Err(_) => None,
        },
        None => None,
    }
}

/// The check-in of a shim service, behind its length.
pub fn rsd_checkin() -> (out: Vec<u8>)
    ensures
        out@ == prefixed(encode_utf8(CHECKIN@)),
{
    let body: Vec<u8> = str_bytes(CHECKIN);
    prefix(body.as_slice())
}

/// Which port an entry states: a text states the number that its digits count, if it is
/// below 65536, and a number states its lowest sixteen bits; nothing else states a port.
pub proof fn lemma_ports(v: Model)
    ensures
        v matches Model::Uint64(n) ==> (port_of(v) matches Some(p) && p < 0x1_0000 && (n - p)
            % 0x1_0000 == 0),
        v matches Model::String(s) ==> match port_of(v) {
            Some(p) => parse_unsigned(s, 65535) == Some(p as nat),
            None => parse_unsigned(s, 65535) is None,
        },
        v matches Model::String(s) ==> (s.len() > 0 && all_digits(s) && digits_value(s) < 65536
            ==> (port_of(v) matches Some(p) && p == digits_value(s))),
        !(v is Uint64) && !(v is String) ==> port_of(v) is None,
{
    if let Model::String(s) = v {
        crate::text::lemma_parse_unsigned(s, 0xffff);
    }
}

/// What an entry says of its service: the port stands under `Port`, without one there is
/// no service; its properties are the dictionary under `Properties`; it speaks remote XPC
/// exactly if they hold a true `UsesRemoteXPC`.
pub proof fn lemma_entry_tells(d: Seq<(Seq<char>, Model)>)
    ensures
        match service_of(Model::Dictionary(d)) {
            Some(s) => {
                &&& d.lookup("Port"@) matches Some(v) && port_of(v) == Some(s.port)
                &&& d.lookup("Properties"@) matches Some(Model::Dictionary(p)) ==> s.properties == p
                &&& !(d.lookup("Properties"@) matches Some(Model::Dictionary(_)))
                    ==> s.properties.len() == 0
                &&& s.uses_remote_xpc <==> s.properties.lookup("UsesRemoteXPC"@) == Some(
                    Model::Bool(true),
                )
            },
            None => d.lookup("Port"@) matches Some(v) ==> port_of(v) is None,
        },
{
}

/// A catalogue holds a service under a name exactly if the handshake describes one there,
/// and it is that service.
pub proof fn lemma_services_announced(d: Seq<(Seq<char>, Model)>, name: Seq<char>)
    requires
        d.distinct(),
    ensures
        services_of(d).lookup(name) == match d.lookup(name) {
            Some(v) => service_of(v),
            None => None::<ServiceModel>,
        },
    decreases d.len(),
{
    if d.len() > 0 {
        let front = d.drop_last();
        assert(front.distinct()) by {
            assert forall|i: int, j: int| 0 <= i < j < front.len() implies front[i].0
                != front[j].0 by {
                assert(d[i].0 != d[j].0);
            }
        }
        lemma_services_announced(front, name);
        let all = services_of(d);
        match service_of(d.last().1) {
            Some(s) => {
                assert(all.drop_last() =~= services_of(front));
                assert(all.last() == (d.last().0, s));
            },
            None => {
                if d.last().0 == name {
                    crate::entries::lemma_lookup_has_key(services_of(front), name);
                    if services_of(front).has_key(name) {
                        lemma_services_keys(front, name);
                        let k = choose|k: int|
                            0 <= k < front.len() && (#[trigger] front[k]).0 == name;
                        assert(d[k].0 != d[d.len() - 1].0);
                    }
                }
            },
        }
    }
}

/// The services of a handshake are those of the dictionary under `Services`.
pub proof fn lemma_handshake_tells(d: Seq<(Seq<char>, Model)>, name: Seq<char>)
    ensures
        d.lookup("Services"@) matches Some(Model::Dictionary(services)) ==> (services.distinct()
            ==> handshake_services(Model::Dictionary(d)).lookup(name) == match services.lookup(name) {
            Some(v) => service_of(v),
            None => None::<ServiceModel>,
        }),
        !(d.lookup("Services"@) matches Some(Model::Dictionary(_))) ==> handshake_services(
            Model::Dictionary(d),
        ).len() == 0,
{
    if let Some(Model::Dictionary(services)) = d.lookup("Services"@) {
        if services.distinct() {
            lemma_services_announced(services, name);
        }
    }
}

/// The text under a key is that text; anything else there counts as no characters.
pub proof fn lemma_text_or_empty(d: Seq<(Seq<char>, Model)>, key: Seq<char>)
    ensures
        d.lookup(key) matches Some(Model::String(s)) ==> text_or_empty(d, key) == s,
        !(d.lookup(key) matches Some(Model::String(_))) ==> text_or_empty(d, key).len() == 0,
{
}

/// A message is the handshake exactly if its body is a dictionary that holds a dictionary
/// of properties.
pub proof fn lemma_handshakes(msg: Message)
    ensures
        is_handshake(msg) <==> (msg.body matches Some(v) && v@ matches Model::Dictionary(d)
            && d.lookup("Properties"@) matches Some(Model::Dictionary(_))),
{
}

/// A check-in says who checks in, by which version of the protocol, and that it is one.
#[verifier::spinoff_prover]
pub proof fn lemma_checkin_tells()
    ensures
        occurs_in(CHECKIN@, "<key>Label</key><string>devicelink</string>"@),
        occurs_in(CHECKIN@, "<key>ProtocolVersion</key><string>2</string>"@),
        occurs_in(CHECKIN@, "<key>Request</key><string>RSDCheckin</string>"@),
{
    reveal_strlit("<?xml version=\"1.0\" encoding=\"UTF-8\"?>\n<!DOCTYPE plist PUBLIC \"-//Apple//DTD PLIST 1.0//EN\" \"http://www.apple.com/DTDs/PropertyList-1.0.dtd\">\n<plist version=\"1.0\"><dict><key>Label</key><string>devicelink</string><key>ProtocolVersion</key><string>2</string><key>Request</key><string>RSDCheckin</string></dict></plist>\n");
    reveal_strlit("<key>Label</key><string>devicelink</string>");
    reveal_strlit("<key>ProtocolVersion</key><string>2</string>");
    reveal_strlit("<key>Request</key><string>RSDCheckin</string>");
    assert(CHECKIN@.subrange(169, 212) =~= "<key>Label</key><string>devicelink</string>"@);
    assert(occurs_at(CHECKIN@, "<key>Label</key><string>devicelink</string>"@, 169));
    assert(CHECKIN@.subrange(212, 256) =~= "<key>ProtocolVersion</key><string>2</string>"@);
    assert(occurs_at(CHECKIN@, "<key>ProtocolVersion</key><string>2</string>"@, 212));
    assert(CHECKIN@.subrange(256, 301) =~= "<key>Request</key><string>RSDCheckin</string>"@);
    assert(occurs_at(CHECKIN@, "<key>Request</key><string>RSDCheckin</string>"@, 256));
}

} // verus!
