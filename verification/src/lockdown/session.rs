//! Sessions with the lockdown service: the requests, what the replies mean, and
//! what a session remembers.

use vstd::prelude::*;
use crate::entries::Entries;
use crate::framing::{carries, prefix, prefixed};
use crate::proplist::format::{
    from_bytes, plist_error_text, plist_parse, plist_xml, to_xml, writable,
};
use crate::proplist::{no_entries, Dict, Plist, Tree};
use crate::text::{join2, join3, own, same_str, texts};
use super::error::Error;
use super::pair_record::{PairRecord, RecordModel};
use super::types::{text_or_empty, unnamed, DeviceInfo, ServiceInfo};

verus! {

/// An optional text as an entry.
pub open spec fn with_option(
    d: Seq<(Seq<char>, Tree)>,
    key: Seq<char>,
    text: Option<Seq<char>>,
) -> Seq<(Seq<char>, Tree)> {
    match text {
        Some(t) => d.with(key, Tree::String(t)),
        None => d,
    }
}

/// The view of an optional text.
pub open spec fn opt(s: Option<&str>) -> Option<Seq<char>> {
    match s {
        Some(t) => Some(t@),
        None => None,
    }
}

fn put_option(d: &mut Dict, key: &str, text: Option<&str>)
    ensures
        final(d)@ == with_option(old(d)@, key@, opt(text)),
{
    if let Some(t) = text {
        d.put_str(key, t);
    }
}

/// A request with its optional fields.
pub open spec fn request(
    name: Seq<char>,
    domain: Option<Seq<char>>,
    key: Option<Seq<char>>,
    service: Option<Seq<char>>,
) -> Tree {
    let d0 = no_entries().with("Request"@, Tree::String(name));
    let d1 = with_option(with_option(d0, "Domain"@, domain), "Key"@, key);
    Tree::Dictionary(
        with_option(d1.with("Label"@, Tree::String("devicelink"@)), "Service"@, service),
    )
}

fn build(name: &str, domain: Option<&str>, key: Option<&str>, service: Option<&str>) -> (p: Plist)
    ensures
        p@ == request(name@, opt(domain), opt(key), opt(service)),
{
    let mut d: Dict = Dict::new();
    d.put_str("Request", name);
    put_option(&mut d, "Domain", domain);
    put_option(&mut d, "Key", key);
    d.put_str("Label", "devicelink");
    put_option(&mut d, "Service", service);
    Plist::dict(d)
}

/// Asks for one value, or for all values where no key is given.
pub fn get_value_request(domain: Option<&str>, key: Option<&str>) -> (p: Plist)
    ensures
        p@ == request("GetValue"@, opt(domain), opt(key), None),
{
    build("GetValue", domain, key, None)
}

/// Asks for the start of a service.
pub fn start_service_request(name: &str) -> (p: Plist)
    ensures
        p@ == request("StartService"@, None, None, Some(name@)),
{
    build("StartService", None, None, Some(name))
}

/// A request to set a value.
pub open spec fn set_value_tree(domain: Option<Seq<char>>, key: Seq<char>, value: Tree) -> Tree {
    Tree::Dictionary(
        with_option(
            no_entries().with("Request"@, Tree::String("SetValue"@)),
            "Domain"@,
            domain,
        ).with("Key"@, Tree::String(key)).with("Value"@, value).with(
            "Label"@,
            Tree::String("devicelink"@),
        ),
    )
}

/// Asks to set a value.
pub fn set_value_request(domain: Option<&str>, key: &str, value: Plist) -> (p: Plist)
    ensures
        p@ == set_value_tree(opt(domain), key@, value@),
{
    let mut d: Dict = Dict::new();
    d.put_str("Request", "SetValue");
    put_option(&mut d, "Domain", domain);
    d.put_str("Key", key);
    d.put("Value", value);
    d.put_str("Label", "devicelink");
    Plist::dict(d)
}

/// A request to start a session.
pub open spec fn start_session_tree(host_id: Seq<char>, system_buid: Seq<char>) -> Tree {
    Tree::Dictionary(
        no_entries().with("Request"@, Tree::String("StartSession"@)).with(
            "HostID"@,
            Tree::String(host_id),
        ).with("SystemBUID"@, Tree::String(system_buid)).with(
            "Label"@,
            Tree::String("devicelink"@),
        ),
    )
}

/// Asks to start a session for a paired host.
pub fn start_session_request(pair: &PairRecord) -> (p: Plist)
    ensures
        p@ == start_session_tree(pair.host_id@, pair.system_buid@),
{
    let mut d: Dict = Dict::new();
    d.put_str("Request", "StartSession");
    d.put_str("HostID", pair.host_id.as_str());
    d.put_str("SystemBUID", pair.system_buid.as_str());
    d.put_str("Label", "devicelink");
    Plist::dict(d)
}

/// A request to end a session.
pub open spec fn stop_session_tree(session_id: Seq<char>) -> Tree {
    Tree::Dictionary(
        no_entries().with("Request"@, Tree::String("StopSession"@)).with(
            "SessionID"@,
            Tree::String(session_id),
        ).with("Label"@, Tree::String("devicelink"@)),
    )
}

fn stop_session_request(session_id: &str) -> (p: Plist)
    ensures
        p@ == stop_session_tree(session_id@),
{
    let mut d: Dict = Dict::new();
    d.put_str("Request", "StopSession");
    d.put_str("SessionID", session_id);
    d.put_str("Label", "devicelink");
    Plist::dict(d)
}

/// Asks what kind of service this is.
pub fn query_type_request() -> (p: Plist)
    ensures
        p@ == Tree::Dictionary(no_entries().with("Request"@, Tree::String("QueryType"@))),
{
    let mut d: Dict = Dict::new();
    d.put_str("Request", "QueryType");
    Plist::dict(d)
}

/// The bytes of a message: its XML behind its length.
pub fn frame(p: &Plist) -> (out: Result<Vec<u8>, Error>)
    ensures
        match plist_xml(p@) {
            Ok(xml) => out matches Ok(bytes) && bytes@ == prefixed(xml),
            Err(why) => out matches Err(Error::Plist(e)) && plist_error_text(e) == why,
        },
        writable(p@) ==> (out matches Ok(bytes) && carries(bytes@, p@)),
{
    match to_xml(p) {
        Ok(xml) => Ok(prefix(xml.as_slice())),
        Err(e) => Err(Error::Plist(e)),
    }
}

/// Reads the body of a message.
pub fn read_body(body: &[u8]) -> (p: Result<Plist, Error>)
    ensures
        match plist_parse(body@) {
            Ok(t) => p matches Ok(v) && v@ == t,
            Err(why) => p matches Err(Error::Plist(e)) && plist_error_text(e) == why,
        },
{
    match from_bytes(body) {
        Ok(p) => Ok(p),
        Err(e) => Err(Error::Plist(e)),
    }
}

/// The fields of a reply.
#[derive(Debug)]
pub struct BaseResponse {
    pub error: Option<String>,
    pub value: Option<Plist>,
    pub port: Option<u16>,
    pub enable_service_ssl: Option<bool>,
    pub session_id: Option<String>,
    pub enable_session_ssl: Option<bool>,
}

/// Judges a reply: it has to have the known fields, and none that tells an error.
pub fn expect_response(parsed: Result<BaseResponse, String>) -> (resp: Result<BaseResponse, Error>)
    ensures
        match parsed {
            Err(e) => resp matches Err(Error::Lockdown(t)) && t@ == "response parse error: "@ + e@,
            Ok(r) => match r.error {
                Some(e) => resp matches Err(Error::Lockdown(t)) && t@ == e@,
                None => resp matches Ok(v) && v == r,
            },
        },
{
    match parsed {
        Err(e) => Err(Error::Lockdown(join2("response parse error: ", e.as_str()))),
        Ok(r) => {
            if let Some(e) = &r.error {
                return Err(Error::Lockdown(own(e.as_str())));
            }
            Ok(r)
        },
    }
}

/// What a device says when asked for all values.
pub fn all_values(resp: &BaseResponse) -> (info: Result<DeviceInfo, Error>)
    ensures
        match resp.value {
            Some(Plist::Dictionary(d)) => info matches Ok(i) && i.device_name@ == text_or_empty(
                d@,
                "DeviceName"@,
            ) && i.product_type@ == text_or_empty(d@, "ProductType"@) && i.product_version@
                == text_or_empty(d@, "ProductVersion"@) && i.serial_number@ == text_or_empty(
                d@,
                "SerialNumber"@,
            ) && i.hardware_model@ == text_or_empty(d@, "HardwareModel"@) && i.unique_device_id@
                == text_or_empty(d@, "UniqueDeviceID"@) && i.cpu_architecture@ == text_or_empty(
                d@,
                "CPUArchitecture"@,
            ) && i.extra@ == unnamed(d@),
            _ => info matches Err(Error::Lockdown(t)) && t@
                == "GetValue returned unexpected payload"@,
        },
{
    match &resp.value {
        Some(Plist::Dictionary(d)) => Ok(DeviceInfo::from_dict(d)),
        _ => Err(Error::Lockdown(own("GetValue returned unexpected payload"))),
    }
}

/// The one value that was asked for.
pub fn one_value(resp: BaseResponse, key: &str) -> (value: Result<Plist, Error>)
    ensures
        match resp.value {
            Some(v) => value matches Ok(p) && p == v,
            None => value matches Err(Error::Lockdown(t)) && t@ == "no Value for key "@ + key@,
        },
{
    match resp.value {
        Some(v) => Ok(v),
        None => Err(Error::Lockdown(join2("no Value for key ", key))),
    }
}

/// Whether a value was set.
pub fn value_set(resp: &BaseResponse, key: &str) -> (done: Result<(), Error>)
    ensures
        match resp.error {
            Some(e) => done matches Err(Error::Lockdown(t)) && t@ == "SetValue("@ + key@ + "): "@
                + e@,
            None => done matches Ok(()),
        },
{
    match &resp.error {
        Some(e) => Err(
            Error::Lockdown(join2(join3("SetValue(", key, "): ").as_str(), e.as_str())),
        ),
        None => Ok(()),
    }
}

/// Where a started service listens.
pub fn service_started(resp: &BaseResponse, name: &str) -> (info: Result<ServiceInfo, Error>)
    ensures
        match resp.port {
            Some(port) => info matches Ok(i) && i == (ServiceInfo {
                port,
                enable_service_ssl: resp.enable_service_ssl == Some(true),
            }),
            None => info matches Err(Error::Lockdown(t)) && t@ == "StartService("@ + name@
                + ") failed: "@ + match resp.error {
                Some(e) => e@,
                None => "no port returned"@,
            },
        },
{
    match resp.port {
        Some(port) => Ok(
            ServiceInfo {
                port,
                enable_service_ssl: match resp.enable_service_ssl {
                    Some(b) => b,
                    None => false,
                },
            },
        ),
        None => {
            let why: String = match &resp.error {
                Some(e) => own(e.as_str()),
                None => own("no port returned"),
            };
            Err(
                Error::Lockdown(
                    join2(join3("StartService(", name, ") failed: ").as_str(), why.as_str()),
                ),
            )
        },
    }
}

/// The kind of service that a reply states.
pub fn queried_type(reply: &Plist) -> (kind: Result<String, Error>)
    ensures
        match reply@ {
            Tree::Dictionary(d) => match d.lookup("Type"@) {
                Some(Tree::String(s)) => kind matches Ok(k) && k@ == s,
                _ => kind matches Err(Error::Lockdown(t)) && t@ == "QueryType: no Type field"@,
            },
            _ => kind matches Err(Error::Lockdown(t)) && t@ == "QueryType: unexpected response"@,
        },
{
    match reply {
        Plist::Dictionary(d) => match d.get("Type") {
            Some(Plist::String(s)) => Ok(own(s.as_str())),
            _ => Err(Error::Lockdown(own("QueryType: no Type field"))),
        },
        _ => Err(Error::Lockdown(own("QueryType: unexpected response"))),
    }
}

/// The keys of a dictionary.
pub open spec fn keys(d: Seq<(Seq<char>, Tree)>) -> Seq<Seq<char>> {
    d.map_values(|e: (Seq<char>, Tree)| e.0)
}

fn key_list(d: &Dict) -> (out: Vec<String>)
    ensures
        texts(out@) == keys(d@),
{
    let mut out: Vec<String> = Vec::new();
    let n: usize = d.len();
    let mut i: usize = 0;
    assert(texts(out@) =~= keys(d@).take(0));
    while i < n
        invariant
            i <= n == d@.len(),
            texts(out@) == keys(d@).take(i as int),
        decreases n - i,
    {
        let ghost before = out@;
        out.push(own(d.key_at(i)));
        assert(texts(out@) =~= texts(before).push(d@[i as int].0));
        assert(keys(d@).take(i + 1) =~= keys(d@).take(i as int).push(d@[i as int].0));
        i += 1;
    }
    assert(keys(d@).take(n as int) =~= keys(d@));
    out
}

/// The services that a device lists, if the value of `Services` in the lockdown
/// domain is a dictionary.
pub fn listed_services(services: Option<&Plist>) -> (names: Option<Vec<String>>)
    ensures
        match services {
            Some(Plist::Dictionary(d)) => names matches Some(n) && texts(n@) == keys(d@),
            _ => names is None,
        },
{
    match services {
        Some(Plist::Dictionary(d)) => Some(key_list(d)),
        _ => None,
    }
}

/// The services among all values of a device: none where they are not told.
pub fn services_among(values: Option<&Plist>) -> (names: Vec<String>)
    ensures
        match values {
            Some(p) => match p@.at("Services"@) {
                Some(Tree::Dictionary(d)) => texts(names@) == keys(d),
                _ => names@.len() == 0,
            },
            None => names@.len() == 0,
        },
{
    if let Some(p) = values {
        if let Some(Plist::Dictionary(d)) = p.at("Services") {
            return key_list(d);
        }
    }
    Vec::new()
}

/// The services in the value of `Services` in the lockdown domain.
pub open spec fn domain_names(domain: Option<&Plist>) -> Seq<Seq<char>> {
    match domain {
        Some(p) => match p@ {
            Tree::Dictionary(d) => keys(d),
            _ => Seq::empty(),
        },
        None => Seq::empty(),
    }
}

/// The services among all values of a device.
pub open spec fn names_among(all: Option<&Plist>) -> Seq<Seq<char>> {
    match all {
        Some(p) => match p@.at("Services"@) {
            Some(Tree::Dictionary(d)) => keys(d),
            _ => Seq::empty(),
        },
        None => Seq::empty(),
    }
}

/// Names with those of `more` that are not among them behind them.
pub open spec fn with_more(names: Seq<Seq<char>>, more: Seq<Seq<char>>) -> Seq<Seq<char>>
    decreases more.len(),
{
    if more.len() == 0 {
        names
    } else {
        let front = with_more(names, more.drop_last());
        if front.contains(more.last()) {
            front
        } else {
            front.push(more.last())
        }
    }
}

/// A name is among the merged ones exactly where one of both told it.
pub proof fn lemma_merged(names: Seq<Seq<char>>, more: Seq<Seq<char>>, name: Seq<char>)
    ensures
        with_more(names, more).contains(name) <==> names.contains(name) || more.contains(name),
    decreases more.len(),
{
    if more.len() > 0 {
        let last = more.last();
        let front = with_more(names, more.drop_last());
        lemma_merged(names, more.drop_last(), name);
        assert(more.contains(name) <==> more.drop_last().contains(name) || name == last) by {
            assert(more =~= more.drop_last().push(last));
            if more.contains(name) {
                let i = choose|i: int| 0 <= i < more.len() && more[i] == name;
                if i < more.len() - 1 {
                    assert(more.drop_last()[i] == name);
                }
            }
            if more.drop_last().contains(name) {
                let i = choose|i: int|
                    0 <= i < more.drop_last().len() && more.drop_last()[i] == name;
                assert(more[i] == name);
            }
            assert(more[more.len() - 1] == last);
        }
        if !front.contains(last) {
            let all = front.push(last);
            assert(all[all.len() - 1] == last);
            if front.contains(name) {
                let i = choose|i: int| 0 <= i < front.len() && front[i] == name;
                assert(all[i] == name);
            }
            if all.contains(name) && name != last {
                let i = choose|i: int| 0 <= i < all.len() && all[i] == name;
                assert(front[i] == name);
            }
        }
    }
}

fn holds_name(names: &Vec<String>, name: &str) -> (yes: bool)
    ensures
        yes == texts(names@).contains(name@),
{
    let mut i: usize = 0;
    while i < names.len()
        invariant
            i <= names@.len(),
            forall|j: int| 0 <= j < i ==> (#[trigger] texts(names@)[j]) != name@,
        decreases names@.len() - i,
    {
        if same_str(names[i].as_str(), name) {
            assert(texts(names@)[i as int] == name@);
            return true;
        }
        i += 1;
    }
    false
}

/// What is left of an answer where a refusal of the service counts as nothing.
pub open spec fn if_told<T>(told: Result<T, Error>) -> Result<Option<T>, Error> {
    match told {
        Ok(value) => Ok(Some(value)),
        Err(Error::Lockdown(_)) => Ok(None),
        Err(e) => Err(e),
    }
}

/// Takes a refusal of the service as nothing; other errors stay.
pub fn accessible<T>(told: Result<T, Error>) -> (value: Result<Option<T>, Error>)
    ensures
        value == if_told(told),
{
    match told {
        Ok(value) => Ok(Some(value)),
        Err(Error::Lockdown(_)) => Ok(None),
        Err(e) => Err(e),
    }
}

/// Merges the services that the lockdown domain lists with those among all values of
/// the device. What could not be asked for counts as nothing.
pub fn merged_services(domain: Option<&Plist>, all: Option<&Plist>) -> (names: Vec<String>)
    ensures
        texts(names@) == with_more(domain_names(domain), names_among(all)),
        forall|name: Seq<char>| #[trigger]
            texts(names@).contains(name) <==> domain_names(domain).contains(name) || names_among(
                all,
            ).contains(name),
{
    let mut names: Vec<String> = match listed_services(domain) {
        Some(names) => names,
        None => Vec::new(),
    };
    let ghost first = domain_names(domain);
    let ghost told = names_among(all);
    assert(texts(names@) =~= first);
    let more: Vec<String> = services_among(all);
    assert(texts(more@) =~= told);
    assert(told.take(0) =~= Seq::<Seq<char>>::empty());
    let mut i: usize = 0;
    while i < more.len()
        invariant
            i <= more@.len(),
            texts(more@) == told,
            texts(names@) == with_more(first, told.take(i as int)),
        decreases more@.len() - i,
    {
        let ghost before = texts(names@);
        assert(told.take(i + 1).drop_last() =~= told.take(i as int));
        assert(told.take(i + 1).last() == more@[i as int]@);
        if !holds_name(&names, more[i].as_str()) {
            names.push(own(more[i].as_str()));
            assert(texts(names@) =~= before.push(more@[i as int]@));
        }
        i += 1;
    }
    assert(told.take(i as int) =~= told);
    proof {
        assert forall|name: Seq<char>| #[trigger] texts(names@).contains(name) <==> first.contains(
            name,
        ) || told.contains(name) by {
            lemma_merged(first, told, name);
        }
    }
    names
}

/// What a session remembers of its device and of its pairing.
#[derive(Debug)]
pub struct LockdownSession {
    session_id: Option<String>,
    device_id: u32,
    pair_record: Option<PairRecord>,
}

impl LockdownSession {
    /// The identifier of the session, once it has started.
    pub closed spec fn id(self) -> Option<Seq<char>> {
        match self.session_id {
            Some(s) => Some(s@),
            None => None,
        }
    }

    /// The device of the session.
    pub closed spec fn device(self) -> u32 {
        self.device_id
    }

    /// The pair record with which the session was started.
    pub closed spec fn pairing(self) -> Option<RecordModel> {
        match self.pair_record {
            Some(r) => Some(r@),
            None => None,
        }
    }

    /// A connection to a device, before any session.
    pub fn connect(device_id: u32) -> (s: LockdownSession)
        ensures
            s.id() is None,
            s.device() == device_id,
            s.pairing() is None,
    {
        LockdownSession { session_id: None, device_id, pair_record: None }
    }

    pub fn device_id(&self) -> (id: u32)
        ensures
            id == self.device(),
    {
        self.device_id
    }

    /// Takes in the reply to the request for a session. Returns its identifier, and
    /// whether the connection has to change to TLS.
    pub fn start_session(&mut self, pair: &PairRecord, resp: &BaseResponse) -> (started: Result<
        (String, bool),
        Error,
    >)
        ensures
            final(self).device() == old(self).device(),
            match resp.session_id {
                Some(sid) => {
                    &&& started matches Ok((id, tls)) && id@ == sid@ && tls == (
                    resp.enable_session_ssl == Some(true))
                    &&& final(self).id() == Some(sid@)
                    &&& final(self).pairing() == Some(pair@)
                },
                None => {
                    &&& started matches Err(Error::Lockdown(t)) && t@
                        == "StartSession: no SessionID"@
                    &&& *final(self) == *old(self)
                },
            },
    {
        match &resp.session_id {
            Some(sid) => {
                self.session_id = Some(own(sid.as_str()));
                self.pair_record = Some(pair.dup());
                let tls: bool = match resp.enable_session_ssl {
                    Some(b) => b,
                    None => false,
                };
                Ok((own(sid.as_str()), tls))
            },
            None => Err(Error::Lockdown(own("StartSession: no SessionID"))),
        }
    }

    /// The request that ends the session, if one has started. A session is ended at
    /// most once.
    pub fn stop_session(&mut self) -> (req: Option<Plist>)
        ensures
            final(self).id() is None,
            final(self).device() == old(self).device(),
            final(self).pairing() == old(self).pairing(),
            match old(self).id() {
                Some(id) => req matches Some(p) && p@ == stop_session_tree(id),
                None => req is None,
            },
    {
        let sid: Option<String> = self.session_id.take();
        match sid {
            Some(id) => Some(stop_session_request(id.as_str())),
            None => None,
        }
    }

    /// The pair record for the TLS connection to a service: none where the service
    /// is plain.
    pub fn service_credentials(&self, name: &str, svc: ServiceInfo) -> (pair: Result<
        Option<&PairRecord>,
        Error,
    >)
        ensures
            if !svc.enable_service_ssl {
                pair matches Ok(None)
            } else {
                match self.pairing() {
                    Some(r) => pair matches Ok(Some(p)) && p@ == r,
                    None => pair matches Err(Error::Tls(t)) && t@ == "service "@ + name@
                        + " requires SSL but no pair record — call start_session first"@,
                }
            },
    {
        if !svc.enable_service_ssl {
            return Ok(None);
        }
        match &self.pair_record {
            Some(p) => Ok(Some(p)),
            None => Err(
                Error::Tls(
                    join3(
                        "service ",
                        name,
                        " requires SSL but no pair record — call start_session first",
                    ),
                ),
            ),
        }
    }
}

/// The entry that an optional text makes.
pub open spec fn tree_of(text: Option<Seq<char>>) -> Option<Tree> {
    match text {
        Some(t) => Some(Tree::String(t)),
        None => None,
    }
}

/// A request says under its keys what is asked, of which domain, key and service, and by
/// whom; what is not given is not there.
pub proof fn lemma_request_tells(name: Seq<char>, domain: Option<Seq<char>>, key: Option<Seq<char>>, service: Option<Seq<char>>)
    ensures
        request(name, domain, key, service) matches Tree::Dictionary(d) && {
            &&& d.lookup("Request"@) == Some(Tree::String(name))
            &&& d.lookup("Domain"@) == tree_of(domain)
            &&& d.lookup("Key"@) == tree_of(key)
            &&& d.lookup("Label"@) == Some(Tree::String("devicelink"@))
            &&& d.lookup("Service"@) == tree_of(service)
        },
{
    broadcast use crate::entries::lemma_lookup_with;

    reveal_strlit("Request");
    reveal_strlit("Domain");
    reveal_strlit("Key");
    reveal_strlit("Label");
    reveal_strlit("Service");
    assert("Request"@.len() == 7);
    assert("Domain"@.len() == 6);
    assert("Key"@.len() == 3);
    assert("Label"@.len() == 5);
    assert("Service"@.len() == 7);
    assert("Request"@[0] == 'R');
    assert("Service"@[0] == 'S');
}

/// A request to set a value says of which domain and key, and the value.
pub proof fn lemma_set_value_tells(domain: Option<Seq<char>>, key: Seq<char>, value: Tree)
    ensures
        set_value_tree(domain, key, value) matches Tree::Dictionary(d) && {
            &&& d.lookup("Request"@) == Some(Tree::String("SetValue"@))
            &&& d.lookup("Domain"@) == tree_of(domain)
            &&& d.lookup("Key"@) == Some(Tree::String(key))
            &&& d.lookup("Value"@) == Some(value)
            &&& d.lookup("Label"@) == Some(Tree::String("devicelink"@))
        },
{
    broadcast use crate::entries::lemma_lookup_with;

    reveal_strlit("Request");
    reveal_strlit("Domain");
    reveal_strlit("Key");
    reveal_strlit("Value");
    reveal_strlit("Label");
    assert("Request"@.len() == 7);
    assert("Domain"@.len() == 6);
    assert("Key"@.len() == 3);
    assert("Value"@.len() == 5);
    assert("Label"@.len() == 5);
    assert("Value"@[0] == 'V');
    assert("Label"@[0] == 'L');
}

/// A request for a session names the host and its system; one to end a session names the
/// session.
pub proof fn lemma_sessions_tell(host_id: Seq<char>, system_buid: Seq<char>, session_id: Seq<char>)
    ensures
        start_session_tree(host_id, system_buid) matches Tree::Dictionary(d) && {
            &&& d.lookup("Request"@) == Some(Tree::String("StartSession"@))
            &&& d.lookup("HostID"@) == Some(Tree::String(host_id))
            &&& d.lookup("SystemBUID"@) == Some(Tree::String(system_buid))
            &&& d.lookup("Label"@) == Some(Tree::String("devicelink"@))
        },
        stop_session_tree(session_id) matches Tree::Dictionary(d) && {
            &&& d.lookup("Request"@) == Some(Tree::String("StopSession"@))
            &&& d.lookup("SessionID"@) == Some(Tree::String(session_id))
            &&& d.lookup("Label"@) == Some(Tree::String("devicelink"@))
        },
{
    broadcast use crate::entries::lemma_lookup_with;

    reveal_strlit("Request");
    reveal_strlit("HostID");
    reveal_strlit("SystemBUID");
    reveal_strlit("SessionID");
    reveal_strlit("Label");
    assert("Request"@.len() == 7);
    assert("HostID"@.len() == 6);
    assert("SystemBUID"@.len() == 10);
    assert("SessionID"@.len() == 9);
    assert("Label"@.len() == 5);
}

/// The names in a dictionary are its keys, in order.
pub proof fn lemma_keys(d: Seq<(Seq<char>, Tree)>)
    ensures
        keys(d).len() == d.len(),
        forall|i: int| 0 <= i < d.len() ==> #[trigger] keys(d)[i] == d[i].0,
        forall|name: Seq<char>| #[trigger] keys(d).contains(name) <==> d.has_key(name),
{
    assert forall|name: Seq<char>| #[trigger] keys(d).contains(name) <==> d.has_key(name) by {
        if keys(d).contains(name) {
            let i = choose|i: int| 0 <= i < keys(d).len() && keys(d)[i] == name;
            assert(d[i].0 == name);
        }
        if d.has_key(name) {
            let i = choose|i: int| 0 <= i < d.len() && (#[trigger] d[i]).0 == name;
            assert(keys(d)[i] == name);
        }
    }
}

/// Which services are told: those under the keys of the lockdown domain's dictionary, and
/// those under the keys of the dictionary `Services` among all values. Where there is no
/// such dictionary, none.
pub proof fn lemma_told(p: &Plist, name: Seq<char>)
    ensures
        domain_names(Some(p)).contains(name) <==> (p@ matches Tree::Dictionary(d) && d.has_key(name)),
        names_among(Some(p)).contains(name) <==> (p@ matches Tree::Dictionary(d) && d.lookup(
            "Services"@,
        ) matches Some(Tree::Dictionary(s)) && s.has_key(name)),
        domain_names(None).len() == 0,
        names_among(None).len() == 0,
{
    if let Tree::Dictionary(d) = p@ {
        lemma_keys(d);
        if let Some(Tree::Dictionary(s)) = d.lookup("Services"@) {
            lemma_keys(s);
        }
    }
}

/// Merging keeps the names that came first in their places, and lets no name occur twice
/// that did not before.
pub proof fn lemma_merged_order(names: Seq<Seq<char>>, more: Seq<Seq<char>>)
    ensures
        names.len() <= with_more(names, more).len() <= names.len() + more.len(),
        with_more(names, more).take(names.len() as int) == names,
        names.no_duplicates() ==> with_more(names, more).no_duplicates(),
    decreases more.len(),
{
    if more.len() == 0 {
        assert(names.take(names.len() as int) =~= names);
    } else {
        let front = with_more(names, more.drop_last());
        lemma_merged_order(names, more.drop_last());
        assert(with_more(names, more).take(names.len() as int) =~= front.take(names.len() as int));
    }
}

/// A refusal of the service counts as nothing; an answer is kept, and so is every other
/// error.
pub proof fn lemma_if_told<T>(told: Result<T, Error>)
    ensures
        if_told(told) matches Ok(Some(v)) ==> told == Ok::<T, Error>(v),
        if_told(told) matches Ok(None) <==> (told matches Err(e) && e is Lockdown),
        if_told(told) matches Err(e) ==> told == Err::<T, Error>(e),
{
}

} // verus!
