//! What clients ask of the daemon, and what they are answered.

use vstd::prelude::*;
use crate::entries::Entries;
use crate::framing::{carries, prefix, prefixed};
use crate::proplist::format::{
    error_text, from_bytes, plist_parse, plist_xml, to_xml, writable,
};
use crate::proplist::{no_entries, Dict, Plist, Tree};
use crate::text::{
    dec_u64, decimal, ends_with, finishes_with, join2, join3, own, parse_u16, parse_unsigned,
    same_str, strip_prefix, stripped,
};
use crate::tunnel::device_session::{daemon_refusal, service_tree};
use super::registry::{shown_tunnels, Registry, TunnelModel};

verus! {

/// What a client asks for.
#[derive(Debug)]
pub enum ClientRequest {
    /// The tunnels that are open.
    List,
    /// To be told of tunnels that open and close.
    Watch,
    /// A tunnel of its own to a device, without a network stack.
    RawTunnel { udid: String },
    /// The end of the daemon.
    Shutdown,
    /// A connection to a service of a device.
    Open { udid: String, service: String },
}

/// The mathematical counterpart of [`ClientRequest`].
pub enum Asked {
    List,
    Watch,
    RawTunnel(Seq<char>),
    Shutdown,
    Open(Seq<char>, Seq<char>),
}

impl View for ClientRequest {
    type V = Asked;

    open spec fn view(&self) -> Asked {
        match self {
            ClientRequest::List => Asked::List,
            ClientRequest::Watch => Asked::Watch,
            ClientRequest::RawTunnel { udid } => Asked::RawTunnel(udid@),
            ClientRequest::Shutdown => Asked::Shutdown,
            ClientRequest::Open { udid, service } => Asked::Open(udid@, service@),
        }
    }
}

/// What a message asks for, or what it lacks. A message whose request is not known is
/// taken for one that asks for a service.
pub open spec fn asked(t: Tree) -> Result<Asked, Seq<char>> {
    if t.entries() is None {
        Err("request not a dict"@)
    } else if t.text_at("Request"@) == Some("List"@) {
        Ok(Asked::List)
    } else if t.text_at("Request"@) == Some("Watch"@) {
        Ok(Asked::Watch)
    } else if t.text_at("Request"@) == Some("RawTunnel"@) {
        match t.text_at("UDID"@) {
            Some(udid) => Ok(Asked::RawTunnel(udid)),
            None => Err("RawTunnel: no UDID"@),
        }
    } else if t.text_at("Request"@) == Some("Shutdown"@) {
        Ok(Asked::Shutdown)
    } else {
        match (t.text_at("UDID"@), t.text_at("Service"@)) {
            (Some(udid), Some(service)) => Ok(Asked::Open(udid, service)),
            (None, _) => Err("no UDID"@),
            (Some(_), None) => Err("no Service"@),
        }
    }
}

fn request_is(p: &Plist, name: &str) -> (yes: bool)
    ensures
        yes == (p@.text_at("Request"@) == Some(name@)),
{
    match p.text_at("Request") {
        Some(r) => same_str(r, name),
        None => false,
    }
}

/// Reads what a client asks for.
pub fn parse_request(p: &Plist) -> (got: Result<ClientRequest, String>)
    ensures
        match asked(p@) {
            Ok(a) => got matches Ok(r) && r@ == a,
            Err(e) => got matches Err(t) && t@ == e,
        },
{
    if p.as_dictionary().is_none() {
        return Err(own("request not a dict"));
    }
    if request_is(p, "List") {
        return Ok(ClientRequest::List);
    }
    if request_is(p, "Watch") {
        return Ok(ClientRequest::Watch);
    }
    if request_is(p, "RawTunnel") {
        return match p.text_at("UDID") {
            Some(udid) => Ok(ClientRequest::RawTunnel { udid: own(udid) }),
            None => Err(own("RawTunnel: no UDID")),
        };
    }
    if request_is(p, "Shutdown") {
        return Ok(ClientRequest::Shutdown);
    }
    let udid: String = match p.text_at("UDID") {
        Some(udid) => own(udid),
        None => {
            return Err(own("no UDID"));
        },
    };
    match p.text_at("Service") {
        Some(service) => Ok(ClientRequest::Open { udid, service: own(service) }),
        None => Err(own("no Service")),
    }
}

/// The port that a service name asks for itself, without the catalogue. Zero stands for
/// the port of the catalogue.
pub open spec fn raw_port(service: Seq<char>) -> Option<u16> {
    if service == "_rsd"@ {
        Some(0)
    } else {
        match stripped(service, "_rawport:"@) {
            Some(n) => match parse_unsigned(n, 0xffff) {
                Some(port) => Some(port as u16),
                None => None,
            },
            None => None,
        }
    }
}

fn asked_port(service: &str) -> (port: Option<u16>)
    ensures
        port == raw_port(service@),
{
    if same_str(service, "_rsd") {
        return Some(0);
    }
    match strip_prefix(service, "_rawport:") {
        Some(n) => parse_u16(n.as_str()),
        None => None,
    }
}

/// What the daemon does next for a client.
#[derive(Debug)]
pub enum Step {
    /// Connect through the tunnel, and check in if the service wants it.
    Connect { addr: String, port: u16, checkin: bool },
    /// Check in with the service.
    CheckIn,
    /// Tell the client that all is well, and pass bytes both ways.
    Proxy,
    /// Tell the client what is wrong.
    Refuse(String),
    /// Give the client up.
    Fail(String),
}

/// The mathematical counterpart of [`Step`].
pub enum Next {
    Connect(Seq<char>, u16, bool),
    CheckIn,
    Proxy,
    Refuse(Seq<char>),
    Fail(Seq<char>),
}

impl View for Step {
    type V = Next;

    open spec fn view(&self) -> Next {
        match self {
            Step::Connect { addr, port, checkin } => Next::Connect(addr@, *port, *checkin),
            Step::CheckIn => Next::CheckIn,
            Step::Proxy => Next::Proxy,
            Step::Refuse(t) => Next::Refuse(t@),
            Step::Fail(t) => Next::Fail(t@),
        }
    }
}

/// Where a request for a service leads, once it is known whether there is a tunnel.
pub open spec fn opened(
    tunnels: Seq<(Seq<char>, TunnelModel)>,
    udid: Seq<char>,
    service: Seq<char>,
    refused: Option<Seq<char>>,
) -> Next {
    match refused {
        Some(why) => Next::Refuse(why),
        None => match tunnels.lookup(udid) {
            None => Next::Fail("tunnel vanished"@),
            Some(dt) => match raw_port(service) {
                Some(port) => Next::Connect(
                    dt.server_addr,
                    if port == 0 {
                        dt.server_rsd_port
                    } else {
                        port
                    },
                    false,
                ),
                None => match dt.services.lookup(service) {
                    Some(entry) => Next::Connect(
                        dt.server_addr,
                        entry.port,
                        finishes_with(service, ".shim.remote"@),
                    ),
                    None => Next::Refuse("service '"@ + service + "' not in RSD catalog"@),
                },
            },
        },
    }
}

/// Decides where a request for a service leads, after the attempt to have a tunnel.
pub fn open_service(
    tunnels: &Registry,
    udid: &str,
    service: &str,
    ensured: Result<(), String>,
) -> (step: Step)
    ensures
        step@ == opened(
            tunnels@,
            udid@,
            service@,
            match ensured {
                Ok(_) => None,
                Err(e) => Some(e@),
            },
        ),
{
    if let Err(e) = ensured {
        return Step::Refuse(e);
    }
    match tunnels.get(udid) {
        None => Step::Fail(own("tunnel vanished")),
        Some(dt) => match asked_port(service) {
            Some(port) => Step::Connect {
                addr: own(dt.server_addr.as_str()),
                port: if port == 0 {
                    dt.server_rsd_port
                } else {
                    port
                },
                checkin: false,
            },
            None => match dt.services.service(service) {
                Some(entry) => Step::Connect {
                    addr: own(dt.server_addr.as_str()),
                    port: entry.port,
                    checkin: ends_with(service, ".shim.remote"),
                },
                None => Step::Refuse(join3("service '", service, "' not in RSD catalog")),
            },
        },
    }
}

/// Decides what follows the attempt to connect.
pub fn after_connect(checkin: bool, result: Result<(), String>) -> (step: Step)
    ensures
        step@ == match result {
            Err(e) => Next::Refuse(e@),
            Ok(_) => if checkin {
                Next::CheckIn
            } else {
                Next::Proxy
            },
        },
{
    match result {
        Err(e) => Step::Refuse(e),
        Ok(_) => if checkin {
            Step::CheckIn
        } else {
            Step::Proxy
        },
    }
}

/// Decides what follows the attempt to check in.
pub fn after_checkin(result: Result<(), String>) -> (step: Step)
    ensures
        step@ == match result {
            Err(e) => Next::Refuse("RSDCheckin: "@ + e@),
            Ok(_) => Next::Proxy,
        },
{
    match result {
        Err(e) => Step::Refuse(join2("RSDCheckin: ", e.as_str())),
        Ok(_) => Step::Proxy,
    }
}

/// The answer that all is well.
pub open spec fn ok_tree() -> Tree {
    Tree::Dictionary(no_entries().with("Status"@, Tree::String("Ok"@)))
}

/// The answer that something is wrong.
pub open spec fn err_tree(msg: Seq<char>) -> Tree {
    Tree::Dictionary(
        no_entries().with("Status"@, Tree::String("Error"@)).with("Error"@, Tree::String(msg)),
    )
}

/// The answer with the open tunnels.
pub open spec fn list_tree(devices: Seq<Tree>) -> Tree {
    Tree::Dictionary(
        no_entries().with("Status"@, Tree::String("Ok"@)).with("Devices"@, Tree::Array(devices)),
    )
}

/// Answers that all is well.
pub fn ok_reply() -> (p: Plist)
    ensures
        p@ == ok_tree(),
{
    let mut d: Dict = Dict::new();
    d.put_str("Status", "Ok");
    Plist::dict(d)
}

/// Answers that something is wrong.
pub fn err_reply(msg: &str) -> (p: Plist)
    ensures
        p@ == err_tree(msg@),
{
    let mut d: Dict = Dict::new();
    d.put_str("Status", "Error");
    d.put_str("Error", msg);
    Plist::dict(d)
}

/// Answers with the open tunnels.
pub fn list_reply(tunnels: &Registry) -> (p: Plist)
    ensures
        p@ == list_tree(shown_tunnels(tunnels@)),
{
    let mut d: Dict = Dict::new();
    d.put_str("Status", "Ok");
    d.put("Devices", Plist::array(tunnels.show()));
    Plist::dict(d)
}

/// Answers with what a client needs to use a raw tunnel.
pub fn raw_tunnel_reply(server_addr: &str, client_addr: &str, rsd_port: u16, mtu: u16) -> (p: Plist)
    ensures
        p@ == Tree::Dictionary(
            no_entries().with("Status"@, Tree::String("Ok"@)).with(
                "ServerAddr"@,
                Tree::String(server_addr@),
            ).with("ClientAddr"@, Tree::String(client_addr@)).with(
                "RSDPort"@,
                Tree::Integer(rsd_port as int),
            ).with("MTU"@, Tree::Integer(mtu as int)),
        ),
{
    let mut d: Dict = Dict::new();
    d.put_str("Status", "Ok");
    d.put_str("ServerAddr", server_addr);
    d.put_str("ClientAddr", client_addr);
    d.put("RSDPort", Plist::number(rsd_port as i64));
    d.put("MTU", Plist::number(mtu as i64));
    Plist::dict(d)
}

/// The bytes of a message: its XML behind its length.
pub fn send_plist(p: &Plist) -> (out: Result<Vec<u8>, String>)
    ensures
        match plist_xml(p@) {
            Ok(xml) => out matches Ok(bytes) && bytes@ == prefixed(xml),
            Err(why) => out matches Err(t) && t@ == why,
        },
        writable(p@) ==> (out matches Ok(bytes) && carries(bytes@, p@)),
{
    match to_xml(p) {
        Ok(xml) => Ok(prefix(xml.as_slice())),
        Err(e) => Err(error_text(&e)),
    }
}

/// The length of a message, unless it is zero or a mebibyte and more.
pub fn check_length(len: u32) -> (ok: Result<usize, String>)
    ensures
        if 0 < len < 1_048_576 {
            ok matches Ok(n) && n == len
        } else {
            ok matches Err(t) && t@ == "bad plist length "@ + decimal(len as nat)
        },
{
    if len > 0 && len < 1_048_576 {
        Ok(len as usize)
    } else {
        Err(join2("bad plist length ", dec_u64(len as u64).as_str()))
    }
}

/// Reads the body of a message.
pub fn recv_plist(body: &[u8]) -> (got: Result<Plist, String>)
    ensures
        match plist_parse(body@) {
            Ok(t) => got matches Ok(p) && p@ == t,
            Err(why) => got matches Err(t) && t@ == why,
        },
{
    match from_bytes(body) {
        Ok(p) => Ok(p),
        Err(e) => Err(error_text(&e)),
    }
}

/// A client that is told yes finds it so, and one that is refused finds out why.
pub proof fn lemma_verdicts(msg: Seq<char>)
    ensures
        daemon_refusal(ok_tree()) is None,
        daemon_refusal(err_tree(msg)) == Some("daemon: "@ + msg),
{
    broadcast use crate::entries::lemma_lookup_with;

    reveal_strlit("Ok");
    reveal_strlit("Error");
    reveal_strlit("Status");
    assert("Ok"@.len() == 2);
    assert("Error"@.len() == 5);
    assert("Status"@.len() == 6);
}

/// What a client of the daemon asks for is what the daemon understands.
pub proof fn lemma_understood(udid: Seq<char>, service: Seq<char>)
    ensures
        asked(service_tree(udid, service)) == Ok::<
            Asked,
            Seq<char>,
        >(Asked::Open(udid, service)),
{
    broadcast use crate::entries::lemma_lookup_with;

    reveal_strlit("UDID");
    reveal_strlit("Service");
    reveal_strlit("Request");
    assert("UDID"@.len() == 4);
    assert("Service"@.len() == 7);
    assert("Request"@.len() == 7);
    assert("Service"@[0] == 'S');
    assert("Request"@[0] == 'R');
}

/// What a message asks for, by its keys: the four requests that are known by their names, of
/// which a raw tunnel needs a device, and else a service of a device, of which both are
/// needed.
pub proof fn lemma_asked(d: Seq<(Seq<char>, Tree)>)
    ensures
        ({
            let t = Tree::Dictionary(d);
            let request = d.lookup("Request"@);
            &&& request == Some(Tree::String("List"@)) ==> (asked(t) matches Ok(Asked::List))
            &&& request == Some(Tree::String("Watch"@)) ==> (asked(t) matches Ok(Asked::Watch))
            &&& request == Some(Tree::String("Shutdown"@)) ==> (asked(t) matches Ok(Asked::Shutdown))
            &&& request == Some(Tree::String("RawTunnel"@)) ==> match d.lookup("UDID"@) {
                Some(Tree::String(udid)) => asked(t) matches Ok(Asked::RawTunnel(u)) && u == udid,
                _ => asked(t) is Err,
            }
            &&& request is None ==> match (d.lookup("UDID"@), d.lookup("Service"@)) {
                (Some(Tree::String(udid)), Some(Tree::String(service))) => asked(t) matches Ok(
                    Asked::Open(u, s),
                ) && u == udid && s == service,
                _ => asked(t) is Err,
            }
        }),
{
    reveal_strlit("List");
    reveal_strlit("Watch");
    reveal_strlit("RawTunnel");
    reveal_strlit("Shutdown");
    assert("List"@.len() == 4);
    assert("Watch"@.len() == 5);
    assert("RawTunnel"@.len() == 9);
    assert("Shutdown"@.len() == 8);
}

/// Which port a name asks for itself: that of the catalogue is asked for by `_rsd`, and any
/// other by its digits behind `_rawport:`.
pub proof fn lemma_raw_ports(digits: Seq<char>, service: Seq<char>)
    ensures
        raw_port("_rsd"@) == Some(0u16),
        digits.len() > 0 && crate::text::all_digits(digits) && crate::text::digits_value(digits)
            < 65536 ==> (raw_port("_rawport:"@ + digits) matches Some(p) && p
            == crate::text::digits_value(digits)),
        raw_port(service) is Some ==> service == "_rsd"@ || (service.len() >= 9 && service.take(9)
            == "_rawport:"@),
{
    reveal_strlit("_rsd");
    reveal_strlit("_rawport:");
    let s = "_rawport:"@ + digits;
    assert(s.take(9) =~= "_rawport:"@);
    assert(s.skip(9) =~= digits);
    assert("_rsd"@.len() == 4);
    assert("_rawport:"@.len() == 9);
    crate::text::lemma_parse_unsigned(digits, 0xffff);
}

/// Where a request for a service leads: a refusal is passed on; through the tunnel of the
/// device to the port of the catalogue, to the port that is asked for, or to that of the
/// service, with which the daemon checks in exactly if its name ends with `.shim.remote`.
pub proof fn lemma_opened(
    tunnels: Seq<(Seq<char>, TunnelModel)>,
    udid: Seq<char>,
    service: Seq<char>,
    why: Seq<char>,
)
    ensures
        opened(tunnels, udid, service, Some(why)) == Next::Refuse(why),
        match tunnels.lookup(udid) {
            None => opened(tunnels, udid, service, None) is Fail,
            Some(dt) => {
                &&& raw_port(service) == Some(0u16) ==> opened(tunnels, udid, service, None)
                    == Next::Connect(dt.server_addr, dt.server_rsd_port, false)
                &&& raw_port(service) matches Some(p) ==> (p > 0 ==> opened(
                    tunnels,
                    udid,
                    service,
                    None,
                ) == Next::Connect(dt.server_addr, p, false))
                &&& raw_port(service) is None ==> match dt.services.lookup(service) {
                    Some(s) => opened(tunnels, udid, service, None) matches Next::Connect(
                        addr,
                        port,
                        checkin,
                    ) && addr == dt.server_addr && port == s.port && (checkin <==> service.len()
                        >= 12 && service.skip(service.len() - 12) == ".shim.remote"@),
                    None => opened(tunnels, udid, service, None) is Refuse,
                }
            },
        },
{
    reveal_strlit(".shim.remote");
    assert(".shim.remote"@.len() == 12);
}

/// The answers by their keys: that all is well, or what is wrong, or the devices.
pub proof fn lemma_answers_tell(msg: Seq<char>, devices: Seq<Tree>)
    ensures
        ok_tree() matches Tree::Dictionary(d) && d.lookup("Status"@) == Some(Tree::String("Ok"@)),
        err_tree(msg) matches Tree::Dictionary(d) && d.lookup("Status"@) == Some(Tree::String("Error"@))
            && d.lookup("Error"@) == Some(Tree::String(msg)),
        list_tree(devices) matches Tree::Dictionary(d) && d.lookup("Status"@) == Some(
            Tree::String("Ok"@),
        ) && d.lookup("Devices"@) == Some(Tree::Array(devices)),
{
    broadcast use crate::entries::lemma_lookup_with;

    reveal_strlit("Status");
    reveal_strlit("Error");
    reveal_strlit("Devices");
    assert("Status"@.len() == 6);
    assert("Error"@.len() == 5);
    assert("Devices"@.len() == 7);
}

/// What a request is refused for: not being a dictionary, and, where it needs them, lacking
/// a device or a service, the device first.
pub proof fn lemma_request_refusals(t: Tree)
    ensures
        t.entries() is None ==> asked(t) == Err::<Asked, Seq<char>>("request not a dict"@),
        t.entries() is Some && t.text_at("Request"@) == Some("RawTunnel"@)
            && t.text_at("UDID"@) is None
            ==> asked(t) == Err::<Asked, Seq<char>>("RawTunnel: no UDID"@),
        t.entries() is Some && t.text_at("Request"@) is None && t.text_at("UDID"@) is None
            ==> asked(t) == Err::<Asked, Seq<char>>("no UDID"@),
        t.entries() is Some && t.text_at("Request"@) is None && t.text_at("UDID"@) is Some
            && t.text_at(
            "Service"@,
        ) is None ==> asked(t) == Err::<Asked, Seq<char>>("no Service"@),
{
    reveal_strlit("List");
    reveal_strlit("Watch");
    reveal_strlit("RawTunnel");
    reveal_strlit("Shutdown");
    assert("List"@.len() == 4);
    assert("Watch"@.len() == 5);
    assert("RawTunnel"@.len() == 9);
    assert("Shutdown"@.len() == 8);
}

/// A service is refused for the reason that there is no tunnel, if one is given; for a
/// tunnel that has gone since; and, unless it is a port, for not being in the catalog of
/// the device.
pub proof fn lemma_service_refusals(
    tunnels: Seq<(Seq<char>, TunnelModel)>,
    udid: Seq<char>,
    service: Seq<char>,
    why: Seq<char>,
)
    ensures
        opened(tunnels, udid, service, Some(why)) == Next::Refuse(why),
        tunnels.lookup(udid) is None
            ==> opened(tunnels, udid, service, None) == Next::Fail("tunnel vanished"@),
        tunnels.lookup(udid) is Some && raw_port(service) is None
            && tunnels.lookup(udid)->0.services.lookup(
            service,
        ) is None ==> opened(tunnels, udid, service, None)
            == Next::Refuse("service '"@ + service + "' not in RSD catalog"@),
{
}

} // verus!
