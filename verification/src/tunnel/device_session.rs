//! Which path a session with a device takes, and how it reaches services on it.

use vstd::prelude::*;
use vstd::utf8::encode_utf8;
use crate::entries::Entries;
use crate::framing::{carries, prefix, prefixed};
use crate::proplist::format::{
    error_text, from_bytes, plist_parse, to_xml,
};
use crate::proplist::{no_entries, plain_entries, uid_free_entries, Dict, Plist, Tree};
use crate::rsd::Catalog;
use crate::text::{
    dec_u64, decimal, join2, join3, occurs_at, occurs_in, own, same_str, str_bytes, strip_prefix,
    stripped,
};
use super::error::Error;
use super::mode::ConnectionMode;
use super::version::IosVersion;

verus! {

/// Where the tunnel daemon listens.
pub const DAEMON_SOCKET: &'static str = "/tmp/ios-rsd.sock";

/// The variable that says where the daemon listens instead.
pub const DAEMON_SOCKET_ENV: &'static str = "IOS_TUNNEL_SOCKET_ADDRESS";

/// How a session reaches the device.
#[derive(Clone, Copy, Debug, PartialEq, Eq, Structural)]
pub enum ActivePath {
    Legacy,
    Rsd,
}

impl ActivePath {
    /// The name of the path.
    pub fn text(self) -> (name: &'static str)
        ensures
            name@ == match self {
                ActivePath::Legacy => "legacy (usbmux → lockdownd)"@,
                ActivePath::Rsd => "rsd (CDTunnel → RSD)"@,
            },
    {
        match self {
            ActivePath::Legacy => "legacy (usbmux → lockdownd)",
            ActivePath::Rsd => "rsd (CDTunnel → RSD)",
        }
    }
}

/// By what means a session reaches the device.
#[derive(Clone, Copy, Debug, PartialEq, Eq, Structural)]
pub enum Route {
    Legacy,
    /// A tunnel of its own.
    Direct,
    /// The tunnel of the daemon.
    Daemon,
}

impl Route {
    /// The path that a route takes.
    pub fn path(self) -> (path: ActivePath)
        ensures
            path == match self {
                Route::Legacy => ActivePath::Legacy,
                _ => ActivePath::Rsd,
            },
    {
        match self {
            Route::Legacy => ActivePath::Legacy,
            _ => ActivePath::Rsd,
        }
    }

    /// Whether a route has a service catalogue.
    pub fn is_rsd(self) -> (yes: bool)
        ensures
            yes == (self != Route::Legacy),
    {
        match self {
            Route::Legacy => false,
            _ => true,
        }
    }
}

/// The mode that counts, given the one of the environment and the one asked for.
pub open spec fn effective(env: ConnectionMode, asked: ConnectionMode) -> ConnectionMode {
    if env == ConnectionMode::Legacy || asked == ConnectionMode::Legacy {
        ConnectionMode::Legacy
    } else if asked == ConnectionMode::Rsd {
        ConnectionMode::Rsd
    } else {
        env
    }
}

/// The mode that counts: the environment can force the old path on everyone.
pub fn effective_mode(env: ConnectionMode, asked: ConnectionMode) -> (mode: ConnectionMode)
    ensures
        mode == effective(env, asked),
{
    if env == ConnectionMode::Legacy {
        ConnectionMode::Legacy
    } else if asked == ConnectionMode::Rsd {
        ConnectionMode::Rsd
    } else {
        env.with_legacy_flag(asked.is_legacy())
    }
}

/// What to try next.
#[derive(Clone, Copy, Debug, PartialEq, Eq, Structural)]
pub enum Attempt {
    /// Go by the daemon.
    Daemon,
    /// Open a tunnel.
    Direct,
    /// Go by the old path.
    Legacy,
}

impl Attempt {
    /// The route that an attempt leads to.
    pub open spec fn leads_to(self) -> Route {
        match self {
            Attempt::Daemon => Route::Daemon,
            Attempt::Direct => Route::Direct,
            Attempt::Legacy => Route::Legacy,
        }
    }

    /// The route that an attempt leads to, if it succeeds.
    pub fn route(self) -> (r: Route)
        ensures
            r == self.leads_to(),
    {
        match self {
            Attempt::Daemon => Route::Daemon,
            Attempt::Direct => Route::Direct,
            Attempt::Legacy => Route::Legacy,
        }
    }
}

/// The first attempt, unless the mode asks for what the version does not have.
pub open spec fn first(mode: ConnectionMode, version: IosVersion) -> Option<Attempt> {
    match mode {
        ConnectionMode::Legacy => Some(Attempt::Legacy),
        ConnectionMode::Rsd => if version.has_proxy() {
            Some(Attempt::Daemon)
        } else {
            None
        },
        ConnectionMode::Auto => if version.has_proxy() {
            Some(Attempt::Daemon)
        } else {
            Some(Attempt::Legacy)
        },
    }
}

/// The attempt after one that failed, if there is another.
pub open spec fn following(mode: ConnectionMode, failed: Attempt) -> Option<Attempt> {
    match failed {
        Attempt::Daemon => Some(Attempt::Direct),
        Attempt::Direct => if mode == ConnectionMode::Auto {
            Some(Attempt::Legacy)
        } else {
            None
        },
        Attempt::Legacy => None,
    }
}

/// What to try first.
pub fn first_attempt(mode: ConnectionMode, version: IosVersion) -> (a: Result<Attempt, Error>)
    ensures
        match first(mode, version) {
            Some(due) => a matches Ok(got) && got == due,
            None => a matches Err(Error::Protocol(t)) && t@ == "iOS "@ + version.shown()
                + " does not support RSD via CoreDeviceProxy (requires iOS 17.4+)"@,
        },
{
    match mode {
        ConnectionMode::Legacy => Ok(Attempt::Legacy),
        ConnectionMode::Rsd => if version.supports_core_device_proxy() {
            Ok(Attempt::Daemon)
        } else {
            Err(
                Error::Protocol(
                    join3(
                        "iOS ",
                        version.text().as_str(),
                        " does not support RSD via CoreDeviceProxy (requires iOS 17.4+)",
                    ),
                ),
            )
        },
        ConnectionMode::Auto => if version.supports_core_device_proxy() {
            Ok(Attempt::Daemon)
        } else {
            Ok(Attempt::Legacy)
        },
    }
}

/// What to try after an attempt that failed, given how it failed. There is nothing
/// left where a forced tunnel fails, or the old path.
pub fn next_attempt(mode: ConnectionMode, failed: Attempt, why: &str) -> (a: Result<
    Attempt,
    Error,
>)
    ensures
        match following(mode, failed) {
            Some(due) => a matches Ok(got) && got == due,
            None => a matches Err(Error::Protocol(t)) && t@ == if failed == Attempt::Direct {
                "RSD mode forced but failed: "@ + why@
            } else {
                why@
            },
        },
{
    match failed {
        Attempt::Daemon => Ok(Attempt::Direct),
        Attempt::Direct => match mode {
            ConnectionMode::Auto => Ok(Attempt::Legacy),
            _ => Err(Error::Protocol(join2("RSD mode forced but failed: ", why))),
        },
        Attempt::Legacy => Err(Error::Protocol(own(why))),
    }
}

/// Which attempts succeed.
pub struct Reach {
    pub daemon: bool,
    pub direct: bool,
    pub legacy: bool,
}

/// Whether an attempt succeeds.
pub open spec fn succeeds(r: Reach, a: Attempt) -> bool {
    match a {
        Attempt::Daemon => r.daemon,
        Attempt::Direct => r.direct,
        Attempt::Legacy => r.legacy,
    }
}

/// How many attempts can still come.
pub open spec fn left(a: Attempt) -> nat {
    match a {
        Attempt::Daemon => 2,
        Attempt::Direct => 1,
        Attempt::Legacy => 0,
    }
}

/// The route that attempts lead to, one after the other, from one on.
pub open spec fn reached(mode: ConnectionMode, a: Attempt, r: Reach) -> Option<Route>
    decreases left(a),
{
    if succeeds(r, a) {
        Some(a.leads_to())
    } else {
        match following(mode, a) {
            Some(b) => if left(b) < left(a) {
                reached(mode, b, r)
            } else {
                None
            },
            None => None,
        }
    }
}

/// The attempts keep to the table of paths. The old path is taken always where it is
/// asked for, and where the version has no tunnel; a forced tunnel goes by the daemon
/// or directly, or not at all; else the daemon comes before the direct tunnel and that
/// before the old path.
pub proof fn lemma_path_table(mode: ConnectionMode, version: IosVersion, r: Reach)
    ensures
        mode == ConnectionMode::Legacy ==> first(mode, version) == Some(Attempt::Legacy),
        mode == ConnectionMode::Auto && !version.has_proxy() ==> first(mode, version) == Some(
            Attempt::Legacy,
        ),
        mode == ConnectionMode::Rsd && !version.has_proxy() ==> first(mode, version) is None,
        mode == ConnectionMode::Rsd && version.has_proxy() ==> reached(
            mode,
            first(mode, version)->0,
            r,
        ) == if r.daemon {
            Some(Route::Daemon)
        } else if r.direct {
            Some(Route::Direct)
        } else {
            None
        },
        mode == ConnectionMode::Auto && version.has_proxy() ==> reached(
            mode,
            first(mode, version)->0,
            r,
        ) == if r.daemon {
            Some(Route::Daemon)
        } else if r.direct {
            Some(Route::Direct)
        } else if r.legacy {
            Some(Route::Legacy)
        } else {
            None
        },
        reached(mode, Attempt::Legacy, r) == if r.legacy {
            Some(Route::Legacy)
        } else {
            None
        },
{
    reveal_with_fuel(reached, 4);
}

/// Where a daemon listens.
#[derive(Debug)]
pub enum DaemonAddr {
    Unix(String),
    Tcp(String),
}

/// Whether an address is that of a text, or the complaint that it is none.
pub open spec fn is_addr(
    got: Result<DaemonAddr, Error>,
    addr: Seq<char>,
    complaint: Seq<char>,
) -> bool {
    match stripped(addr, "unix://"@) {
        Some(path) => got matches Ok(DaemonAddr::Unix(p)) && p@ == path,
        None => match stripped(addr, "tcp://"@) {
            Some(hostport) => got matches Ok(DaemonAddr::Tcp(h)) && h@ == hostport,
            None => got matches Err(Error::Protocol(t)) && t@ == complaint + addr,
        },
    }
}

/// Reads an address that starts with `unix://` or `tcp://`.
pub fn parse_addr(addr: &str, complaint: &str) -> (got: Result<DaemonAddr, Error>)
    ensures
        is_addr(got, addr@, complaint@),
{
    if let Some(path) = strip_prefix(addr, "unix://") {
        return Ok(DaemonAddr::Unix(path));
    }
    if let Some(hostport) = strip_prefix(addr, "tcp://") {
        return Ok(DaemonAddr::Tcp(hostport));
    }
    Err(Error::Protocol(join2(complaint, addr)))
}

/// Where the daemon listens, given the value of the variable.
pub fn daemon_addr(env: Option<&str>) -> (got: Result<DaemonAddr, Error>)
    ensures
        match env {
            Some(addr) => is_addr(
                got,
                addr@,
                "IOS_TUNNEL_SOCKET_ADDRESS must start with unix:// or tcp://: "@,
            ),
            None => got matches Ok(DaemonAddr::Unix(p)) && p@ == DAEMON_SOCKET@,
        },
{
    match env {
        Some(addr) => parse_addr(
            addr,
            "IOS_TUNNEL_SOCKET_ADDRESS must start with unix:// or tcp://: ",
        ),
        None => Ok(DaemonAddr::Unix(own(DAEMON_SOCKET))),
    }
}

/// A request for a service of a device.
pub open spec fn service_tree(udid: Seq<char>, service: Seq<char>) -> Tree {
    Tree::Dictionary(
        no_entries().with("UDID"@, Tree::String(udid)).with("Service"@, Tree::String(service)),
    )
}

/// Asks the daemon for a service of a device.
pub fn daemon_request(udid: &str, service: &str) -> (out: Result<Vec<u8>, Error>)
    ensures
        out matches Ok(bytes) && carries(bytes@, service_tree(udid@, service@)),
{
    broadcast use crate::proplist::lemma_plain_with, crate::proplist::lemma_uid_free_with;

    let mut d: Dict = Dict::new();
    d.put_str("UDID", udid);
    d.put_str("Service", service);
    assert(plain_entries(d@) && uid_free_entries(d@)) by {
        assert(plain_entries(no_entries()) && uid_free_entries(no_entries()));
    }
    match to_xml(&Plist::dict(d)) {
        Ok(xml) => Ok(prefix(xml.as_slice())),
        Err(e) => Err(Error::Protocol(join2("plist encode: ", error_text(&e).as_str()))),
    }
}

/// Checks the length of an answer of the daemon.
pub fn daemon_answer_len(len: u32) -> (ok: Result<usize, Error>)
    ensures
        if 0 < len <= 1_048_576 {
            ok matches Ok(n) && n == len
        } else {
            ok matches Err(Error::Protocol(t)) && t@ == "daemon: bad response length "@ + decimal(
                len as nat,
            )
        },
{
    if len == 0 || len > 1_048_576 {
        Err(Error::Protocol(join2("daemon: bad response length ", dec_u64(len as u64).as_str())))
    } else {
        Ok(len as usize)
    }
}

/// Why the daemon refuses, if it does.
pub open spec fn daemon_refusal(t: Tree) -> Option<Seq<char>> {
    if t.entries() is None {
        Some("daemon: response not a dict"@)
    } else {
        match t.text_at("Status"@) {
            Some(s) => if s == "Ok"@ {
                None
            } else if s == "Error"@ {
                Some(
                    "daemon: "@ + match t.text_at("Error"@) {
                        Some(e) => e,
                        None => "unknown"@,
                    },
                )
            } else {
                Some("daemon: unexpected status in response"@)
            },
            None => Some("daemon: unexpected status in response"@),
        }
    }
}

/// Judges an answer of the daemon.
pub fn daemon_verdict(resp: &Plist) -> (ok: Result<(), Error>)
    ensures
        match daemon_refusal(resp@) {
            Some(text) => ok matches Err(Error::Protocol(t)) && t@ == text,
            None => ok matches Ok(()),
        },
{
    if resp.as_dictionary().is_none() {
        return Err(Error::Protocol(own("daemon: response not a dict")));
    }
    match resp.text_at("Status") {
        Some(s) => {
            if same_str(s, "Ok") {
                return Ok(());
            }
            if same_str(s, "Error") {
                let why: &str = match resp.text_at("Error") {
                    Some(e) => e,
                    None => "unknown",
                };
                return Err(Error::Protocol(join2("daemon: ", why)));
            }
            Err(Error::Protocol(own("daemon: unexpected status in response")))
        },
        None => Err(Error::Protocol(own("daemon: unexpected status in response"))),
    }
}

/// Reads an answer of the daemon.
pub fn daemon_answer(body: &[u8]) -> (ok: Result<(), Error>)
    ensures
        match plist_parse(body@) {
            Err(why) => ok matches Err(Error::Protocol(t)) && t@ == "daemon plist: "@ + why,
            Ok(tree) => match daemon_refusal(tree) {
                Some(text) => ok matches Err(Error::Protocol(t)) && t@ == text,
                None => ok matches Ok(()),
            },
        },
{
    match from_bytes(body) {
        Ok(p) => daemon_verdict(&p),
        Err(e) => Err(Error::Protocol(join2("daemon plist: ", error_text(&e).as_str()))),
    }
}

/// The port of a service in a catalogue.
pub fn service_port(catalog: &Catalog, name: &str) -> (port: Result<u16, Error>)
    ensures
        match catalog@.lookup(name@) {
            Some(s) => port matches Ok(p) && p == s.port,
            None => port matches Err(Error::Protocol(t)) && t@ == "RSD service '"@ + name@
                + "' not in catalog"@,
        },
{
    match catalog.service(name) {
        Some(s) => Ok(s.port),
        None => Err(Error::Protocol(join3("RSD service '", name, "' not in catalog"))),
    }
}

/// What a shim service expects first on a tunnel of one's own.
pub const CHECKIN: &'static str = "<?xml version=\"1.0\" encoding=\"UTF-8\"?>\n<!DOCTYPE plist PUBLIC \"-//Apple//DTD PLIST 1.0//EN\" \"http://www.apple.com/DTDs/PropertyList-1.0.dtd\">\n<plist version=\"1.0\"><dict>\n<key>Label</key><string>devicelink</string>\n<key>ProtocolVersion</key><string>2</string>\n<key>Request</key><string>RSDCheckin</string>\n</dict></plist>\n";

/// The bytes with which a session reports to a shim service.
pub fn checkin() -> (out: Vec<u8>)
    ensures
        out@ == prefixed(encode_utf8(CHECKIN@)),
{
    let body: Vec<u8> = str_bytes(CHECKIN);
    prefix(body.as_slice())
}

/// Whether a message says that the service has started.
pub open spec fn says_started(body: Seq<u8>) -> bool {
    match plist_parse(body) {
        Ok(t) => t.text_at("Request"@) == Some("StartService"@),
        Err(_) => false,
    }
}

/// A wait for a shim service to start: four messages at most.
#[derive(Clone, Copy, Debug, PartialEq, Eq, Structural)]
pub struct CheckinWait {
    pub left: u8,
}

impl CheckinWait {
    pub fn new() -> (w: CheckinWait)
        ensures
            w.left == 4,
    {
        CheckinWait { left: 4 }
    }

    /// Takes in a message. Returns whether another has to come.
    pub fn take(&mut self, body: &[u8]) -> (more: bool)
        requires
            old(self).left > 0,
        ensures
            final(self).left == old(self).left - 1,
            more == (final(self).left > 0 && !says_started(body@)),
    {
        self.left = self.left - 1;
        let started: bool = match from_bytes(body) {
            Ok(p) => match p.text_at("Request") {
                Some(r) => same_str(r, "StartService"),
                None => false,
            },
            Err(_) => false,
        };
        self.left > 0 && !started
    }
}

/// Which mode counts: the old path wherever either side asks for it, and else what is
/// asked for, or what the environment says where nothing else is asked for.
pub proof fn lemma_effective(env: ConnectionMode, asked: ConnectionMode)
    ensures
        effective(env, asked) is Legacy <==> env is Legacy || asked is Legacy,
        effective(env, asked) is Rsd <==> !(env is Legacy) && !(asked is Legacy) && (env is Rsd
            || asked is Rsd),
        effective(env, ConnectionMode::Auto) == env,
        effective(ConnectionMode::Auto, asked) == asked,
{
}

/// Which route each attempt leads to, and what is tried after it.
pub proof fn lemma_attempts(mode: ConnectionMode)
    ensures
        Attempt::Daemon.leads_to() is Daemon,
        Attempt::Direct.leads_to() is Direct,
        Attempt::Legacy.leads_to() is Legacy,
        following(mode, Attempt::Daemon) == Some(Attempt::Direct),
        following(ConnectionMode::Auto, Attempt::Direct) == Some(Attempt::Legacy),
        mode != ConnectionMode::Auto ==> following(mode, Attempt::Direct) is None,
        following(mode, Attempt::Legacy) is None,
{
}

/// How an address is read: what follows `unix://` is a path, what follows `tcp://` is a
/// host with a port, and a text that starts with neither is refused.
pub proof fn lemma_addresses(got: Result<DaemonAddr, Error>, rest: Seq<char>, complaint: Seq<char>)
    ensures
        is_addr(got, "unix://"@ + rest, complaint) ==> (got matches Ok(DaemonAddr::Unix(p)) && p@
            == rest),
        is_addr(got, "tcp://"@ + rest, complaint) ==> (got matches Ok(DaemonAddr::Tcp(h)) && h@
            == rest),
        is_addr(got, rest, complaint) ==> (got matches Err(Error::Protocol(t)) ==> t@ == complaint
            + rest),
{
    reveal_strlit("unix://");
    reveal_strlit("tcp://");
    let u = "unix://"@ + rest;
    let t = "tcp://"@ + rest;
    assert(u.take(7) =~= "unix://"@);
    assert(u.skip(7) =~= rest);
    assert(t.take(6) =~= "tcp://"@);
    assert(t.skip(6) =~= rest);
    assert(t[0] == 't');
    assert(t.len() >= 7 ==> t.take(7)[0] == 't');
    assert("unix://"@[0] == 'u');
}

/// A request for a service names the device and the service.
pub proof fn lemma_service_tells(udid: Seq<char>, service: Seq<char>)
    ensures
        service_tree(udid, service) matches Tree::Dictionary(d) && {
            &&& d.len() == 2
            &&& d.lookup("UDID"@) == Some(Tree::String(udid))
            &&& d.lookup("Service"@) == Some(Tree::String(service))
        },
{
    broadcast use crate::entries::lemma_lookup_with;

    reveal_strlit("UDID");
    reveal_strlit("Service");
    assert("UDID"@.len() == 4);
    assert("Service"@.len() == 7);
}

/// The daemon agrees exactly by the status `Ok`; by the status `Error` it says why not.
pub proof fn lemma_daemon_verdict(d: Seq<(Seq<char>, Tree)>, t: Tree)
    ensures
        daemon_refusal(Tree::Dictionary(d)) is None <==> d.lookup("Status"@) == Some(
            Tree::String("Ok"@),
        ),
        d.lookup("Status"@) == Some(Tree::String("Error"@)) ==> daemon_refusal(Tree::Dictionary(d))
            == Some(
            "daemon: "@ + match d.lookup("Error"@) {
                Some(Tree::String(e)) => e,
                _ => "unknown"@,
            },
        ),
        !(t is Dictionary) ==> daemon_refusal(t) == Some("daemon: response not a dict"@),
{
    reveal_strlit("Ok");
    reveal_strlit("Error");
    assert("Ok"@.len() == 2);
    assert("Error"@.len() == 5);
}

/// A message says that the service has started exactly if it is a dictionary whose
/// `Request` is `StartService`.
pub proof fn lemma_started(body: Seq<u8>)
    ensures
        says_started(body) <==> (plist_parse(body) matches Ok(Tree::Dictionary(d)) && d.lookup(
            "Request"@,
        ) == Some(Tree::String("StartService"@))),
{
}

/// Without a word from the environment the daemon listens on its socket.
pub proof fn lemma_daemon_socket()
    ensures
        DAEMON_SOCKET@ == "/tmp/ios-rsd.sock"@,
        DAEMON_SOCKET_ENV@ == "IOS_TUNNEL_SOCKET_ADDRESS"@,
{
}

/// A check-in says who checks in, by which version of the protocol, and that it is one.
#[verifier::spinoff_prover]
pub proof fn lemma_checkin_tells()
    ensures
        occurs_in(CHECKIN@, "<key>Label</key><string>devicelink</string>"@),
        occurs_in(CHECKIN@, "<key>ProtocolVersion</key><string>2</string>"@),
        occurs_in(CHECKIN@, "<key>Request</key><string>RSDCheckin</string>"@),
{
    reveal_strlit("<?xml version=\"1.0\" encoding=\"UTF-8\"?>\n<!DOCTYPE plist PUBLIC \"-//Apple//DTD PLIST 1.0//EN\" \"http://www.apple.com/DTDs/PropertyList-1.0.dtd\">\n<plist version=\"1.0\"><dict>\n<key>Label</key><string>devicelink</string>\n<key>ProtocolVersion</key><string>2</string>\n<key>Request</key><string>RSDCheckin</string>\n</dict></plist>\n");
    reveal_strlit("<key>Label</key><string>devicelink</string>");
    reveal_strlit("<key>ProtocolVersion</key><string>2</string>");
    reveal_strlit("<key>Request</key><string>RSDCheckin</string>");
    assert(CHECKIN@.subrange(170, 213) =~= "<key>Label</key><string>devicelink</string>"@);
    assert(occurs_at(CHECKIN@, "<key>Label</key><string>devicelink</string>"@, 170));
    assert(CHECKIN@.subrange(214, 258) =~= "<key>ProtocolVersion</key><string>2</string>"@);
    assert(occurs_at(CHECKIN@, "<key>ProtocolVersion</key><string>2</string>"@, 214));
    assert(CHECKIN@.subrange(259, 304) =~= "<key>Request</key><string>RSDCheckin</string>"@);
    assert(occurs_at(CHECKIN@, "<key>Request</key><string>RSDCheckin</string>"@, 259));
}

/// A status that is neither of the two known ones, or no status, is a refusal of its own.
pub proof fn lemma_unexpected_status(t: Tree)
    ensures
        t.entries() is Some && t.text_at("Status"@) != Some("Ok"@)
            && t.text_at("Status"@) != Some("Error"@)
            ==> daemon_refusal(t) == Some("daemon: unexpected status in response"@),
{
}

} // verus!
