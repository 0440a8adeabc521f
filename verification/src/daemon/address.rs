//! Where the daemon listens.

use vstd::prelude::*;
use crate::text::{join2, own, strip_prefix, stripped};
use crate::tunnel::DAEMON_SOCKET;

verus! {

/// Where the daemon keeps its process number.
pub const PID_PATH: &'static str = "/tmp/ios-rsd.pid";

/// An address to listen on.
#[derive(Debug)]
pub enum ListenAddr {
    /// The path of a socket.
    Unix(String),
    /// A network address and port, as they were written.
    Tcp(String),
}

/// Whether `got` is what an address text stands for.
pub open spec fn is_listen_addr(s: Seq<char>, got: Result<ListenAddr, String>) -> bool {
    match stripped(s, "unix://"@) {
        Some(path) => got matches Ok(ListenAddr::Unix(p)) && p@ == path,
        None => match stripped(s, "tcp://"@) {
            Some(addr) => got matches Ok(ListenAddr::Tcp(a)) && a@ == addr,
            None => got matches Err(t) && t@
                == "listen address must start with unix:// or tcp://: "@ + s,
        },
    }
}

/// Reads an address: a path behind `unix://`, or a network address behind `tcp://`.
pub fn parse_listen_addr(s: &str) -> (got: Result<ListenAddr, String>)
    ensures
        is_listen_addr(s@, got),
{
    if let Some(path) = strip_prefix(s, "unix://") {
        return Ok(ListenAddr::Unix(path));
    }
    if let Some(addr) = strip_prefix(s, "tcp://") {
        return Ok(ListenAddr::Tcp(addr));
    }
    Err(join2("listen address must start with unix:// or tcp://: ", s))
}

/// Chooses the address: the flag goes before the environment, and without either the
/// daemon listens on its usual socket.
pub fn resolve_listen_addr(flag: Option<&str>, env: Option<&str>) -> (got: Result<
    ListenAddr,
    String,
>)
    ensures
        match (flag, env) {
            (Some(s), _) => is_listen_addr(s@, got),
            (None, Some(s)) => is_listen_addr(s@, got),
            (None, None) => got matches Ok(ListenAddr::Unix(p)) && p@ == DAEMON_SOCKET@,
        },
{
    if let Some(s) = flag {
        return parse_listen_addr(s);
    }
    if let Some(s) = env {
        return parse_listen_addr(s);
    }
    Ok(ListenAddr::Unix(own(DAEMON_SOCKET)))
}

/// Shows an address.
pub fn listen_addr_display(addr: &ListenAddr) -> (s: String)
    ensures
        s@ == match addr {
            ListenAddr::Unix(p) => "socket="@ + p@,
            ListenAddr::Tcp(a) => "tcp="@ + a@,
        },
{
    match addr {
        ListenAddr::Unix(p) => join2("socket=", p.as_str()),
        ListenAddr::Tcp(a) => join2("tcp=", a.as_str()),
    }
}

/// How an address is read: what follows `unix://` is a path, what follows `tcp://` is a
/// network address, and a text that starts with neither is refused and shown.
pub proof fn lemma_addresses(rest: Seq<char>, got: Result<ListenAddr, String>)
    ensures
        is_listen_addr("unix://"@ + rest, got) ==> (got matches Ok(ListenAddr::Unix(p)) && p@ == rest),
        is_listen_addr("tcp://"@ + rest, got) ==> (got matches Ok(ListenAddr::Tcp(a)) && a@ == rest),
        is_listen_addr(rest, got) ==> (got matches Err(t) ==> t@
            == "listen address must start with unix:// or tcp://: "@ + rest),
{
    reveal_strlit("unix://");
    reveal_strlit("tcp://");
    let u = "unix://"@ + rest;
    let t = "tcp://"@ + rest;
    assert(u.take(7) =~= "unix://"@);
    assert(u.skip(7) =~= rest);
    assert(t.take(6) =~= "tcp://"@);
    assert(t.skip(6) =~= rest);
    assert(t[0] == 't');
    assert(t.len() >= 7 ==> t.take(7)[0] == 't');
    assert("unix://"@[0] == 'u');
}

} // verus!
