//! Where the multiplexer listens.

use vstd::prelude::*;
use crate::text::{cut, own, parse_u16, parse_unsigned, split_once};

verus! {

/// The socket of the multiplexer.
pub const DEFAULT_SOCKET: &'static str = "/var/run/usbmuxd";

/// Where the socket is if it is not there.
pub const FALLBACK_SOCKET: &'static str = "/tmp/usbmuxd";

/// Where the multiplexer listens if it has no socket.
pub const FALLBACK_TCP: &'static str = "127.0.0.1:27015";

/// An address that was asked for.
#[derive(Debug)]
pub enum MuxAddr {
    Tcp(String, u16),
    Unix(String),
}

/// Reads an address: a host and a port with a colon between them, or else the path of
/// a socket.
pub fn parse_address(addr: &str) -> (got: Result<MuxAddr, String>)
    ensures
        match cut(addr@, ':') {
            Some((host, port)) => match parse_unsigned(port, 0xffff) {
                Some(n) => got matches Ok(MuxAddr::Tcp(h, p)) && h@ == host && p == n,
                None => got matches Err(t) && t@ == "bad USBMUXD_SOCKET_ADDRESS port"@,
            },
            None => got matches Ok(MuxAddr::Unix(path)) && path@ == addr@,
        },
{
    match split_once(addr, ':') {
        Some((host, port)) => match parse_u16(port.as_str()) {
            Some(n) => Ok(MuxAddr::Tcp(host, n)),
            None => Err(own("bad USBMUXD_SOCKET_ADDRESS port")),
        },
        None => Ok(MuxAddr::Unix(own(addr))),
    }
}

} // verus!
