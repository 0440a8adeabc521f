//! Tunnels to devices with a service catalogue.

use vstd::prelude::*;
use crate::lockdown::pair_record::PairRecord;
use crate::lockdown::tls::{
    contents, pem_certificates, pem_private_key, read_certs, read_private_key, KeyEncoding,
    TlsIdentity,
};
use crate::proplist::{Plist, Tree};
use crate::text::{join2, join3, own};
use super::error::Error;
use super::version::IosVersion;

verus! {

/// The service that opens a tunnel over USB.
pub const CORE_DEVICE_PROXY: &'static str = "com.apple.internal.devicecompute.CoreDeviceProxy";

/// Whether a tunnel can be opened: from version 17.4 on. Before that it is not
/// implemented, and before version 17 there is none.
pub fn check_tunnel(version: IosVersion) -> (ok: Result<(), Error>)
    ensures
        if version.has_proxy() {
            ok matches Ok(())
        } else if version.major >= 17 {
            ok matches Err(Error::Protocol(t)) && t@ == "iOS "@ + version.shown()
                + ": USB-Ethernet tunnel not yet implemented"@
        } else {
            ok matches Err(Error::Protocol(t)) && t@ == "iOS "@ + version.shown()
                + " uses legacy lockdown-only path"@
        },
{
    if version.supports_core_device_proxy() {
        Ok(())
    } else if version.supports_rsd() {
        Err(
            Error::Protocol(
                join3(
                    "iOS ",
                    version.text().as_str(),
                    ": USB-Ethernet tunnel not yet implemented",
                ),
            ),
        )
    } else {
        Err(
            Error::Protocol(
                join3("iOS ", version.text().as_str(), " uses legacy lockdown-only path"),
            ),
        )
    }
}

/// The identifier of a device: the one that is given, or the value that the device
/// tells, or none.
pub fn tunnel_udid(given: Option<&str>, told: Option<&Plist>) -> (udid: String)
    ensures
        udid@ == match given {
            Some(u) => u@,
            None => match told {
                Some(p) => match p@ {
                    Tree::String(s) => s,
                    _ => Seq::empty(),
                },
                None => Seq::empty(),
            },
        },
{
    match given {
        Some(u) => own(u),
        None => match told {
            Some(Plist::String(s)) => own(s.as_str()),
            _ => {
                let none: String = String::new();
                assert(none@ =~= Seq::<char>::empty());
                none
            },
        },
    }
}

/// The TLS identity that a tunnel needs: certificates, of which there may be none, and a
/// key; or what is wrong with them.
pub open spec fn tunnel_identity_due(
    certs: Result<Seq<Seq<u8>>, Seq<char>>,
    key: Result<Option<(KeyEncoding, Seq<u8>)>, Seq<char>>,
) -> Result<(Seq<Seq<u8>>, KeyEncoding, Seq<u8>), Seq<char>> {
    match certs {
        Err(e) => Err("cert: "@ + e),
        Ok(c) => match key {
            Err(e) => Err("key: "@ + e),
            Ok(None) => Err("no private key"@),
            Ok(Some((encoding, k))) => Ok((c, encoding, k)),
        },
    }
}

/// Puts a TLS identity together from what was read of its certificates and its key.
pub fn make_identity(
    certs: Result<Vec<Vec<u8>>, String>,
    key: Result<Option<(KeyEncoding, Vec<u8>)>, String>,
) -> (got: Result<TlsIdentity, Error>)
    ensures
        match (certs, key) {
            (Err(e), _) => got matches Err(Error::Protocol(t)) && t@ == "cert: "@ + e@,
            (Ok(_), Err(e)) => got matches Err(Error::Protocol(t)) && t@ == "key: "@ + e@,
            (Ok(_), Ok(None)) => got matches Err(Error::Protocol(t)) && t@ == "no private key"@,
            (Ok(c), Ok(Some((encoding, k)))) => got matches Ok(id) && id.certs == c && id.encoding
                == encoding && id.key == k,
        },
{
    let certs: Vec<Vec<u8>> = match certs {
        Ok(c) => c,
        Err(e) => {
            return Err(Error::Protocol(join2("cert: ", e.as_str())));
        },
    };
    match key {
        Err(e) => Err(Error::Protocol(join2("key: ", e.as_str()))),
        Ok(None) => Err(Error::Protocol(own("no private key"))),
        Ok(Some((encoding, key))) => Ok(TlsIdentity { certs, encoding, key }),
    }
}

/// Takes the TLS identity that a tunnel needs out of a pair record.
pub fn tunnel_identity(pair: &PairRecord) -> (got: Result<TlsIdentity, Error>)
    ensures
        match tunnel_identity_due(
            pem_certificates(pair@.host_certificate),
            pem_private_key(pair@.host_private_key),
        ) {
            Ok((certs, encoding, key)) => got matches Ok(id) && contents(id.certs@) == certs
                && id.encoding == encoding && id.key@ == key,
            Err(e) => got matches Err(Error::Protocol(t)) && t@ == e,
        },
{
    make_identity(
        read_certs(pair.host_certificate.as_slice()),
        read_private_key(pair.host_private_key.as_slice()),
    )
}

/// There is an identity exactly if the certificates can be read, though there may be none,
/// and there is a key; it consists of just these.
pub proof fn lemma_tunnel_identity(
    certs: Result<Seq<Seq<u8>>, Seq<char>>,
    key: Result<Option<(KeyEncoding, Seq<u8>)>, Seq<char>>,
)
    ensures
        match tunnel_identity_due(certs, key) {
            Ok((c, encoding, k)) => certs == Ok::<Seq<Seq<u8>>, Seq<char>>(c) && key == Ok::<
                Option<(KeyEncoding, Seq<u8>)>,
                Seq<char>,
            >(Some((encoding, k))),
            Err(why) => match (certs, key) {
                (Err(e), _) => why == "cert: "@ + e,
                (Ok(_), Err(e)) => why == "key: "@ + e,
                (Ok(_), Ok(None)) => why == "no private key"@,
                _ => false,
            },
        },
{
}

} // verus!
