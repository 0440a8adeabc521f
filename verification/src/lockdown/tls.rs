//! What a TLS client needs of a pair record.

use rustls::pki_types::PrivateKeyDer;
use vstd::prelude::*;
use crate::text::{join2, own};
use super::error::Error;
use super::pair_record::{PairRecord, RecordModel};

verus! {

/// How a private key is encoded.
#[derive(Clone, Copy, Debug, PartialEq, Eq, Structural)]
pub enum KeyEncoding {
    Pkcs1,
    Sec1,
    Pkcs8,
}

/// The certificates in a PEM file, or why it cannot be read.
pub uninterp spec fn pem_certificates(pem: Seq<u8>) -> Result<Seq<Seq<u8>>, Seq<char>>;

/// The first private key in a PEM file, if there is one, or why the file cannot be
/// read.
pub uninterp spec fn pem_private_key(pem: Seq<u8>) -> Result<
    Option<(KeyEncoding, Seq<u8>)>,
    Seq<char>,
>;

/// The contents of some byte strings.
pub open spec fn contents(items: Seq<Vec<u8>>) -> Seq<Seq<u8>> {
    items.map_values(|v: Vec<u8>| v@)
}

/// `rustls_pemfile::certs`, all of them or the first error: what comes out depends
/// on the file alone.
#[verifier::external_body]
pub(crate) fn read_certs(pem: &[u8]) -> (certs: Result<Vec<Vec<u8>>, String>)
    ensures
        match certs {
            Ok(c) => pem_certificates(pem@) == Ok::<Seq<Seq<u8>>, Seq<char>>(contents(c@)),
            Err(e) => pem_certificates(pem@) == Err::<Seq<Seq<u8>>, Seq<char>>(e@),
        },
{
    let mut reader: &[u8] = pem;
    rustls_pemfile::certs(&mut reader).map(
        |c| c.map(|d| d.to_vec()).map_err(|e| e.to_string()),
    ).collect()
}

/// `rustls_pemfile::private_key`: what comes out depends on the file alone.
#[verifier::external_body]
pub(crate) fn read_private_key(pem: &[u8]) -> (key: Result<Option<(KeyEncoding, Vec<u8>)>, String>)
    ensures
        match key {
            Ok(Some((encoding, der))) => pem_private_key(pem@) == Ok::<
                Option<(KeyEncoding, Seq<u8>)>,
                Seq<char>,
            >(Some((encoding, der@))),
            Ok(None) => pem_private_key(pem@) == Ok::<
                Option<(KeyEncoding, Seq<u8>)>,
                Seq<char>,
            >(None),
            Err(e) => pem_private_key(pem@) == Err::<
                Option<(KeyEncoding, Seq<u8>)>,
                Seq<char>,
            >(e@),
        },
{
    let mut reader: &[u8] = pem;
    let key = rustls_pemfile::private_key(&mut reader).map_err(|e| e.to_string())?;
    Ok(
        match key {
            Some(PrivateKeyDer::Pkcs1(k)) => Some(
                (KeyEncoding::Pkcs1, k.secret_pkcs1_der().to_vec()),
            ),
            Some(PrivateKeyDer::Sec1(k)) => Some((KeyEncoding::Sec1, k.secret_sec1_der().to_vec())),
            Some(k) => Some((KeyEncoding::Pkcs8, k.secret_der().to_vec())),
            None => None,
        },
    )
}

/// The host's side of a TLS connection.
#[derive(Debug)]
pub struct TlsIdentity {
    pub certs: Vec<Vec<u8>>,
    pub encoding: KeyEncoding,
    pub key: Vec<u8>,
}

/// What there is to say of the TLS identity in a pair record: the certificates and
/// the key, or what is wrong with them.
pub open spec fn identity_due(
    certs: Result<Seq<Seq<u8>>, Seq<char>>,
    key: Result<Option<(KeyEncoding, Seq<u8>)>, Seq<char>>,
) -> Result<(Seq<Seq<u8>>, KeyEncoding, Seq<u8>), Seq<char>> {
    match certs {
        Err(e) => Err("cert parse: "@ + e),
        Ok(c) => if c.len() == 0 {
            Err("no certificate found in pair record HostCertificate"@)
        } else {
            match key {
                Err(e) => Err("key parse: "@ + e),
                Ok(None) => Err("no private key in pair record HostPrivateKey"@),
                Ok(Some((encoding, k))) => Ok((c, encoding, k)),
            }
        },
    }
}

/// The TLS identity in a pair record, or what is wrong with it.
pub open spec fn identity_of(pair: RecordModel) -> Result<
    (Seq<Seq<u8>>, KeyEncoding, Seq<u8>),
    Seq<char>,
> {
    identity_due(pem_certificates(pair.host_certificate), pem_private_key(pair.host_private_key))
}

/// Whether a result is what is due.
pub open spec fn is_identity(
    got: Result<TlsIdentity, Error>,
    due: Result<(Seq<Seq<u8>>, KeyEncoding, Seq<u8>), Seq<char>>,
) -> bool {
    match due {
        Ok((certs, encoding, key)) => got matches Ok(id) && contents(id.certs@) == certs
            && id.encoding == encoding && id.key@ == key,
        Err(e) => got matches Err(Error::Tls(t)) && t@ == e,
    }
}

/// Judges what was read of the certificates of a pair record, before its key is
/// looked at.
pub fn check_certs(certs: Result<Vec<Vec<u8>>, String>) -> (got: Result<Vec<Vec<u8>>, Error>)
    ensures
        match certs {
            Err(e) => got matches Err(Error::Tls(t)) && t@ == "cert parse: "@ + e@,
            Ok(c) => if c@.len() == 0 {
                got matches Err(Error::Tls(t)) && t@
                    == "no certificate found in pair record HostCertificate"@
            } else {
                got matches Ok(v) && v == c
            },
        },
{
    match certs {
        Err(e) => Err(Error::Tls(join2("cert parse: ", e.as_str()))),
        Ok(c) => if c.len() == 0 {
            Err(Error::Tls(own("no certificate found in pair record HostCertificate")))
        } else {
            Ok(c)
        },
    }
}

/// Judges what was read of the key of a pair record.
pub fn check_key(key: Result<Option<(KeyEncoding, Vec<u8>)>, String>) -> (got: Result<
    (KeyEncoding, Vec<u8>),
    Error,
>)
    ensures
        match key {
            Err(e) => got matches Err(Error::Tls(t)) && t@ == "key parse: "@ + e@,
            Ok(None) => got matches Err(Error::Tls(t)) && t@
                == "no private key in pair record HostPrivateKey"@,
            Ok(Some(k)) => got matches Ok(v) && v == k,
        },
{
    match key {
        Err(e) => Err(Error::Tls(join2("key parse: ", e.as_str()))),
        Ok(None) => Err(Error::Tls(own("no private key in pair record HostPrivateKey"))),
        Ok(Some(k)) => Ok(k),
    }
}

/// Takes the host's TLS identity out of a pair record.
pub fn tls_identity(pair: &PairRecord) -> (got: Result<TlsIdentity, Error>)
    ensures
        is_identity(got, identity_of(pair@)),
{
    let certs: Vec<Vec<u8>> = match check_certs(read_certs(pair.host_certificate.as_slice())) {
        Ok(c) => c,
        Err(e) => {
            return Err(e);
        },
    };
    match check_key(read_private_key(pair.host_private_key.as_slice())) {
        Ok((encoding, key)) => Ok(TlsIdentity { certs, encoding, key }),
        Err(e) => Err(e),
    }
}

/// There is an identity exactly if the certificate of the host holds certificates and its
/// private key holds a key; it consists of just these.
pub proof fn lemma_identity(pair: RecordModel)
    ensures
        identity_of(pair) matches Ok((certs, encoding, key)) ==> {
            &&& pem_certificates(pair.host_certificate) == Ok::<Seq<Seq<u8>>, Seq<char>>(certs)
            &&& certs.len() > 0
            &&& pem_private_key(pair.host_private_key) == Ok::<
                Option<(KeyEncoding, Seq<u8>)>,
                Seq<char>,
            >(Some((encoding, key)))
        },
        identity_of(pair) is Ok <==> {
            &&& pem_certificates(pair.host_certificate) matches Ok(certs) && certs.len() > 0
            &&& pem_private_key(pair.host_private_key) matches Ok(Some(_))
        },
{
}

/// An identity is the certificates, all of them and in their order, and the key beside
/// them; it is refused for certificates that cannot be read or are none, before a key that
/// cannot be read or is missing.
pub proof fn lemma_identity_due(
    certs: Result<Seq<Seq<u8>>, Seq<char>>,
    key: Result<Option<(KeyEncoding, Seq<u8>)>, Seq<char>>,
    why: Seq<char>,
)
    ensures
        certs == Err::<Seq<Seq<u8>>, Seq<char>>(why)
            ==> identity_due(certs, key)
            == Err::<(Seq<Seq<u8>>, KeyEncoding, Seq<u8>), Seq<char>>("cert parse: "@ + why),
        certs is Ok && certs->Ok_0.len() == 0
            ==> identity_due(certs, key)
            == Err::<(Seq<Seq<u8>>, KeyEncoding, Seq<u8>), Seq<char>>(
            "no certificate found in pair record HostCertificate"@,
        ),
        certs is Ok && certs->Ok_0.len() > 0 ==> match key {
            Err(e) => identity_due(certs, key)
                == Err::<(Seq<Seq<u8>>, KeyEncoding, Seq<u8>), Seq<char>>("key parse: "@ + e),
            Ok(None) => identity_due(certs, key)
                == Err::<(Seq<Seq<u8>>, KeyEncoding, Seq<u8>), Seq<char>>(
                "no private key in pair record HostPrivateKey"@,
            ),
            Ok(Some(k)) => identity_due(certs, key)
                == Ok::<(Seq<Seq<u8>>, KeyEncoding, Seq<u8>), Seq<char>>((certs->Ok_0, k.0, k.1)),
        },
{
}

} // verus!
