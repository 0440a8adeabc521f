//! Pairing: the certificates, the requests, and what the replies mean.

use vstd::prelude::*;
use vstd::utf8::{decode_utf8, encode_utf8, valid_utf8};
use crate::bytes::{copy_bytes, le_value, lemma_le_value_roundtrip};
use crate::entries::{lemma_lookup_with, Entries};
use crate::proplist::format::{is_xml, plist_parse, shown, shown_tree, to_xml};
use crate::proplist::{no_entries, plain_entries, uid_free_entries, Dict, Plist, Tree};
use crate::text::{join2, join3, own, quote, quoted, same_str, str_bytes, utf8_text};
use crate::uuid::{
    lemma_hex_digits, lemma_marked, lemma_uuid_text, marked, nibble, uuid_from_time, uuid_text,
    uuid_to_upper_string,
};
use super::base64::{pem_encode, pem_text};
use super::crypto::{
    capable, generate_key, key_pem, modulus_bits, pem_of, pkcs1_pem_public, public_from_pem,
    public_half, public_of, signature_with,
};
use super::error::Error;
use super::pair_record::{record_of, PairRecord, RecordModel};
use super::pkcs7::{build_pkcs7_signed_data, signed_by};
use super::x509::{build_cert, certificate, certificate_body, signed_certificate, CertKind};

verus! {

/// The size of the keys of a pairing.
pub const KEY_BITS: usize = 2048;

/// For how many seconds a certificate is valid: ten years of 365 days.
pub const VALIDITY: u64 = 315_360_000;

/// The certificates and keys of a pairing, all as PEM.
#[derive(Debug)]
pub struct PairingCerts {
    pub root_cert: Vec<u8>,
    pub host_cert: Vec<u8>,
    pub device_cert: Vec<u8>,
    pub root_key: Vec<u8>,
    pub host_key: Vec<u8>,
}

/// What [`PairingCerts`] hold.
pub struct CertsModel {
    pub root_cert: Seq<u8>,
    pub host_cert: Seq<u8>,
    pub device_cert: Seq<u8>,
    pub root_key: Seq<u8>,
    pub host_key: Seq<u8>,
}

impl View for PairingCerts {
    type V = CertsModel;

    open spec fn view(&self) -> CertsModel {
        CertsModel {
            root_cert: self.root_cert@,
            host_cert: self.host_cert@,
            device_cert: self.device_cert@,
            root_key: self.root_key@,
            host_key: self.host_key@,
        }
    }
}

/// The PEM text of a certificate, as bytes.
pub open spec fn cert_pem(der: Seq<u8>) -> Seq<u8> {
    encode_utf8(pem_text("CERTIFICATE"@, der))
}

/// The PEM text of the certificate of a private key's public half: none where the
/// signing key cannot sign, or why there is no public half.
pub open spec fn own_cert(
    key: Seq<u8>,
    kind: CertKind,
    signing_key: Seq<u8>,
    now: int,
) -> Result<Option<Seq<u8>>, Seq<char>> {
    match public_half(key) {
        Err(e) => Err("encode spki: "@ + e),
        Ok(spki) => match signed_certificate(spki, kind, signing_key, now, now + VALIDITY) {
            Some(cert) => Ok(Some(cert_pem(cert))),
            None => Ok(None),
        },
    }
}

/// A key as PEM bytes, or why that fails.
pub open spec fn pem_of_key(key: Seq<u8>, what: Seq<char>) -> Result<Seq<u8>, Seq<char>> {
    match key_pem(key) {
        Ok(text) => Ok(encode_utf8(text)),
        Err(e) => Err(what + " key pem: "@ + e),
    }
}

/// The public key of a device, or why it cannot be used.
pub open spec fn device_spki(device_pem: Seq<u8>) -> Result<Seq<u8>, Seq<char>> {
    if !valid_utf8(device_pem) {
        Err("device key not utf8"@)
    } else {
        match pkcs1_pem_public(decode_utf8(device_pem)) {
            Ok(spki) => Ok(spki),
            Err(e) => Err("parse device public key: "@ + e),
        }
    }
}

/// The certificates of a pairing: the root signs itself, the host and the device.
/// None where the root key is not able to sign, or why they cannot be made.
pub open spec fn issued(
    device_pem: Seq<u8>,
    root_key: Seq<u8>,
    host_key: Seq<u8>,
    now: int,
) -> Result<Option<CertsModel>, Seq<char>> {
    match device_spki(device_pem) {
        Err(e) => Err(e),
        Ok(spki) => match own_cert(root_key, CertKind::Root, root_key, now) {
            Err(e) => Err(e),
            Ok(None) => Ok(None),
            Ok(Some(root_cert)) => match own_cert(host_key, CertKind::Leaf, root_key, now) {
                Err(e) => Err(e),
                Ok(None) => Ok(None),
                Ok(Some(host_cert)) => match signed_certificate(
                    spki,
                    CertKind::Leaf,
                    root_key,
                    now,
                    now + VALIDITY,
                ) {
                    None => Ok(None),
                    Some(device_cert) => match pem_of_key(root_key, "root"@) {
                        Err(e) => Err(e),
                        Ok(root_pem) => match pem_of_key(host_key, "host"@) {
                            Err(e) => Err(e),
                            Ok(host_pem) => Ok(
                                Some(
                                    CertsModel {
                                        root_cert,
                                        host_cert,
                                        device_cert: cert_pem(device_cert),
                                        root_key: root_pem,
                                        host_key: host_pem,
                                    },
                                ),
                            ),
                        },
                    },
                },
            },
        },
    }
}

fn refuse<T>(text: String) -> (out: Result<T, Error>)
    ensures
        out matches Err(Error::Lockdown(t)) && t@ == text@,
{
    Err(Error::Lockdown(text))
}

fn make_own_cert(key: &[u8], kind: CertKind, signing_key: &[u8], now: u64) -> (cert: Result<
    Option<Vec<u8>>,
    Error,
>)
    requires
        now + VALIDITY <= u64::MAX,
    ensures
        match own_cert(key@, kind, signing_key@, now as int) {
            Ok(Some(c)) => cert matches Ok(Some(v)) && v@ == c,
            Ok(None) => cert matches Ok(None),
            Err(e) => cert matches Err(Error::Lockdown(t)) && t@ == e,
        },
{
    match public_of(key) {
        Ok(spki) => match build_cert(spki.as_slice(), kind, signing_key, now, now + VALIDITY) {
            Some(cert) => Ok(Some(pem_encode("CERTIFICATE", cert.as_slice()))),
            None => Ok(None),
        },
        Err(e) => refuse(join2("encode spki: ", e.as_str())),
    }
}

fn make_key_pem(key: &[u8], what: &str) -> (pem: Result<Vec<u8>, Error>)
    ensures
        match pem_of_key(key@, what@) {
            Ok(p) => pem matches Ok(v) && v@ == p,
            Err(e) => pem matches Err(Error::Lockdown(t)) && t@ == e,
        },
{
    match pem_of(key) {
        Ok(text) => Ok(str_bytes(text.as_str())),
        Err(e) => refuse(join3(what, " key pem: ", e.as_str())),
    }
}

fn read_device_key(device_pem: &[u8]) -> (spki: Result<Vec<u8>, Error>)
    ensures
        match device_spki(device_pem@) {
            Ok(s) => spki matches Ok(v) && v@ == s,
            Err(e) => spki matches Err(Error::Lockdown(t)) && t@ == e,
        },
{
    match utf8_text(device_pem) {
        None => refuse(own("device key not utf8")),
        Some(text) => match public_from_pem(text.as_str()) {
            Ok(spki) => Ok(spki),
            Err(e) => refuse(join2("parse device public key: ", e.as_str())),
        },
    }
}

/// Makes the certificates of a pairing from a root key and a host key. There are
/// none where the root key is not able to sign.
pub fn create_pairing_certs(device_pub_pem: &[u8], root_key: &[u8], host_key: &[u8], now: u64) -> (
certs: Result<Option<PairingCerts>, Error>)
    requires
        now + VALIDITY <= u64::MAX,
    ensures
        match issued(device_pub_pem@, root_key@, host_key@, now as int) {
            Ok(Some(model)) => certs matches Ok(Some(c)) && c@ == model,
            Ok(None) => certs matches Ok(None),
            Err(e) => certs matches Err(Error::Lockdown(t)) && t@ == e,
        },
{
    let spki: Vec<u8> = match read_device_key(device_pub_pem) {
        Ok(v) => v,
        Err(e) => {
            return Err(e);
        },
    };
    let root_cert: Vec<u8> = match make_own_cert(root_key, CertKind::Root, root_key, now) {
        Ok(Some(v)) => v,
        Ok(None) => {
            return Ok(None);
        },
        Err(e) => {
            return Err(e);
        },
    };
    let host_cert: Vec<u8> = match make_own_cert(host_key, CertKind::Leaf, root_key, now) {
        Ok(Some(v)) => v,
        Ok(None) => {
            return Ok(None);
        },
        Err(e) => {
            return Err(e);
        },
    };
    let device_cert: Vec<u8> = match build_cert(
        spki.as_slice(),
        CertKind::Leaf,
        root_key,
        now,
        now + VALIDITY,
    ) {
        Some(cert) => pem_encode("CERTIFICATE", cert.as_slice()),
        None => {
            return Ok(None);
        },
    };
    let root_key_pem: Vec<u8> = match make_key_pem(root_key, "root") {
        Ok(v) => v,
        Err(e) => {
            return Err(e);
        },
    };
    let host_key_pem: Vec<u8> = match make_key_pem(host_key, "host") {
        Ok(v) => v,
        Err(e) => {
            return Err(e);
        },
    };
    Ok(
        Some(
            PairingCerts {
                root_cert,
                host_cert,
                device_cert,
                root_key: root_key_pem,
                host_key: host_key_pem,
            },
        ),
    )
}

/// What comes of making the certificates of a pairing from two keys, each of which may
/// have failed to be made.
pub open spec fn issued_from(
    device_pem: Seq<u8>,
    root_key: Result<Seq<u8>, Seq<char>>,
    host_key: Result<Seq<u8>, Seq<char>>,
    now: int,
) -> Result<Option<CertsModel>, Seq<char>> {
    match root_key {
        Err(e) => Err("root keygen: "@ + e),
        Ok(root) => match host_key {
            Err(e) => Err("host keygen: "@ + e),
            Ok(host) => issued(device_pem, root, host, now),
        },
    }
}

/// What the making of a key gave.
pub open spec fn made_key(key: Result<Vec<u8>, String>) -> Result<Seq<u8>, Seq<char>> {
    match key {
        Ok(k) => Ok(k@),
        Err(e) => Err(e@),
    }
}

/// Makes the certificates of a pairing from two keys that were just made, or says why one
/// was not.
pub fn certs_from_new_keys(
    device_pub_pem: &[u8],
    root_key: Result<Vec<u8>, String>,
    host_key: Result<Vec<u8>, String>,
    now: u64,
) -> (certs: Result<Option<PairingCerts>, Error>)
    requires
        now + VALIDITY <= u64::MAX,
    ensures
        match issued_from(device_pub_pem@, made_key(root_key), made_key(host_key), now as int) {
            Ok(Some(model)) => certs matches Ok(Some(c)) && c@ == model,
            Ok(None) => certs matches Ok(None),
            Err(e) => certs matches Err(Error::Lockdown(t)) && t@ == e,
        },
{
    match root_key {
        Err(e) => refuse(join2("root keygen: ", e.as_str())),
        Ok(root) => match host_key {
            Err(e) => refuse(join2("host keygen: ", e.as_str())),
            Ok(host) => create_pairing_certs(device_pub_pem, root.as_slice(), host.as_slice(), now),
        },
    }
}

/// Whether the making of a key failed, or gave one of a size that does all that a pairing
/// needs.
pub open spec fn is_new_key(key: Result<Seq<u8>, Seq<char>>, bits: usize) -> bool {
    key matches Ok(k) ==> modulus_bits(k) == bits && capable(k)
}

/// Two keys that do all that a pairing needs give the certificates to every device whose
/// public key can be read, and an error to the others.
pub proof fn lemma_pairing_keys_serve(
    device_pem: Seq<u8>,
    root_key: Seq<u8>,
    host_key: Seq<u8>,
    now: int,
)
    requires
        capable(root_key),
        capable(host_key),
    ensures
        match device_spki(device_pem) {
            Ok(_) => issued(device_pem, root_key, host_key, now) matches Ok(Some(_)),
            Err(e) => issued(device_pem, root_key, host_key, now) == Err::<
                Option<CertsModel>,
                Seq<char>,
            >(e),
        },
{
}

/// Whether certificates come from two new keys of a size: once both keys are there, only a
/// device key that cannot be read is in the way.
pub open spec fn newly_issued(
    device_pem: Seq<u8>,
    bits: usize,
    now: int,
    certs: Result<Option<PairingCerts>, Error>,
) -> bool {
    &&& exists|root_key: Result<Seq<u8>, Seq<char>>, host_key: Result<Seq<u8>, Seq<char>>|
        {
            &&& is_new_key(root_key, bits)
            &&& is_new_key(host_key, bits)
            &&& match #[trigger] issued_from(device_pem, root_key, host_key, now) {
                Ok(Some(model)) => certs matches Ok(Some(c)) && c@ == model,
                Ok(None) => false,
                Err(e) => certs matches Err(Error::Lockdown(t)) && t@ == e,
            }
        }
    &&& device_spki(device_pem) is Err ==> certs is Err
}

/// Makes two new keys of a size and the certificates of a pairing from them. That the two
/// keys differ is left to chance.
pub fn pairing_certs_of_size(device_pub_pem: &[u8], bits: usize, now: u64) -> (certs: Result<
    Option<PairingCerts>,
    Error,
>)
    requires
        1024 <= bits <= 4096,
        now + VALIDITY <= u64::MAX,
    ensures
        newly_issued(device_pub_pem@, bits, now as int, certs),
{
    let root_key: Result<Vec<u8>, String> = generate_key(bits);
    let host_key: Result<Vec<u8>, String> = generate_key(bits);
    proof {
        let root = made_key(root_key);
        let host = made_key(host_key);
        assert(is_new_key(root, bits));
        assert(is_new_key(host, bits));
        if root is Ok && host is Ok {
            lemma_pairing_keys_serve(device_pub_pem@, root->Ok_0, host->Ok_0, now as int);
        }
        assert(issued_from(device_pub_pem@, root, host, now as int) matches Ok(c) ==> c is Some);
    }
    certs_from_new_keys(device_pub_pem, root_key, host_key, now)
}

/// Makes two new keys and the certificates of a pairing from them.
pub fn new_pairing_certs(device_pub_pem: &[u8], now: u64) -> (certs: Result<
    Option<PairingCerts>,
    Error,
>)
    requires
        now + VALIDITY <= u64::MAX,
    ensures
        newly_issued(device_pub_pem@, KEY_BITS, now as int, certs),
{
    pairing_certs_of_size(device_pub_pem, KEY_BITS, now)
}

/// The part of a pair record that a Pair request carries.
pub open spec fn request_record(
    certs: CertsModel,
    buid: Seq<char>,
    host_id: Seq<char>,
) -> Seq<(Seq<char>, Tree)> {
    no_entries().with("DeviceCertificate"@, Tree::Data(certs.device_cert)).with(
        "HostCertificate"@,
        Tree::Data(certs.host_cert),
    ).with("RootCertificate"@, Tree::Data(certs.root_cert)).with(
        "SystemBUID"@,
        Tree::String(buid),
    ).with("HostID"@, Tree::String(host_id))
}

/// A Pair request.
pub open spec fn pair_request(
    record: Seq<(Seq<char>, Tree)>,
    options: Seq<(Seq<char>, Tree)>,
) -> Tree {
    Tree::Dictionary(
        no_entries().with("Label"@, Tree::String("ios-rs"@)).with(
            "ProtocolVersion"@,
            Tree::String("2"@),
        ).with("Request"@, Tree::String("Pair"@)).with(
            "PairRecord"@,
            Tree::Dictionary(record),
        ).with("PairingOptions"@, Tree::Dictionary(options)),
    )
}

/// The options of a Pair request that a user confirms.
pub open spec fn plain_options() -> Seq<(Seq<char>, Tree)> {
    no_entries().with("ExtendedPairingErrors"@, Tree::Boolean(true))
}

/// The options of a Pair request that a supervisor makes.
pub open spec fn supervised_options(cert: Seq<u8>) -> Seq<(Seq<char>, Tree)> {
    no_entries().with("SupervisorCertificate"@, Tree::Data(cert)).with(
        "ExtendedPairingErrors"@,
        Tree::Boolean(true),
    )
}

/// The options of a Pair request that answers a challenge.
pub open spec fn challenge_options(signed: Seq<u8>) -> Seq<(Seq<char>, Tree)> {
    no_entries().with("ChallengeResponse"@, Tree::Data(signed))
}

/// The pair record that is kept, with the private keys and the escrow bag.
pub open spec fn saved_record(
    certs: CertsModel,
    escrow_bag: Seq<u8>,
    wifi_mac: Seq<char>,
    host_id: Seq<char>,
    buid: Seq<char>,
) -> Tree {
    Tree::Dictionary(
        no_entries().with("DeviceCertificate"@, Tree::Data(certs.device_cert)).with(
            "HostPrivateKey"@,
            Tree::Data(certs.host_key),
        ).with("HostCertificate"@, Tree::Data(certs.host_cert)).with(
            "RootPrivateKey"@,
            Tree::Data(certs.root_key),
        ).with("RootCertificate"@, Tree::Data(certs.root_cert)).with(
            "EscrowBag"@,
            Tree::Data(escrow_bag),
        ).with("WiFiMACAddress"@, Tree::String(wifi_mac)).with(
            "HostID"@,
            Tree::String(host_id),
        ).with("SystemBUID"@, Tree::String(buid)),
    )
}

/// The escrow bag in the reply to a Pair request, or what the reply means.
pub open spec fn pair_reply(t: Tree) -> Result<Seq<u8>, Seq<char>> {
    if t.entries() is None {
        Err("Pair response not a dictionary"@)
    } else {
        match t.text_at("Error"@) {
            Some(e) => if e == "PairingDialogResponsePending"@ {
                Err(
                    "trust dialog open — accept 'Trust This Computer' on the device, then run 'ios pair' again"@,
                )
            } else {
                Err("lockdownd error: "@ + e)
            },
            None => match t.data_at("EscrowBag"@) {
                Some(bag) => Ok(bag),
                None => Err("no EscrowBag in pair response"@),
            },
        }
    }
}

/// The escrow bag in the reply to the answer of a challenge, or what the reply
/// means.
pub open spec fn supervised_reply(t: Tree) -> Result<Seq<u8>, Seq<char>> {
    if t.entries() is None {
        Err("second Pair response not a dictionary"@)
    } else {
        match t.text_at("Error"@) {
            Some(e) => Err("supervised pair error: "@ + e),
            None => match t.data_at("EscrowBag"@) {
                Some(bag) => Ok(bag),
                None => Err("no EscrowBag in supervised pair response"@),
            },
        }
    }
}

/// The challenge in the reply to a supervisor's request, or why there is none.
pub open spec fn pairing_challenge(t: Tree) -> Result<Seq<u8>, Seq<char>> {
    let error = match t.text_at("Error"@) {
        Some(e) => e,
        None => ""@,
    };
    if error != "MCChallengeRequired"@ {
        Err("expected MCChallengeRequired, got: "@ + quoted(error))
    } else {
        match t.at("ExtendedResponse"@) {
            Some(Tree::Dictionary(ext)) => match ext.lookup("PairingChallenge"@) {
                Some(Tree::Data(d)) => Ok(d),
                Some(other) => Err("missing PairingChallenge: Some("@ + shown_tree(other) + ")"@),
                None => Err("missing PairingChallenge: None"@),
            },
            _ => Err("missing ExtendedResponse"@),
        }
    }
}

/// A value that has to be data, or that it is not.
pub open spec fn device_key_value(t: Tree) -> Result<Seq<u8>, Seq<char>> {
    match t {
        Tree::Data(d) => Ok(d),
        _ => Err("DevicePublicKey unexpected type: "@ + shown_tree(t)),
    }
}

/// A value that has to be text, or that it is not.
pub open spec fn wifi_value(t: Tree) -> Result<Seq<char>, Seq<char>> {
    match t {
        Tree::String(s) => Ok(s),
        _ => Err("WiFiAddress unexpected type: "@ + shown_tree(t)),
    }
}

/// Whether a result in bytes is what is due.
pub open spec fn data_due(got: Result<Vec<u8>, Error>, due: Result<Seq<u8>, Seq<char>>) -> bool {
    match due {
        Ok(d) => got matches Ok(v) && v@ == d,
        Err(e) => got matches Err(Error::Lockdown(t)) && t@ == e,
    }
}

/// Takes the public key of the device out of the value of `DevicePublicKey`.
pub fn device_public_key(value: &Plist) -> (key: Result<Vec<u8>, Error>)
    ensures
        data_due(key, device_key_value(value@)),
{
    match value {
        Plist::Data(d) => Ok(copy_bytes(d.as_slice())),
        _ => refuse(join2("DevicePublicKey unexpected type: ", shown(value).as_str())),
    }
}

/// Takes the address out of the value of `WiFiAddress`.
pub fn wifi_address(value: &Plist) -> (address: Result<String, Error>)
    ensures
        match wifi_value(value@) {
            Ok(s) => address matches Ok(v) && v@ == s,
            Err(e) => address matches Err(Error::Lockdown(t)) && t@ == e,
        },
{
    match value {
        Plist::String(s) => Ok(own(s.as_str())),
        _ => refuse(join2("WiFiAddress unexpected type: ", shown(value).as_str())),
    }
}

/// Takes the challenge out of the reply to a supervisor's request.
pub fn extract_pairing_challenge(resp: &Plist) -> (challenge: Result<Vec<u8>, Error>)
    ensures
        data_due(challenge, pairing_challenge(resp@)),
{
    let error: &str = match resp.text_at("Error") {
        Some(e) => e,
        None => "",
    };
    if !same_str(error, "MCChallengeRequired") {
        return refuse(join2("expected MCChallengeRequired, got: ", quote(error).as_str()));
    }
    match resp.at("ExtendedResponse") {
        Some(Plist::Dictionary(ext)) => match ext.get("PairingChallenge") {
            Some(Plist::Data(d)) => Ok(copy_bytes(d.as_slice())),
            Some(other) => refuse(
                join3("missing PairingChallenge: Some(", shown(other).as_str(), ")"),
            ),
            None => refuse(own("missing PairingChallenge: None")),
        },
        _ => refuse(own("missing ExtendedResponse")),
    }
}

/// Reads the reply to a Pair request that a user confirms.
pub fn read_pair_reply(resp: &Plist) -> (bag: Result<Vec<u8>, Error>)
    ensures
        data_due(bag, pair_reply(resp@)),
{
    if resp.as_dictionary().is_none() {
        return refuse(own("Pair response not a dictionary"));
    }
    if let Some(e) = resp.text_at("Error") {
        if same_str(e, "PairingDialogResponsePending") {
            return refuse(
                own(
                    "trust dialog open — accept 'Trust This Computer' on the device, then run 'ios pair' again",
                ),
            );
        }
        return refuse(join2("lockdownd error: ", e));
    }
    match resp.data_at("EscrowBag") {
        Some(bag) => Ok(copy_bytes(bag)),
        None => refuse(own("no EscrowBag in pair response")),
    }
}

/// Reads the reply to the answer of a challenge.
pub fn read_supervised_reply(resp: &Plist) -> (bag: Result<Vec<u8>, Error>)
    ensures
        data_due(bag, supervised_reply(resp@)),
{
    if resp.as_dictionary().is_none() {
        return refuse(own("second Pair response not a dictionary"));
    }
    if let Some(e) = resp.text_at("Error") {
        return refuse(join2("supervised pair error: ", e));
    }
    match resp.data_at("EscrowBag") {
        Some(bag) => Ok(copy_bytes(bag)),
        None => refuse(own("no EscrowBag in supervised pair response")),
    }
}

/// The identifier that a host takes at a moment, counted in microseconds.
pub open spec fn host_id_at(t: u128) -> Seq<char> {
    uuid_text(marked(crate::bytes::le_bytes(t as nat, 16)), true)
}

/// Makes an identifier for the host from the time.
pub fn random_upper_uuid(t: u128) -> (id: String)
    ensures
        id@ == host_id_at(t),
{
    uuid_to_upper_string(&uuid_from_time(t))
}

fn build_request(record: Dict, options: Dict) -> (req: Plist)
    ensures
        req@ == pair_request(record@, options@),
{
    let mut d: Dict = Dict::new();
    d.put_str("Label", "ios-rs");
    d.put_str("ProtocolVersion", "2");
    d.put_str("Request", "Pair");
    d.put("PairRecord", Plist::dict(record));
    d.put("PairingOptions", Plist::dict(options));
    Plist::dict(d)
}

/// A pairing on its way: what the host has prepared for it.
#[derive(Debug)]
pub struct Pairing {
    pub certs: PairingCerts,
    pub buid: String,
    pub host_id: String,
    pub wifi_mac: String,
}

impl Pairing {
    fn record(&self) -> (d: Dict)
        ensures
            d@ == request_record(self.certs@, self.buid@, self.host_id@),
    {
        let mut d: Dict = Dict::new();
        d.put("DeviceCertificate", Plist::bytes(self.certs.device_cert.as_slice()));
        d.put("HostCertificate", Plist::bytes(self.certs.host_cert.as_slice()));
        d.put("RootCertificate", Plist::bytes(self.certs.root_cert.as_slice()));
        d.put_str("SystemBUID", self.buid.as_str());
        d.put_str("HostID", self.host_id.as_str());
        d
    }

    /// The request that a user confirms on the device.
    pub fn request(&self) -> (req: Plist)
        ensures
            req@ == pair_request(
                request_record(self.certs@, self.buid@, self.host_id@),
                plain_options(),
            ),
    {
        let mut options: Dict = Dict::new();
        options.put("ExtendedPairingErrors", Plist::truth(true));
        build_request(self.record(), options)
    }

    /// The request that a supervisor makes.
    pub fn supervised_request(&self, supervision_cert_der: &[u8]) -> (req: Plist)
        ensures
            req@ == pair_request(
                request_record(self.certs@, self.buid@, self.host_id@),
                supervised_options(supervision_cert_der@),
            ),
    {
        let mut options: Dict = Dict::new();
        options.put("SupervisorCertificate", Plist::bytes(supervision_cert_der));
        options.put("ExtendedPairingErrors", Plist::truth(true));
        build_request(self.record(), options)
    }

    /// The answer to the challenge in the reply to a supervisor's request. There is
    /// none where the supervisor's key is not able to sign.
    pub fn answer_challenge(&self, resp: &Plist, supervision_cert_der: &[u8], key: &[u8]) -> (req:
        Result<Option<Plist>, Error>)
        ensures
            if resp@.entries() is None {
                req matches Err(Error::Lockdown(t)) && t@
                    == "first Pair response not a dictionary"@
            } else {
                match pairing_challenge(resp@) {
                    Err(e) => req matches Err(Error::Lockdown(t)) && t@ == e,
                    Ok(challenge) => match signed_by(challenge, supervision_cert_der@, key@) {
                        Err(e) => req matches Err(Error::Lockdown(t)) && t@ == e,
                        Ok(None) => req matches Ok(None),
                        Ok(Some(signed)) => req matches Ok(Some(p)) && p@ == pair_request(
                            request_record(self.certs@, self.buid@, self.host_id@),
                            challenge_options(signed),
                        ),
                    },
                }
            },
    {
        if resp.as_dictionary().is_none() {
            return refuse(own("first Pair response not a dictionary"));
        }
        let challenge: Vec<u8> = match extract_pairing_challenge(resp) {
            Ok(c) => c,
            Err(e) => {
                return Err(e);
            },
        };
        match build_pkcs7_signed_data(challenge.as_slice(), supervision_cert_der, key) {
            Ok(Some(signed)) => {
                let mut options: Dict = Dict::new();
                options.put("ChallengeResponse", Plist::bytes(signed.as_slice()));
                Ok(Some(build_request(self.record(), options)))
            },
            Ok(None) => Ok(None),
            Err(e) => Err(e),
        }
    }

    /// The pair record to keep, as XML.
    pub fn record_to_save(&self, escrow_bag: &[u8]) -> (raw: Result<Vec<u8>, Error>)
        ensures
            raw matches Ok(raw) && is_xml(
                raw@,
                saved_record(
                    self.certs@,
                    escrow_bag@,
                    self.wifi_mac@,
                    self.host_id@,
                    self.buid@,
                ),
            ),
    {
        broadcast use crate::proplist::lemma_plain_with, crate::proplist::lemma_uid_free_with;

        assert(plain_entries(no_entries()) && uid_free_entries(no_entries()));
        let mut d: Dict = Dict::new();
        d.put("DeviceCertificate", Plist::bytes(self.certs.device_cert.as_slice()));
        d.put("HostPrivateKey", Plist::bytes(self.certs.host_key.as_slice()));
        d.put("HostCertificate", Plist::bytes(self.certs.host_cert.as_slice()));
        d.put("RootPrivateKey", Plist::bytes(self.certs.root_key.as_slice()));
        d.put("RootCertificate", Plist::bytes(self.certs.root_cert.as_slice()));
        d.put("EscrowBag", Plist::bytes(escrow_bag));
        d.put_str("WiFiMACAddress", self.wifi_mac.as_str());
        d.put_str("HostID", self.host_id.as_str());
        d.put_str("SystemBUID", self.buid.as_str());
        assert(plain_entries(d@) && uid_free_entries(d@));
        match to_xml(&Plist::dict(d)) {
            Ok(raw) => Ok(raw),
            Err(e) => Err(Error::Plist(e)),
        }
    }

    /// The pair record to keep after the reply to a request that a user confirmed.
    pub fn finish(&self, resp: &Plist) -> (raw: Result<Vec<u8>, Error>)
        ensures
            match pair_reply(resp@) {
                Ok(bag) => raw matches Ok(raw) && is_xml(
                    raw@,
                    saved_record(self.certs@, bag, self.wifi_mac@, self.host_id@, self.buid@),
                ),
                Err(e) => raw matches Err(Error::Lockdown(t)) && t@ == e,
            },
    {
        match read_pair_reply(resp) {
            Ok(bag) => self.record_to_save(bag.as_slice()),
            Err(e) => Err(e),
        }
    }

    /// The pair record to keep after the reply to the answer of a challenge.
    pub fn finish_supervised(&self, resp: &Plist) -> (raw: Result<Vec<u8>, Error>)
        ensures
            match supervised_reply(resp@) {
                Ok(bag) => raw matches Ok(raw) && is_xml(
                    raw@,
                    saved_record(self.certs@, bag, self.wifi_mac@, self.host_id@, self.buid@),
                ),
                Err(e) => raw matches Err(Error::Lockdown(t)) && t@ == e,
            },
    {
        match read_supervised_reply(resp) {
            Ok(bag) => self.record_to_save(bag.as_slice()),
            Err(e) => Err(e),
        }
    }
}

/// The pair record that is kept after a pairing reads back as the credentials of
/// that pairing.
pub proof fn lemma_saved_record_reads_back(
    raw: Seq<u8>,
    certs: CertsModel,
    escrow_bag: Seq<u8>,
    wifi_mac: Seq<char>,
    host_id: Seq<char>,
    buid: Seq<char>,
)
    requires
        is_xml(raw, saved_record(certs, escrow_bag, wifi_mac, host_id, buid)),
    ensures
        plist_parse(raw) matches Ok(t) && record_of(t) == Ok::<
            RecordModel,
            Seq<char>,
        >(
            RecordModel {
                host_id,
                system_buid: buid,
                host_certificate: certs.host_cert,
                host_private_key: certs.host_key,
                device_certificate: certs.device_cert,
                root_certificate: certs.root_cert,
            },
        ),
{
    reveal_strlit("DeviceCertificate");
    reveal_strlit("HostPrivateKey");
    reveal_strlit("HostCertificate");
    reveal_strlit("RootPrivateKey");
    reveal_strlit("RootCertificate");
    reveal_strlit("EscrowBag");
    reveal_strlit("WiFiMACAddress");
    reveal_strlit("HostID");
    reveal_strlit("SystemBUID");
    assert("DeviceCertificate"@.len() == 17);
    assert("HostPrivateKey"@.len() == 14);
    assert("HostCertificate"@.len() == 15);
    assert("RootPrivateKey"@.len() == 14);
    assert("RootCertificate"@.len() == 15);
    assert("EscrowBag"@.len() == 9);
    assert("WiFiMACAddress"@.len() == 14);
    assert("HostID"@.len() == 6);
    assert("SystemBUID"@.len() == 10);
    assert("HostPrivateKey"@[0] != "RootPrivateKey"@[0]);
    assert("HostPrivateKey"@[0] != "WiFiMACAddress"@[0]);
    assert("RootPrivateKey"@[0] != "WiFiMACAddress"@[0]);
    assert("HostCertificate"@[0] != "RootCertificate"@[0]);
    broadcast use lemma_lookup_with;

    let d = saved_record(certs, escrow_bag, wifi_mac, host_id, buid)->Dictionary_0;
    assert(d.lookup("HostID"@) == Some(Tree::String(host_id)));
    assert(d.lookup("SystemBUID"@) == Some(Tree::String(buid)));
    assert(d.lookup("HostCertificate"@) == Some(Tree::Data(certs.host_cert)));
    assert(d.lookup("HostPrivateKey"@) == Some(Tree::Data(certs.host_key)));
    assert(d.lookup("DeviceCertificate"@) == Some(Tree::Data(certs.device_cert)));
    assert(d.lookup("RootCertificate"@) == Some(Tree::Data(certs.root_cert)));
}

/// An Unpair request, with what is known of the pair record.
pub open spec fn unpair_tree(record: Option<RecordModel>) -> Tree {
    let base = no_entries().with("Label"@, Tree::String("ios-rs"@)).with(
        "Request"@,
        Tree::String("Unpair"@),
    );
    Tree::Dictionary(
        match record {
            Some(r) => base.with(
                "PairRecord"@,
                Tree::Dictionary(
                    no_entries().with("HostID"@, Tree::String(r.host_id)).with(
                        "SystemBUID"@,
                        Tree::String(r.system_buid),
                    ),
                ),
            ),
            None => base,
        },
    )
}

/// Builds an Unpair request.
pub fn unpair_request(record: Option<&PairRecord>) -> (req: Plist)
    ensures
        req@ == unpair_tree(
            match record {
                Some(r) => Some(r@),
                None => None,
            },
        ),
{
    let mut d: Dict = Dict::new();
    d.put_str("Label", "ios-rs");
    d.put_str("Request", "Unpair");
    if let Some(r) = record {
        let mut ids: Dict = Dict::new();
        ids.put_str("HostID", r.host_id.as_str());
        ids.put_str("SystemBUID", r.system_buid.as_str());
        d.put("PairRecord", Plist::dict(ids));
    }
    Plist::dict(d)
}

/// A Pair request names itself and its version, and carries a record and options.
pub proof fn lemma_pair_request_tells(record: Seq<(Seq<char>, Tree)>, options: Seq<(Seq<char>, Tree)>)
    ensures
        pair_request(record, options).text_at("Request"@) == Some("Pair"@),
        pair_request(record, options).text_at("ProtocolVersion"@) == Some("2"@),
        pair_request(record, options).text_at("Label"@) == Some("ios-rs"@),
        pair_request(record, options).at("PairRecord"@) == Some(Tree::Dictionary(record)),
        pair_request(record, options).at("PairingOptions"@) == Some(Tree::Dictionary(options)),
        pair_request(record, options)->Dictionary_0.len() == 5,
{
    broadcast use crate::entries::lemma_lookup_with;

    reveal_strlit("Label");
    reveal_strlit("ProtocolVersion");
    reveal_strlit("Request");
    reveal_strlit("PairRecord");
    reveal_strlit("PairingOptions");
    assert("Label"@.len() == 5);
    assert("ProtocolVersion"@.len() == 15);
    assert("Request"@.len() == 7);
    assert("PairRecord"@.len() == 10);
    assert("PairingOptions"@.len() == 14);
}

/// The record of a Pair request holds each certificate under its own name, the identifier
/// of the multiplexer and that of the host, and nothing else.
pub proof fn lemma_request_record_tells(certs: CertsModel, buid: Seq<char>, host_id: Seq<char>)
    ensures
        request_record(certs, buid, host_id).lookup("DeviceCertificate"@) == Some(Tree::Data(certs.device_cert)),
        request_record(certs, buid, host_id).lookup("HostCertificate"@) == Some(Tree::Data(certs.host_cert)),
        request_record(certs, buid, host_id).lookup("RootCertificate"@) == Some(Tree::Data(certs.root_cert)),
        request_record(certs, buid, host_id).lookup("SystemBUID"@) == Some(Tree::String(buid)),
        request_record(certs, buid, host_id).lookup("HostID"@) == Some(Tree::String(host_id)),
        request_record(certs, buid, host_id).len() == 5,
{
    broadcast use crate::entries::lemma_lookup_with;

    reveal_strlit("DeviceCertificate");
    reveal_strlit("HostCertificate");
    reveal_strlit("RootCertificate");
    reveal_strlit("SystemBUID");
    reveal_strlit("HostID");
    assert("DeviceCertificate"@.len() == 17);
    assert("HostCertificate"@.len() == 15);
    assert("RootCertificate"@.len() == 15);
    assert("SystemBUID"@.len() == 10);
    assert("HostID"@.len() == 6);
    assert("HostCertificate"@[0] == 'H');
    assert("RootCertificate"@[0] == 'R');
}

/// The record that is kept holds each certificate and each key under its own name, the
/// escrow bag, the address of the device and both identifiers.
pub proof fn lemma_saved_record_tells(certs: CertsModel, bag: Seq<u8>, wifi_mac: Seq<char>, host_id: Seq<char>, buid: Seq<char>)
    ensures
        ({
            let t = saved_record(certs, bag, wifi_mac, host_id, buid);
            &&& t.data_at("DeviceCertificate"@) == Some(certs.device_cert)
            &&& t.data_at("HostCertificate"@) == Some(certs.host_cert)
            &&& t.data_at("RootCertificate"@) == Some(certs.root_cert)
            &&& t.data_at("HostPrivateKey"@) == Some(certs.host_key)
            &&& t.data_at("RootPrivateKey"@) == Some(certs.root_key)
            &&& t.data_at("EscrowBag"@) == Some(bag)
            &&& t.text_at("WiFiMACAddress"@) == Some(wifi_mac)
            &&& t.text_at("HostID"@) == Some(host_id)
            &&& t.text_at("SystemBUID"@) == Some(buid)
            &&& t->Dictionary_0.len() == 9
        }),
{
    broadcast use crate::entries::lemma_lookup_with;

    reveal_strlit("DeviceCertificate");
    reveal_strlit("HostPrivateKey");
    reveal_strlit("HostCertificate");
    reveal_strlit("RootPrivateKey");
    reveal_strlit("RootCertificate");
    reveal_strlit("EscrowBag");
    reveal_strlit("WiFiMACAddress");
    reveal_strlit("HostID");
    reveal_strlit("SystemBUID");
    assert("DeviceCertificate"@.len() == 17);
    assert("HostPrivateKey"@.len() == 14);
    assert("HostCertificate"@.len() == 15);
    assert("RootPrivateKey"@.len() == 14);
    assert("RootCertificate"@.len() == 15);
    assert("EscrowBag"@.len() == 9);
    assert("WiFiMACAddress"@.len() == 14);
    assert("HostID"@.len() == 6);
    assert("SystemBUID"@.len() == 10);
    assert("HostPrivateKey"@[0] == 'H');
    assert("RootPrivateKey"@[0] == 'R');
    assert("WiFiMACAddress"@[0] == 'W');
    assert("HostCertificate"@[0] == 'H');
    assert("RootCertificate"@[0] == 'R');
}

/// What a Pair request tells the device of certificates and identifiers is what is kept of
/// them afterwards.
pub proof fn lemma_record_kept_as_requested(certs: CertsModel, bag: Seq<u8>, wifi_mac: Seq<char>, host_id: Seq<char>, buid: Seq<char>, key: Seq<char>)
    requires
        request_record(certs, buid, host_id).has_key(key),
    ensures
        saved_record(certs, bag, wifi_mac, host_id, buid).at(key) == request_record(certs, buid, host_id).lookup(key),
{
    broadcast use crate::entries::lemma_lookup_with;

    reveal_strlit("DeviceCertificate");
    reveal_strlit("HostCertificate");
    reveal_strlit("RootCertificate");
    reveal_strlit("SystemBUID");
    reveal_strlit("HostID");
    assert("DeviceCertificate"@.len() == 17);
    assert("HostCertificate"@.len() == 15);
    assert("RootCertificate"@.len() == 15);
    assert("SystemBUID"@.len() == 10);
    assert("HostID"@.len() == 6);
    assert("HostCertificate"@[0] == 'H');
    assert("RootCertificate"@[0] == 'R');
    lemma_request_record_tells(certs, buid, host_id);
    lemma_saved_record_tells(certs, bag, wifi_mac, host_id, buid);
}

/// A request that a user confirms carries no certificate of a supervisor and asks for full
/// errors; one that a supervisor makes carries the certificate, and the answer to a
/// challenge only what was signed.
pub proof fn lemma_pairing_options_tell(cert: Seq<u8>, signed: Seq<u8>)
    ensures
        plain_options().lookup("ExtendedPairingErrors"@) == Some(Tree::Boolean(true)),
        plain_options().len() == 1,
        supervised_options(cert).lookup("SupervisorCertificate"@) == Some(Tree::Data(cert)),
        supervised_options(cert).lookup("ExtendedPairingErrors"@) == Some(Tree::Boolean(true)),
        supervised_options(cert).len() == 2,
        challenge_options(signed).lookup("ChallengeResponse"@) == Some(Tree::Data(signed)),
        challenge_options(signed).len() == 1,
{
    broadcast use crate::entries::lemma_lookup_with;

    reveal_strlit("SupervisorCertificate");
    reveal_strlit("ExtendedPairingErrors");
    assert("SupervisorCertificate"@.len() == 21);
    assert("ExtendedPairingErrors"@.len() == 21);
    assert("SupervisorCertificate"@[0] == 'S');
    assert("ExtendedPairingErrors"@[0] == 'E');
}

/// A pairing succeeds exactly if the reply is a dictionary with an escrow bag and without
/// an error, and then with that bag. An error of the device is told to the user, and an
/// open dialog is told as such.
pub proof fn lemma_pair_replies(t: Tree)
    ensures
        pair_reply(t) is Ok <==> t.entries() is Some && t.text_at("Error"@) is None && t.data_at(
            "EscrowBag"@,
        ) is Some,
        pair_reply(t) is Ok ==> pair_reply(t)->Ok_0 == t.data_at("EscrowBag"@)->0,
        supervised_reply(t) is Ok <==> pair_reply(t) is Ok,
        supervised_reply(t) is Ok ==> supervised_reply(t) == pair_reply(t),
        t.text_at("Error"@) matches Some(e) ==> supervised_reply(t) == Err::<Seq<u8>, Seq<char>>(
            "supervised pair error: "@ + e,
        ),
        t.text_at("Error"@) matches Some(e) ==> (e == "PairingDialogResponsePending"@ || pair_reply(t)
            == Err::<Seq<u8>, Seq<char>>("lockdownd error: "@ + e)),
{
}

/// There is a challenge exactly if the device says that it requires one and sends it, and
/// then it is the one that was sent.
pub proof fn lemma_challenges(t: Tree)
    ensures
        pairing_challenge(t) is Ok <==> {
            &&& t.text_at("Error"@) == Some("MCChallengeRequired"@)
            &&& t.at("ExtendedResponse"@) matches Some(ext)
            &&& ext.data_at("PairingChallenge"@) is Some
        },
        pairing_challenge(t) is Ok ==> t.at("ExtendedResponse"@)->0.data_at("PairingChallenge"@) == Some(
            pairing_challenge(t)->Ok_0,
        ),
{
    reveal_strlit("MCChallengeRequired");
    reveal_strlit("");
    assert("MCChallengeRequired"@.len() == 19);
    assert(""@.len() == 0);
}

/// An Unpair request names itself, and carries both identifiers of the pair record where
/// that is known.
pub proof fn lemma_unpair_tells(record: Option<RecordModel>)
    ensures
        unpair_tree(record).text_at("Request"@) == Some("Unpair"@),
        unpair_tree(record).text_at("Label"@) == Some("ios-rs"@),
        record is None ==> unpair_tree(record).at("PairRecord"@) is None,
        record matches Some(r) ==> (unpair_tree(record).at("PairRecord"@) matches Some(ids)
            && ids.text_at("HostID"@) == Some(r.host_id) && ids.text_at("SystemBUID"@) == Some(
            r.system_buid,
        )),
{
    broadcast use crate::entries::lemma_lookup_with;

    reveal_strlit("Label");
    reveal_strlit("Request");
    reveal_strlit("PairRecord");
    reveal_strlit("HostID");
    reveal_strlit("SystemBUID");
    assert("Label"@.len() == 5);
    assert("Request"@.len() == 7);
    assert("PairRecord"@.len() == 10);
    assert("HostID"@.len() == 6);
    assert("SystemBUID"@.len() == 10);
    assert("PairRecord"@[0] == 'P');
    assert("SystemBUID"@[0] == 'S');
}

/// The certificates of a pairing are those of the root, the host and the device, in this
/// order, each valid for ten years from now; the root key signs all three, and only the
/// root may sign others. Both keys are kept.
pub proof fn lemma_root_signs_all(device_pem: Seq<u8>, root_key: Seq<u8>, host_key: Seq<u8>, now: int)
    ensures
        issued(device_pem, root_key, host_key, now) matches Ok(Some(c)) ==> {
            let until = now + 10 * 365 * 24 * 3600;
            let root = certificate_body(public_half(root_key)->Ok_0, CertKind::Root, now, until);
            let host = certificate_body(public_half(host_key)->Ok_0, CertKind::Leaf, now, until);
            let device = certificate_body(
                device_spki(device_pem)->Ok_0,
                CertKind::Leaf,
                now,
                until,
            );
            &&& signature_with(root_key, root) matches Some(s) && c.root_cert == encode_utf8(
                pem_text("CERTIFICATE"@, certificate(root, s)),
            )
            &&& signature_with(root_key, host) matches Some(s) && c.host_cert == encode_utf8(
                pem_text("CERTIFICATE"@, certificate(host, s)),
            )
            &&& signature_with(root_key, device) matches Some(s) && c.device_cert == encode_utf8(
                pem_text("CERTIFICATE"@, certificate(device, s)),
            )
            &&& key_pem(root_key) matches Ok(text) && c.root_key == encode_utf8(text)
            &&& key_pem(host_key) matches Ok(text) && c.host_key == encode_utf8(text)
        },
{
}

/// Certificates are valid for ten years of 365 days, and keys have 2048 bits.
pub proof fn lemma_terms()
    ensures
        VALIDITY == 10 * 365 * 86400,
        KEY_BITS == 2048,
{
}

/// What the replies to the two Pair requests are refused for, besides an error of the
/// device: not being dictionaries, and carrying no escrow bag. A trust dialog that waits
/// for its answer is told from other errors.
pub proof fn lemma_pair_refusals(t: Tree)
    ensures
        t.entries() is None ==> pair_reply(t)
            == Err::<Seq<u8>, Seq<char>>("Pair response not a dictionary"@)
            && supervised_reply(t)
            == Err::<Seq<u8>, Seq<char>>("second Pair response not a dictionary"@),
        t.entries() is Some && t.text_at("Error"@) == Some("PairingDialogResponsePending"@)
            ==> pair_reply(t) == Err::<Seq<u8>, Seq<char>>(
            "trust dialog open — accept 'Trust This Computer' on the device, then run 'ios pair' again"@,
        ),
        t.entries() is Some && t.text_at("Error"@) is None && t.data_at("EscrowBag"@) is None
            ==> pair_reply(t) == Err::<Seq<u8>, Seq<char>>("no EscrowBag in pair response"@)
            && supervised_reply(t)
            == Err::<Seq<u8>, Seq<char>>("no EscrowBag in supervised pair response"@),
{
}

/// What the reply to a request of a supervisor is refused for: any error but the one that
/// asks for the answer to a challenge, or none; no extended response; and a challenge that
/// is missing or is no data.
pub proof fn lemma_challenge_refusals(t: Tree, other: Seq<char>)
    ensures
        t.text_at("Error"@) == Some(other) && other != "MCChallengeRequired"@
            ==> pairing_challenge(t)
            == Err::<Seq<u8>, Seq<char>>("expected MCChallengeRequired, got: "@ + quoted(other)),
        t.text_at("Error"@) is None ==> pairing_challenge(t)
            == Err::<Seq<u8>, Seq<char>>(
            "expected MCChallengeRequired, got: "@ + quoted(Seq::empty()),
        ),
        t.text_at("Error"@) == Some("MCChallengeRequired"@) && t.at("ExtendedResponse"@) is None
            ==> pairing_challenge(t) == Err::<Seq<u8>, Seq<char>>("missing ExtendedResponse"@),
        t.text_at("Error"@) == Some("MCChallengeRequired"@) ==> match t.at("ExtendedResponse"@) {
            Some(Tree::Dictionary(ext)) => match ext.lookup("PairingChallenge"@) {
                None => pairing_challenge(t)
                    == Err::<Seq<u8>, Seq<char>>("missing PairingChallenge: None"@),
                Some(Tree::Data(d)) => pairing_challenge(t) == Ok::<Seq<u8>, Seq<char>>(d),
                Some(v) => pairing_challenge(t) == Err::<Seq<u8>, Seq<char>>(
                    "missing PairingChallenge: Some("@ + shown_tree(v) + ")"@,
                ),
            },
            _ => pairing_challenge(t) is Err,
        },
{
    reveal_strlit("");
    reveal_strlit("MCChallengeRequired");
    assert(""@ =~= Seq::<char>::empty());
    assert("MCChallengeRequired"@.len() != ""@.len());
}

/// The public key of a device is taken from data alone and its address from text alone,
/// each as it stands; any other value is refused and shown.
pub proof fn lemma_value_kinds(t: Tree, data: Seq<u8>, text: Seq<char>)
    ensures
        device_key_value(Tree::Data(data)) == Ok::<Seq<u8>, Seq<char>>(data),
        wifi_value(Tree::String(text)) == Ok::<Seq<char>, Seq<char>>(text),
        t !is Data ==> device_key_value(t)
            == Err::<Seq<u8>, Seq<char>>("DevicePublicKey unexpected type: "@ + shown_tree(t)),
        t !is String ==> wifi_value(t)
            == Err::<Seq<char>, Seq<char>>("WiFiAddress unexpected type: "@ + shown_tree(t)),
{
}

/// Certificates are made from the first key as the root and the second as the host; where a
/// key could not be made there are none, and the root is named first. A public key of the
/// device that is not text, or is no key, is refused.
pub proof fn lemma_keys_needed(
    device_pem: Seq<u8>,
    root: Seq<u8>,
    host: Result<Seq<u8>, Seq<char>>,
    why: Seq<char>,
    now: int,
)
    ensures
        issued_from(device_pem, Err(why), host, now)
            == Err::<Option<CertsModel>, Seq<char>>("root keygen: "@ + why),
        issued_from(device_pem, Ok(root), Err(why), now)
            == Err::<Option<CertsModel>, Seq<char>>("host keygen: "@ + why),
        host is Ok
            ==> issued_from(device_pem, Ok(root), host, now)
            == issued(device_pem, root, host->Ok_0, now),
        !valid_utf8(device_pem) ==> device_spki(device_pem)
            == Err::<Seq<u8>, Seq<char>>("device key not utf8"@),
        valid_utf8(device_pem) && pkcs1_pem_public(decode_utf8(device_pem))
            == Err::<Seq<u8>, Seq<char>>(why)
            ==> device_spki(device_pem)
            == Err::<Seq<u8>, Seq<char>>("parse device public key: "@ + why),
        public_half(root) == Err::<Seq<u8>, Seq<char>>(why)
            ==> own_cert(root, CertKind::Root, root, now)
            == Err::<Option<Seq<u8>>, Seq<char>>("encode spki: "@ + why),
{
}

/// The identifier of a host shows the bytes of the moment it was taken at, the lowest
/// first, as pairs of capital digits; only the marks of a random identifier stand over
/// them.
pub proof fn lemma_host_id(t: u128, raw: Seq<u8>, i: int)
    requires
        raw.len() == 16,
        le_value(raw) == t,
        0 <= i < 16,
    ensures
        ({
            let id = host_id_at(t);
            let digits = id.subrange(0, 8) + id.subrange(9, 13) + id.subrange(14, 18) + id.subrange(
                19,
                23,
            ) + id.subrange(24, 36);
            let shown = 16 * nibble(digits[2 * i]) + nibble(digits[2 * i + 1]);
            &&& id.len() == 36
            &&& id[8] == '-' && id[13] == '-' && id[18] == '-' && id[23] == '-'
            &&& i != 6 && i != 8 ==> shown == raw[i]
            &&& i == 6 ==> shown == 0x40 + raw[i] % 16
            &&& i == 8 ==> shown == 0x80 + raw[i] % 64
        }),
{
    lemma_le_value_roundtrip(raw);
    lemma_marked(raw);
    lemma_uuid_text(marked(raw), true);
    lemma_hex_digits(marked(raw), true, i);
}

} // verus!
