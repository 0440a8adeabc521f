//! The course of a pairing: verification of an old one, or setup of a new one, and
//! the encrypted stream after it.

use std::collections::HashMap;
use vstd::prelude::*;
use vstd::utf8::{encode_utf8, is_ascii_chars};
use crate::bytes::{
    bits_of_i64, copy_bytes, i64_bits, i64_from_bits, i64_of_bits, le_bytes, put_le, put_slice,
    put_zeros, zeros,
};
use crate::entries::Entries;
use crate::proplist::{no_entries, Dict, Plist, Tree};
use crate::text::{join2, lossy, own, str_bytes, utf8_text_lossy};
use crate::tunnel::error::Error;
use crate::uuid::{hex_byte, hex_text, marked};
use super::credentials::{
    fresh_record, hex_encode, is_fresh, key_readable, lemma_fresh_key, seed_of, RecordModel, RemotePairingRecord,
};
use super::crypto::{
    chacha_open, chacha_opened, chacha_seal, chacha_sealed, ed25519_public, ed25519_sign,
    ed25519_signature, ed25519_verifying_key, hkdf, hkdf_key, random_bytes, srp_process, srp_public,
    srp_public_value, srp_reply, srp_server_fault, srp_verify, x25519, x25519_product,
};
use super::messages::{
    byte_list, hex_list, pairing_data, pairing_message, pairing_tree, show_byte, shown_byte,
};
use super::tlv8;
use super::tlv8::{decoded, encoded, first_byte};

verus! {

/// The name under which an SRP client speaks.
pub const SRP_USERNAME: &'static str = "Pair-Setup";

/// The password of a pairing that the user confirms on the device.
pub const SRP_PIN: &'static str = "000000";

/// The size of a derived key.
pub const KEY_SIZE: usize = 32;

/// The bytes of a text.
pub open spec fn raw(s: Seq<char>) -> Seq<u8> {
    encode_utf8(s)
}

/// The X25519 base point.
pub open spec fn base_point() -> Seq<u8> {
    seq![9u8] + zeros(31)
}

/// The public X25519 key of a secret.
pub open spec fn public_point(secret: Seq<u8>) -> Seq<u8> {
    x25519_product(secret, base_point())
}

/// The nonce of a handshake message: its name and four zeros.
pub open spec fn named_nonce(name: Seq<char>) -> Seq<u8> {
    raw(name) + zeros(4)
}

/// The nonce of a message of the stream: its number, and four zeros.
pub open spec fn stream_nonce(seq: u64) -> Seq<u8> {
    le_bytes(seq as nat, 8) + zeros(4)
}

/// No two messages of the stream have the same nonce.
pub proof fn lemma_nonces_differ(a: u64, b: u64)
    requires
        a != b,
    ensures
        stream_nonce(a) != stream_nonce(b),
{
    broadcast use crate::bytes::lemma_le_bytes_len;

    crate::bytes::lemma_byte_ranges();
    crate::bytes::lemma_le_roundtrip(a as nat, 8);
    crate::bytes::lemma_le_roundtrip(b as nat, 8);
    assert(stream_nonce(a).take(8) =~= le_bytes(a as nat, 8));
    assert(stream_nonce(b).take(8) =~= le_bytes(b as nat, 8));
}

/// A text that can be sealed, sealed; or why it cannot.
pub open spec fn sealed(key: Seq<u8>, nonce: Seq<u8>, plain: Seq<u8>) -> Result<
    Seq<u8>,
    Seq<char>,
> {
    if plain.len() / 64 < 0xffff_ffff {
        Ok(chacha_sealed(key, nonce, plain))
    } else {
        Err("ChaCha encrypt: aead::Error"@)
    }
}

/// The text in a sealed message, or why it cannot be opened.
pub open spec fn opened(key: Seq<u8>, nonce: Seq<u8>, cipher: Seq<u8>) -> Result<
    Seq<u8>,
    Seq<char>,
> {
    match chacha_opened(key, nonce, cipher) {
        Some(p) => Ok(p),
        None => Err("ChaCha decrypt: aead::Error"@),
    }
}

fn refuse<T>(text: String) -> (out: Result<T, Error>)
    ensures
        out matches Err(Error::Protocol(t)) && t@ == text@,
{
    Err(Error::Protocol(text))
}

/// Whether a result in bytes is what is due.
pub open spec fn bytes_due(got: Result<Vec<u8>, Error>, due: Result<Seq<u8>, Seq<char>>) -> bool {
    match due {
        Ok(d) => got matches Ok(v) && v@ == d,
        Err(e) => got matches Err(Error::Protocol(t)) && t@ == e,
    }
}

fn seal(key: &[u8], nonce: &[u8], plain: &[u8]) -> (cipher: Result<Vec<u8>, Error>)
    requires
        key@.len() == 32,
        nonce@.len() == 12,
    ensures
        bytes_due(cipher, sealed(key@, nonce@, plain@)),
        cipher matches Ok(c) ==> chacha_opened(key@, nonce@, c@) == Some(plain@),
{
    match chacha_seal(key, nonce, plain) {
        Some(c) => Ok(c),
        None => refuse(own("ChaCha encrypt: aead::Error")),
    }
}

fn open(key: &[u8], nonce: &[u8], cipher: &[u8]) -> (plain: Result<Vec<u8>, Error>)
    requires
        key@.len() == 32,
        nonce@.len() == 12,
    ensures
        bytes_due(plain, opened(key@, nonce@, cipher@)),
{
    match chacha_open(key, nonce, cipher) {
        Some(p) => Ok(p),
        None => refuse(own("ChaCha decrypt: aead::Error")),
    }
}

/// A key derived from a secret, with a salt or, where that is empty, without.
pub open spec fn derived(secret: Seq<u8>, salt: Seq<char>, info: Seq<char>) -> Seq<u8> {
    hkdf_key(
        if salt.len() == 0 {
            None
        } else {
            Some(raw(salt))
        },
        secret,
        raw(info),
        KEY_SIZE,
    )
}

fn derive(secret: &[u8], salt: &str, info: &str) -> (key: Vec<u8>)
    ensures
        key@ == derived(secret@, salt@, info@),
        key@.len() == 32,
{
    let info_bytes: Vec<u8> = str_bytes(info);
    if salt.is_empty() {
        hkdf(None, secret, info_bytes.as_slice(), KEY_SIZE)
    } else {
        let salt_bytes: Vec<u8> = str_bytes(salt);
        hkdf(Some(salt_bytes.as_slice()), secret, info_bytes.as_slice(), KEY_SIZE)
    }
}

fn handshake_nonce(name: &str) -> (nonce: Vec<u8>)
    requires
        is_ascii_chars(name@),
        name@.len() == 8,
    ensures
        nonce@ == named_nonce(name@),
        nonce@.len() == 12,
{
    proof {
        vstd::utf8::is_ascii_chars_encode_utf8(name@);
    }
    let mut out: Vec<u8> = str_bytes(name);
    put_zeros(&mut out, 4);
    out
}

fn enc_nonce(seq: u64) -> (nonce: Vec<u8>)
    ensures
        nonce@ == stream_nonce(seq),
        nonce@.len() == 12,
{
    broadcast use crate::bytes::lemma_le_bytes_len;

    let mut out: Vec<u8> = Vec::new();
    put_le(&mut out, seq, 8);
    put_zeros(&mut out, 4);
    assert(out@ =~= stream_nonce(seq));
    out
}

fn public_key(secret: &[u8]) -> (key: Vec<u8>)
    requires
        secret@.len() == 32,
    ensures
        key@ == public_point(secret@),
        key@.len() == 32,
{
    let mut base: Vec<u8> = Vec::new();
    base.push(9);
    put_zeros(&mut base, 31);
    assert(base@ =~= base_point());
    x25519(secret, base.as_slice())
}

fn one(b: u8) -> (v: Vec<u8>)
    ensures
        v@ == seq![b],
{
    let v: Vec<u8> = vec![b];
    assert(v@ =~= seq![b]);
    v
}

fn tlv2(t1: u8, v1: &[u8], t2: u8, v2: &[u8]) -> (out: Vec<u8>)
    ensures
        out@ == encoded(seq![(t1, v1@), (t2, v2@)]),
{
    let parts: Vec<(u8, &[u8])> = vec![(t1, v1), (t2, v2)];
    assert(tlv8::entry_views(parts@) =~= seq![(t1, v1@), (t2, v2@)]);
    tlv8::encode(parts.as_slice())
}

fn tlv3(t1: u8, v1: &[u8], t2: u8, v2: &[u8], t3: u8, v3: &[u8]) -> (out: Vec<u8>)
    ensures
        out@ == encoded(seq![(t1, v1@), (t2, v2@), (t3, v3@)]),
{
    let parts: Vec<(u8, &[u8])> = vec![(t1, v1), (t2, v2), (t3, v3)];
    assert(tlv8::entry_views(parts@) =~= seq![(t1, v1@), (t2, v2@), (t3, v3@)]);
    tlv8::encode(parts.as_slice())
}

/// The complaint of the device in a step, if there is one.
pub open spec fn device_complaint(m: Map<u8, Seq<u8>>, what: Seq<char>) -> Option<Seq<char>> {
    if m.contains_key(tlv8::ERROR) {
        Some(what + hex_list(m[tlv8::ERROR]))
    } else {
        None
    }
}

fn check_complaint(m: &HashMap<u8, Vec<u8>>, what: &str) -> (ok: Result<(), Error>)
    ensures
        match device_complaint(tlv8::contents(m@), what@) {
            Some(text) => ok matches Err(Error::Protocol(t)) && t@ == text,
            None => ok matches Ok(()),
        },
{
    match tlv8::find(m, tlv8::ERROR) {
        Some(e) => refuse(join2(what, byte_list(e.as_slice()).as_str())),
        None => Ok(()),
    }
}

/// A value in a step of the device, or that it is missing.
pub open spec fn needed(m: Map<u8, Seq<u8>>, typ: u8, complaint: Seq<char>) -> Result<
    Seq<u8>,
    Seq<char>,
> {
    if m.contains_key(typ) {
        Ok(m[typ])
    } else {
        Err(complaint)
    }
}

fn need(m: &HashMap<u8, Vec<u8>>, typ: u8, complaint: &str) -> (value: Result<Vec<u8>, Error>)
    ensures
        bytes_due(value, needed(tlv8::contents(m@), typ, complaint@)),
{
    match tlv8::find(m, typ) {
        Some(v) => Ok(copy_bytes(v.as_slice())),
        None => refuse(own(complaint)),
    }
}

// Verification of an old pairing.

/// The first step of a verification.
pub open spec fn verify_start_tree(secret: Seq<u8>) -> Tree {
    pairing_tree(
        "verifyManualPairing"@,
        true,
        encoded(
            seq![(tlv8::STATE, seq![0x01u8]), (tlv8::PUBLIC_KEY, public_point(secret))],
        ),
    )
}

/// Starts the verification of a pairing with a secret of 32 bytes.
pub fn verify_start(secret: &[u8]) -> (msg: Plist)
    requires
        secret@.len() == 32,
    ensures
        msg@ == verify_start_tree(secret@),
{
    let data: Vec<u8> = tlv2(
        tlv8::STATE,
        one(0x01).as_slice(),
        tlv8::PUBLIC_KEY,
        public_key(secret).as_slice(),
    );
    pairing_message("verifyManualPairing", true, data.as_slice())
}

/// The key of the device in its first step, or why it cannot be used.
pub open spec fn device_point(data: Seq<u8>) -> Result<Seq<u8>, Seq<char>> {
    match needed(decoded(data), tlv8::PUBLIC_KEY, "pair-verify: no PUBLIC_KEY"@) {
        Err(e) => Err(e),
        Ok(b) => if b.len() == 32 {
            Ok(b)
        } else {
            Err("pair-verify: bad key len"@)
        },
    }
}

/// The signed proof that the host is the one that paired.
pub open spec fn verify_proof(
    seed: Seq<u8>,
    identifier: Seq<char>,
    secret: Seq<u8>,
    device: Seq<u8>,
) -> Seq<u8> {
    encoded(
        seq![
            (tlv8::IDENTIFIER, raw(identifier)),
            (
                tlv8::SIGNATURE,
                ed25519_signature(seed, public_point(secret) + raw(identifier) + device),
            ),
        ],
    )
}

/// The second step of a verification with a given proof.
pub open spec fn verify_answer_tree(cipher: Seq<u8>) -> Tree {
    pairing_tree(
        "verifyManualPairing"@,
        false,
        encoded(seq![(tlv8::STATE, seq![0x03u8]), (tlv8::ENCRYPTED_DATA, cipher)]),
    )
}

/// The second step of a verification and the secret that both sides share, or why
/// the verification fails.
pub open spec fn verify_answer_due(record: RecordModel, secret: Seq<u8>, data: Seq<u8>) -> Result<
    (Tree, Seq<u8>),
    Seq<char>,
> {
    match device_point(data) {
        Err(e) => Err(e),
        Ok(device) => {
            let shared = x25519_product(secret, device);
            match seed_of(record.signing_key) {
                Err(e) => Err(e),
                Ok(seed) => match sealed(
                    derived(shared, "Pair-Verify-Encrypt-Salt"@, "Pair-Verify-Encrypt-Info"@),
                    named_nonce("PV-Msg03"@),
                    verify_proof(seed, record.identifier, secret, device),
                ) {
                    Err(e) => Err(e),
                    Ok(cipher) => Ok((verify_answer_tree(cipher), shared)),
                },
            }
        },
    }
}

fn read_device_point(data: &[u8]) -> (point: Result<Vec<u8>, Error>)
    ensures
        bytes_due(point, device_point(data@)),
        point matches Ok(p) ==> p@.len() == 32,
{
    let m: HashMap<u8, Vec<u8>> = tlv8::decode(data);
    match need(&m, tlv8::PUBLIC_KEY, "pair-verify: no PUBLIC_KEY") {
        Err(e) => Err(e),
        Ok(b) => if b.len() == 32 {
            Ok(b)
        } else {
            refuse(own("pair-verify: bad key len"))
        },
    }
}

fn make_verify_proof(seed: &[u8], identifier: &str, secret: &[u8], device: &[u8]) -> (inner: Vec<
    u8,
>)
    requires
        seed@.len() == 32,
        secret@.len() == 32,
    ensures
        inner@ == verify_proof(seed@, identifier@, secret@, device@),
{
    let id: Vec<u8> = str_bytes(identifier);
    let mut message: Vec<u8> = public_key(secret);
    put_slice(&mut message, id.as_slice());
    put_slice(&mut message, device);
    let signature: Vec<u8> = ed25519_sign(seed, message.as_slice());
    tlv2(tlv8::IDENTIFIER, id.as_slice(), tlv8::SIGNATURE, signature.as_slice())
}

/// Answers the first step of the device. Returns the second step of the host, and the
/// secret that both sides share.
pub fn verify_answer(record: &RemotePairingRecord, secret: &[u8], data: &[u8]) -> (got: Result<
    (Plist, Vec<u8>),
    Error,
>)
    requires
        secret@.len() == 32,
        key_readable(record@.signing_key),
    ensures
        match verify_answer_due(record@, secret@, data@) {
            Ok((tree, shared)) => got matches Ok((msg, s)) && msg@ == tree && s@ == shared,
            Err(e) => got matches Err(Error::Protocol(t)) && t@ == e,
        },
{
    let device: Vec<u8> = match read_device_point(data) {
        Ok(p) => p,
        Err(e) => {
            return Err(e);
        },
    };
    let shared: Vec<u8> = x25519(secret, device.as_slice());
    let key: Vec<u8> = derive(
        shared.as_slice(),
        "Pair-Verify-Encrypt-Salt",
        "Pair-Verify-Encrypt-Info",
    );
    let seed: Vec<u8> = match record.signing_key() {
        Ok(s) => s,
        Err(e) => {
            return Err(e);
        },
    };
    let inner: Vec<u8> = make_verify_proof(
        seed.as_slice(),
        record.our.identifier.as_str(),
        secret,
        device.as_slice(),
    );
    proof {
        reveal_strlit("PV-Msg03");
    }
    let nonce: Vec<u8> = handshake_nonce("PV-Msg03");
    match seal(key.as_slice(), nonce.as_slice(), inner.as_slice()) {
        Err(e) => Err(e),
        Ok(cipher) => {
            let answer: Vec<u8> = tlv2(
                tlv8::STATE,
                one(0x03).as_slice(),
                tlv8::ENCRYPTED_DATA,
                cipher.as_slice(),
            );
            Ok((pairing_message("verifyManualPairing", false, answer.as_slice()), shared))
        },
    }
}

/// Why the device does not accept a verification, if it does not.
pub open spec fn verify_refusal(data: Seq<u8>) -> Option<Seq<char>> {
    let m = decoded(data);
    match device_complaint(m, "pair-verify: device error "@) {
        Some(text) => Some(text),
        None => if first_byte(m, tlv8::STATE) == Some(0x04u8) {
            None
        } else {
            Some("pair-verify: bad state "@ + shown_byte(first_byte(m, tlv8::STATE)))
        },
    }
}

fn check_verified(data: &[u8]) -> (ok: Result<(), Error>)
    ensures
        match verify_refusal(data@) {
            Some(text) => ok matches Err(Error::Protocol(t)) && t@ == text,
            None => ok matches Ok(()),
        },
{
    let m: HashMap<u8, Vec<u8>> = tlv8::decode(data);
    match check_complaint(&m, "pair-verify: device error ") {
        Err(e) => {
            return Err(e);
        },
        Ok(()) => {},
    }
    let state: Option<u8> = tlv8::get_u8(&m, tlv8::STATE);
    match state {
        Some(s) => if s == 0x04 {
            Ok(())
        } else {
            refuse(join2("pair-verify: bad state ", show_byte(state).as_str()))
        },
        None => refuse(join2("pair-verify: bad state ", show_byte(state).as_str())),
    }
}

// Setup of a new pairing.

/// The first step of a setup.
pub open spec fn setup_start_tree() -> Tree {
    pairing_tree(
        "setupManualPairing"@,
        true,
        encoded(seq![(tlv8::METHOD, seq![0x00u8]), (tlv8::STATE, seq![0x01u8])]),
    )
}

/// Starts the setup of a pairing.
pub fn setup_start() -> (msg: Plist)
    ensures
        msg@ == setup_start_tree(),
{
    let data: Vec<u8> = tlv2(
        tlv8::METHOD,
        one(0x00).as_slice(),
        tlv8::STATE,
        one(0x01).as_slice(),
    );
    pairing_message("setupManualPairing", true, data.as_slice())
}

/// What the device offers in its first step, or why it cannot be used.
pub open spec fn srp_offer(data: Seq<u8>) -> Result<(Seq<u8>, Seq<u8>), Seq<char>> {
    let m = decoded(data);
    match device_complaint(m, "SRP start error: "@) {
        Some(text) => Err(text),
        None => match needed(m, tlv8::SALT, "SRP: no SALT"@) {
            Err(e) => Err(e),
            Ok(salt) => match needed(m, tlv8::PUBLIC_KEY, "SRP: no PUBLIC_KEY"@) {
                Err(e) => Err(e),
                Ok(server) => Ok((salt, server)),
            },
        },
    }
}

/// The proof and the key of an exchange with given values.
pub open spec fn srp_result(secret: Seq<u8>, salt: Seq<u8>, server: Seq<u8>) -> Result<
    (Seq<u8>, Seq<u8>),
    Seq<char>,
> {
    match srp_reply(secret, raw(SRP_USERNAME@), raw(SRP_PIN@), salt, server) {
        Ok(r) => Ok(r),
        Err(e) => Err("SRP compute: "@ + e),
    }
}

/// The second step of a setup with a given proof.
pub open spec fn srp_proof_tree(public: Seq<u8>, proof_bytes: Seq<u8>) -> Tree {
    pairing_tree(
        "setupManualPairing"@,
        false,
        encoded(
            seq![
                (tlv8::STATE, seq![0x03u8]),
                (tlv8::PUBLIC_KEY, public),
                (tlv8::PROOF, proof_bytes),
            ],
        ),
    )
}

/// An exchange on its way.
#[derive(Debug)]
pub struct SrpExchange {
    pub secret: Vec<u8>,
    pub salt: Vec<u8>,
    pub server: Vec<u8>,
    pub key: Vec<u8>,
}

/// What an exchange holds.
#[verifier::ext_equal]
pub struct ExchangeModel {
    pub secret: Seq<u8>,
    pub salt: Seq<u8>,
    pub server: Seq<u8>,
    pub key: Seq<u8>,
}

impl View for SrpExchange {
    type V = ExchangeModel;

    open spec fn view(&self) -> ExchangeModel {
        ExchangeModel {
            secret: self.secret@,
            salt: self.salt@,
            server: self.server@,
            key: self.key@,
        }
    }
}

/// The second step of a setup and the exchange, or why the setup fails.
pub open spec fn srp_prove_due(secret: Seq<u8>, data: Seq<u8>) -> Result<
    (Tree, ExchangeModel),
    Seq<char>,
> {
    match srp_offer(data) {
        Err(e) => Err(e),
        Ok((salt, server)) => match srp_result(secret, salt, server) {
            Err(e) => Err(e),
            Ok((proof_bytes, key)) => Ok(
                (
                    srp_proof_tree(srp_public(secret), proof_bytes),
                    ExchangeModel { secret, salt, server, key },
                ),
            ),
        },
    }
}

fn read_offer(data: &[u8]) -> (offer: Result<(Vec<u8>, Vec<u8>), Error>)
    ensures
        match srp_offer(data@) {
            Ok((salt, server)) => offer matches Ok((a, b)) && a@ == salt && b@ == server,
            Err(e) => offer matches Err(Error::Protocol(t)) && t@ == e,
        },
{
    let m: HashMap<u8, Vec<u8>> = tlv8::decode(data);
    match check_complaint(&m, "SRP start error: ") {
        Err(e) => {
            return Err(e);
        },
        Ok(()) => {},
    }
    let salt: Vec<u8> = match need(&m, tlv8::SALT, "SRP: no SALT") {
        Ok(v) => v,
        Err(e) => {
            return Err(e);
        },
    };
    match need(&m, tlv8::PUBLIC_KEY, "SRP: no PUBLIC_KEY") {
        Ok(server) => Ok((salt, server)),
        Err(e) => Err(e),
    }
}

/// Proves to the device that the host knows the password, with a given secret.
pub fn srp_prove(secret: &[u8], data: &[u8]) -> (got: Result<(Plist, SrpExchange), Error>)
    ensures
        match srp_prove_due(secret@, data@) {
            Ok((tree, exchange)) => got matches Ok((msg, x)) && msg@ == tree && x@ == exchange,
            Err(e) => got matches Err(Error::Protocol(t)) && t@ == e,
        },
{
    let (salt, server) = match read_offer(data) {
        Ok(o) => o,
        Err(e) => {
            return Err(e);
        },
    };
    let username: Vec<u8> = str_bytes(SRP_USERNAME);
    let pin: Vec<u8> = str_bytes(SRP_PIN);
    match srp_process(
        secret,
        username.as_slice(),
        pin.as_slice(),
        salt.as_slice(),
        server.as_slice(),
    ) {
        Err(e) => refuse(join2("SRP compute: ", e.as_str())),
        Ok((proof_bytes, key)) => {
            let answer: Vec<u8> = tlv3(
                tlv8::STATE,
                one(0x03).as_slice(),
                tlv8::PUBLIC_KEY,
                srp_public_value(secret).as_slice(),
                tlv8::PROOF,
                proof_bytes.as_slice(),
            );
            let msg: Plist = pairing_message("setupManualPairing", false, answer.as_slice());
            Ok((msg, SrpExchange { secret: copy_bytes(secret), salt, server, key }))
        },
    }
}

/// Why the proof of the device does not hold, if it does not.
pub open spec fn srp_refusal(x: ExchangeModel, data: Seq<u8>) -> Option<Seq<char>> {
    let m = decoded(data);
    match device_complaint(m, "SRP proof error: "@) {
        Some(text) => Some(text),
        None => match needed(m, tlv8::PROOF, "SRP: no server PROOF"@) {
            Err(e) => Some(e),
            Ok(p) => match srp_server_fault(
                x.secret,
                raw(SRP_USERNAME@),
                raw(SRP_PIN@),
                x.salt,
                x.server,
                p,
            ) {
                Some(e) => Some("SRP server proof: "@ + e),
                None => None,
            },
        },
    }
}

fn check_server(x: &SrpExchange, data: &[u8]) -> (ok: Result<(), Error>)
    ensures
        match srp_refusal(x@, data@) {
            Some(text) => ok matches Err(Error::Protocol(t)) && t@ == text,
            None => ok matches Ok(()),
        },
{
    let m: HashMap<u8, Vec<u8>> = tlv8::decode(data);
    match check_complaint(&m, "SRP proof error: ") {
        Err(e) => {
            return Err(e);
        },
        Ok(()) => {},
    }
    let server_proof: Vec<u8> = match need(&m, tlv8::PROOF, "SRP: no server PROOF") {
        Ok(v) => v,
        Err(e) => {
            return Err(e);
        },
    };
    let username: Vec<u8> = str_bytes(SRP_USERNAME);
    let pin: Vec<u8> = str_bytes(SRP_PIN);
    match srp_verify(
        x.secret.as_slice(),
        username.as_slice(),
        pin.as_slice(),
        x.salt.as_slice(),
        x.server.as_slice(),
        server_proof.as_slice(),
    ) {
        Some(e) => refuse(join2("SRP server proof: ", e.as_str())),
        None => Ok(()),
    }
}

/// The key under which identities are exchanged.
pub open spec fn setup_key(session_key: Seq<u8>) -> Seq<u8> {
    derived(session_key, "Pair-Setup-Encrypt-Salt"@, "Pair-Setup-Encrypt-Info"@)
}

/// The signed identity of the host.
pub open spec fn identity_proof(seed: Seq<u8>, identifier: Seq<char>, session_key: Seq<u8>) -> Seq<
    u8,
> {
    let public = ed25519_public(seed);
    let controller = derived(
        session_key,
        "Pair-Setup-Controller-Sign-Salt"@,
        "Pair-Setup-Controller-Sign-Info"@,
    );
    encoded(
        seq![
            (tlv8::IDENTIFIER, raw(identifier)),
            (tlv8::PUBLIC_KEY, public),
            (tlv8::SIGNATURE, ed25519_signature(seed, controller + raw(identifier) + public)),
        ],
    )
}

/// The third step of a setup with a given identity.
pub open spec fn identity_tree(cipher: Seq<u8>) -> Tree {
    pairing_tree(
        "setupManualPairing"@,
        false,
        encoded(seq![(tlv8::STATE, seq![0x05u8]), (tlv8::ENCRYPTED_DATA, cipher)]),
    )
}

/// The third step of a setup for a record, or why the setup fails.
pub open spec fn identify_due(x: ExchangeModel, record: RecordModel, data: Seq<u8>) -> Result<
    Tree,
    Seq<char>,
> {
    match srp_refusal(x, data) {
        Some(e) => Err(e),
        None => match seed_of(record.signing_key) {
            Err(e) => Err(e),
            Ok(seed) => match sealed(
                setup_key(x.key),
                named_nonce("PS-Msg05"@),
                identity_proof(seed, record.identifier, x.key),
            ) {
                Err(e) => Err(e),
                Ok(cipher) => Ok(identity_tree(cipher)),
            },
        },
    }
}

fn make_setup_key(session_key: &[u8]) -> (key: Vec<u8>)
    ensures
        key@ == setup_key(session_key@),
        key@.len() == 32,
{
    derive(session_key, "Pair-Setup-Encrypt-Salt", "Pair-Setup-Encrypt-Info")
}

fn make_identity_proof(seed: &[u8], identifier: &str, session_key: &[u8]) -> (inner: Vec<u8>)
    requires
        seed@.len() == 32,
    ensures
        inner@ == identity_proof(seed@, identifier@, session_key@),
{
    let id: Vec<u8> = str_bytes(identifier);
    let public: Vec<u8> = ed25519_verifying_key(seed);
    let mut message: Vec<u8> = derive(
        session_key,
        "Pair-Setup-Controller-Sign-Salt",
        "Pair-Setup-Controller-Sign-Info",
    );
    put_slice(&mut message, id.as_slice());
    put_slice(&mut message, public.as_slice());
    let signature: Vec<u8> = ed25519_sign(seed, message.as_slice());
    tlv3(
        tlv8::IDENTIFIER,
        id.as_slice(),
        tlv8::PUBLIC_KEY,
        public.as_slice(),
        tlv8::SIGNATURE,
        signature.as_slice(),
    )
}

/// Checks the proof of the device, and tells it the identity of the host.
pub fn identify(x: &SrpExchange, record: &RemotePairingRecord, data: &[u8]) -> (msg: Result<
    Plist,
    Error,
>)
    requires
        key_readable(record@.signing_key),
    ensures
        match identify_due(x@, record@, data@) {
            Ok(tree) => msg matches Ok(p) && p@ == tree,
            Err(e) => msg matches Err(Error::Protocol(t)) && t@ == e,
        },
{
    match check_server(x, data) {
        Err(e) => {
            return Err(e);
        },
        Ok(()) => {},
    }
    let key: Vec<u8> = make_setup_key(x.key.as_slice());
    let seed: Vec<u8> = match record.signing_key() {
        Ok(s) => s,
        Err(e) => {
            return Err(e);
        },
    };
    let inner: Vec<u8> = make_identity_proof(
        seed.as_slice(),
        record.our.identifier.as_str(),
        x.key.as_slice(),
    );
    proof {
        reveal_strlit("PS-Msg05");
    }
    let nonce: Vec<u8> = handshake_nonce("PS-Msg05");
    match seal(key.as_slice(), nonce.as_slice(), inner.as_slice()) {
        Err(e) => Err(e),
        Ok(cipher) => {
            let answer: Vec<u8> = tlv2(
                tlv8::STATE,
                one(0x05).as_slice(),
                tlv8::ENCRYPTED_DATA,
                cipher.as_slice(),
            );
            Ok(pairing_message("setupManualPairing", false, answer.as_slice()))
        },
    }
}

/// A record with what the device tells of itself.
pub open spec fn with_peer(record: RecordModel, m: Map<u8, Seq<u8>>) -> RecordModel {
    RecordModel {
        peer_identifier: if m.contains_key(tlv8::IDENTIFIER) {
            lossy(m[tlv8::IDENTIFIER])
        } else {
            record.peer_identifier
        },
        peer_public_key: if m.contains_key(tlv8::PUBLIC_KEY) {
            hex_text(m[tlv8::PUBLIC_KEY], false)
        } else {
            record.peer_public_key
        },
        ..record
    }
}

/// The record of a finished setup, or why the setup fails. What the device tells of
/// itself counts where it can be opened.
pub open spec fn setup_due(x: ExchangeModel, record: RecordModel, data: Seq<u8>) -> Result<
    RecordModel,
    Seq<char>,
> {
    let m = decoded(data);
    match device_complaint(m, "SRP identity error: "@) {
        Some(text) => Err(text),
        None => Ok(
            if m.contains_key(tlv8::ENCRYPTED_DATA) {
                match chacha_opened(
                    setup_key(x.key),
                    named_nonce("PS-Msg06"@),
                    m[tlv8::ENCRYPTED_DATA],
                ) {
                    Some(p) => with_peer(record, decoded(p)),
                    None => record,
                }
            } else {
                record
            },
        ),
    }
}

fn add_peer(record: RemotePairingRecord, plain: &[u8]) -> (r: RemotePairingRecord)
    ensures
        r@ == with_peer(record@, decoded(plain@)),
{
    let mut r: RemotePairingRecord = record;
    let m: HashMap<u8, Vec<u8>> = tlv8::decode(plain);
    if let Some(id) = tlv8::find(&m, tlv8::IDENTIFIER) {
        r.peer.peer_identifier = utf8_text_lossy(id.as_slice());
    }
    if let Some(pk) = tlv8::find(&m, tlv8::PUBLIC_KEY) {
        r.peer.peer_public_key = hex_encode(pk.as_slice());
    }
    r
}

fn finish_record(x: &SrpExchange, record: RemotePairingRecord, data: &[u8]) -> (got: Result<
    RemotePairingRecord,
    Error,
>)
    ensures
        match setup_due(x@, record@, data@) {
            Ok(model) => got matches Ok(r) && r@ == model,
            Err(e) => got matches Err(Error::Protocol(t)) && t@ == e,
        },
{
    let m: HashMap<u8, Vec<u8>> = tlv8::decode(data);
    match check_complaint(&m, "SRP identity error: ") {
        Err(e) => {
            return Err(e);
        },
        Ok(()) => {},
    }
    match tlv8::find(&m, tlv8::ENCRYPTED_DATA) {
        None => Ok(record),
        Some(cipher) => {
            let key: Vec<u8> = make_setup_key(x.key.as_slice());
            proof {
                reveal_strlit("PS-Msg06");
            }
            let nonce: Vec<u8> = handshake_nonce("PS-Msg06");
            match chacha_open(key.as_slice(), nonce.as_slice(), cipher.as_slice()) {
                Some(plain) => Ok(add_peer(record, plain.as_slice())),
                None => Ok(record),
            }
        },
    }
}

// The session.

/// The two keys of the stream.
pub open spec fn stream_keys(secret: Seq<u8>) -> (Seq<u8>, Seq<u8>) {
    (derived(secret, ""@, "ClientEncrypt-main"@), derived(secret, ""@, "ServerEncrypt-main"@))
}

/// A pairing and, once it stands, the keys of the stream.
#[derive(Debug)]
pub struct RemotePairingSession {
    record: RemotePairingRecord,
    keys: Option<(Vec<u8>, Vec<u8>)>,
    enc_seq: u64,
}

/// A message of the stream.
pub open spec fn stream_tree(cipher: Seq<u8>, seq: u64) -> Tree {
    Tree::Dictionary(
        no_entries().with(
            "message"@,
            Tree::Dictionary(
                no_entries().with(
                    "streamEncrypted"@,
                    Tree::Dictionary(no_entries().with("_0"@, Tree::Data(cipher))),
                ),
            ),
        ).with("originatedBy"@, Tree::String("host"@)).with(
            "sequenceNumber"@,
            Tree::Integer(i64_of_bits(seq as nat) as int),
        ),
    )
}

/// The cipher text of a message of the stream, if it has one.
pub open spec fn cipher_in(t: Tree) -> Option<Seq<u8>> {
    match t.at("message"@) {
        Some(a) => match a.at("streamEncrypted"@) {
            Some(b) => b.data_at("_0"@),
            None => None,
        },
        None => None,
    }
}

/// The number of an answer: that of the request where it states none.
pub open spec fn answer_number(t: Tree, seq: u64) -> u64 {
    match t.at("sequenceNumber"@) {
        Some(v) => match v.signed() {
            Some(n) => i64_bits(n) as u64,
            None => seq,
        },
        None => seq,
    }
}

/// The text of an answer under a key, or why it cannot be read.
pub open spec fn answer_due(server_key: Seq<u8>, t: Tree, seq: u64) -> Result<
    Seq<u8>,
    Seq<char>,
> {
    if t.entries() is None {
        Err("encrypted response: not a dict"@)
    } else {
        match cipher_in(t) {
            None => Err("encrypted response: no ciphertext data"@),
            Some(c) => opened(server_key, stream_nonce(answer_number(t, seq)), c),
        }
    }
}

fn find_cipher(msg: &Plist) -> (c: Option<&[u8]>)
    ensures
        match c {
            Some(b) => cipher_in(msg@) == Some(b@),
            None => cipher_in(msg@) is None,
        },
{
    match msg.at("message") {
        Some(a) => match a.at("streamEncrypted") {
            Some(b) => b.data_at("_0"),
            None => None,
        },
        None => None,
    }
}

/// What a host does next on its way to a pairing.
#[derive(Debug, Clone, Copy, PartialEq, Eq, Structural)]
pub enum PairStep {
    Verify,
    SetUp,
    Done,
}

/// The step of a host that has an old pairing or none, given whether its verification
/// went well if there was one: a pairing that does not verify is set up anew.
pub open spec fn step_due(has_credentials: bool, verified: Option<bool>) -> PairStep {
    if !has_credentials || verified == Some(false) {
        PairStep::SetUp
    } else if verified == Some(true) {
        PairStep::Done
    } else {
        PairStep::Verify
    }
}

/// Whether a session, from one state to the next, puts a text into the stream as a message
/// under the number of those before it, such that the device can open it with the key of
/// the host; without keys, or where the text cannot be sealed, there is no message.
pub open spec fn put_into_stream(
    before: RemotePairingSession,
    after: RemotePairingSession,
    plain: Seq<u8>,
    msg: Result<(Plist, u64), Error>,
) -> bool {
    &&& after.pairing() == before.pairing()
    &&& after.stream() == before.stream()
    &&& match before.stream() {
        None => {
            &&& msg matches Err(Error::Protocol(t)) && t@ == "no session key"@
            &&& after.sent() == before.sent()
        },
        Some((client, _)) => {
            &&& after.sent() == before.sent() + 1
            &&& match sealed(client, stream_nonce(before.sent()), plain) {
                Ok(c) => {
                    &&& msg matches Ok((p, n)) && n == before.sent() && p@ == stream_tree(c, n)
                    &&& chacha_opened(client, stream_nonce(before.sent()), c) == Some(plain)
                },
                Err(e) => msg matches Err(Error::Protocol(t)) && t@ == e,
            }
        },
    }
}

impl RemotePairingSession {
    /// The pairing.
    pub closed spec fn pairing(self) -> RecordModel {
        self.record@
    }

    /// The keys of the stream: the one of the host and the one of the device.
    pub closed spec fn stream(self) -> Option<(Seq<u8>, Seq<u8>)> {
        match self.keys {
            Some((c, s)) => Some((c@, s@)),
            None => None,
        }
    }

    /// How many messages the host has put into the stream.
    pub closed spec fn sent(self) -> u64 {
        self.enc_seq
    }

    #[verifier::type_invariant]
    spec fn well_formed(self) -> bool {
        self.keys matches Some((c, s)) ==> c@.len() == 32 && s@.len() == 32
    }

    /// A session of a host, before anything is paired.
    pub fn open(record: RemotePairingRecord) -> (s: RemotePairingSession)
        ensures
            s.pairing() == record@,
            s.stream() is None,
            s.sent() == 0,
    {
        RemotePairingSession { record, keys: None, enc_seq: 0 }
    }

    /// The pairing.
    pub fn record(&self) -> (r: &RemotePairingRecord)
        ensures
            r@ == self.pairing(),
    {
        &self.record
    }

    /// Whether there is an old pairing to verify; if not, or if the verification
    /// fails, a new one is set up.
    pub fn has_credentials(&self) -> (yes: bool)
        ensures
            yes == (self.pairing().signing_key.len() > 0 && self.pairing().peer_identifier.len()
                > 0),
    {
        !self.record.our.signing_key.as_str().is_empty()
            && !self.record.peer.peer_identifier.as_str().is_empty()
    }

    /// What to do next, given whether a verification went well if there was one.
    pub fn next_step(&self, verified: Option<bool>) -> (step: PairStep)
        ensures
            step == step_due(
                self.pairing().signing_key.len() > 0 && self.pairing().peer_identifier.len() > 0,
                verified,
            ),
    {
        if !self.has_credentials() {
            PairStep::SetUp
        } else {
            match verified {
                None => PairStep::Verify,
                Some(true) => PairStep::Done,
                Some(false) => PairStep::SetUp,
            }
        }
    }

    /// Whether the stream has keys.
    pub fn has_stream(&self) -> (yes: bool)
        ensures
            yes == (self.stream() is Some),
    {
        self.keys.is_some()
    }

    /// The record to set a pairing up with: the old one if it has a key, else a new
    /// one.
    pub fn setup_record(&self, udid: &str) -> (r: RemotePairingRecord)
        ensures
            if self.pairing().signing_key.len() > 0 {
                r@ == self.pairing()
            } else {
                is_fresh(r@) && key_readable(r@.signing_key)
            },
    {
        if self.record.our.signing_key.as_str().is_empty() {
            let r: RemotePairingRecord = RemotePairingRecord::new_identity(udid);
            proof {
                let (seed, raw) = choose|seed: Seq<u8>, raw: Seq<u8>|
                    seed.len() == 32 && raw.len() == 16 && r@ == #[trigger] fresh_record(
                        seed,
                        marked(raw),
                    );
                lemma_fresh_key(seed, marked(raw));
            }
            r
        } else {
            self.record.dup()
        }
    }

    /// Takes in the last step of a verification: the stream gets its keys, unless the
    /// device refuses.
    pub fn verify_finish(&mut self, shared: &[u8], data: &[u8]) -> (done: Result<(), Error>)
        ensures
            final(self).pairing() == old(self).pairing(),
            final(self).sent() == old(self).sent(),
            match verify_refusal(data@) {
                Some(text) => {
                    &&& done matches Err(Error::Protocol(t)) && t@ == text
                    &&& final(self).stream() == old(self).stream()
                },
                None => {
                    &&& done matches Ok(())
                    &&& final(self).stream() == Some(stream_keys(shared@))
                },
            },
    {
        match check_verified(data) {
            Err(e) => {
                return Err(e);
            },
            Ok(()) => {},
        }
        let client: Vec<u8> = derive(shared, "", "ClientEncrypt-main");
        let server: Vec<u8> = derive(shared, "", "ServerEncrypt-main");
        self.keys = Some((client, server));
        Ok(())
    }

    /// Takes in the last step of a setup: the record gets what the device tells of
    /// itself, and the stream its keys, unless the device refuses.
    pub fn setup_finish(&mut self, x: &SrpExchange, record: RemotePairingRecord, data: &[u8]) -> (
    done: Result<RemotePairingRecord, Error>)
        ensures
            final(self).sent() == old(self).sent(),
            match setup_due(x@, record@, data@) {
                Err(e) => {
                    &&& done matches Err(Error::Protocol(t)) && t@ == e
                    &&& final(self).pairing() == old(self).pairing()
                    &&& final(self).stream() == old(self).stream()
                },
                Ok(model) => {
                    &&& done matches Ok(r) && r@ == model
                    &&& final(self).pairing() == model
                    &&& final(self).stream() == Some(stream_keys(x@.key))
                },
            },
    {
        let record: RemotePairingRecord = match finish_record(x, record, data) {
            Ok(r) => r,
            Err(e) => {
                return Err(e);
            },
        };
        let client: Vec<u8> = derive(x.key.as_slice(), "", "ClientEncrypt-main");
        let server: Vec<u8> = derive(x.key.as_slice(), "", "ServerEncrypt-main");
        self.keys = Some((client, server));
        self.record = record.dup();
        Ok(record)
    }

    /// Puts a text into the stream. Each message has a number of its own, and so a
    /// nonce of its own; the device can open it with the key of the host.
    pub fn seal_request(&mut self, plain: &[u8]) -> (msg: Result<(Plist, u64), Error>)
        requires
            old(self).sent() < u64::MAX,
        ensures
            put_into_stream(*old(self), *final(self), plain@, msg),
    {
        proof {
            use_type_invariant(&*self);
        }
        let seq: u64 = self.enc_seq;
        let key: Vec<u8> = match &self.keys {
            Some((c, _)) => copy_bytes(c.as_slice()),
            None => {
                return refuse(own("no session key"));
            },
        };
        self.enc_seq = seq + 1;
        let nonce: Vec<u8> = enc_nonce(seq);
        match seal(key.as_slice(), nonce.as_slice(), plain) {
            Err(e) => Err(e),
            Ok(cipher) => {
                let mut inner: Dict = Dict::new();
                inner.put("_0", Plist::bytes(cipher.as_slice()));
                let mut enc: Dict = Dict::new();
                enc.put("streamEncrypted", Plist::dict(inner));
                let mut d: Dict = Dict::new();
                d.put("message", Plist::dict(enc));
                d.put_str("originatedBy", "host");
                d.put("sequenceNumber", Plist::number(i64_from_bits(seq)));
                Ok((Plist::dict(d), seq))
            },
        }
    }

    /// Takes the text of an answer out of the stream.
    pub fn open_answer(&self, resp: &Plist, seq: u64) -> (plain: Result<Vec<u8>, Error>)
        ensures
            match self.stream() {
                None => plain matches Err(Error::Protocol(t)) && t@ == "no session key"@,
                Some((_, server)) => bytes_due(plain, answer_due(server, resp@, seq)),
            },
    {
        proof {
            use_type_invariant(self);
        }
        let key: &Vec<u8> = match &self.keys {
            Some((_, s)) => s,
            None => {
                return refuse(own("no session key"));
            },
        };
        if resp.as_dictionary().is_none() {
            return refuse(own("encrypted response: not a dict"));
        }
        let cipher: &[u8] = match find_cipher(resp) {
            Some(c) => c,
            None => {
                return refuse(own("encrypted response: no ciphertext data"));
            },
        };
        let number: u64 = match resp.at("sequenceNumber") {
            Some(v) => match v.as_signed_integer() {
                Some(n) => bits_of_i64(n),
                None => seq,
            },
            None => seq,
        };
        open(key.as_slice(), enc_nonce(number).as_slice(), cipher)
    }
}

/// A secret of 32 random bytes for a verification.
pub fn verify_secret() -> (secret: Vec<u8>)
    ensures
        secret@.len() == 32,
{
    random_bytes(32)
}

/// A secret of 64 random bytes for a setup.
pub fn setup_secret() -> (secret: Vec<u8>)
    ensures
        secret@.len() == 64,
{
    random_bytes(64)
}

// What the messages carry.

proof fn lemma_two(t1: u8, v1: Seq<u8>, t2: u8, v2: Seq<u8>)
    requires
        t1 != t2,
    ensures
        ({
            let m = decoded(encoded(seq![(t1, v1), (t2, v2)]));
            &&& m.contains_key(t1) && m[t1] == v1
            &&& m.contains_key(t2) && m[t2] == v2
        }),
{
    let all = seq![(t1, v1), (t2, v2)];
    tlv8::lemma_found(all, t1);
    tlv8::lemma_found(all, t2);
    assert(all[0] == (t1, v1) && all[1] == (t2, v2));
}

proof fn lemma_three(t1: u8, v1: Seq<u8>, t2: u8, v2: Seq<u8>, t3: u8, v3: Seq<u8>)
    requires
        t1 != t2,
        t1 != t3,
        t2 != t3,
    ensures
        ({
            let m = decoded(encoded(seq![(t1, v1), (t2, v2), (t3, v3)]));
            &&& m.contains_key(t1) && m[t1] == v1
            &&& m.contains_key(t2) && m[t2] == v2
            &&& m.contains_key(t3) && m[t3] == v3
        }),
{
    let all = seq![(t1, v1), (t2, v2), (t3, v3)];
    tlv8::lemma_found(all, t1);
    tlv8::lemma_found(all, t2);
    tlv8::lemma_found(all, t3);
    assert(all[0] == (t1, v1) && all[1] == (t2, v2) && all[2] == (t3, v3));
}

/// The values that a step of a pairing of some kind carries under their types.
pub open spec fn carried(t: Tree, kind: Seq<char>, new_session: bool) -> Map<u8, Seq<u8>> {
    match t {
        Tree::Dictionary(d) => if d.lookup("kind"@) == Some(Tree::String(kind)) && d.lookup(
            "startNewSession"@,
        ) == Some(Tree::Boolean(new_session)) {
            match pairing_data(t) {
                Ok(data) => decoded(data),
                Err(_) => Map::empty(),
            }
        } else {
            Map::empty()
        },
        _ => Map::empty(),
    }
}

/// The nonces have twelve bytes: that of the stream starts with the number of the message,
/// that of a step with its name, and zeros follow.
pub proof fn lemma_nonces(seq: u64, name: Seq<char>)
    ensures
        stream_nonce(seq).len() == 12,
        crate::bytes::le_at(stream_nonce(seq), 0, 8) == seq,
        forall|i: int| 8 <= i < 12 ==> #[trigger] stream_nonce(seq)[i] == 0,
        named_nonce(name).len() == encode_utf8(name).len() + 4,
        named_nonce(name).take(encode_utf8(name).len() as int) == encode_utf8(name),
        forall|i: int|
            encode_utf8(name).len() <= i < encode_utf8(name).len() + 4 ==> #[trigger] named_nonce(
                name,
            )[i] == 0,
{
    broadcast use crate::bytes::lemma_le_bytes_len;

    crate::bytes::lemma_byte_ranges();
    let n = stream_nonce(seq);
    assert(n.subrange(0, 8) =~= le_bytes(seq as nat, 8));
    crate::bytes::lemma_stands_le(n, 0, seq as nat, 8);
    assert(named_nonce(name).take(encode_utf8(name).len() as int) =~= encode_utf8(name));
}

/// The base point is nine, in 32 bytes with the lowest first.
pub proof fn lemma_base_point(secret: Seq<u8>)
    ensures
        base_point().len() == 32,
        base_point()[0] == 9,
        forall|i: int| 0 < i < 32 ==> #[trigger] base_point()[i] == 0,
        public_point(secret) == x25519_product(secret, base_point()),
{
}

/// A key is derived from the secret with 32 bytes, under the purpose, and with the salt
/// unless that is empty.
pub proof fn lemma_derived(secret: Seq<u8>, salt: Seq<char>, info: Seq<char>)
    ensures
        salt.len() > 0 ==> derived(secret, salt, info) == hkdf_key(
            Some(encode_utf8(salt)),
            secret,
            encode_utf8(info),
            32,
        ),
        salt.len() == 0 ==> derived(secret, salt, info) == hkdf_key(
            None,
            secret,
            encode_utf8(info),
            32,
        ),
{
}

/// The steps of the host in a verification: the first has the state 1 and the public key of
/// the secret, the second the state 3 and the sealed proof.
pub proof fn lemma_verify_steps(secret: Seq<u8>, cipher: Seq<u8>)
    ensures
        ({
            let m = carried(verify_start_tree(secret), "verifyManualPairing"@, true);
            &&& m.contains_key(6) && m[6] == seq![1u8]
            &&& m.contains_key(3) && m[3] == x25519_product(secret, base_point())
        }),
        ({
            let m = carried(verify_answer_tree(cipher), "verifyManualPairing"@, false);
            &&& m.contains_key(6) && m[6] == seq![3u8]
            &&& m.contains_key(5) && m[5] == cipher
        }),
{
    lemma_two(6, seq![1u8], 3, public_point(secret));
    lemma_two(6, seq![3u8], 5, cipher);
    super::messages::lemma_pairing_tells(
        "verifyManualPairing"@,
        true,
        encoded(seq![(6u8, seq![1u8]), (3u8, public_point(secret))]),
    );
    super::messages::lemma_pairing_tells(
        "verifyManualPairing"@,
        false,
        encoded(seq![(6u8, seq![3u8]), (5u8, cipher)]),
    );
}

/// The proof of a verification names the host, and is signed over the public key of the
/// host, its name, and the key of the device, in this order.
pub proof fn lemma_verify_proof(
    seed: Seq<u8>,
    identifier: Seq<char>,
    secret: Seq<u8>,
    device: Seq<u8>,
)
    ensures
        ({
            let m = decoded(verify_proof(seed, identifier, secret, device));
            &&& m.contains_key(1) && m[1] == encode_utf8(identifier)
            &&& m.contains_key(10) && m[10] == ed25519_signature(
                seed,
                x25519_product(secret, base_point()) + encode_utf8(identifier) + device,
            )
        }),
{
    lemma_two(
        1,
        raw(identifier),
        10,
        ed25519_signature(seed, public_point(secret) + raw(identifier) + device),
    );
}

/// An answer in a verification rests on the key of 32 bytes that the device shows: the
/// shared secret is its product with the secret of the host, and the proof is sealed under
/// a key derived from it.
pub proof fn lemma_verify_answer(record: RecordModel, secret: Seq<u8>, data: Seq<u8>)
    ensures
        verify_answer_due(record, secret, data) matches Ok((tree, shared)) ==> {
            let m = decoded(data);
            &&& m.contains_key(3) && m[3].len() == 32
            &&& shared == x25519_product(secret, m[3])
            &&& seed_of(record.signing_key) matches Ok(seed) && carried(
                tree,
                "verifyManualPairing"@,
                false,
            )[5] == chacha_sealed(
                hkdf_key(
                    Some(encode_utf8("Pair-Verify-Encrypt-Salt"@)),
                    shared,
                    encode_utf8("Pair-Verify-Encrypt-Info"@),
                    32,
                ),
                encode_utf8("PV-Msg03"@) + zeros(4),
                verify_proof(seed, record.identifier, secret, m[3]),
            )
        },
        !decoded(data).contains_key(3) ==> verify_answer_due(record, secret, data) is Err,
        decoded(data).contains_key(3) && decoded(data)[3].len() != 32 ==> verify_answer_due(
            record,
            secret,
            data,
        ) is Err,
        seed_of(record.signing_key) is Err ==> verify_answer_due(record, secret, data) is Err,
{
    reveal_strlit("Pair-Verify-Encrypt-Salt");
    assert("Pair-Verify-Encrypt-Salt"@.len() == 24);
    let m = decoded(data);
    if let Ok((tree, shared)) = verify_answer_due(record, secret, data) {
        let seed = seed_of(record.signing_key)->Ok_0;
        let cipher = sealed(
            derived(shared, "Pair-Verify-Encrypt-Salt"@, "Pair-Verify-Encrypt-Info"@),
            named_nonce("PV-Msg03"@),
            verify_proof(seed, record.identifier, secret, m[3]),
        )->Ok_0;
        lemma_verify_steps(secret, cipher);
    }
}

/// The device accepts a verification exactly if it tells no error and the state 4.
pub proof fn lemma_verified(data: Seq<u8>)
    ensures
        verify_refusal(data) is None <==> !decoded(data).contains_key(7) && decoded(
            data,
        ).contains_key(6) && decoded(data)[6].len() > 0 && decoded(data)[6][0] == 4,
{
}

/// The steps of the host in a setup: the first has the method 0 and the state 1, the second
/// the state 3, the public value and the proof, the third the state 5 and the sealed
/// identity.
pub proof fn lemma_setup_steps(public: Seq<u8>, proof_bytes: Seq<u8>, cipher: Seq<u8>)
    ensures
        ({
            let m = carried(setup_start_tree(), "setupManualPairing"@, true);
            &&& m.contains_key(0) && m[0] == seq![0u8]
            &&& m.contains_key(6) && m[6] == seq![1u8]
        }),
        ({
            let m = carried(srp_proof_tree(public, proof_bytes), "setupManualPairing"@, false);
            &&& m.contains_key(6) && m[6] == seq![3u8]
            &&& m.contains_key(3) && m[3] == public
            &&& m.contains_key(4) && m[4] == proof_bytes
        }),
        ({
            let m = carried(identity_tree(cipher), "setupManualPairing"@, false);
            &&& m.contains_key(6) && m[6] == seq![5u8]
            &&& m.contains_key(5) && m[5] == cipher
        }),
{
    lemma_two(0, seq![0u8], 6, seq![1u8]);
    lemma_three(6, seq![3u8], 3, public, 4, proof_bytes);
    lemma_two(6, seq![5u8], 5, cipher);
    super::messages::lemma_pairing_tells(
        "setupManualPairing"@,
        true,
        encoded(seq![(0u8, seq![0u8]), (6u8, seq![1u8])]),
    );
    super::messages::lemma_pairing_tells(
        "setupManualPairing"@,
        false,
        encoded(seq![(6u8, seq![3u8]), (3u8, public), (4u8, proof_bytes)]),
    );
    super::messages::lemma_pairing_tells(
        "setupManualPairing"@,
        false,
        encoded(seq![(6u8, seq![5u8]), (5u8, cipher)]),
    );
}

/// The exchange rests on the salt and the public value that the device offers, and on the
/// name `Pair-Setup` and the password `000000`; an error that the device tells ends it.
pub proof fn lemma_srp_prove(secret: Seq<u8>, data: Seq<u8>)
    ensures
        srp_prove_due(secret, data) matches Ok((tree, x)) ==> {
            let m = decoded(data);
            &&& !m.contains_key(7)
            &&& m.contains_key(2) && x.salt == m[2]
            &&& m.contains_key(3) && x.server == m[3]
            &&& x.secret == secret
            &&& srp_reply(
                secret,
                encode_utf8("Pair-Setup"@),
                encode_utf8("000000"@),
                x.salt,
                x.server,
            ) matches Ok((proof_bytes, key))
            &&& x.key == key
            &&& carried(tree, "setupManualPairing"@, false)[3] == srp_public(secret)
            &&& carried(tree, "setupManualPairing"@, false)[4] == proof_bytes
        },
        decoded(data).contains_key(7) || !decoded(data).contains_key(2) || !decoded(
            data,
        ).contains_key(3) ==> srp_prove_due(secret, data) is Err,
{
    if let Ok((tree, x)) = srp_prove_due(secret, data) {
        let (proof_bytes, key) = srp_result(secret, x.salt, x.server)->Ok_0;
        lemma_setup_steps(srp_public(secret), proof_bytes, Seq::empty());
    }
}

/// The device is believed exactly if it tells no error and a proof that holds for the
/// exchange.
pub proof fn lemma_server_proof(x: ExchangeModel, data: Seq<u8>)
    ensures
        srp_refusal(x, data) is None <==> !decoded(data).contains_key(7) && decoded(
            data,
        ).contains_key(4) && srp_server_fault(
            x.secret,
            encode_utf8("Pair-Setup"@),
            encode_utf8("000000"@),
            x.salt,
            x.server,
            decoded(data)[4],
        ) is None,
{
}

/// The identity of the host names it and shows its public key, and is signed over a key
/// derived for it, the name, and the public key, in this order.
pub proof fn lemma_identity_proof(seed: Seq<u8>, identifier: Seq<char>, session_key: Seq<u8>)
    ensures
        ({
            let m = decoded(identity_proof(seed, identifier, session_key));
            let controller = hkdf_key(
                Some(encode_utf8("Pair-Setup-Controller-Sign-Salt"@)),
                session_key,
                encode_utf8("Pair-Setup-Controller-Sign-Info"@),
                32,
            );
            &&& m.contains_key(1) && m[1] == encode_utf8(identifier)
            &&& m.contains_key(3) && m[3] == ed25519_public(seed)
            &&& m.contains_key(10) && m[10] == ed25519_signature(
                seed,
                controller + encode_utf8(identifier) + ed25519_public(seed),
            )
        }),
        setup_key(session_key) == hkdf_key(
            Some(encode_utf8("Pair-Setup-Encrypt-Salt"@)),
            session_key,
            encode_utf8("Pair-Setup-Encrypt-Info"@),
            32,
        ),
{
    reveal_strlit("Pair-Setup-Controller-Sign-Salt");
    reveal_strlit("Pair-Setup-Encrypt-Salt");
    assert("Pair-Setup-Controller-Sign-Salt"@.len() == 31);
    assert("Pair-Setup-Encrypt-Salt"@.len() == 23);
    let public = ed25519_public(seed);
    let controller = derived(
        session_key,
        "Pair-Setup-Controller-Sign-Salt"@,
        "Pair-Setup-Controller-Sign-Info"@,
    );
    lemma_three(
        1,
        raw(identifier),
        3,
        public,
        10,
        ed25519_signature(seed, controller + raw(identifier) + public),
    );
}

/// The host tells its identity only to a device that is believed, sealed under the key of
/// the setup with the nonce of the fifth message.
pub proof fn lemma_identify(x: ExchangeModel, record: RecordModel, data: Seq<u8>)
    ensures
        identify_due(x, record, data) matches Ok(tree) ==> {
            &&& srp_refusal(x, data) is None
            &&& seed_of(record.signing_key) matches Ok(seed) && carried(
                tree,
                "setupManualPairing"@,
                false,
            )[5] == chacha_sealed(
                setup_key(x.key),
                encode_utf8("PS-Msg05"@) + zeros(4),
                identity_proof(seed, record.identifier, x.key),
            )
        },
        srp_refusal(x, data) is Some ==> identify_due(x, record, data) is Err,
        seed_of(record.signing_key) is Err ==> identify_due(x, record, data) is Err,
{
    if let Ok(tree) = identify_due(x, record, data) {
        let seed = seed_of(record.signing_key)->Ok_0;
        let cipher = sealed(
            setup_key(x.key),
            named_nonce("PS-Msg05"@),
            identity_proof(seed, record.identifier, x.key),
        )->Ok_0;
        lemma_setup_steps(Seq::empty(), Seq::empty(), cipher);
    }
}

/// After a setup the record knows the device by the name and the key that it tells, and
/// keeps what the host had; what the device does not tell, or what cannot be opened,
/// changes nothing.
pub proof fn lemma_setup_record(x: ExchangeModel, record: RecordModel, data: Seq<u8>)
    ensures
        decoded(data).contains_key(7) <==> setup_due(x, record, data) is Err,
        setup_due(x, record, data) matches Ok(r) ==> {
            let told = chacha_opened(
                setup_key(x.key),
                encode_utf8("PS-Msg06"@) + zeros(4),
                decoded(data)[5],
            );
            &&& r.identifier == record.identifier
            &&& r.signing_key == record.signing_key
            &&& !decoded(data).contains_key(5) || told is None ==> r == record
            &&& decoded(data).contains_key(5) ==> (told matches Some(p) ==> {
                &&& decoded(p).contains_key(1) ==> r.peer_identifier == lossy(decoded(p)[1])
                &&& !decoded(p).contains_key(1) ==> r.peer_identifier == record.peer_identifier
                &&& decoded(p).contains_key(3) ==> r.peer_public_key == hex_text(
                    decoded(p)[3],
                    false,
                )
                &&& !decoded(p).contains_key(3) ==> r.peer_public_key == record.peer_public_key
            })
        },
{
}

/// The keys of the stream are derived without a salt, that of the host and that of the
/// device each for its own purpose.
pub proof fn lemma_stream_keys(secret: Seq<u8>)
    ensures
        stream_keys(secret).0 == hkdf_key(None, secret, encode_utf8("ClientEncrypt-main"@), 32),
        stream_keys(secret).1 == hkdf_key(None, secret, encode_utf8("ServerEncrypt-main"@), 32),
{
    reveal_strlit("");
    assert(""@.len() == 0);
}

/// A message of the stream says that it is from the host and its number, and carries its
/// cipher text where that of an answer is looked for; an answer of this form is opened
/// under its own number.
pub proof fn lemma_stream_message(cipher: Seq<u8>, seq: u64, key: Seq<u8>, other: u64)
    ensures
        stream_tree(cipher, seq) matches Tree::Dictionary(d) && {
            &&& d.lookup("originatedBy"@) == Some(Tree::String("host"@))
            &&& d.lookup("sequenceNumber"@) == Some(
                Tree::Integer(
                    if seq < 0x8000_0000_0000_0000 {
                        seq as int
                    } else {
                        seq - 0x1_0000_0000_0000_0000
                    },
                ),
            )
            &&& d.lookup("message"@) matches Some(Tree::Dictionary(m))
            &&& m.lookup("streamEncrypted"@) matches Some(Tree::Dictionary(e))
            &&& e.lookup("_0"@) == Some(Tree::Data(cipher))
        },
        cipher_in(stream_tree(cipher, seq)) == Some(cipher),
        answer_number(stream_tree(cipher, seq), other) == seq,
        match chacha_opened(key, stream_nonce(seq), cipher) {
            Some(plain) => answer_due(key, stream_tree(cipher, seq), other) == Ok::<
                Seq<u8>,
                Seq<char>,
            >(plain),
            None => answer_due(key, stream_tree(cipher, seq), other) is Err,
        },
{
    broadcast use crate::entries::lemma_lookup_with;

    reveal_strlit("message");
    reveal_strlit("originatedBy");
    reveal_strlit("sequenceNumber");
    assert("message"@.len() == 7);
    assert("originatedBy"@.len() == 12);
    assert("sequenceNumber"@.len() == 14);
}

/// An answer without a number has the number of the request.
pub proof fn lemma_unnumbered(d: Seq<(Seq<char>, Tree)>, seq: u64)
    ensures
        d.lookup("sequenceNumber"@) is None ==> answer_number(Tree::Dictionary(d), seq) == seq,
        d.lookup("sequenceNumber"@) matches Some(Tree::Integer(n)) ==> {
            &&& 0 <= n <= i64::MAX ==> answer_number(Tree::Dictionary(d), seq) == n
            &&& i64::MIN <= n < 0 ==> answer_number(Tree::Dictionary(d), seq) == n
                + 0x1_0000_0000_0000_0000
        },
{
}

/// A host without an old pairing sets one up; one with an old pairing verifies it first,
/// is done if that went well, and else sets one up.
pub proof fn lemma_pair_steps(has_credentials: bool, verified: Option<bool>)
    ensures
        step_due(has_credentials, verified) is Verify <==> has_credentials && verified is None,
        step_due(has_credentials, verified) is Done <==> has_credentials && verified == Some(true),
        step_due(has_credentials, verified) is SetUp <==> !has_credentials || verified == Some(
            false,
        ),
{
    if let Some(b) = verified {
        assert(verified == Some(true) || verified == Some(false));
    }
}

/// A text is sealed under the key and the nonce unless it is too long; a message is opened
/// as the cipher opens it.
pub proof fn lemma_sealed(key: Seq<u8>, nonce: Seq<u8>, plain: Seq<u8>)
    ensures
        plain.len() < 0x3f_ffff_ffc0 ==> sealed(key, nonce, plain) == Ok::<Seq<u8>, Seq<char>>(
            chacha_sealed(key, nonce, plain),
        ),
        plain.len() >= 0x3f_ffff_ffc0 ==> sealed(key, nonce, plain) is Err,
        chacha_opened(key, nonce, plain) matches Some(p) ==> opened(key, nonce, plain) == Ok::<
            Seq<u8>,
            Seq<char>,
        >(p),
        chacha_opened(key, nonce, plain) is None ==> opened(key, nonce, plain) is Err,
{
}

/// What a device offers is taken from its own items: the salt and the key of the exchange,
/// and the key of a verification, which has to be 32 bytes long. A complaint of the device
/// comes first, the salt before the key.
pub proof fn lemma_offers(data: Seq<u8>)
    ensures
        device_point(data) == if !decoded(data).contains_key(3) {
            Err::<Seq<u8>, Seq<char>>("pair-verify: no PUBLIC_KEY"@)
        } else if decoded(data)[3].len() != 32 {
            Err("pair-verify: bad key len"@)
        } else {
            Ok(decoded(data)[3])
        },
        srp_offer(data) == if decoded(data).contains_key(7) {
            Err::<(Seq<u8>, Seq<u8>), Seq<char>>("SRP start error: "@ + hex_list(decoded(data)[7]))
        } else if !decoded(data).contains_key(2) {
            Err("SRP: no SALT"@)
        } else if !decoded(data).contains_key(3) {
            Err("SRP: no PUBLIC_KEY"@)
        } else {
            Ok((decoded(data)[2], decoded(data)[3]))
        },
{
}

/// What the later steps of a device are refused for: its own complaint, shown byte by byte;
/// a missing proof, or one that does not hold; a state that is not the fourth, shown where
/// there is one.
pub proof fn lemma_step_refusals(
    x: ExchangeModel,
    record: RecordModel,
    data: Seq<u8>,
    why: Seq<char>,
)
    ensures
        decoded(data).contains_key(7) ==> {
            &&& verify_refusal(data)
                    == Some("pair-verify: device error "@ + hex_list(decoded(data)[7]))
            &&& srp_refusal(x, data) == Some("SRP proof error: "@ + hex_list(decoded(data)[7]))
            &&& setup_due(x, record, data)
                    == Err::<RecordModel, Seq<char>>(
                "SRP identity error: "@ + hex_list(decoded(data)[7]),
            )
        },
        !decoded(data).contains_key(7) ==> {
            &&& !decoded(data).contains_key(6) || decoded(data)[6].len() == 0
                    ==> verify_refusal(data) == Some("pair-verify: bad state "@ + "None"@)
            &&& decoded(data).contains_key(6) && decoded(data)[6].len() > 0
                    && decoded(data)[6][0] != 4
                    ==> verify_refusal(data)
                    == Some(
                "pair-verify: bad state "@ + ("Some("@ + hex_byte(decoded(data)[6][0], false) + ")"@),
            )
            &&& !decoded(data).contains_key(4)
                    ==> srp_refusal(x, data) == Some("SRP: no server PROOF"@)
            &&& decoded(data).contains_key(4)
                    && srp_server_fault(
                x.secret,
                encode_utf8("Pair-Setup"@),
                encode_utf8("000000"@),
                x.salt,
                x.server,
                decoded(data)[4],
            )
                    == Some(why) ==> srp_refusal(x, data) == Some("SRP server proof: "@ + why)
        },
{
}

/// An answer is refused for not being a dictionary, for having no text in it, and for a
/// text that does not open; a text is not sealed where it is too long for the cipher.
pub proof fn lemma_answer_refusals(key: Seq<u8>, nonce: Seq<u8>, text: Seq<u8>, t: Tree, seq: u64)
    ensures
        t.entries() is None ==> answer_due(key, t, seq)
            == Err::<Seq<u8>, Seq<char>>("encrypted response: not a dict"@),
        t.entries() is Some && cipher_in(t) is None
            ==> answer_due(key, t, seq)
            == Err::<Seq<u8>, Seq<char>>("encrypted response: no ciphertext data"@),
        chacha_opened(key, nonce, text) is None
            ==> opened(key, nonce, text)
            == Err::<Seq<u8>, Seq<char>>("ChaCha decrypt: aead::Error"@),
        text.len() >= 0xffff_ffff * 64
            ==> sealed(key, nonce, text)
            == Err::<Seq<u8>, Seq<char>>("ChaCha encrypt: aead::Error"@),
{
}

/// An exchange goes wrong exactly where its arithmetic does, and says why; where it
/// succeeds, its proof and key are those of the arithmetic for the fixed name and code.
pub proof fn lemma_exchange_fails(secret: Seq<u8>, salt: Seq<u8>, server: Seq<u8>)
    ensures
        match srp_reply(secret, encode_utf8("Pair-Setup"@), encode_utf8("000000"@), salt, server) {
            Ok(r) => srp_result(secret, salt, server) == Ok::<(Seq<u8>, Seq<u8>), Seq<char>>(r),
            Err(e) => srp_result(secret, salt, server)
                == Err::<(Seq<u8>, Seq<u8>), Seq<char>>("SRP compute: "@ + e),
        },
{
}

/// A text that is put into the stream leaves the pairing and the keys as they were. With
/// keys the count goes up by one and the message has the number that was due; without keys
/// there is no message and the count stays.
pub proof fn lemma_put_into_stream(
    before: RemotePairingSession,
    after: RemotePairingSession,
    plain: Seq<u8>,
    msg: Result<(Plist, u64), Error>,
)
    requires
        put_into_stream(before, after, plain, msg),
    ensures
        after.pairing() == before.pairing(),
        after.stream() == before.stream(),
        before.stream() is None ==> msg is Err && after.sent() == before.sent(),
        before.stream() is Some ==> after.sent() == before.sent() + 1,
        before.stream() is Some && plain.len() < 0xffff_ffff * 64
            ==> msg is Ok && (msg->Ok_0).1 == before.sent(),
        msg is Ok ==> before.stream() is Some,
{
}

} // verus!
