//! Keys, signatures and ciphers of the tunnel service.

use chacha20poly1305::aead::{Aead, KeyInit};
use chacha20poly1305::{ChaCha20Poly1305, Key, Nonce};
use ed25519_dalek::Signer;
use rand::RngCore;
use sha2::Sha512;
use srp::client::SrpClient;
use srp::groups::G_3072;
use vstd::prelude::*;

verus! {

/// So many bytes that HKDF with SHA-512 derives from a salt, a secret and a purpose.
pub uninterp spec fn hkdf_key(
    salt: Option<Seq<u8>>,
    ikm: Seq<u8>,
    info: Seq<u8>,
    len: usize,
) -> Seq<u8>;

/// A text sealed with ChaCha20-Poly1305, under a key and a nonce.
pub uninterp spec fn chacha_sealed(key: Seq<u8>, nonce: Seq<u8>, plain: Seq<u8>) -> Seq<u8>;

/// The text in a sealed message, if it was sealed under this key and nonce.
pub uninterp spec fn chacha_opened(key: Seq<u8>, nonce: Seq<u8>, cipher: Seq<u8>) -> Option<
    Seq<u8>,
>;

/// The Ed25519 signature of a message with the key of a seed.
pub uninterp spec fn ed25519_signature(seed: Seq<u8>, message: Seq<u8>) -> Seq<u8>;

/// The public Ed25519 key of a seed.
pub uninterp spec fn ed25519_public(seed: Seq<u8>) -> Seq<u8>;

/// The X25519 function of a secret and a point.
pub uninterp spec fn x25519_product(secret: Seq<u8>, point: Seq<u8>) -> Seq<u8>;

/// The public value that an SRP client shows for its secret, in the group of 3072
/// bits with SHA-512.
pub uninterp spec fn srp_public(secret: Seq<u8>) -> Seq<u8>;

/// The proof and the key that an SRP client computes from the salt and the public
/// value of the server, or why it refuses them.
pub uninterp spec fn srp_reply(
    secret: Seq<u8>,
    username: Seq<u8>,
    password: Seq<u8>,
    salt: Seq<u8>,
    server: Seq<u8>,
) -> Result<(Seq<u8>, Seq<u8>), Seq<char>>;

/// Why the proof of an SRP server does not hold; nothing where it does.
pub uninterp spec fn srp_server_fault(
    secret: Seq<u8>,
    username: Seq<u8>,
    password: Seq<u8>,
    salt: Seq<u8>,
    server: Seq<u8>,
    proof: Seq<u8>,
) -> Option<Seq<char>>;

/// The view of an optional byte string.
pub open spec fn opt_bytes(s: Option<&[u8]>) -> Option<Seq<u8>> {
    match s {
        Some(b) => Some(b@),
        None => None,
    }
}

/// `hkdf::Hkdf::<Sha512>::new` and `expand` to as many bytes as asked for, of which it
/// derives up to 255 blocks of 64: the key depends on the inputs alone.
#[verifier::external_body]
pub(crate) fn hkdf(salt: Option<&[u8]>, ikm: &[u8], info: &[u8], len: usize) -> (key: Vec<u8>)
    requires
        len <= 16320,
    ensures
        key@ == hkdf_key(opt_bytes(salt), ikm@, info@, len),
        key@.len() == len,
{
    let mut out = vec![0u8; len];
    hkdf::Hkdf::<Sha512>::new(salt, ikm).expand(info, &mut out).expect("length is in range");
    out
}

/// `Aead::encrypt` of `ChaCha20Poly1305`: refuses a text of 2^38 - 64 bytes or more,
/// and seals any other so that the same key and nonce open it again.
#[verifier::external_body]
pub(crate) fn chacha_seal(key: &[u8], nonce: &[u8], plain: &[u8]) -> (cipher: Option<Vec<u8>>)
    requires
        key@.len() == 32,
        nonce@.len() == 12,
    ensures
        cipher is Some <==> plain@.len() / 64 < 0xffff_ffff,
        cipher matches Some(c) ==> c@ == chacha_sealed(key@, nonce@, plain@) && chacha_opened(
            key@,
            nonce@,
            c@,
        ) == Some(plain@),
{
    ChaCha20Poly1305::new(Key::from_slice(key)).encrypt(Nonce::from_slice(nonce), plain).ok()
}

/// `Aead::decrypt` of `ChaCha20Poly1305`: the text, if there is one, depends on the
/// key, the nonce and the message alone.
#[verifier::external_body]
pub(crate) fn chacha_open(key: &[u8], nonce: &[u8], cipher: &[u8]) -> (plain: Option<Vec<u8>>)
    requires
        key@.len() == 32,
        nonce@.len() == 12,
    ensures
        match plain {
            Some(p) => chacha_opened(key@, nonce@, cipher@) == Some(p@),
            None => chacha_opened(key@, nonce@, cipher@) is None,
        },
{
    ChaCha20Poly1305::new(Key::from_slice(key)).decrypt(Nonce::from_slice(nonce), cipher).ok()
}

/// `Signer::sign` of `ed25519_dalek::SigningKey`: 64 bytes that depend on the seed and
/// the message alone.
#[verifier::external_body]
pub(crate) fn ed25519_sign(seed: &[u8], message: &[u8]) -> (signature: Vec<u8>)
    requires
        seed@.len() == 32,
    ensures
        signature@ == ed25519_signature(seed@, message@),
        signature@.len() == 64,
{
    let key: [u8; 32] = seed.try_into().expect("32 bytes");
    ed25519_dalek::SigningKey::from_bytes(&key).sign(message).to_bytes().to_vec()
}

/// `ed25519_dalek::SigningKey::verifying_key`: 32 bytes that depend on the seed alone.
#[verifier::external_body]
pub(crate) fn ed25519_verifying_key(seed: &[u8]) -> (key: Vec<u8>)
    requires
        seed@.len() == 32,
    ensures
        key@ == ed25519_public(seed@),
        key@.len() == 32,
{
    let key: [u8; 32] = seed.try_into().expect("32 bytes");
    ed25519_dalek::SigningKey::from_bytes(&key).verifying_key().to_bytes().to_vec()
}

/// `x25519_dalek::x25519`: 32 bytes that depend on the secret and the point alone.
#[verifier::external_body]
pub(crate) fn x25519(secret: &[u8], point: &[u8]) -> (product: Vec<u8>)
    requires
        secret@.len() == 32,
        point@.len() == 32,
    ensures
        product@ == x25519_product(secret@, point@),
        product@.len() == 32,
{
    let k: [u8; 32] = secret.try_into().expect("32 bytes");
    let u: [u8; 32] = point.try_into().expect("32 bytes");
    x25519_dalek::x25519(k, u).to_vec()
}

/// `SrpClient::compute_public_ephemeral` in the group `G_3072` with SHA-512: the value
/// depends on the secret alone.
#[verifier::external_body]
pub(crate) fn srp_public_value(secret: &[u8]) -> (value: Vec<u8>)
    ensures
        value@ == srp_public(secret@),
{
    SrpClient::<Sha512>::new(&G_3072).compute_public_ephemeral(secret)
}

/// `SrpClient::process_reply` in the group `G_3072` with SHA-512: the proof and the
/// key, or the error, depend on the arguments alone.
#[verifier::external_body]
pub(crate) fn srp_process(
    secret: &[u8],
    username: &[u8],
    password: &[u8],
    salt: &[u8],
    server: &[u8],
) -> (got: Result<(Vec<u8>, Vec<u8>), String>)
    ensures
        match got {
            Ok((proof_bytes, key)) => srp_reply(
                secret@,
                username@,
                password@,
                salt@,
                server@,
            ) == Ok::<(Seq<u8>, Seq<u8>), Seq<char>>((proof_bytes@, key@)),
            Err(e) => srp_reply(secret@, username@, password@, salt@, server@) == Err::<
                (Seq<u8>, Seq<u8>),
                Seq<char>,
            >(e@),
        },
{
    let client = SrpClient::<Sha512>::new(&G_3072);
    let v = client.process_reply(secret, username, password, salt, server).map_err(
        |e| e.to_string(),
    )?;
    Ok((v.proof().to_vec(), v.key().to_vec()))
}

/// `SrpClientVerifier::verify_server` of what `process_reply` returns: whether the
/// proof of the server holds depends on the arguments alone.
#[verifier::external_body]
pub(crate) fn srp_verify(
    secret: &[u8],
    username: &[u8],
    password: &[u8],
    salt: &[u8],
    server: &[u8],
    server_proof: &[u8],
) -> (fault: Option<String>)
    ensures
        match fault {
            Some(e) => srp_server_fault(
                secret@,
                username@,
                password@,
                salt@,
                server@,
                server_proof@,
            ) == Some(e@),
            None => srp_server_fault(
                secret@,
                username@,
                password@,
                salt@,
                server@,
                server_proof@,
            ) is None,
        },
{
    let client = SrpClient::<Sha512>::new(&G_3072);
    let v = client.process_reply(secret, username, password, salt, server);
    v.and_then(|v| v.verify_server(server_proof)).err().map(|e| e.to_string())
}

/// `RngCore::fill_bytes` of the system's random numbers: as many bytes as were asked
/// for. Nothing is claimed of them.
#[verifier::external_body]
pub(crate) fn random_bytes(n: usize) -> (bytes: Vec<u8>)
    ensures
        bytes@.len() == n,
{
    let mut out = vec![0u8; n];
    rand::rngs::OsRng.fill_bytes(&mut out);
    out
}

/// `ed25519_dalek::SigningKey::generate`: a seed of 32 bytes. Nothing more is claimed
/// of it.
#[verifier::external_body]
pub(crate) fn random_seed() -> (seed: Vec<u8>)
    ensures
        seed@.len() == 32,
{
    ed25519_dalek::SigningKey::generate(&mut rand::rngs::OsRng).to_bytes().to_vec()
}

} // verus!
