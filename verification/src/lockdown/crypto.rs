//! Digests, keys and signatures, as the `sha1` and `rsa` crates compute them.
//!
//! A private key is held as its PKCS#1 encoding, a public key as its
//! SubjectPublicKeyInfo.

use rsa::pkcs1::{DecodeRsaPrivateKey, DecodeRsaPublicKey, EncodeRsaPrivateKey};
use rsa::pkcs8::{DecodePrivateKey, EncodePublicKey};
use rsa::signature::{SignatureEncoding, Signer};
use rsa::traits::PrivateKeyParts;
use sha1::Digest;
use vstd::prelude::*;

verus! {

/// The SHA-1 digest of some bytes.
pub uninterp spec fn sha1_digest(data: Seq<u8>) -> Seq<u8>;

/// The key in a PKCS#8 PEM text.
pub uninterp spec fn pkcs8_pem_key(text: Seq<char>) -> Option<Seq<u8>>;

/// The key in a PKCS#1 PEM text.
pub uninterp spec fn pkcs1_pem_key(text: Seq<char>) -> Option<Seq<u8>>;

/// The key in a PKCS#8 encoding.
pub uninterp spec fn pkcs8_der_key(bytes: Seq<u8>) -> Option<Seq<u8>>;

/// The key in a PKCS#1 encoding, or why there is none.
pub uninterp spec fn pkcs1_der_key(bytes: Seq<u8>) -> Result<Seq<u8>, Seq<char>>;

/// The public half of a key, or why there is none.
pub uninterp spec fn public_half(key: Seq<u8>) -> Result<Seq<u8>, Seq<char>>;

/// The public key in a PKCS#1 PEM text, or why there is none.
pub uninterp spec fn pkcs1_pem_public(text: Seq<char>) -> Result<Seq<u8>, Seq<char>>;

/// A key as PKCS#1 PEM text, or why there is none.
pub uninterp spec fn key_pem(key: Seq<u8>) -> Result<Seq<char>, Seq<char>>;

/// The signature of a message with a key whose primes are of like length, where the key
/// can sign it.
pub uninterp spec fn sha1_signature(key: Seq<u8>, message: Seq<u8>) -> Option<Seq<u8>>;

/// How many bits the modulus of a key has.
pub uninterp spec fn modulus_bits(key: Seq<u8>) -> usize;

/// How many bits the two primes of a key have.
pub uninterp spec fn prime_bits(key: Seq<u8>) -> Option<(usize, usize)>;

/// By how many bits the second prime of a key may be longer than the first.
pub const PRIME_GAP: usize = 16;

/// Whether the second prime of a key is much longer than the first: the time that a
/// signature takes grows with their quotient.
pub open spec fn lopsided(key: Seq<u8>) -> bool {
    prime_bits(key) matches Some((p, q)) && q > p + PRIME_GAP
}

/// The signature of a message with a key, where the key can sign it.
pub open spec fn signature_with(key: Seq<u8>, message: Seq<u8>) -> Option<Seq<u8>> {
    if lopsided(key) {
        None
    } else {
        sha1_signature(key, message)
    }
}

/// Whether a key does all that a pairing needs: it has a public half and a PEM text, and
/// signs every message.
pub open spec fn capable(key: Seq<u8>) -> bool {
    &&& public_half(key) is Ok
    &&& key_pem(key) is Ok
    &&& !lopsided(key)
    &&& forall|message: Seq<u8>| (#[trigger] sha1_signature(key, message)) is Some
}

/// Whether a result holds what a name says.
pub open spec fn is_bytes(got: Result<Vec<u8>, String>, want: Result<Seq<u8>, Seq<char>>) -> bool {
    match got {
        Ok(bytes) => want == Ok::<Seq<u8>, Seq<char>>(bytes@),
        Err(e) => want == Err::<Seq<u8>, Seq<char>>(e@),
    }
}

/// Whether an option holds what a name says.
pub open spec fn is_some_bytes(got: Option<Vec<u8>>, want: Option<Seq<u8>>) -> bool {
    match got {
        Some(bytes) => want == Some(bytes@),
        None => want is None,
    }
}

/// `sha1::Sha1::digest`: twenty bytes that depend on the data alone.
#[verifier::external_body]
pub(crate) fn sha1(data: &[u8]) -> (digest: Vec<u8>)
    ensures
        digest@ == sha1_digest(data@),
        digest@.len() == 20,
{
    sha1::Sha1::digest(data).to_vec()
}

/// `rsa::RsaPrivateKey::new` with so many bits and the system's random numbers: the key is
/// a different one each time. Its modulus has just so many bits and is the product of two
/// primes of half the length; such a key can be encoded, and signs every message. Whether
/// it succeeds, and which key comes out, is left to chance.
#[verifier::external_body]
pub(crate) fn generate_key(bits: usize) -> (key: Result<Vec<u8>, String>)
    requires
        1024 <= bits <= 4096,
    ensures
        key matches Ok(k) ==> modulus_bits(k@) == bits && capable(k@),
{
    let key = rsa::RsaPrivateKey::new(&mut rand::rngs::OsRng, bits).map_err(|e| e.to_string())?;
    key.to_pkcs1_der().map(|d| d.as_bytes().to_vec()).map_err(|e| e.to_string())
}

/// `DecodePrivateKey::from_pkcs8_pem`: the key depends on the text alone.
#[verifier::external_body]
pub(crate) fn key_from_pkcs8_pem(text: &str) -> (key: Option<Vec<u8>>)
    ensures
        is_some_bytes(key, pkcs8_pem_key(text@)),
{
    let key = rsa::RsaPrivateKey::from_pkcs8_pem(text).ok()?;
    key.to_pkcs1_der().ok().map(|d| d.as_bytes().to_vec())
}

/// `DecodeRsaPrivateKey::from_pkcs1_pem`: the key depends on the text alone.
#[verifier::external_body]
pub(crate) fn key_from_pkcs1_pem(text: &str) -> (key: Option<Vec<u8>>)
    ensures
        is_some_bytes(key, pkcs1_pem_key(text@)),
{
    let key = <rsa::RsaPrivateKey as DecodeRsaPrivateKey>::from_pkcs1_pem(text).ok()?;
    key.to_pkcs1_der().ok().map(|d| d.as_bytes().to_vec())
}

/// `DecodePrivateKey::from_pkcs8_der`: the key depends on the bytes alone.
#[verifier::external_body]
pub(crate) fn key_from_pkcs8_der(bytes: &[u8]) -> (key: Option<Vec<u8>>)
    ensures
        is_some_bytes(key, pkcs8_der_key(bytes@)),
{
    let key = rsa::RsaPrivateKey::from_pkcs8_der(bytes).ok()?;
    key.to_pkcs1_der().ok().map(|d| d.as_bytes().to_vec())
}

/// `DecodeRsaPrivateKey::from_pkcs1_der`: the key, or the error, depends on the
/// bytes alone.
#[verifier::external_body]
pub(crate) fn key_from_pkcs1_der(bytes: &[u8]) -> (key: Result<Vec<u8>, String>)
    ensures
        is_bytes(key, pkcs1_der_key(bytes@)),
{
    let key = <rsa::RsaPrivateKey as DecodeRsaPrivateKey>::from_pkcs1_der(bytes).map_err(
        |e| e.to_string(),
    )?;
    key.to_pkcs1_der().map(|d| d.as_bytes().to_vec()).map_err(|e| e.to_string())
}

/// `RsaPrivateKey::to_public_key` and `EncodePublicKey::to_public_key_der`: the
/// public key depends on the private key alone.
#[verifier::external_body]
pub(crate) fn public_of(key: &[u8]) -> (spki: Result<Vec<u8>, String>)
    ensures
        is_bytes(spki, public_half(key@)),
{
    let key = <rsa::RsaPrivateKey as DecodeRsaPrivateKey>::from_pkcs1_der(key).map_err(
        |e| e.to_string(),
    )?;
    key.to_public_key().to_public_key_der().map(|d| d.as_bytes().to_vec()).map_err(
        |e| e.to_string(),
    )
}

/// `DecodeRsaPublicKey::from_pkcs1_pem` and `EncodePublicKey::to_public_key_der`:
/// the key, or the error, depends on the text alone.
#[verifier::external_body]
pub(crate) fn public_from_pem(text: &str) -> (spki: Result<Vec<u8>, String>)
    ensures
        is_bytes(spki, pkcs1_pem_public(text@)),
{
    let key = <rsa::RsaPublicKey as DecodeRsaPublicKey>::from_pkcs1_pem(text).map_err(
        |e| e.to_string(),
    )?;
    key.to_public_key_der().map(|d| d.as_bytes().to_vec()).map_err(|e| e.to_string())
}

/// `EncodeRsaPrivateKey::to_pkcs1_pem`: the text depends on the key alone.
#[verifier::external_body]
pub(crate) fn pem_of(key: &[u8]) -> (text: Result<String, String>)
    ensures
        match text {
            Ok(s) => key_pem(key@) == Ok::<Seq<char>, Seq<char>>(s@),
            Err(e) => key_pem(key@) == Err::<Seq<char>, Seq<char>>(e@),
        },
{
    let key = <rsa::RsaPrivateKey as DecodeRsaPrivateKey>::from_pkcs1_der(key).map_err(
        |e| e.to_string(),
    )?;
    key.to_pkcs1_pem(Default::default()).map(|s| s.to_string()).map_err(|e| e.to_string())
}

/// `PrivateKeyParts::primes` of an `RsaPrivateKey`, and how many bits the two have: they
/// depend on the key alone. There are none where `from_pkcs1_der` finds no key.
#[verifier::external_body]
fn prime_sizes(key: &[u8]) -> (sizes: Option<(usize, usize)>)
    ensures
        sizes == prime_bits(key@),
{
    let key = <rsa::RsaPrivateKey as DecodeRsaPrivateKey>::from_pkcs1_der(key).ok()?;
    Some((key.primes()[0].bits(), key.primes()[1].bits()))
}

/// `Signer::try_sign` of `rsa::pkcs1v15::SigningKey<Sha1>`: the signature depends on
/// the key and the message alone. It adds the first prime up until it reaches the second,
/// so the second may not be much longer.
#[verifier::external_body]
fn sign_sha1(key: &[u8], message: &[u8]) -> (signature: Option<Vec<u8>>)
    requires
        !lopsided(key@),
    ensures
        is_some_bytes(signature, sha1_signature(key@, message@)),
{
    let key = <rsa::RsaPrivateKey as DecodeRsaPrivateKey>::from_pkcs1_der(key).ok()?;
    let signer = rsa::pkcs1v15::SigningKey::<sha1::Sha1>::new(key);
    signer.try_sign(message).ok().map(|s| s.to_vec())
}

/// Tests whether the second prime of a key is much longer than the first.
pub fn is_lopsided(key: &[u8]) -> (yes: bool)
    ensures
        yes == lopsided(key@),
{
    match prime_sizes(key) {
        Some((p, q)) => q > PRIME_GAP && q - PRIME_GAP > p,
        None => false,
    }
}

/// Signs a message. A key whose second prime is much longer than the first does not sign.
pub fn sign(key: &[u8], message: &[u8]) -> (signature: Option<Vec<u8>>)
    ensures
        is_some_bytes(signature, signature_with(key@, message@)),
{
    if is_lopsided(key) {
        None
    } else {
        sign_sha1(key, message)
    }
}

/// A key signs unless its second prime is more than sixteen bits longer than the first.
pub proof fn lemma_lopsided(key: Seq<u8>, message: Seq<u8>)
    ensures
        prime_bits(key) is None ==> !lopsided(key),
        prime_bits(key) matches Some((p, q)) ==> (lopsided(key) <==> q > p + 16),
        !lopsided(key) ==> signature_with(key, message) == sha1_signature(key, message),
        lopsided(key) ==> signature_with(key, message) is None,
{
}

} // verus!
