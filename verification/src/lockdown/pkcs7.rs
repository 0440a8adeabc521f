//! Signed messages in the PKCS#7 format, with which a supervisor answers a
//! challenge.

use vstd::prelude::*;
use crate::bytes::{put_slice, sub_vec};
use vstd::utf8::{decode_utf8, valid_utf8};
use crate::text::{contains, join2, occurs_in, own, utf8_text};
use super::crypto::{
    is_lopsided, key_from_pkcs1_der, key_from_pkcs1_pem, key_from_pkcs8_der, key_from_pkcs8_pem,
    lopsided, pkcs1_der_key, pkcs1_pem_key, pkcs8_der_key, pkcs8_pem_key, sha1, sha1_digest, sign,
    signature_with,
};
use super::der::{
    der, der_int, der_oid, der_seq, der_tag, lemma_der_roundtrip, lemma_past, lemma_rsa_arcs, oid,
    past, peel_tag, peel_tlv, peeled, peeled_tag, sequence,
};
use super::error::Error;
use super::x509::{sha1_algorithm, sha1_oid, sha1_with_rsa, sha1_with_rsa_oid};

verus! {

/// The first value of `buf` in full, where `rest` is what follows it.
pub open spec fn raw_value(buf: Seq<u8>, rest: Seq<u8>) -> Seq<u8> {
    buf.take(buf.len() - rest.len())
}

/// The fields of a certificate from the serial number on.
pub open spec fn from_serial(tbs: Seq<u8>) -> Option<Seq<u8>> {
    if tbs.len() > 0 && tbs[0] == 0xa0 {
        match peeled(tbs) {
            Some((_, rest)) => Some(rest),
            None => None,
        }
    } else {
        Some(tbs)
    }
}

/// The issuer and the serial number in the fields from the serial number on, each
/// in full; or why they cannot be found.
pub open spec fn names_at(pos: Seq<u8>) -> Result<(Seq<u8>, Seq<u8>), Seq<char>> {
    match peeled_tag(pos, 0x02) {
        None => Err("cert: bad serial"@),
        Some((_, after)) => match peeled(after) {
            None => Err("cert: bad sigAlgo"@),
            Some((_, at_issuer)) => match peeled_tag(at_issuer, 0x30) {
                None => Err("cert: bad issuer SEQUENCE"@),
                Some((_, rest)) => Ok((raw_value(at_issuer, rest), raw_value(pos, after))),
            },
        },
    }
}

/// The issuer and the serial number of a certificate, each in full; or why they
/// cannot be found.
pub open spec fn issuer_serial(cert: Seq<u8>) -> Result<(Seq<u8>, Seq<u8>), Seq<char>> {
    match peeled_tag(cert, 0x30) {
        None => Err("cert: bad outer SEQUENCE"@),
        Some((content, _)) => match peeled_tag(content, 0x30) {
            None => Err("cert: bad TBSCertificate SEQUENCE"@),
            Some((tbs, _)) => match from_serial(tbs) {
                None => Err("cert: bad version"@),
                Some(pos) => names_at(pos),
            },
        },
    }
}

/// What a search for the two names returned, in terms of what it is to find.
pub open spec fn found(
    got: Result<(Vec<u8>, Vec<u8>), Error>,
    due: Result<(Seq<u8>, Seq<u8>), Seq<char>>,
) -> bool {
    match due {
        Ok((issuer, serial)) => got matches Ok((i, s)) && i@ == issuer && s@ == serial,
        Err(text) => got matches Err(Error::Lockdown(t)) && t@ == text,
    }
}

fn refuse<T>(text: &str) -> (out: Result<T, Error>)
    ensures
        out matches Err(Error::Lockdown(t)) && t@ == text@,
{
    Err(Error::Lockdown(own(text)))
}

proof fn lemma_peeled_shorter(buf: Seq<u8>)
    ensures
        peeled(buf) matches Some((_, rest)) ==> rest.len() <= buf.len(),
{
    reveal(super::der::peeled_length);
}

/// The first value of `buf` in full, where `rest` follows it.
fn take_raw(buf: &Vec<u8>, rest: &Vec<u8>) -> (out: Vec<u8>)
    requires
        rest@.len() <= buf@.len(),
    ensures
        out@ == raw_value(buf@, rest@),
{
    let n: usize = buf.len() - rest.len();
    let out: Vec<u8> = sub_vec(buf.as_slice(), 0, n);
    assert(out@ =~= raw_value(buf@, rest@));
    out
}

#[verifier::spinoff_prover]
fn find_names(pos: &Vec<u8>) -> (got: Result<(Vec<u8>, Vec<u8>), Error>)
    ensures
        found(got, names_at(pos@)),
{
    let (_, after) = match peel_tag(pos.as_slice(), 0x02) {
        Some(p) => p,
        None => {
            return refuse("cert: bad serial");
        },
    };
    let (_, at_issuer) = match peel_tlv(after.as_slice()) {
        Some(p) => p,
        None => {
            return refuse("cert: bad sigAlgo");
        },
    };
    let (_, rest) = match peel_tag(at_issuer.as_slice(), 0x30) {
        Some(p) => p,
        None => {
            return refuse("cert: bad issuer SEQUENCE");
        },
    };
    proof {
        lemma_peeled_shorter(pos@);
        lemma_peeled_shorter(at_issuer@);
    }
    Ok((take_raw(&at_issuer, &rest), take_raw(pos, &after)))
}

/// Takes the issuer and the serial number out of a certificate.
#[verifier::spinoff_prover]
pub fn extract_issuer_serial(cert_der: &[u8]) -> (got: Result<(Vec<u8>, Vec<u8>), Error>)
    ensures
        found(got, issuer_serial(cert_der@)),
{
    let (content, _) = match peel_tag(cert_der, 0x30) {
        Some(p) => p,
        None => {
            return refuse("cert: bad outer SEQUENCE");
        },
    };
    let (tbs, _) = match peel_tag(content.as_slice(), 0x30) {
        Some(p) => p,
        None => {
            return refuse("cert: bad TBSCertificate SEQUENCE");
        },
    };
    if tbs.len() > 0 && tbs[0] == 0xa0 {
        match peel_tlv(tbs.as_slice()) {
            Some((_, rest)) => find_names(&rest),
            None => refuse("cert: bad version"),
        }
    } else {
        find_names(&tbs)
    }
}

pub open spec fn pkcs7_data() -> Seq<u8> {
    oid(seq![1u32, 2, 840, 113549, 1, 7, 1])
}

pub open spec fn pkcs7_signed_data() -> Seq<u8> {
    oid(seq![1u32, 2, 840, 113549, 1, 7, 2])
}

/// The attributes that are signed: the type of the content and its digest.
pub open spec fn signed_attributes(content: Seq<u8>) -> Seq<u8> {
    sequence(oid(seq![1u32, 2, 840, 113549, 1, 9, 3]) + der(0x31, pkcs7_data())) + sequence(
        oid(seq![1u32, 2, 840, 113549, 1, 9, 4]) + der(0x31, der(0x04, sha1_digest(content))),
    )
}

/// Who signed, over what, and the signature.
pub open spec fn signer_info(
    issuer: Seq<u8>,
    serial: Seq<u8>,
    attributes: Seq<u8>,
    signature: Seq<u8>,
) -> Seq<u8> {
    sequence(
        der(0x02, seq![1u8]) + sequence(issuer + serial) + sha1_algorithm() + der(0xa0, attributes)
            + sha1_with_rsa() + der(0x04, signature),
    )
}

/// A signed message: the content, the signer's certificate and the signer.
pub open spec fn signed_message(content: Seq<u8>, cert: Seq<u8>, info: Seq<u8>) -> Seq<u8> {
    sequence(
        pkcs7_signed_data() + der(
            0xa0,
            sequence(
                der(0x02, seq![1u8]) + der(0x31, sha1_algorithm()) + sequence(
                    pkcs7_data() + der(0xa0, der(0x04, content)),
                ) + der(0xa0, cert) + der(0x31, info),
            ),
        ),
    )
}

fn pkcs_oid(a: u32, b: u32) -> (out: Vec<u8>)
    ensures
        out@ == oid(seq![1u32, 2, 840, 113549, 1, a, b]),
{
    let arcs: Vec<u32> = vec![1, 2, 840, 113549, 1, a, b];
    assert(arcs@ =~= seq![1u32, 2, 840, 113549, 1, a, b]);
    der_oid(arcs.as_slice())
}

fn version() -> (out: Vec<u8>)
    ensures
        out@ == der(0x02, seq![1u8]),
{
    let v: Vec<u8> = vec![1];
    assert(v@ =~= seq![1u8]);
    der_int(v.as_slice())
}

/// Encodes the attributes that are signed.
pub fn build_attributes(content: &[u8]) -> (out: Vec<u8>)
    ensures
        out@ == signed_attributes(content@),
{
    let mut kind: Vec<u8> = pkcs_oid(9, 3);
    put_slice(&mut kind, der_tag(0x31, pkcs_oid(7, 1).as_slice()).as_slice());
    let mut digest: Vec<u8> = pkcs_oid(9, 4);
    let octets: Vec<u8> = der_tag(0x04, sha1(content).as_slice());
    put_slice(&mut digest, der_tag(0x31, octets.as_slice()).as_slice());
    let mut out: Vec<u8> = der_seq(kind.as_slice());
    put_slice(&mut out, der_seq(digest.as_slice()).as_slice());
    out
}

/// Encodes who signed.
pub fn build_signer_info(issuer: &[u8], serial: &[u8], attributes: &[u8], signature: &[u8]) -> (out:
    Vec<u8>)
    ensures
        out@ == signer_info(issuer@, serial@, attributes@, signature@),
{
    let mut who: Vec<u8> = Vec::new();
    put_slice(&mut who, issuer);
    put_slice(&mut who, serial);
    assert(who@ =~= issuer@ + serial@);
    let mut body: Vec<u8> = version();
    put_slice(&mut body, der_seq(who.as_slice()).as_slice());
    put_slice(&mut body, sha1_oid().as_slice());
    put_slice(&mut body, der_tag(0xa0, attributes).as_slice());
    put_slice(&mut body, sha1_with_rsa_oid().as_slice());
    put_slice(&mut body, der_tag(0x04, signature).as_slice());
    der_seq(body.as_slice())
}

/// Encodes a signed message.
pub fn assemble_message(content: &[u8], cert: &[u8], info: &[u8]) -> (out: Vec<u8>)
    ensures
        out@ == signed_message(content@, cert@, info@),
{
    let mut inner: Vec<u8> = pkcs_oid(7, 1);
    put_slice(&mut inner, der_tag(0xa0, der_tag(0x04, content).as_slice()).as_slice());
    let mut data: Vec<u8> = version();
    put_slice(&mut data, der_tag(0x31, sha1_oid().as_slice()).as_slice());
    put_slice(&mut data, der_seq(inner.as_slice()).as_slice());
    put_slice(&mut data, der_tag(0xa0, cert).as_slice());
    put_slice(&mut data, der_tag(0x31, info).as_slice());
    let mut body: Vec<u8> = pkcs_oid(7, 2);
    put_slice(&mut body, der_tag(0xa0, der_seq(data.as_slice()).as_slice()).as_slice());
    der_seq(body.as_slice())
}

/// What is signed: the attributes as a set.
pub open spec fn to_be_signed(content: Seq<u8>) -> Seq<u8> {
    der(0x31, signed_attributes(content))
}

/// A message that carries `content`, signed with `key`, whose certificate is
/// `cert`: none where the key is not able to sign, or why the certificate cannot
/// be used.
pub open spec fn signed_by(content: Seq<u8>, cert: Seq<u8>, key: Seq<u8>) -> Result<
    Option<Seq<u8>>,
    Seq<char>,
> {
    match issuer_serial(cert) {
        Err(text) => Err(text),
        Ok((issuer, serial)) => match signature_with(key, to_be_signed(content)) {
            Some(signature) => Ok(
                Some(
                    signed_message(
                        content,
                        cert,
                        signer_info(issuer, serial, signed_attributes(content), signature),
                    ),
                ),
            ),
            None => Ok(None),
        },
    }
}

/// Builds a message that carries `content`, signed with `key`, whose certificate
/// is `cert_der`. There is none where the key cannot sign.
pub fn build_pkcs7_signed_data(content: &[u8], cert_der: &[u8], key: &[u8]) -> (out: Result<
    Option<Vec<u8>>,
    Error,
>)
    ensures
        match signed_by(content@, cert_der@, key@) {
            Ok(Some(m)) => out matches Ok(Some(bytes)) && bytes@ == m,
            Ok(None) => out matches Ok(None),
            Err(text) => out matches Err(Error::Lockdown(t)) && t@ == text,
        },
{
    let (issuer, serial) = match extract_issuer_serial(cert_der) {
        Ok(pair) => pair,
        Err(e) => {
            return Err(e);
        },
    };
    let attributes: Vec<u8> = build_attributes(content);
    let set: Vec<u8> = der_tag(0x31, attributes.as_slice());
    match sign(key, set.as_slice()) {
        Some(signature) => {
            let info: Vec<u8> = build_signer_info(
                issuer.as_slice(),
                serial.as_slice(),
                attributes.as_slice(),
                signature.as_slice(),
            );
            Ok(Some(assemble_message(content, cert_der, info.as_slice())))
        },
        None => Ok(None),
    }
}

/// The key in some bytes: PEM first, then the two encodings; or why there is none.
pub open spec fn found_key(bytes: Seq<u8>) -> Result<Seq<u8>, Seq<char>> {
    let text = decode_utf8(bytes);
    let pem = valid_utf8(bytes) && occurs_in(text, "-----"@);
    if pem && pkcs8_pem_key(text) is Some {
        Ok(pkcs8_pem_key(text)->0)
    } else if pem && pkcs1_pem_key(text) is Some {
        Ok(pkcs1_pem_key(text)->0)
    } else if pkcs8_der_key(bytes) is Some {
        Ok(pkcs8_der_key(bytes)->0)
    } else {
        match pkcs1_der_key(bytes) {
            Ok(key) => Ok(key),
            Err(e) => Err("parse supervision key (tried PEM+PKCS8+PKCS1 DER): "@ + e),
        }
    }
}

/// The key in some bytes that can be used to sign, or why there is none.
pub open spec fn rsa_key(bytes: Seq<u8>) -> Result<Seq<u8>, Seq<char>> {
    match found_key(bytes) {
        Ok(key) => if lopsided(key) {
            Err("parse supervision key: primes too far apart"@)
        } else {
            Ok(key)
        },
        Err(text) => Err(text),
    }
}

/// Reads a private key that can be used to sign: PEM or DER, PKCS#8 or PKCS#1.
pub fn parse_rsa_key_bytes(bytes: &[u8]) -> (key: Result<Vec<u8>, Error>)
    ensures
        match rsa_key(bytes@) {
            Ok(k) => key matches Ok(v) && v@ == k,
            Err(text) => key matches Err(Error::Lockdown(t)) && t@ == text,
        },
{
    match find_key(bytes) {
        Ok(key) => if is_lopsided(key.as_slice()) {
            Err(Error::Lockdown(own("parse supervision key: primes too far apart")))
        } else {
            Ok(key)
        },
        Err(e) => Err(e),
    }
}

fn find_key(bytes: &[u8]) -> (key: Result<Vec<u8>, Error>)
    ensures
        match found_key(bytes@) {
            Ok(k) => key matches Ok(v) && v@ == k,
            Err(text) => key matches Err(Error::Lockdown(t)) && t@ == text,
        },
{
    if let Some(text) = utf8_text(bytes) {
        if contains(text.as_str(), "-----") {
            if let Some(key) = key_from_pkcs8_pem(text.as_str()) {
                return Ok(key);
            }
            if let Some(key) = key_from_pkcs1_pem(text.as_str()) {
                return Ok(key);
            }
        }
    }
    if let Some(key) = key_from_pkcs8_der(bytes) {
        return Ok(key);
    }
    match key_from_pkcs1_der(bytes) {
        Ok(key) => Ok(key),
        Err(e) => Err(
            Error::Lockdown(
                join2("parse supervision key (tried PEM+PKCS8+PKCS1 DER): ", e.as_str()),
            ),
        ),
    }
}

/// Where the issuer and the serial number of a certificate stand: the serial number is
/// the first field, or the second behind a version; the issuer is the second field behind
/// it. Both are taken with their tags, whatever the other fields hold.
pub proof fn lemma_names_found(
    version: Option<Seq<u8>>,
    serial: Seq<u8>,
    tag: u8,
    algorithm: Seq<u8>,
    issuer: Seq<u8>,
    more: Seq<u8>,
    rest: Seq<u8>,
)
    requires
        serial.len() + algorithm.len() + issuer.len() + more.len() + rest.len() < 0xf000,
        version matches Some(v) ==> v.len() < 0x100,
    ensures
        ({
            let head = match version {
                Some(v) => der(0xa0, v),
                None => Seq::empty(),
            };
            let fields = head + (der(0x02, serial) + (der(tag, algorithm) + (der(0x30, issuer)
                + more)));
            issuer_serial(der(0x30, der(0x30, fields) + rest)) == Ok::<
                (Seq<u8>, Seq<u8>),
                Seq<char>,
            >((der(0x30, issuer), der(0x02, serial)))
        }),
{
    broadcast use super::der::lemma_der_len;

    let none = Seq::<u8>::empty();
    let head = match version {
        Some(v) => der(0xa0, v),
        None => Seq::empty(),
    };
    let at_issuer = der(0x30, issuer) + more;
    let after = der(tag, algorithm) + at_issuer;
    let pos = der(0x02, serial) + after;
    let fields = head + pos;
    let content = der(0x30, fields) + rest;
    lemma_der_roundtrip(0x30, content, none);
    assert(der(0x30, content) + none =~= der(0x30, content));
    lemma_der_roundtrip(0x30, fields, rest);
    match version {
        Some(v) => {
            lemma_der_roundtrip(0xa0, v, pos);
            assert(fields[0] == 0xa0);
        },
        None => {
            assert(fields =~= pos);
            assert(fields[0] == 0x02);
        },
    }
    assert(from_serial(fields) == Some(pos));
    lemma_der_roundtrip(0x02, serial, after);
    lemma_der_roundtrip(tag, algorithm, at_issuer);
    lemma_der_roundtrip(0x30, issuer, more);
    assert(raw_value(at_issuer, more) =~= der(0x30, issuer));
    assert(raw_value(pos, after) =~= der(0x02, serial));
}

/// The attributes are two: that the content is data, and the digest of the content.
pub proof fn lemma_attributes_tell(content: Seq<u8>)
    requires
        sha1_digest(content).len() == 20,
    ensures
        ({
            let a = signed_attributes(content);
            &&& a.len() < 128
            &&& peeled_tag(a, 0x30) matches Some((kind, rest)) && {
                &&& kind.take(11) == seq![0x06u8, 9, 0x2a, 0x86, 0x48, 0x86, 0xf7, 0x0d, 1, 9, 3]
                &&& peeled_tag(kind.skip(11), 0x31) matches Some((data, _)) && data == seq![
                    0x06u8,
                    9,
                    0x2a,
                    0x86,
                    0x48,
                    0x86,
                    0xf7,
                    0x0d,
                    1,
                    7,
                    1,
                ]
                &&& peeled_tag(rest, 0x30) matches Some((digest, end)) && {
                    &&& end.len() == 0
                    &&& digest.take(11) == seq![
                        0x06u8,
                        9,
                        0x2a,
                        0x86,
                        0x48,
                        0x86,
                        0xf7,
                        0x0d,
                        1,
                        9,
                        4,
                    ]
                    &&& peeled_tag(digest.skip(11), 0x31) matches Some((octets, _)) && peeled_tag(
                        octets,
                        0x04,
                    ) matches Some((d, _)) && d == sha1_digest(content)
                }
            }
            &&& to_be_signed(content)[0] == 0x31
            &&& to_be_signed(content).skip(1) == der(0xa0, a).skip(1)
        }),
{
    broadcast use super::der::lemma_der_len;

    lemma_rsa_arcs(9, 3);
    lemma_rsa_arcs(9, 4);
    lemma_rsa_arcs(7, 1);
    let none = Seq::<u8>::empty();
    let d = der(0x04, sha1_digest(content));
    let kind = oid(seq![1u32, 2, 840, 113549, 1, 9, 3]) + der(0x31, pkcs7_data());
    let digest = oid(seq![1u32, 2, 840, 113549, 1, 9, 4]) + der(0x31, d);
    let a = signed_attributes(content);
    assert(a =~= der(0x30, kind) + der(0x30, digest));
    lemma_der_roundtrip(0x30, kind, der(0x30, digest));
    lemma_der_roundtrip(0x30, digest, none);
    assert(der(0x30, digest) + none =~= der(0x30, digest));
    assert(kind.take(11) =~= oid(seq![1u32, 2, 840, 113549, 1, 9, 3]));
    assert(kind.skip(11) =~= der(0x31, pkcs7_data()) + none);
    lemma_der_roundtrip(0x31, pkcs7_data(), none);
    assert(digest.take(11) =~= oid(seq![1u32, 2, 840, 113549, 1, 9, 4]));
    assert(digest.skip(11) =~= der(0x31, d) + none);
    lemma_der_roundtrip(0x31, d, none);
    lemma_der_roundtrip(0x04, sha1_digest(content), none);
    assert(d + none =~= d);
    assert(to_be_signed(content).skip(1) =~= der(0xa0, a).skip(1)) by {
        reveal(der);
    }
}

/// What a signer states, field by field: version 1, issuer and serial number, the digest
/// algorithm, the attributes, the signature algorithm, and the signature.
#[verifier::spinoff_prover]
pub proof fn lemma_signer_tells(
    issuer: Seq<u8>,
    serial: Seq<u8>,
    attributes: Seq<u8>,
    signature: Seq<u8>,
)
    requires
        issuer.len() + serial.len() + attributes.len() + signature.len() < 0xf000,
    ensures
        peeled_tag(signer_info(issuer, serial, attributes, signature), 0x30) matches Some((f, end))
            && {
            &&& end.len() == 0
            &&& peeled_tag(f, 0x02) matches Some((version, _)) && version == seq![1u8]
            &&& peeled_tag(past(f, 1), 0x30) matches Some((who, _)) && who == issuer + serial
            &&& past(f, 2).take(11) == sha1_algorithm()
            &&& peeled_tag(past(f, 3), 0xa0) matches Some((a, _)) && a == attributes
            &&& past(f, 4).take(15) == sha1_with_rsa()
            &&& peeled_tag(past(f, 5), 0x04) matches Some((s, last)) && s == signature && last.len()
                == 0
        },
{
    broadcast use super::der::lemma_der_len;

    super::x509::lemma_algorithms();
    lemma_rsa_arcs(1, 5);
    let none = Seq::<u8>::empty();
    let digest = oid(seq![1u32, 3, 14, 3, 2, 26]) + seq![5u8, 0u8];
    let algorithm = oid(seq![1u32, 2, 840, 113549, 1, 1, 5]) + seq![5u8, 0u8];
    assert(digest.len() < 128) by {
        if digest.len() >= 128 {
            assert(sha1_algorithm().len() > 128);
        }
    }
    let r5 = der(0x04, signature) + none;
    let r4 = der(0x30, algorithm) + r5;
    let r3 = der(0xa0, attributes) + r4;
    let r2 = der(0x30, digest) + r3;
    let r1 = der(0x30, issuer + serial) + r2;
    let f = der(0x02, seq![1u8]) + r1;
    assert(der(0x30, f) + none =~= signer_info(issuer, serial, attributes, signature)) by {
        assert(f =~= der(0x02, seq![1u8]) + sequence(issuer + serial) + sha1_algorithm() + der(
            0xa0,
            attributes,
        ) + sha1_with_rsa() + der(0x04, signature));
    }
    lemma_der_roundtrip(0x30, f, none);
    lemma_past(f, 0, 0x02, seq![1u8], r1);
    lemma_past(f, 1, 0x30, issuer + serial, r2);
    lemma_past(f, 2, 0x30, digest, r3);
    lemma_past(f, 3, 0xa0, attributes, r4);
    lemma_past(f, 4, 0x30, algorithm, r5);
    lemma_past(f, 5, 0x04, signature, none);
    assert(r2.take(11) =~= sha1_algorithm());
    assert(r4.take(15) =~= sha1_with_rsa());
}

/// What a signed message holds: that it is signed data, version 1, the digest algorithm,
/// the content as data, the certificate, and the signer.
#[verifier::spinoff_prover]
pub proof fn lemma_message_tells(content: Seq<u8>, cert: Seq<u8>, info: Seq<u8>)
    requires
        content.len() + cert.len() + info.len() < 0xf000,
    ensures
        peeled_tag(signed_message(content, cert, info), 0x30) matches Some((m, end)) && {
            &&& end.len() == 0
            &&& m.take(11) == seq![0x06u8, 9, 0x2a, 0x86, 0x48, 0x86, 0xf7, 0x0d, 1, 7, 2]
            &&& peeled_tag(m.skip(11), 0xa0) matches Some((wrapped, _)) && peeled_tag(
                wrapped,
                0x30,
            ) matches Some((f, _)) && {
                &&& peeled_tag(f, 0x02) matches Some((version, _)) && version == seq![1u8]
                &&& peeled_tag(past(f, 1), 0x31) matches Some((d, _)) && d == sha1_algorithm()
                &&& peeled_tag(past(f, 2), 0x30) matches Some((data, _)) && {
                    &&& data.take(11) == seq![0x06u8, 9, 0x2a, 0x86, 0x48, 0x86, 0xf7, 0x0d, 1, 7, 1]
                    &&& peeled_tag(data.skip(11), 0xa0) matches Some((octets, _)) && peeled_tag(
                        octets,
                        0x04,
                    ) matches Some((c, _)) && c == content
                }
                &&& peeled_tag(past(f, 3), 0xa0) matches Some((c, _)) && c == cert
                &&& peeled_tag(past(f, 4), 0x31) matches Some((i, last)) && i == info && last.len()
                    == 0
            }
        },
{
    broadcast use super::der::lemma_der_len;

    super::x509::lemma_algorithms();
    lemma_rsa_arcs(7, 1);
    lemma_rsa_arcs(7, 2);
    let none = Seq::<u8>::empty();
    let octets = der(0x04, content);
    let data = pkcs7_data() + der(0xa0, octets);
    let r4 = der(0x31, info) + none;
    let r3 = der(0xa0, cert) + r4;
    let r2 = der(0x30, data) + r3;
    let r1 = der(0x31, sha1_algorithm()) + r2;
    let f = der(0x02, seq![1u8]) + r1;
    let wrapped = der(0x30, f);
    let m = pkcs7_signed_data() + der(0xa0, wrapped);
    assert(f =~= der(0x02, seq![1u8]) + der(0x31, sha1_algorithm()) + sequence(data) + der(
        0xa0,
        cert,
    ) + der(0x31, info));
    assert(der(0x30, m) + none =~= signed_message(content, cert, info));
    lemma_der_roundtrip(0x30, m, none);
    assert(m.take(11) =~= pkcs7_signed_data());
    assert(m.skip(11) =~= der(0xa0, wrapped) + none);
    lemma_der_roundtrip(0xa0, wrapped, none);
    lemma_der_roundtrip(0x30, f, none);
    assert(wrapped + none =~= wrapped);
    lemma_past(f, 0, 0x02, seq![1u8], r1);
    lemma_past(f, 1, 0x31, sha1_algorithm(), r2);
    lemma_past(f, 2, 0x30, data, r3);
    lemma_past(f, 3, 0xa0, cert, r4);
    lemma_past(f, 4, 0x31, info, none);
    assert(data.take(11) =~= pkcs7_data());
    assert(data.skip(11) =~= der(0xa0, octets) + none);
    lemma_der_roundtrip(0xa0, octets, none);
    lemma_der_roundtrip(0x04, content, none);
    assert(octets + none =~= octets);
}

/// A message is signed with the key over the attributes of its content, and names the
/// issuer and the serial number of the certificate that it carries.
pub proof fn lemma_signed_by(content: Seq<u8>, cert: Seq<u8>, key: Seq<u8>)
    ensures
        match (issuer_serial(cert), signature_with(key, to_be_signed(content))) {
            (Ok((issuer, serial)), Some(signature)) => signed_by(content, cert, key) == Ok::<
                Option<Seq<u8>>,
                Seq<char>,
            >(
                Some(
                    signed_message(
                        content,
                        cert,
                        signer_info(issuer, serial, signed_attributes(content), signature),
                    ),
                ),
            ),
            (Ok(_), None) => signed_by(content, cert, key) == Ok::<Option<Seq<u8>>, Seq<char>>(None),
            (Err(why), _) => signed_by(content, cert, key) == Err::<Option<Seq<u8>>, Seq<char>>(why),
        },
{
}

/// A key that is found is one of those in the bytes and can be used to sign; where the
/// bytes are no text with dashes, the PKCS#8 encoding goes before the PKCS#1 encoding.
pub proof fn lemma_keys_found(bytes: Seq<u8>)
    ensures
        rsa_key(bytes) matches Ok(key) ==> {
            &&& !lopsided(key)
            &&& {
                ||| pkcs8_der_key(bytes) == Some(key)
                ||| pkcs1_der_key(bytes) == Ok::<Seq<u8>, Seq<char>>(key)
                ||| valid_utf8(bytes) && pkcs8_pem_key(decode_utf8(bytes)) == Some(key)
                ||| valid_utf8(bytes) && pkcs1_pem_key(decode_utf8(bytes)) == Some(key)
            }
        },
        !valid_utf8(bytes) ==> (pkcs8_der_key(bytes) matches Some(key) ==> rsa_key(bytes)
            == if lopsided(key) {
            Err::<Seq<u8>, Seq<char>>("parse supervision key: primes too far apart"@)
        } else {
            Ok::<Seq<u8>, Seq<char>>(key)
        }),
        !valid_utf8(bytes) && pkcs8_der_key(bytes) is None ==> (rsa_key(bytes) is Ok <==> (
        pkcs1_der_key(bytes) matches Ok(key) && !lopsided(key))),
        valid_utf8(bytes) && occurs_in(decode_utf8(bytes), "-----"@) ==> (pkcs8_pem_key(
            decode_utf8(bytes),
        ) matches Some(key) ==> (lopsided(key) <==> rsa_key(bytes) is Err) && (rsa_key(
            bytes,
        ) matches Ok(k) ==> k == key)),
{
}

/// A certificate in which the issuer and the serial number cannot be found is refused for
/// the first part that is not what it has to be.
pub proof fn lemma_names_refused(cert: Seq<u8>, content: Seq<u8>, tbs: Seq<u8>, pos: Seq<u8>)
    ensures
        peeled_tag(cert, 0x30) is None
            ==> issuer_serial(cert)
            == Err::<(Seq<u8>, Seq<u8>), Seq<char>>("cert: bad outer SEQUENCE"@),
        peeled_tag(cert, 0x30) is Some && (peeled_tag(cert, 0x30)->0).0 == content ==> {
            &&& peeled_tag(content, 0x30) is None
                    ==> issuer_serial(cert)
                    == Err::<(Seq<u8>, Seq<u8>), Seq<char>>("cert: bad TBSCertificate SEQUENCE"@)
            &&& peeled_tag(content, 0x30) is Some && (peeled_tag(content, 0x30)->0).0 == tbs ==> {
                &&& from_serial(tbs) is None
                        ==> issuer_serial(cert)
                        == Err::<(Seq<u8>, Seq<u8>), Seq<char>>("cert: bad version"@)
                &&& from_serial(tbs) == Some(pos) && peeled_tag(pos, 0x02) is None
                        ==> issuer_serial(cert)
                        == Err::<(Seq<u8>, Seq<u8>), Seq<char>>("cert: bad serial"@)
                &&& from_serial(tbs) == Some(pos) && peeled_tag(pos, 0x02) is Some
                        && peeled((peeled_tag(pos, 0x02)->0).1) is None
                        ==> issuer_serial(cert)
                        == Err::<(Seq<u8>, Seq<u8>), Seq<char>>("cert: bad sigAlgo"@)
                &&& from_serial(tbs) == Some(pos) && peeled_tag(pos, 0x02) is Some
                        && peeled((peeled_tag(pos, 0x02)->0).1) is Some
                        && peeled_tag((peeled((peeled_tag(pos, 0x02)->0).1)->0).1, 0x30) is None
                        ==> issuer_serial(cert)
                        == Err::<(Seq<u8>, Seq<u8>), Seq<char>>("cert: bad issuer SEQUENCE"@)
            }
        },
{
}

} // verus!
