//! The certificates of a pairing: X.509 v3, SHA-1 with RSA, serial number zero,
//! empty names.

use vstd::prelude::*;
use crate::bytes::{put_slice, sub_vec};
use super::calendar::{day_number, days_to_ymd, is_date, lemma_day_number_injective};
use super::crypto::{sha1, sha1_digest, sign, signature_with};
use super::der::{
    arcs_bytes, base128, base128_high, boolean, der, der_bool, der_ctx, der_int, der_oid, der_seq,
    der_tag, lemma_arcs, lemma_der_roundtrip, lemma_past, lemma_rsa_arcs, oid, past, peel_tag,
    peel_tlv, peeled, peeled_tag, sequence,
};


verus! {

/// What a certificate is for.
#[derive(Clone, Copy, Debug, PartialEq, Eq, Structural)]
pub enum CertKind {
    /// The authority that signs the others.
    Root,
    /// A host or a device.
    Leaf,
}

/// Two decimal digits.
pub open spec fn two_digits(n: int) -> Seq<u8> {
    seq![(48 + n / 10) as u8, (48 + n % 10) as u8]
}

/// The date that is `days` days after the start of 1970.
pub open spec fn date_of(days: int) -> (int, int, int) {
    choose|y: int, m: int, d: int| is_date(y, m, d) && #[trigger] day_number(y, m, d) == days
}

/// A time as `YYMMDDHHMMSSZ`.
pub open spec fn utc_text(unix: int) -> Seq<u8> {
    let date = date_of(unix / 86400);
    let rem = unix % 86400;
    two_digits(date.0 % 100) + two_digits(date.1) + two_digits(date.2) + two_digits(rem / 3600)
        + two_digits(rem % 3600 / 60) + two_digits(rem % 60) + seq![0x5au8]
}

fn put_two(out: &mut Vec<u8>, n: u64)
    requires
        n < 100,
    ensures
        final(out)@ == old(out)@ + two_digits(n as int),
{
    out.push((48 + n / 10) as u8);
    out.push((48 + n % 10) as u8);
    assert(out@ =~= old(out)@ + two_digits(n as int));
}

/// Encodes a time.
pub fn der_utc_time(unix: u64) -> (out: Vec<u8>)
    ensures
        out@ == der(0x17, utc_text(unix as int)),
{
    let days: u64 = unix / 86400;
    let rem: u64 = unix % 86400;
    let (y, m, d) = days_to_ymd(days);
    proof {
        let date = date_of(days as int);
        assert(is_date(y as int, m as int, d as int) && day_number(y as int, m as int, d as int)
            == days);
        lemma_day_number_injective(y as int, m as int, d as int, date.0, date.1, date.2);
    }
    let mut t: Vec<u8> = Vec::new();
    put_two(&mut t, y % 100);
    put_two(&mut t, m);
    put_two(&mut t, d);
    put_two(&mut t, rem / 3600);
    put_two(&mut t, rem % 3600 / 60);
    put_two(&mut t, rem % 60);
    t.push(0x5a);
    assert(t@ =~= utc_text(unix as int));
    der_tag(0x17, t.as_slice())
}

/// The identifier of SHA-1 with RSA, without parameters.
pub open spec fn sha1_with_rsa() -> Seq<u8> {
    sequence(oid(seq![1u32, 2, 840, 113549, 1, 1, 5]) + seq![5u8, 0u8])
}

/// The identifier of SHA-1, without parameters.
pub open spec fn sha1_algorithm() -> Seq<u8> {
    sequence(oid(seq![1u32, 3, 14, 3, 2, 26]) + seq![5u8, 0u8])
}

fn algorithm(arcs: &[u32]) -> (out: Vec<u8>)
    requires
        arcs@.len() >= 2,
        40 * arcs@[0] + arcs@[1] <= u32::MAX,
    ensures
        out@ == sequence(oid(arcs@) + seq![5u8, 0u8]),
{
    let mut body: Vec<u8> = der_oid(arcs);
    body.push(5);
    body.push(0);
    assert(body@ =~= oid(arcs@) + seq![5u8, 0u8]);
    der_seq(body.as_slice())
}

/// Encodes the identifier of SHA-1 with RSA.
pub fn sha1_with_rsa_oid() -> (out: Vec<u8>)
    ensures
        out@ == sha1_with_rsa(),
{
    let arcs: Vec<u32> = vec![1, 2, 840, 113549, 1, 1, 5];
    assert(arcs@ =~= seq![1u32, 2, 840, 113549, 1, 1, 5]);
    algorithm(arcs.as_slice())
}

/// Encodes the identifier of SHA-1.
pub fn sha1_oid() -> (out: Vec<u8>)
    ensures
        out@ == sha1_algorithm(),
{
    let arcs: Vec<u32> = vec![1, 3, 14, 3, 2, 26];
    assert(arcs@ =~= seq![1u32, 3, 14, 3, 2, 26]);
    algorithm(arcs.as_slice())
}

/// The bits of the public key inside a SubjectPublicKeyInfo: the content of its bit
/// string, without the count of unused bits.
pub open spec fn key_bits(spki: Seq<u8>) -> Option<Seq<u8>> {
    match peeled_tag(spki, 0x30) {
        Some((inner, _)) => match peeled(inner) {
            Some((_, rest)) => match peeled_tag(rest, 0x03) {
                Some((bits, _)) => if bits.len() > 0 {
                    Some(bits.skip(1))
                } else {
                    None
                },
                None => None,
            },
            None => None,
        },
        None => None,
    }
}

/// The identifier of a public key: the digest of its bits.
pub open spec fn key_identifier(spki: Seq<u8>) -> Seq<u8> {
    sha1_digest(
        match key_bits(spki) {
            Some(bits) => bits,
            None => spki,
        },
    )
}

/// Takes the bits of the public key out of a SubjectPublicKeyInfo.
pub fn extract_spki_bits(spki: &[u8]) -> (bits: Option<Vec<u8>>)
    ensures
        match bits {
            Some(b) => key_bits(spki@) == Some(b@),
            None => key_bits(spki@) is None,
        },
{
    let (inner, _) = match peel_tag(spki, 0x30) {
        Some(p) => p,
        None => {
            return None;
        },
    };
    let (_, rest) = match peel_tlv(inner.as_slice()) {
        Some(p) => p,
        None => {
            return None;
        },
    };
    let (bits, _) = match peel_tag(rest.as_slice(), 0x03) {
        Some(p) => p,
        None => {
            return None;
        },
    };
    if bits.len() == 0 {
        return None;
    }
    let n: usize = bits.len();
    let out: Vec<u8> = sub_vec(bits.as_slice(), 1, n);
    assert(out@ =~= bits@.skip(1));
    Some(out)
}

/// Computes the identifier of a public key.
pub fn ski_hash(spki_der: &[u8]) -> (ski: Vec<u8>)
    ensures
        ski@ == key_identifier(spki_der@),
        ski@.len() == 20,
{
    match extract_spki_bits(spki_der) {
        Some(bits) => sha1(bits.as_slice()),
        None => sha1(spki_der),
    }
}

/// The extensions of a certificate: the key identifier, and what the key may do.
pub open spec fn extensions(ski: Seq<u8>, kind: CertKind) -> Seq<u8> {
    sequence(oid(seq![2u32, 5, 29, 14]) + der(0x04, der(0x04, ski))) + match kind {
        CertKind::Root => sequence(
            oid(seq![2u32, 5, 29, 19]) + boolean(true) + der(0x04, sequence(boolean(true))),
        ),
        CertKind::Leaf => sequence(
            oid(seq![2u32, 5, 29, 15]) + boolean(true) + der(
                0x04,
                der(0x03, seq![0x05u8, 0xa0u8]),
            ),
        ),
    }
}

fn critical(arcs: &[u32], value: &[u8]) -> (out: Vec<u8>)
    requires
        arcs@.len() >= 2,
        40 * arcs@[0] + arcs@[1] <= u32::MAX,
    ensures
        out@ == sequence(oid(arcs@) + boolean(true) + der(0x04, value@)),
{
    let mut body: Vec<u8> = der_oid(arcs);
    put_slice(&mut body, der_bool(true).as_slice());
    put_slice(&mut body, der_tag(0x04, value).as_slice());
    der_seq(body.as_slice())
}

/// Encodes the extensions of a certificate.
pub fn build_extensions(ski: &[u8], kind: CertKind) -> (out: Vec<u8>)
    ensures
        out@ == extensions(ski@, kind),
{
    let ski_arcs: Vec<u32> = vec![2, 5, 29, 14];
    assert(ski_arcs@ =~= seq![2u32, 5, 29, 14]);
    let mut body: Vec<u8> = der_oid(ski_arcs.as_slice());
    put_slice(&mut body, der_tag(0x04, der_tag(0x04, ski).as_slice()).as_slice());
    let mut out: Vec<u8> = der_seq(body.as_slice());
    match kind {
        CertKind::Root => {
            let arcs: Vec<u32> = vec![2, 5, 29, 19];
            assert(arcs@ =~= seq![2u32, 5, 29, 19]);
            let value: Vec<u8> = der_seq(der_bool(true).as_slice());
            put_slice(&mut out, critical(arcs.as_slice(), value.as_slice()).as_slice());
        },
        CertKind::Leaf => {
            let arcs: Vec<u32> = vec![2, 5, 29, 15];
            assert(arcs@ =~= seq![2u32, 5, 29, 15]);
            let usage: Vec<u8> = vec![0x05, 0xa0];
            assert(usage@ =~= seq![0x05u8, 0xa0u8]);
            let value: Vec<u8> = der_tag(0x03, usage.as_slice());
            put_slice(&mut out, critical(arcs.as_slice(), value.as_slice()).as_slice());
        },
    }
    out
}

/// The part of a certificate that is signed.
pub open spec fn certificate_body(spki: Seq<u8>, kind: CertKind, from: int, until: int) -> Seq<
    u8,
> {
    sequence(
        der(0xa0, der(0x02, seq![2u8])) + der(0x02, seq![0u8]) + sha1_with_rsa() + sequence(
            Seq::empty(),
        ) + sequence(der(0x17, utc_text(from)) + der(0x17, utc_text(until))) + sequence(
            Seq::empty(),
        ) + spki + der(0xa3, sequence(extensions(key_identifier(spki), kind))),
    )
}

/// A certificate with its signature.
pub open spec fn certificate(body: Seq<u8>, signature: Seq<u8>) -> Seq<u8> {
    sequence(body + sha1_with_rsa() + der(0x03, seq![0u8] + signature))
}

fn small_int(n: u8) -> (out: Vec<u8>)
    requires
        n < 0x80,
    ensures
        out@ == der(0x02, seq![n]),
{
    let v: Vec<u8> = vec![n];
    assert(v@ =~= seq![n]);
    der_int(v.as_slice())
}

/// Encodes the part of a certificate that is signed.
pub fn build_tbs(spki: &[u8], kind: CertKind, not_before: u64, not_after: u64) -> (out: Vec<u8>)
    ensures
        out@ == certificate_body(spki@, kind, not_before as int, not_after as int),
{
    assert(0xa0u8 | 0u8 == 0xa0u8) by (bit_vector);
    assert(0xa0u8 | 3u8 == 0xa3u8) by (bit_vector);
    let none: Vec<u8> = Vec::new();
    assert(none@ =~= Seq::<u8>::empty());
    let mut body: Vec<u8> = der_ctx(0, small_int(2).as_slice());
    put_slice(&mut body, small_int(0).as_slice());
    put_slice(&mut body, sha1_with_rsa_oid().as_slice());
    put_slice(&mut body, der_seq(none.as_slice()).as_slice());
    let mut validity: Vec<u8> = der_utc_time(not_before);
    put_slice(&mut validity, der_utc_time(not_after).as_slice());
    put_slice(&mut body, der_seq(validity.as_slice()).as_slice());
    put_slice(&mut body, der_seq(none.as_slice()).as_slice());
    put_slice(&mut body, spki);
    let exts: Vec<u8> = build_extensions(ski_hash(spki).as_slice(), kind);
    put_slice(&mut body, der_ctx(3, der_seq(exts.as_slice()).as_slice()).as_slice());
    der_seq(body.as_slice())
}

/// Puts a certificate together.
pub fn assemble_cert(tbs: &[u8], signature: &[u8]) -> (out: Vec<u8>)
    ensures
        out@ == certificate(tbs@, signature@),
{
    let mut bits: Vec<u8> = Vec::new();
    bits.push(0);
    put_slice(&mut bits, signature);
    assert(bits@ =~= seq![0u8] + signature@);
    let mut body: Vec<u8> = Vec::new();
    put_slice(&mut body, tbs);
    put_slice(&mut body, sha1_with_rsa_oid().as_slice());
    put_slice(&mut body, der_tag(0x03, bits.as_slice()).as_slice());
    assert(body@ =~= tbs@ + sha1_with_rsa() + der(0x03, seq![0u8] + signature@));
    der_seq(body.as_slice())
}

/// The certificate of a public key, signed with a key that can sign it.
pub open spec fn signed_certificate(
    spki: Seq<u8>,
    kind: CertKind,
    signing_key: Seq<u8>,
    from: int,
    until: int,
) -> Option<Seq<u8>> {
    let body = certificate_body(spki, kind, from, until);
    match signature_with(signing_key, body) {
        Some(signature) => Some(certificate(body, signature)),
        None => None,
    }
}

/// Builds the certificate of a public key.
pub fn build_cert(
    spki: &[u8],
    kind: CertKind,
    signing_key: &[u8],
    not_before: u64,
    not_after: u64,
) -> (cert: Option<Vec<u8>>)
    ensures
        match cert {
            Some(c) => signed_certificate(
                spki@,
                kind,
                signing_key@,
                not_before as int,
                not_after as int,
            ) == Some(c@),
            None => signed_certificate(
                spki@,
                kind,
                signing_key@,
                not_before as int,
                not_after as int,
            ) is None,
        },
{
    let tbs: Vec<u8> = build_tbs(spki, kind, not_before, not_after);
    match sign(signing_key, tbs.as_slice()) {
        Some(signature) => Some(assemble_cert(tbs.as_slice(), signature.as_slice())),
        None => None,
    }
}

/// The number that two digits at a place count.
pub open spec fn two_at(s: Seq<u8>, at: int) -> int {
    10 * (s[at] - 48) + (s[at + 1] - 48)
}

/// A time is written as the last two digits of the year, the month, the day, the hour, the
/// minute and the second of it, and a `Z`.
pub proof fn lemma_utc_text(y: int, m: int, d: int, hour: int, minute: int, second: int)
    requires
        is_date(y, m, d),
        0 <= hour < 24,
        0 <= minute < 60,
        0 <= second < 60,
    ensures
        ({
            let t = utc_text(86400 * day_number(y, m, d) + 3600 * hour + 60 * minute + second);
            &&& t.len() == 13
            &&& forall|i: int| 0 <= i < 12 ==> 48 <= #[trigger] t[i] < 58
            &&& two_at(t, 0) == y % 100
            &&& two_at(t, 2) == m
            &&& two_at(t, 4) == d
            &&& two_at(t, 6) == hour
            &&& two_at(t, 8) == minute
            &&& two_at(t, 10) == second
            &&& t[12] == 90
        }),
{
    let days = day_number(y, m, d);
    let unix = 86400 * days + 3600 * hour + 60 * minute + second;
    let date = date_of(days);
    assert(is_date(y, m, d) && day_number(y, m, d) == days);
    lemma_day_number_injective(y, m, d, date.0, date.1, date.2);
    assert(unix / 86400 == days);
    assert(unix % 86400 == 3600 * hour + 60 * minute + second);
    assert((3600 * hour + 60 * minute + second) / 3600 == hour);
    assert((3600 * hour + 60 * minute + second) % 3600 == 60 * minute + second);
    assert((60 * minute + second) / 60 == minute);
    assert((3600 * hour + 60 * minute + second) % 60 == second);
    assert(0 <= d <= 31);
    let t = utc_text(unix);
    assert(t =~= two_digits(y % 100) + two_digits(m) + two_digits(d) + two_digits(hour)
        + two_digits(minute) + two_digits(second) + seq![90u8]);
    lemma_two_digits(y % 100);
    lemma_two_digits(m);
    lemma_two_digits(d);
    lemma_two_digits(hour);
    lemma_two_digits(minute);
    lemma_two_digits(second);
}

proof fn lemma_two_digits(n: int)
    requires
        0 <= n < 100,
    ensures
        two_digits(n).len() == 2,
        48 <= two_digits(n)[0] < 58,
        48 <= two_digits(n)[1] < 58,
        two_at(two_digits(n), 0) == n,
{
}

/// The bytes of the algorithm identifiers: 1.2.840.113549.1.1.5 and 1.3.14.3.2.26, each
/// with the null parameter.
pub proof fn lemma_algorithms()
    ensures
        sha1_with_rsa() == seq![
            0x30u8,
            0x0d,
            0x06,
            0x09,
            0x2a,
            0x86,
            0x48,
            0x86,
            0xf7,
            0x0d,
            0x01,
            0x01,
            0x05,
            0x05,
            0x00,
        ],
        sha1_algorithm() == seq![
            0x30u8,
            0x09,
            0x06,
            0x05,
            0x2b,
            0x0e,
            0x03,
            0x02,
            0x1a,
            0x05,
            0x00,
        ],
{
    reveal(der);
    lemma_rsa_arcs(1, 5);
    let arcs = seq![1u32, 3, 14, 3, 2, 26];
    let e = Seq::<u32>::empty();
    lemma_arcs(e, 14);
    lemma_arcs(e.push(14), 3);
    lemma_arcs(e.push(14).push(3), 2);
    lemma_arcs(e.push(14).push(3).push(2), 26);
    assert(arcs.skip(2) =~= e.push(14).push(3).push(2).push(26));
    reveal_with_fuel(base128_high, 2);
    assert(base128(14) =~= seq![14u8]);
    assert(base128(3) =~= seq![3u8]);
    assert(base128(2) =~= seq![2u8]);
    assert(base128(26) =~= seq![26u8]);
    assert(arcs_bytes(arcs.skip(2)) =~= seq![14u8, 3, 2, 26]);
    assert(sha1_algorithm() =~= seq![
        0x30u8,
        0x09,
        0x06,
        0x05,
        0x2b,
        0x0e,
        0x03,
        0x02,
        0x1a,
        0x05,
        0x00,
    ]);
    assert(sha1_with_rsa() =~= seq![
        0x30u8,
        0x0d,
        0x06,
        0x09,
        0x2a,
        0x86,
        0x48,
        0x86,
        0xf7,
        0x0d,
        0x01,
        0x01,
        0x05,
        0x05,
        0x00,
    ]);
}

proof fn lemma_extension_id(last: u32)
    requires
        last < 128,
    ensures
        oid(seq![2u32, 5, 29, last]) == seq![0x06u8, 0x03, 0x55, 0x1d, last as u8],
{
    reveal(der);
    let arcs = seq![2u32, 5, 29, last];
    let e = Seq::<u32>::empty();
    lemma_arcs(e, 29);
    lemma_arcs(e.push(29), last);
    assert(arcs.skip(2) =~= e.push(29).push(last));
    reveal_with_fuel(base128_high, 2);
    assert(base128(29) =~= seq![29u8]);
    assert(base128(last as nat) =~= seq![last as u8]);
    assert(arcs_bytes(arcs.skip(2)) =~= seq![29u8, last as u8]);
    assert(oid(arcs) =~= seq![0x06u8, 0x03, 0x55, 0x1d, last as u8]);
}

/// The extensions are two: the key identifier under 2.5.29.14, and for an authority that
/// it is one, under 2.5.29.19, for others that the key signs and enciphers, under
/// 2.5.29.15; the second is critical.
#[verifier::spinoff_prover]
pub proof fn lemma_extensions_tell(ski: Seq<u8>, kind: CertKind)
    requires
        ski.len() == 20,
    ensures
        ({
            let x = extensions(ski, kind);
            &&& x.len() < 128
            &&& peeled_tag(x, 0x30) matches Some((e, rest)) && {
                &&& e == seq![0x06u8, 0x03, 0x55, 0x1d, 14, 0x04, 22, 0x04, 20] + ski
                &&& peeled_tag(rest, 0x30) matches Some((g, end)) && {
                    &&& end.len() == 0
                    &&& g == match kind {
                        CertKind::Root => seq![
                            0x06u8,
                            0x03,
                            0x55,
                            0x1d,
                            19,
                            0x01,
                            0x01,
                            0xff,
                            0x04,
                            0x05,
                            0x30,
                            0x03,
                            0x01,
                            0x01,
                            0xff,
                        ],
                        CertKind::Leaf => seq![
                            0x06u8,
                            0x03,
                            0x55,
                            0x1d,
                            15,
                            0x01,
                            0x01,
                            0xff,
                            0x04,
                            0x04,
                            0x03,
                            0x02,
                            0x05,
                            0xa0,
                        ],
                    }
                }
            }
        }),
{
    reveal(der);
    lemma_extension_id(14);
    lemma_extension_id(15);
    lemma_extension_id(19);
    let e = oid(seq![2u32, 5, 29, 14]) + der(0x04, der(0x04, ski));
    assert(e =~= seq![0x06u8, 0x03, 0x55, 0x1d, 14, 0x04, 22, 0x04, 20] + ski);
    let g = match kind {
        CertKind::Root => oid(seq![2u32, 5, 29, 19]) + boolean(true) + der(
            0x04,
            sequence(boolean(true)),
        ),
        CertKind::Leaf => oid(seq![2u32, 5, 29, 15]) + boolean(true) + der(
            0x04,
            der(0x03, seq![0x05u8, 0xa0u8]),
        ),
    };
    match kind {
        CertKind::Root => {
            assert(g =~= seq![
                0x06u8,
                0x03,
                0x55,
                0x1d,
                19,
                0x01,
                0x01,
                0xff,
                0x04,
                0x05,
                0x30,
                0x03,
                0x01,
                0x01,
                0xff,
            ]);
        },
        CertKind::Leaf => {
            assert(g =~= seq![
                0x06u8,
                0x03,
                0x55,
                0x1d,
                15,
                0x01,
                0x01,
                0xff,
                0x04,
                0x04,
                0x03,
                0x02,
                0x05,
                0xa0,
            ]);
        },
    }
    let x = extensions(ski, kind);
    assert(x =~= der(0x30, e) + der(0x30, g));
    lemma_der_roundtrip(0x30, e, der(0x30, g));
    lemma_der_roundtrip(0x30, g, Seq::empty());
    assert(der(0x30, g) + Seq::<u8>::empty() =~= der(0x30, g));
}

/// What a certificate says, field by field: version 3, the serial number zero, the
/// algorithm, no issuer, from when and until when it is valid, no subject, the public key,
/// and the extensions for the identifier of that key.
#[verifier::spinoff_prover]
#[verifier::rlimit(60)]
pub proof fn lemma_certificate_tells(spki: Seq<u8>, kind: CertKind, from: int, until: int)
    requires
        spki.len() < 0xff00,
        key_identifier(spki).len() == 20,
    ensures
        peeled_tag(certificate_body(spki, kind, from, until), 0x30) matches Some((f, end)) && {
            &&& end.len() == 0
            &&& peeled_tag(f, 0xa0) matches Some((version, _)) && version == seq![2u8, 1, 2]
            &&& peeled_tag(past(f, 1), 0x02) matches Some((serial, _)) && serial == seq![0u8]
            &&& past(f, 2).take(15) == sha1_with_rsa()
            &&& peeled_tag(past(f, 3), 0x30) matches Some((issuer, _)) && issuer.len() == 0
            &&& peeled_tag(past(f, 4), 0x30) matches Some((validity, _)) && {
                &&& peeled_tag(validity, 0x17) matches Some((first, _)) && first == utc_text(from)
                &&& peeled_tag(past(validity, 1), 0x17) matches Some((last, _)) && last
                    == utc_text(until)
            }
            &&& peeled_tag(past(f, 5), 0x30) matches Some((subject, _)) && subject.len() == 0
            &&& past(f, 6).take(spki.len() as int) == spki
            &&& peeled_tag(past(f, 6).skip(spki.len() as int), 0xa3) matches Some((more, after)) && {
                &&& after.len() == 0
                &&& peeled_tag(more, 0x30) matches Some((x, _)) && x == extensions(
                    key_identifier(spki),
                    kind,
                )
            }
        },
{
    broadcast use super::der::lemma_der_len;

    let none = Seq::<u8>::empty();
    let x = extensions(key_identifier(spki), kind);
    lemma_extensions_tell(key_identifier(spki), kind);
    lemma_algorithms();
    let version = der(0x02, seq![2u8]);
    assert(version =~= seq![2u8, 1, 2]) by {
        reveal(der);
    }
    let t1 = der(0x17, utc_text(from));
    let t2 = der(0x17, utc_text(until));
    assert(t1.len() == 15 && t2.len() == 15);
    let algorithm = oid(seq![1u32, 2, 840, 113549, 1, 1, 5]) + seq![5u8, 0u8];
    lemma_rsa_arcs(1, 5);
    let v8 = der(0xa3, der(0x30, x));
    let r6 = spki + v8;
    let r5 = der(0x30, none) + r6;
    let r4 = der(0x30, t1 + t2) + r5;
    let r3 = der(0x30, none) + r4;
    let r2 = der(0x30, algorithm) + r3;
    let r1 = der(0x02, seq![0u8]) + r2;
    let f = der(0xa0, version) + r1;
    let body = certificate_body(spki, kind, from, until);
    assert(body =~= der(0x30, f)) by {
        assert(f =~= der(0xa0, version) + der(0x02, seq![0u8]) + sha1_with_rsa() + sequence(none)
            + sequence(t1 + t2) + sequence(none) + spki + der(0xa3, sequence(x)));
    }
    assert(f.len() < 0x1_0000);
    lemma_der_roundtrip(0x30, f, none);
    assert(der(0x30, f) + none =~= der(0x30, f));
    lemma_past(f, 0, 0xa0, version, r1);
    lemma_past(f, 1, 0x02, seq![0u8], r2);
    lemma_past(f, 2, 0x30, algorithm, r3);
    lemma_past(f, 3, 0x30, none, r4);
    lemma_past(f, 4, 0x30, t1 + t2, r5);
    lemma_past(f, 5, 0x30, none, r6);
    assert(r2.take(15) =~= sha1_with_rsa());
    assert(r6.take(spki.len() as int) =~= spki);
    assert(r6.skip(spki.len() as int) =~= v8);
    lemma_past(t1 + t2, 0, 0x17, utc_text(from), t2);
    lemma_der_roundtrip(0x17, utc_text(until), none);
    assert(t2 + none =~= t2);
    lemma_der_roundtrip(0xa3, der(0x30, x), none);
    assert(v8 + none =~= v8);
    lemma_der_roundtrip(0x30, x, none);
    assert(der(0x30, x) + none =~= der(0x30, x));
}

/// A certificate holds what is signed, the algorithm, and the signature as a bit string
/// without unused bits.
pub proof fn lemma_certificate_parts(body: Seq<u8>, signature: Seq<u8>)
    requires
        body.len() + signature.len() < 0xff00,
    ensures
        peeled_tag(certificate(body, signature), 0x30) matches Some((c, end)) && {
            &&& end.len() == 0
            &&& c.take(body.len() as int) == body
            &&& c.subrange(body.len() as int, body.len() as int + 15) == sha1_with_rsa()
            &&& peeled_tag(c.skip(body.len() as int + 15), 0x03) matches Some((bits, rest)) && {
                &&& rest.len() == 0
                &&& bits.len() == signature.len() + 1
                &&& bits[0] == 0
                &&& bits.skip(1) == signature
            }
        },
{
    broadcast use super::der::lemma_der_len;

    lemma_algorithms();
    let none = Seq::<u8>::empty();
    let bits = seq![0u8] + signature;
    let c = body + sha1_with_rsa() + der(0x03, bits);
    assert(bits.skip(1) =~= signature);
    assert(c.take(body.len() as int) =~= body);
    assert(c.subrange(body.len() as int, body.len() as int + 15) =~= sha1_with_rsa());
    assert(c.skip(body.len() as int + 15) =~= der(0x03, bits) + none);
    lemma_der_roundtrip(0x03, bits, none);
    lemma_der_roundtrip(0x30, c, none);
    assert(der(0x30, c) + none =~= certificate(body, signature));
}

/// A public key is identified by the digest of its bits, which stand in a bit string
/// behind the algorithm.
pub proof fn lemma_key_bits(tag: u8, algorithm: Seq<u8>, unused: u8, bits: Seq<u8>)
    requires
        algorithm.len() + bits.len() < 0xff00,
    ensures
        ({
            let spki = der(0x30, der(tag, algorithm) + der(0x03, seq![unused] + bits));
            &&& key_bits(spki) == Some(bits)
            &&& key_identifier(spki) == sha1_digest(bits)
        }),
{
    broadcast use super::der::lemma_der_len;

    let none = Seq::<u8>::empty();
    let content = seq![unused] + bits;
    let inner = der(tag, algorithm) + der(0x03, content);
    lemma_der_roundtrip(0x30, inner, none);
    assert(der(0x30, inner) + none =~= der(0x30, inner));
    lemma_der_roundtrip(tag, algorithm, der(0x03, content));
    lemma_der_roundtrip(0x03, content, none);
    assert(der(0x03, content) + none =~= der(0x03, content));
    assert(content.skip(1) =~= bits);
}

/// The signature in a certificate is that of the signing key over the part that is signed;
/// without one there is no certificate.
pub proof fn lemma_certificate_signed(
    spki: Seq<u8>,
    kind: CertKind,
    signing_key: Seq<u8>,
    from: int,
    until: int,
)
    ensures
        ({
            let body = certificate_body(spki, kind, from, until);
            match signature_with(signing_key, body) {
                Some(signature) => body.len() + signature.len() < 0xff00 ==> (signed_certificate(
                    spki,
                    kind,
                    signing_key,
                    from,
                    until,
                ) matches Some(c) && {
                    &&& peeled_tag(c, 0x30) matches Some((parts, _))
                    &&& parts.take(body.len() as int) == body
                    &&& peeled_tag(parts.skip(body.len() as int + 15), 0x03) matches Some((bits, _))
                    &&& bits.skip(1) == signature
                }),
                None => signed_certificate(spki, kind, signing_key, from, until) is None,
            }
        }),
{
    let body = certificate_body(spki, kind, from, until);
    if let Some(signature) = signature_with(signing_key, body) {
        if body.len() + signature.len() < 0xff00 {
            lemma_certificate_parts(body, signature);
        }
    }
}

} // verus!
