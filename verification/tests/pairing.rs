//! Pairing: encodings, certificates, signed messages, requests and replies.

use ios_rs::lockdown::base64::{base64_encode, pem_encode};
use ios_rs::lockdown::calendar::{days_to_ymd, is_leap};
use ios_rs::lockdown::crypto::{is_lopsided, sign};
use ios_rs::lockdown::der::{
    der_bool, der_ctx, der_int, der_oid, der_seq, der_tag, peel_length, peel_tag, peel_tlv,
};
use ios_rs::lockdown::pairing::{
    certs_from_new_keys, create_pairing_certs, device_public_key, extract_pairing_challenge,
    pairing_certs_of_size, random_upper_uuid, read_pair_reply, read_supervised_reply,
    unpair_request, wifi_address, Pairing, PairingCerts,
};
use ios_rs::lockdown::pkcs7::{
    build_attributes, build_pkcs7_signed_data, extract_issuer_serial, parse_rsa_key_bytes,
};
use ios_rs::lockdown::x509::{
    build_cert, build_extensions, der_utc_time, extract_spki_bits, sha1_oid, sha1_with_rsa_oid,
    ski_hash, CertKind,
};
use ios_rs::lockdown::{Error, PairRecord};
use ios_rs::proplist::format::{from_bytes, to_xml};
use ios_rs::proplist::{Dict, Plist};
use rsa::pkcs1::{DecodeRsaPrivateKey, EncodeRsaPrivateKey, EncodeRsaPublicKey};
use rsa::pkcs1v15::{Signature, VerifyingKey};
use rsa::pkcs8::{EncodePrivateKey, EncodePublicKey};
use rsa::signature::Verifier;
use rsa::traits::PublicKeyParts;
use rsa::{BigUint, RsaPrivateKey};
use sha1::{Digest, Sha1};

fn why(e: Error) -> String {
    match e {
        Error::Lockdown(t) => t,
        _ => panic!("another error"),
    }
}

fn key(bits: usize) -> RsaPrivateKey {
    RsaPrivateKey::new(&mut rand::rngs::OsRng, bits).unwrap()
}

fn raw(key: &RsaPrivateKey) -> Vec<u8> {
    key.to_pkcs1_der().unwrap().as_bytes().to_vec()
}

fn spki(key: &RsaPrivateKey) -> Vec<u8> {
    key.to_public_key().to_public_key_der().unwrap().as_bytes().to_vec()
}

fn public_pem(key: &RsaPrivateKey) -> Vec<u8> {
    key.to_public_key().to_pkcs1_pem(Default::default()).unwrap().into_bytes()
}

fn dict(entries: Vec<(&str, Plist)>) -> Plist {
    let mut d = Dict::new();
    for (k, v) in entries {
        d.put(k, v);
    }
    Plist::dict(d)
}

/// Takes a certificate apart: what is signed, and the signature.
fn split_cert(cert: &[u8]) -> (Vec<u8>, Vec<u8>) {
    let (content, rest) = peel_tag(cert, 0x30).unwrap();
    assert!(rest.is_empty());
    let (tbs_content, rest) = peel_tlv(&content).unwrap();
    let (_, rest) = peel_tlv(&rest).unwrap();
    let (bits, rest) = peel_tag(&rest, 0x03).unwrap();
    assert!(rest.is_empty());
    assert_eq!(bits[0], 0);
    (der_seq(&tbs_content), bits[1..].to_vec())
}

fn decode64(s: &str) -> Vec<u8> {
    let alphabet = b"ABCDEFGHIJKLMNOPQRSTUVWXYZabcdefghijklmnopqrstuvwxyz0123456789+/";
    let mut out = Vec::new();
    let (mut acc, mut n) = (0u32, 0);
    for c in s.bytes().filter(|c| *c != b'=' && *c != b'\n') {
        acc = acc << 6 | alphabet.iter().position(|a| *a == c).unwrap() as u32;
        n += 6;
        if n >= 8 {
            n -= 8;
            out.push((acc >> n) as u8);
        }
    }
    out
}

fn from_pem(pem: &[u8]) -> Vec<u8> {
    let text = std::str::from_utf8(pem).unwrap();
    let body: Vec<&str> = text.lines().filter(|l| !l.starts_with("-----")).collect();
    decode64(&body.join(""))
}

#[test]
fn base64_of_all_lengths() {
    assert_eq!(base64_encode(b""), "");
    assert_eq!(base64_encode(b"f"), "Zg==");
    assert_eq!(base64_encode(b"fo"), "Zm8=");
    assert_eq!(base64_encode(b"foo"), "Zm9v");
    assert_eq!(base64_encode(&[0xfb, 0xff]), "+/8=");
    for n in 0..10u8 {
        let data: Vec<u8> = (0..n).collect();
        assert_eq!(base64_encode(&data).len(), (data.len() + 2) / 3 * 4);
        assert_eq!(decode64(&base64_encode(&data)), data);
    }
}

#[test]
fn pem_lines_are_short() {
    let pem = pem_encode("CERTIFICATE", &[1u8; 60]);
    let text = String::from_utf8(pem).unwrap();
    let lines: Vec<&str> = text.lines().collect();
    assert_eq!(lines[0], "-----BEGIN CERTIFICATE-----");
    assert_eq!(lines[1].len(), 64);
    assert_eq!(lines[2].len(), 16);
    assert_eq!(lines[3], "-----END CERTIFICATE-----");
}

#[test]
fn days_are_dates() {
    assert_eq!(days_to_ymd(0), (1970, 1, 1));
    assert_eq!(days_to_ymd(58), (1970, 2, 28));
    assert_eq!(days_to_ymd(59), (1970, 3, 1));
    assert_eq!(days_to_ymd(11016), (2000, 2, 29));
    assert_eq!(days_to_ymd(19723), (2024, 1, 1));
    assert!(is_leap(2000) && is_leap(2024) && !is_leap(1900) && !is_leap(2023));
}

#[test]
fn times_are_written_in_utc() {
    assert_eq!(der_utc_time(0), b"\x17\x0d700101000000Z");
    assert_eq!(der_utc_time(1_700_000_000), b"\x17\x0d231114221320Z");
}

#[test]
fn values_have_lengths() {
    assert_eq!(der_tag(4, b"ab"), [4, 2, b'a', b'b']);
    assert_eq!(der_tag(4, &[0; 200])[..3], [4, 0x81, 200]);
    assert_eq!(der_tag(4, &[0; 300])[..4], [4, 0x82, 1, 44]);
    assert_eq!(der_ctx(3, b"x"), [0xa3, 1, b'x']);
    assert_eq!(der_int(&[0x80]), [2, 2, 0, 0x80]);
    assert_eq!(der_int(&[0x7f]), [2, 1, 0x7f]);
    assert_eq!(der_bool(true), [1, 1, 0xff]);
    assert_eq!(der_oid(&[1, 2, 840, 113549]), [6, 6, 0x2a, 0x86, 0x48, 0x86, 0xf7, 0x0d]);
    let mut sha1 = der_oid(&[1, 3, 14, 3, 2, 26]);
    sha1.extend([5, 0]);
    assert_eq!(sha1_oid(), der_seq(&sha1));
    let mut with_rsa = der_oid(&[1, 2, 840, 113549, 1, 1, 5]);
    with_rsa.extend([5, 0]);
    assert_eq!(sha1_with_rsa_oid(), der_seq(&with_rsa));
}

#[test]
fn values_are_peeled() {
    for n in [0usize, 1, 127, 128, 255, 256, 1000] {
        let mut buf = der_tag(4, &vec![7; n]);
        buf.extend(b"rest");
        let (content, rest) = peel_tag(&buf, 4).unwrap();
        assert_eq!((content.len(), rest.as_slice()), (n, &b"rest"[..]));
        assert!(peel_tag(&buf, 5).is_none());
        assert_eq!(peel_tlv(&buf).unwrap().0.len(), n);
    }
    assert!(peel_length(&[5, 1]).is_none());
    assert!(peel_tlv(&[]).is_none());
}

#[test]
fn key_identifiers_are_of_the_key_bits() {
    let k = key(512);
    let bits = extract_spki_bits(&spki(&k)).unwrap();
    let pkcs1 = k.to_public_key().to_pkcs1_der().unwrap().as_bytes().to_vec();
    assert!(bits.ends_with(&pkcs1));
    assert_eq!(ski_hash(&spki(&k)).len(), 20);
    assert!(extract_spki_bits(b"junk").is_none());
}

#[test]
fn certificates_are_signed() {
    let root = key(512);
    let leaf = key(512);
    let cert = build_cert(&spki(&leaf), CertKind::Leaf, &raw(&root), 0, 86400).unwrap();
    let (tbs, signature) = split_cert(&cert);
    let verifier = VerifyingKey::<Sha1>::new(root.to_public_key());
    verifier.verify(&tbs, &Signature::try_from(signature.as_slice()).unwrap()).unwrap();
    let text = spki(&leaf);
    assert!(tbs.windows(text.len()).any(|w| w == text));
    assert!(build_cert(&spki(&leaf), CertKind::Leaf, b"junk", 0, 1).is_none());
    let root_ext = build_extensions(&[1; 20], CertKind::Root);
    assert_ne!(root_ext, build_extensions(&[1; 20], CertKind::Leaf));
}

#[test]
fn a_pairing_has_three_certificates() {
    let root = key(512);
    let host = key(512);
    let device = key(512);
    let certs = create_pairing_certs(&public_pem(&device), &raw(&root), &raw(&host), 1_700_000_000)
        .unwrap()
        .unwrap();
    let verifier = VerifyingKey::<Sha1>::new(root.to_public_key());
    for (pem, owner) in
        [(&certs.root_cert, &root), (&certs.host_cert, &host), (&certs.device_cert, &device)]
    {
        let (tbs, signature) = split_cert(&from_pem(pem));
        verifier.verify(&tbs, &Signature::try_from(signature.as_slice()).unwrap()).unwrap();
        let text = spki(owner);
        assert!(tbs.windows(text.len()).any(|w| w == text));
    }
    let kept = std::str::from_utf8(&certs.host_key).unwrap();
    assert_eq!(RsaPrivateKey::from_pkcs1_pem(kept).unwrap(), host);
    let kept = std::str::from_utf8(&certs.root_key).unwrap();
    assert_eq!(RsaPrivateKey::from_pkcs1_pem(kept).unwrap(), root);

    assert_eq!(
        why(create_pairing_certs(&[0xff], &raw(&root), &raw(&host), 0).unwrap_err()),
        "device key not utf8"
    );
    assert!(why(create_pairing_certs(b"x", &raw(&root), &raw(&host), 0).unwrap_err())
        .starts_with("parse device public key: "));
    assert!(why(
        create_pairing_certs(&public_pem(&device), b"junk", &raw(&host), 0).unwrap_err()
    )
    .starts_with("encode spki: "));
}

#[test]
fn new_keys_make_certificates() {
    let device = key(512);
    let certs =
        pairing_certs_of_size(&public_pem(&device), 1024, 1_700_000_000).unwrap().unwrap();
    let kept = std::str::from_utf8(&certs.root_key).unwrap();
    let root = RsaPrivateKey::from_pkcs1_pem(kept).unwrap();
    let (tbs, signature) = split_cert(&from_pem(&certs.device_cert));
    VerifyingKey::<Sha1>::new(root.to_public_key())
        .verify(&tbs, &Signature::try_from(signature.as_slice()).unwrap())
        .unwrap();
    assert_ne!(certs.root_key, certs.host_key);
    for pem in [&certs.root_key, &certs.host_key] {
        let kept = std::str::from_utf8(pem).unwrap();
        assert_eq!(RsaPrivateKey::from_pkcs1_pem(kept).unwrap().size(), 128);
    }
}

#[test]
fn keys_that_could_not_be_made() {
    let device = public_pem(&key(512));
    let good = Ok(raw(&key(512)));
    let bad: Result<Vec<u8>, String> = Err("no".into());
    let got = certs_from_new_keys(&device, bad.clone(), good.clone(), 0);
    assert_eq!(why(got.unwrap_err()), "root keygen: no");
    let got = certs_from_new_keys(&device, good.clone(), bad, 0);
    assert_eq!(why(got.unwrap_err()), "host keygen: no");
    let got = certs_from_new_keys(&[0xff], good.clone(), good.clone(), 0);
    assert_eq!(why(got.unwrap_err()), "device key not utf8");
    let certs = certs_from_new_keys(&device, good.clone(), good, 0).unwrap().unwrap();
    assert_eq!(certs.root_key, certs.host_key);
}

#[test]
fn keys_with_primes_far_apart_do_not_sign() {
    let (small, large) = (BigUint::from(17u32), BigUint::from(2_147_483_647u32));
    let exponent = BigUint::from(65_537u32);
    let lopsided = RsaPrivateKey::from_p_q(small.clone(), large.clone(), exponent.clone()).unwrap();
    assert!(is_lopsided(&raw(&lopsided)));
    assert_eq!(
        why(parse_rsa_key_bytes(&raw(&lopsided)).unwrap_err()),
        "parse supervision key: primes too far apart"
    );
    assert!(sign(&raw(&lopsided), b"x").is_none());
    let k = key(512);
    assert!(build_cert(&spki(&k), CertKind::Leaf, &raw(&lopsided), 0, 86400).is_none());
    let turned = RsaPrivateKey::from_p_q(large, small, exponent).unwrap();
    assert!(!is_lopsided(&raw(&turned)));
    assert_eq!(parse_rsa_key_bytes(&raw(&turned)).unwrap(), raw(&turned));
    assert!(!is_lopsided(&raw(&k)));
    assert!(!is_lopsided(b"junk"));
    assert!(sign(b"junk", b"x").is_none());
    VerifyingKey::<Sha1>::new(k.to_public_key())
        .verify(b"x", &Signature::try_from(sign(&raw(&k), b"x").unwrap().as_slice()).unwrap())
        .unwrap();
}

#[test]
fn keys_are_read_in_four_forms() {
    let k = key(512);
    let pkcs8 = k.to_pkcs8_der().unwrap().as_bytes().to_vec();
    let pkcs8_pem = k.to_pkcs8_pem(Default::default()).unwrap().to_string();
    let pkcs1_pem = k.to_pkcs1_pem(Default::default()).unwrap().to_string();
    for form in [raw(&k), pkcs8, pkcs8_pem.into_bytes(), pkcs1_pem.into_bytes()] {
        assert_eq!(parse_rsa_key_bytes(&form).unwrap(), raw(&k));
    }
    assert!(why(parse_rsa_key_bytes(b"-----").unwrap_err())
        .starts_with("parse supervision key (tried PEM+PKCS8+PKCS1 DER): "));
}

#[test]
fn challenges_are_signed() {
    let k = key(512);
    let cert = build_cert(&spki(&k), CertKind::Leaf, &raw(&k), 0, 86400).unwrap();
    let (issuer, serial) = extract_issuer_serial(&cert).unwrap();
    assert_eq!(issuer[0], 0x30);
    assert_eq!(serial[0], 0x02);
    assert!(extract_issuer_serial(b"junk").is_err());

    let message = build_pkcs7_signed_data(b"challenge", &cert, &raw(&k)).unwrap().unwrap();
    assert!(message.windows(9).any(|w| w == b"challenge"));
    assert!(message.windows(cert.len()).any(|w| w == cert));
    let digest = Sha1::digest(b"challenge").to_vec();
    let attributes = build_attributes(b"challenge");
    assert!(attributes.windows(20).any(|w| w == digest));
    let signature = Signature::try_from(&message[message.len() - 64..]).unwrap();
    VerifyingKey::<Sha1>::new(k.to_public_key())
        .verify(&der_tag(0x31, &attributes), &signature)
        .unwrap();
    assert!(build_pkcs7_signed_data(b"c", &cert, b"junk").unwrap().is_none());
}

fn pairing() -> Pairing {
    Pairing {
        certs: PairingCerts {
            root_cert: b"root".to_vec(),
            host_cert: b"host".to_vec(),
            device_cert: b"device".to_vec(),
            root_key: b"rk".to_vec(),
            host_key: b"hk".to_vec(),
        },
        buid: "BUID".into(),
        host_id: "HOST".into(),
        wifi_mac: "aa:bb".into(),
    }
}

#[test]
fn requests_to_pair() {
    let req = pairing().request();
    assert_eq!(req.text_at("Label"), Some("ios-rs"));
    assert_eq!(req.text_at("ProtocolVersion"), Some("2"));
    assert_eq!(req.text_at("Request"), Some("Pair"));
    let record = req.at("PairRecord").unwrap();
    assert_eq!(record.data_at("HostCertificate"), Some(&b"host"[..]));
    assert_eq!(record.text_at("SystemBUID"), Some("BUID"));
    assert!(record.at("HostPrivateKey").is_none());
    assert_eq!(req.at("PairingOptions").unwrap().truth_at("ExtendedPairingErrors"), Some(true));
    let req = pairing().supervised_request(b"cert");
    assert_eq!(
        req.at("PairingOptions").unwrap().data_at("SupervisorCertificate"),
        Some(&b"cert"[..])
    );
}

#[test]
fn a_saved_record_reads_back() {
    let reply = dict(vec![("EscrowBag", Plist::bytes(b"bag"))]);
    let raw = pairing().finish(&reply).unwrap();
    let saved = from_bytes(&raw).unwrap();
    assert_eq!(saved.data_at("EscrowBag"), Some(&b"bag"[..]));
    assert_eq!(saved.text_at("WiFiMACAddress"), Some("aa:bb"));
    let record = PairRecord::from_plist_bytes(&raw).unwrap();
    assert_eq!(record.host_id, "HOST");
    assert_eq!(record.system_buid, "BUID");
    assert_eq!(record.host_certificate, b"host");
    assert_eq!(record.host_private_key, b"hk");
    assert_eq!(record.device_certificate, b"device");
    assert_eq!(record.root_certificate, b"root");
    assert_eq!(pairing().finish_supervised(&reply).unwrap(), raw);
    assert_eq!(to_xml(&saved).unwrap(), raw);
}

#[test]
fn records_that_lack_something() {
    let record = |e: Error| match e {
        Error::PairRecord(t) => t,
        _ => panic!("another error"),
    };
    assert_eq!(record(PairRecord::from_plist(&Plist::number(1)).unwrap_err()), "not a dictionary");
    assert_eq!(
        record(PairRecord::from_plist(&dict(vec![])).unwrap_err()),
        "missing string key HostID"
    );
    let half = dict(vec![("HostID", Plist::text("H")), ("SystemBUID", Plist::text("B"))]);
    assert_eq!(
        record(PairRecord::from_plist(&half).unwrap_err()),
        "missing data key HostCertificate"
    );
    assert!(record(PairRecord::from_plist_bytes(b"bplist00").unwrap_err())
        .starts_with("plist parse: "));
}

#[test]
fn replies_to_pair() {
    let pending = dict(vec![("Error", Plist::text("PairingDialogResponsePending"))]);
    assert_eq!(
        why(read_pair_reply(&pending).unwrap_err()),
        "trust dialog open — accept 'Trust This Computer' on the device, then run 'ios pair' again"
    );
    let denied = dict(vec![("Error", Plist::text("UserDeniedPairing"))]);
    assert_eq!(why(read_pair_reply(&denied).unwrap_err()), "lockdownd error: UserDeniedPairing");
    assert_eq!(
        why(read_pair_reply(&dict(vec![])).unwrap_err()),
        "no EscrowBag in pair response"
    );
    assert_eq!(
        why(read_pair_reply(&Plist::number(1)).unwrap_err()),
        "Pair response not a dictionary"
    );
    assert_eq!(
        why(read_supervised_reply(&denied).unwrap_err()),
        "supervised pair error: UserDeniedPairing"
    );
    assert_eq!(
        why(read_supervised_reply(&dict(vec![])).unwrap_err()),
        "no EscrowBag in supervised pair response"
    );
}

#[test]
fn supervisors_answer_challenges() {
    let k = key(512);
    let cert = build_cert(&spki(&k), CertKind::Leaf, &raw(&k), 0, 86400).unwrap();
    let reply = dict(vec![
        ("Error", Plist::text("MCChallengeRequired")),
        ("ExtendedResponse", dict(vec![("PairingChallenge", Plist::bytes(b"c"))])),
    ]);
    assert_eq!(extract_pairing_challenge(&reply).unwrap(), b"c");
    let req = pairing().answer_challenge(&reply, &cert, &raw(&k)).unwrap().unwrap();
    let signed = build_pkcs7_signed_data(b"c", &cert, &raw(&k)).unwrap().unwrap();
    assert_eq!(
        req.at("PairingOptions").unwrap().data_at("ChallengeResponse"),
        Some(signed.as_slice())
    );
    assert_eq!(
        why(extract_pairing_challenge(&dict(vec![])).unwrap_err()),
        "expected MCChallengeRequired, got: \"\""
    );
    let bare = dict(vec![("Error", Plist::text("MCChallengeRequired"))]);
    assert_eq!(why(extract_pairing_challenge(&bare).unwrap_err()), "missing ExtendedResponse");
    let empty = dict(vec![
        ("Error", Plist::text("MCChallengeRequired")),
        ("ExtendedResponse", dict(vec![])),
    ]);
    assert_eq!(
        why(extract_pairing_challenge(&empty).unwrap_err()),
        "missing PairingChallenge: None"
    );
}

#[test]
fn values_of_the_device() {
    assert_eq!(device_public_key(&Plist::bytes(b"k")).unwrap(), b"k");
    assert_eq!(
        why(device_public_key(&Plist::truth(true)).unwrap_err()),
        "DevicePublicKey unexpected type: Boolean(true)"
    );
    assert_eq!(wifi_address(&Plist::text("aa")).unwrap(), "aa");
    assert_eq!(
        why(wifi_address(&Plist::truth(false)).unwrap_err()),
        "WiFiAddress unexpected type: Boolean(false)"
    );
}

#[test]
fn hosts_have_identifiers() {
    assert_eq!(random_upper_uuid(0), "00000000-0000-4000-8000-000000000000");
    assert_eq!(random_upper_uuid(0xab), "AB000000-0000-4000-8000-000000000000");
}

#[test]
fn requests_to_unpair() {
    let req = unpair_request(None);
    assert_eq!(req.text_at("Request"), Some("Unpair"));
    assert!(req.at("PairRecord").is_none());
    let reply = dict(vec![("EscrowBag", Plist::bytes(b"bag"))]);
    let record = PairRecord::from_plist_bytes(&pairing().finish(&reply).unwrap()).unwrap();
    let req = unpair_request(Some(&record.dup()));
    assert_eq!(req.at("PairRecord").unwrap().text_at("HostID"), Some("HOST"));
    let xml = to_xml(&req).unwrap();
    assert_eq!(from_bytes(&xml).unwrap().text_at("Label"), Some("ios-rs"));
}
