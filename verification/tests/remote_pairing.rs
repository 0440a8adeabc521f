//! Remote pairing: records, messages, and both courses of a pairing with a device that is
//! played here.

use chacha20poly1305::aead::{Aead, KeyInit};
use chacha20poly1305::{ChaCha20Poly1305, Key, Nonce};
use ed25519_dalek::{Signature, SigningKey, VerifyingKey};
use hkdf::Hkdf;
use ios_rs::proplist::{Dict, Plist};
use ios_rs::tunnel::remote_pairing::credentials::{
    hex_decode, hex_encode, try_hex_decode, OurIdentity, PeerCredentials, RemotePairingRecord, Uuid,
};
use ios_rs::tunnel::remote_pairing::json::{json_answer, json_text};
use ios_rs::tunnel::remote_pairing::messages::{
    byte_list, hello, pairing_message, read_pairing_data, recv, send, show_byte,
};
use ios_rs::tunnel::remote_pairing::session::{
    identify, setup_secret, setup_start, srp_prove, verify_answer, verify_secret, verify_start,
    PairStep, RemotePairingSession,
};
use ios_rs::tunnel::remote_pairing::tlv8;
use ios_rs::tunnel::Error;
use sha2::Sha512;
use srp::client::SrpClient;
use srp::groups::G_3072;
use srp::server::SrpServer;

fn why(e: Error) -> String {
    let Error::Protocol(t) = e;
    t
}

fn data_of(msg: &Plist) -> Vec<u8> {
    read_pairing_data(msg).unwrap()
}

fn record(seed: u8) -> RemotePairingRecord {
    RemotePairingRecord {
        our: OurIdentity { identifier: "HOST".into(), signing_key: hex_encode(&[seed; 32]) },
        peer: PeerCredentials {
            peer_identifier: "DEVICE".into(),
            peer_public_key: String::new(),
        },
    }
}

fn derive(secret: &[u8], salt: &str, info: &str) -> [u8; 32] {
    let salt = if salt.is_empty() { None } else { Some(salt.as_bytes()) };
    let mut out = [0u8; 32];
    Hkdf::<Sha512>::new(salt, secret).expand(info.as_bytes(), &mut out).unwrap();
    out
}

fn cipher(key: &[u8]) -> ChaCha20Poly1305 {
    ChaCha20Poly1305::new(Key::from_slice(key))
}

fn nonce(name: &str) -> Vec<u8> {
    let mut n = name.as_bytes().to_vec();
    n.resize(12, 0);
    n
}

#[test]
fn hexadecimal_reads_back() {
    let bytes: Vec<u8> = (0..=255).collect();
    let text = hex_encode(&bytes);
    assert!(text.starts_with("000102") && text.ends_with("fdfeff"));
    assert_eq!(hex_decode(&text).unwrap(), bytes);
    assert_eq!(hex_decode("AbfF").unwrap(), [0xab, 0xff]);
    assert_eq!(hex_decode("+a").unwrap(), [10]);
    assert_eq!(hex_decode("zz").unwrap_err(), "invalid digit found in string");
    assert!(try_hex_decode("abc").is_none());
    assert!(try_hex_decode("a\u{e9}b").is_none());
    assert!(matches!(try_hex_decode("abcd"), Some(Ok(b)) if b == [0xab, 0xcd]));
}

#[test]
fn identifiers_are_marked_as_random() {
    let id = Uuid::from_random(&[0xff; 16]);
    assert_eq!(id.text(), "ffffffff-ffff-4fff-bfff-ffffffffffff");
    assert_eq!(id.upper_text(), "FFFFFFFF-FFFF-4FFF-BFFF-FFFFFFFFFFFF");
    let other = Uuid::new_v4().text();
    assert_eq!(other.len(), 36);
    assert_eq!(&other[14..15], "4");
    assert_ne!(other, Uuid::new_v4().text());
}

#[test]
fn new_identities_have_keys() {
    let r = RemotePairingRecord::new_identity("U");
    assert_eq!(r.our.signing_key.len(), 64);
    assert_eq!(r.signing_key().unwrap().len(), 32);
    assert!(r.has_readable_key());
    assert_eq!(r.peer.peer_identifier, "");
    assert_ne!(r.our.signing_key, RemotePairingRecord::new_identity("U").our.signing_key);
    let mut short = r.dup();
    short.our.signing_key = "abcd".into();
    assert_eq!(why(short.signing_key().unwrap_err()), "signing key must be 32 bytes");
    short.our.signing_key = "zz".into();
    assert_eq!(
        why(short.signing_key().unwrap_err()),
        "bad signing key hex: invalid digit found in string"
    );
    short.our.signing_key = "abc".into();
    assert!(!short.has_readable_key());
}

#[test]
fn entries_are_cut_and_joined() {
    let long = vec![7u8; 300];
    let out = tlv8::encode(&[(tlv8::STATE, &[1]), (tlv8::PUBLIC_KEY, &long)]);
    assert_eq!(&out[..3], &[6, 1, 1]);
    assert_eq!(&out[3..5], &[3, 255]);
    assert_eq!(&out[260..262], &[3, 45]);
    let map = tlv8::decode(&out);
    assert_eq!(tlv8::find(&map, tlv8::PUBLIC_KEY), Some(&long));
    assert_eq!(tlv8::get_u8(&map, tlv8::STATE), Some(1));
    assert_eq!(tlv8::get_u8(&map, tlv8::ERROR), None);
    assert_eq!(tlv8::decode(&[3, 5, 1]).get(&3), Some(&vec![1]));
    assert!(tlv8::decode(&[3]).is_empty());
}

#[test]
fn the_host_says_hello() {
    let msg = hello();
    assert_eq!(msg.at("hostOptions").unwrap().truth_at("attemptPairVerify"), Some(true));
    assert_eq!(msg.unsigned_at("wireProtocolVersion"), Some(19));
    let bytes = send(&msg).unwrap();
    assert_eq!(u32::from_be_bytes([bytes[0], bytes[1], bytes[2], bytes[3]]) as usize + 4, bytes.len());
    assert_eq!(recv(&bytes[4..]).unwrap().unsigned_at("wireProtocolVersion"), Some(19));
    assert!(why(recv(b"bplist00").unwrap_err()).starts_with("RemotePairing plist recv: "));
}

#[test]
fn steps_carry_data() {
    let msg = pairing_message("setupManualPairing", true, b"tlv");
    assert_eq!(msg.text_at("kind"), Some("setupManualPairing"));
    assert_eq!(msg.truth_at("startNewSession"), Some(true));
    assert_eq!(data_of(&msg), b"tlv");
    assert_eq!(
        why(read_pairing_data(&Plist::number(1)).unwrap_err()),
        "pairing response: not a dict"
    );
    assert_eq!(
        why(read_pairing_data(&Plist::dict(Dict::new())).unwrap_err()),
        "pairing response: no pairingData"
    );
    let mut d = Dict::new();
    d.put_str("error", "denied");
    assert_eq!(
        why(read_pairing_data(&Plist::dict(d)).unwrap_err()),
        "RemotePairing error: denied"
    );
    let mut d = Dict::new();
    d.put("error", Plist::truth(true));
    assert_eq!(
        why(read_pairing_data(&Plist::dict(d)).unwrap_err()),
        "RemotePairing error: Boolean(true)"
    );
}

#[test]
fn bytes_are_shown() {
    assert_eq!(byte_list(&[]), format!("{:02x?}", Vec::<u8>::new()));
    assert_eq!(byte_list(&[1, 0xab]), format!("{:02x?}", [1u8, 0xab]));
    assert_eq!(show_byte(Some(4)), format!("{:02x?}", Some(4u8)));
    assert_eq!(show_byte(None), format!("{:02x?}", None::<u8>));
}

#[test]
fn an_old_pairing_is_verified() {
    let host = verify_secret();
    let rec = record(3);
    let first = tlv8::decode(&data_of(&verify_start(&host)));
    assert_eq!(tlv8::get_u8(&first, tlv8::STATE), Some(1));
    let host_point: [u8; 32] =
        tlv8::find(&first, tlv8::PUBLIC_KEY).unwrap().clone().try_into().unwrap();

    let device_secret = [9u8; 32];
    let base = x25519_dalek::X25519_BASEPOINT_BYTES;
    let device_point = x25519_dalek::x25519(device_secret, base);
    let answer = tlv8::encode(&[(tlv8::STATE, &[2]), (tlv8::PUBLIC_KEY, &device_point)]);
    let (msg, shared) = verify_answer(&rec, &host, &answer).unwrap();
    assert_eq!(shared, x25519_dalek::x25519(device_secret, host_point));

    let step = tlv8::decode(&data_of(&msg));
    assert_eq!(tlv8::get_u8(&step, tlv8::STATE), Some(3));
    let key = derive(&shared, "Pair-Verify-Encrypt-Salt", "Pair-Verify-Encrypt-Info");
    let sealed = tlv8::find(&step, tlv8::ENCRYPTED_DATA).unwrap();
    let plain = cipher(&key)
        .decrypt(Nonce::from_slice(&nonce("PV-Msg03")), sealed.as_slice())
        .unwrap();
    let inner = tlv8::decode(&plain);
    assert_eq!(tlv8::find(&inner, tlv8::IDENTIFIER).unwrap(), b"HOST");
    let mut signed = host_point.to_vec();
    signed.extend(b"HOST");
    signed.extend(device_point);
    let signature: [u8; 64] =
        tlv8::find(&inner, tlv8::SIGNATURE).unwrap().clone().try_into().unwrap();
    SigningKey::from_bytes(&[3; 32])
        .verifying_key()
        .verify_strict(&signed, &Signature::from_bytes(&signature))
        .unwrap();

    let mut session = RemotePairingSession::open(rec);
    assert!(session.has_credentials());
    session.verify_finish(&shared, &tlv8::encode(&[(tlv8::STATE, &[4])])).unwrap();
    let (request, n) = session.seal_request(b"{\"a\":1}").unwrap();
    assert_eq!(n, 0);
    let client = derive(&shared, "", "ClientEncrypt-main");
    let sealed = request.at("message").unwrap().at("streamEncrypted").unwrap().data_at("_0").unwrap();
    assert_eq!(
        cipher(&client).decrypt(Nonce::from_slice(&[0; 12]), sealed).unwrap(),
        b"{\"a\":1}"
    );
    let (request, n) = session.seal_request(b"again").unwrap();
    assert_eq!((n, request.unsigned_at("sequenceNumber")), (1, Some(1)));

    let server = derive(&shared, "", "ServerEncrypt-main");
    let mut number = [0u8; 12];
    number[0] = 5;
    let reply = cipher(&server).encrypt(Nonce::from_slice(&number), &b"fine"[..]).unwrap();
    let mut inner = Dict::new();
    inner.put("_0", Plist::bytes(&reply));
    let mut enc = Dict::new();
    enc.put("streamEncrypted", Plist::dict(inner));
    let mut d = Dict::new();
    d.put("message", Plist::dict(enc));
    d.put("sequenceNumber", Plist::number(5));
    assert_eq!(session.open_answer(&Plist::dict(d.dup()), n).unwrap(), b"fine");
    d.put("sequenceNumber", Plist::number(6));
    assert_eq!(
        why(session.open_answer(&Plist::dict(d), n).unwrap_err()),
        "ChaCha decrypt: aead::Error"
    );
    assert_eq!(
        why(session.open_answer(&Plist::dict(Dict::new()), n).unwrap_err()),
        "encrypted response: no ciphertext data"
    );
    assert_eq!(
        why(session.open_answer(&Plist::number(1), n).unwrap_err()),
        "encrypted response: not a dict"
    );
}

#[test]
fn a_verification_can_fail() {
    let host = verify_secret();
    assert_eq!(
        why(verify_answer(&record(1), &host, &[]).unwrap_err()),
        "pair-verify: no PUBLIC_KEY"
    );
    let short = tlv8::encode(&[(tlv8::PUBLIC_KEY, &[1, 2])]);
    assert_eq!(
        why(verify_answer(&record(1), &host, &short).unwrap_err()),
        "pair-verify: bad key len"
    );
    let mut session = RemotePairingSession::open(record(1));
    let refused = tlv8::encode(&[(tlv8::ERROR, &[2])]);
    assert_eq!(
        why(session.verify_finish(&[0; 32], &refused).unwrap_err()),
        "pair-verify: device error [02]"
    );
    assert_eq!(
        why(session.verify_finish(&[0; 32], &[]).unwrap_err()),
        "pair-verify: bad state None"
    );
    assert_eq!(why(session.seal_request(b"x").unwrap_err()), "no session key");
    assert_eq!(
        why(session.open_answer(&Plist::number(1), 0).unwrap_err()),
        "no session key"
    );
}

#[test]
fn a_new_pairing_is_set_up() {
    let mut session = RemotePairingSession::open(RemotePairingRecord {
        our: OurIdentity { identifier: String::new(), signing_key: String::new() },
        peer: PeerCredentials { peer_identifier: String::new(), peer_public_key: String::new() },
    });
    assert!(!session.has_credentials());
    let first = tlv8::decode(&data_of(&setup_start()));
    assert_eq!(tlv8::get_u8(&first, tlv8::METHOD), Some(0));
    assert_eq!(tlv8::get_u8(&first, tlv8::STATE), Some(1));

    // The device knows the verifier of the password.
    let salt = [5u8; 16];
    let verifier =
        SrpClient::<Sha512>::new(&G_3072).compute_verifier(b"Pair-Setup", b"000000", &salt);
    let server = SrpServer::<Sha512>::new(&G_3072);
    let b = [6u8; 64];
    let b_pub = server.compute_public_ephemeral(&b, &verifier);
    let offer = tlv8::encode(&[(tlv8::STATE, &[2]), (tlv8::SALT, &salt), (tlv8::PUBLIC_KEY, &b_pub)]);

    let secret = setup_secret();
    let (msg, exchange) = srp_prove(&secret, &offer).unwrap();
    let step = tlv8::decode(&data_of(&msg));
    assert_eq!(tlv8::get_u8(&step, tlv8::STATE), Some(3));
    let a_pub = tlv8::find(&step, tlv8::PUBLIC_KEY).unwrap();
    let device = server.process_reply(&b, &verifier, a_pub).unwrap();
    device.verify_client(tlv8::find(&step, tlv8::PROOF).unwrap()).unwrap();
    assert_eq!(device.key(), exchange.key.as_slice());

    let rec = session.setup_record("U");
    let proof = tlv8::encode(&[(tlv8::STATE, &[4]), (tlv8::PROOF, device.proof())]);
    let msg = identify(&exchange, &rec, &proof).unwrap();
    let step = tlv8::decode(&data_of(&msg));
    assert_eq!(tlv8::get_u8(&step, tlv8::STATE), Some(5));
    let key = derive(device.key(), "Pair-Setup-Encrypt-Salt", "Pair-Setup-Encrypt-Info");
    let plain = cipher(&key)
        .decrypt(
            Nonce::from_slice(&nonce("PS-Msg05")),
            tlv8::find(&step, tlv8::ENCRYPTED_DATA).unwrap().as_slice(),
        )
        .unwrap();
    let inner = tlv8::decode(&plain);
    let id = tlv8::find(&inner, tlv8::IDENTIFIER).unwrap();
    assert_eq!(id, rec.our.identifier.as_bytes());
    let public: [u8; 32] =
        tlv8::find(&inner, tlv8::PUBLIC_KEY).unwrap().clone().try_into().unwrap();
    let signature: [u8; 64] =
        tlv8::find(&inner, tlv8::SIGNATURE).unwrap().clone().try_into().unwrap();
    let mut signed = derive(
        device.key(),
        "Pair-Setup-Controller-Sign-Salt",
        "Pair-Setup-Controller-Sign-Info",
    )
    .to_vec();
    signed.extend(id);
    signed.extend(public);
    VerifyingKey::from_bytes(&public)
        .unwrap()
        .verify_strict(&signed, &Signature::from_bytes(&signature))
        .unwrap();

    let told = tlv8::encode(&[(tlv8::IDENTIFIER, b"DEV"), (tlv8::PUBLIC_KEY, &[0xab; 2])]);
    let sealed = cipher(&key)
        .encrypt(Nonce::from_slice(&nonce("PS-Msg06")), told.as_slice())
        .unwrap();
    let last = tlv8::encode(&[(tlv8::STATE, &[6]), (tlv8::ENCRYPTED_DATA, &sealed)]);
    let finished = session.setup_finish(&exchange, rec, &last).unwrap();
    assert_eq!(finished.peer.peer_identifier, "DEV");
    assert_eq!(finished.peer.peer_public_key, "abab");
    assert!(session.has_credentials());
    assert_eq!(session.record().peer.peer_identifier, "DEV");
    let (request, _) = session.seal_request(b"hi").unwrap();
    let client = derive(device.key(), "", "ClientEncrypt-main");
    let sealed = request.at("message").unwrap().at("streamEncrypted").unwrap().data_at("_0").unwrap();
    assert_eq!(cipher(&client).decrypt(Nonce::from_slice(&[0; 12]), sealed).unwrap(), b"hi");
}

#[test]
fn a_setup_can_fail() {
    let secret = setup_secret();
    let refused = tlv8::encode(&[(tlv8::ERROR, &[3, 4])]);
    assert_eq!(why(srp_prove(&secret, &refused).unwrap_err()), "SRP start error: [03, 04]");
    assert_eq!(why(srp_prove(&secret, &[]).unwrap_err()), "SRP: no SALT");
    let no_key = tlv8::encode(&[(tlv8::SALT, &[1])]);
    assert_eq!(why(srp_prove(&secret, &no_key).unwrap_err()), "SRP: no PUBLIC_KEY");
    let zero = tlv8::encode(&[(tlv8::SALT, &[1]), (tlv8::PUBLIC_KEY, &[0])]);
    assert!(why(srp_prove(&secret, &zero).unwrap_err()).starts_with("SRP compute: "));

    let offer = tlv8::encode(&[(tlv8::SALT, &[1]), (tlv8::PUBLIC_KEY, &[2])]);
    let (_, exchange) = srp_prove(&secret, &offer).unwrap();
    assert_eq!(
        why(identify(&exchange, &record(1), &refused).unwrap_err()),
        "SRP proof error: [03, 04]"
    );
    assert_eq!(why(identify(&exchange, &record(1), &[]).unwrap_err()), "SRP: no server PROOF");
    let wrong = tlv8::encode(&[(tlv8::PROOF, &[1, 2, 3])]);
    assert!(why(identify(&exchange, &record(1), &wrong).unwrap_err())
        .starts_with("SRP server proof: "));
    let mut session = RemotePairingSession::open(record(1));
    assert_eq!(
        why(session.setup_finish(&exchange, record(1), &refused).unwrap_err()),
        "SRP identity error: [03, 04]"
    );
    let kept = session.setup_finish(&exchange, record(1), &[]).unwrap();
    assert_eq!(kept.peer.peer_identifier, "DEVICE");
}

#[test]
fn requests_and_answers_are_json() {
    let shared = [8u8; 32];
    let mut session = RemotePairingSession::open(record(1));
    let req: serde_json::Value = serde_json::from_str("{ \"b\": [1, null], \"a\": \"x\" }").unwrap();
    assert_eq!(why(session.encrypted_request(&req).unwrap_err()), "no session key");
    assert_eq!(why(json_answer(&session, &Plist::number(1), 0).unwrap_err()), "no session key");
    assert!(!session.has_stream());
    session.verify_finish(&shared, &tlv8::encode(&[(tlv8::STATE, &[4])])).unwrap();
    assert!(session.has_stream());
    let (request, n) = session.encrypted_request(&req).unwrap();
    assert_eq!(n, 0);
    let client = derive(&shared, "", "ClientEncrypt-main");
    let sealed = request.at("message").unwrap().at("streamEncrypted").unwrap().data_at("_0").unwrap();
    assert_eq!(
        cipher(&client).decrypt(Nonce::from_slice(&[0; 12]), sealed).unwrap(),
        b"{\"a\":\"x\",\"b\":[1,null]}"
    );

    let server = derive(&shared, "", "ServerEncrypt-main");
    let answer = |text: &[u8]| {
        let reply = cipher(&server).encrypt(Nonce::from_slice(&[0; 12]), text).unwrap();
        let mut inner = Dict::new();
        inner.put("_0", Plist::bytes(&reply));
        let mut enc = Dict::new();
        enc.put("streamEncrypted", Plist::dict(inner));
        let mut d = Dict::new();
        d.put("message", Plist::dict(enc));
        Plist::dict(d)
    };
    let got = json_answer(&session, &answer(b" {\"ok\": true} "), n).unwrap();
    assert_eq!(got["ok"], serde_json::Value::Bool(true));
    assert_eq!(
        why(json_answer(&session, &answer(b"{"), n).unwrap_err()),
        "decrypt JSON: EOF while parsing an object at line 1 column 1"
    );
    assert_eq!(
        why(json_answer(&session, &Plist::number(1), n).unwrap_err()),
        "encrypted response: not a dict"
    );
    assert_eq!(json_text(b"7").unwrap(), serde_json::Value::from(7));
}

#[test]
fn a_pairing_that_does_not_verify_is_set_up() {
    let old = RemotePairingSession::open(record(1));
    assert!(old.has_credentials());
    assert_eq!(old.next_step(None), PairStep::Verify);
    assert_eq!(old.next_step(Some(true)), PairStep::Done);
    assert_eq!(old.next_step(Some(false)), PairStep::SetUp);
    let new = RemotePairingSession::open(RemotePairingRecord::new_identity("U"));
    assert_eq!(new.next_step(None), PairStep::SetUp);
}
