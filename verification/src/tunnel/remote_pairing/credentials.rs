//! What host and device know of each other after a pairing.

use vstd::prelude::*;
use vstd::utf8::{encode_utf8, is_ascii_chars};
use crate::text::{join2, lemma_encode_concat, own, str_bytes};
use crate::tunnel::error::Error;
use crate::uuid::{
    hex_byte, hex_text, mark_random, marked, put_hex, uuid_text, uuid_to_lower_string,
    uuid_to_upper_string,
};
use super::crypto::{random_bytes, random_seed};

verus! {

/// The host.
#[derive(Debug)]
pub struct OurIdentity {
    /// The identifier of the host.
    pub identifier: String,
    /// The seed of the signing key, in hexadecimal.
    pub signing_key: String,
}

/// The device.
#[derive(Debug)]
pub struct PeerCredentials {
    /// The identifier of the device.
    pub peer_identifier: String,
    /// The key of the device, in hexadecimal; empty where it is not known.
    pub peer_public_key: String,
}

/// A pairing of a host with a device.
#[derive(Debug)]
pub struct RemotePairingRecord {
    pub our: OurIdentity,
    pub peer: PeerCredentials,
}

/// What a pairing holds.
#[verifier::ext_equal]
pub struct RecordModel {
    pub identifier: Seq<char>,
    pub signing_key: Seq<char>,
    pub peer_identifier: Seq<char>,
    pub peer_public_key: Seq<char>,
}

impl View for RemotePairingRecord {
    type V = RecordModel;

    open spec fn view(&self) -> RecordModel {
        RecordModel {
            identifier: self.our.identifier@,
            signing_key: self.our.signing_key@,
            peer_identifier: self.peer.peer_identifier@,
            peer_public_key: self.peer.peer_public_key@,
        }
    }
}

/// Bytes in hexadecimal, with small letters.
pub fn hex_encode(b: &[u8]) -> (s: String)
    ensures
        s@ == hex_text(b@, false),
{
    let mut s: String = String::new();
    put_hex(&mut s, b, false);
    assert(s@ =~= hex_text(b@, false));
    s
}

/// The value of a hexadecimal digit of either case.
pub open spec fn digit_value(c: u8) -> Option<int> {
    if 0x30 <= c <= 0x39 {
        Some(c - 0x30)
    } else if 0x41 <= c <= 0x46 {
        Some(c - 0x41 + 10)
    } else if 0x61 <= c <= 0x66 {
        Some(c - 0x61 + 10)
    } else {
        None
    }
}

/// The number that two characters stand for: two digits, or a plus sign and one
/// digit.
pub open spec fn pair_value(a: u8, b: u8) -> Option<int> {
    if a == 0x2b {
        digit_value(b)
    } else {
        match (digit_value(a), digit_value(b)) {
            (Some(x), Some(y)) => Some(16 * x + y),
            _ => None,
        }
    }
}

/// What comes of reading hexadecimal text.
pub enum HexRead {
    Bytes(Seq<u8>),
    /// Two bytes are no number.
    Invalid,
    /// The text does not fall into pieces of two bytes.
    Cut,
}

/// Reads text in pieces of two bytes, up to the first that is no number.
pub open spec fn hex_read(s: Seq<u8>) -> HexRead
    decreases s.len(),
{
    if s.len() == 0 {
        HexRead::Bytes(Seq::empty())
    } else if s.len() == 1 || (s.len() > 2 && 0x80 <= s[2] < 0xc0) {
        HexRead::Cut
    } else {
        match pair_value(s[0], s[1]) {
            None => HexRead::Invalid,
            Some(v) => match hex_read(s.skip(2)) {
                HexRead::Bytes(rest) => HexRead::Bytes(seq![v as u8] + rest),
                other => other,
            },
        }
    }
}

fn digit_of(c: u8) -> (v: Option<u8>)
    ensures
        match v {
            Some(n) => digit_value(c) == Some(n as int) && n < 16,
            None => digit_value(c) is None,
        },
{
    if 0x30 <= c && c <= 0x39 {
        Some(c - 0x30)
    } else if 0x41 <= c && c <= 0x46 {
        Some(c - 0x41 + 10)
    } else if 0x61 <= c && c <= 0x66 {
        Some(c - 0x61 + 10)
    } else {
        None
    }
}

fn pair_of(a: u8, b: u8) -> (v: Option<u8>)
    ensures
        match v {
            Some(n) => pair_value(a, b) == Some(n as int),
            None => pair_value(a, b) is None,
        },
{
    if a == 0x2b {
        return digit_of(b);
    }
    match (digit_of(a), digit_of(b)) {
        (Some(x), Some(y)) => Some(16 * x + y),
        _ => None,
    }
}

/// Reads hexadecimal text, where it falls into pieces of two bytes; none where it
/// does not.
pub fn try_hex_decode(s: &str) -> (got: Option<Result<Vec<u8>, String>>)
    ensures
        match hex_read(encode_utf8(s@)) {
            HexRead::Bytes(b) => got matches Some(Ok(v)) && v@ == b,
            HexRead::Invalid => got matches Some(Err(t)) && t@ == "invalid digit found in string"@,
            HexRead::Cut => got is None,
        },
{
    let text: Vec<u8> = str_bytes(s);
    let ghost all = text@;
    let mut out: Vec<u8> = Vec::new();
    let mut i: usize = 0;
    assert(all.skip(0) =~= all);
    while i < text.len()
        invariant
            text@ == all,
            all == encode_utf8(s@),
            i <= all.len(),
            match hex_read(all.skip(i as int)) {
                HexRead::Bytes(rest) => hex_read(all) == HexRead::Bytes(out@ + rest),
                other => hex_read(all) == other,
            },
        decreases all.len() - i,
    {
        let ghost rest = all.skip(i as int);
        let left: usize = text.len() - i;
        if left == 1 || (left > 2 && 0x80 <= text[i + 2] && text[i + 2] < 0xc0) {
            return None;
        }
        match pair_of(text[i], text[i + 1]) {
            None => {
                return Some(Err(own("invalid digit found in string")));
            },
            Some(v) => {
                let ghost before = out@;
                out.push(v);
                assert(rest.skip(2) =~= all.skip(i + 2));
                proof {
                    match hex_read(rest.skip(2)) {
                        HexRead::Bytes(tail) => {
                            assert(before + (seq![v] + tail) =~= out@ + tail);
                        },
                        _ => {},
                    }
                }
            },
        }
        i += 2;
    }
    assert(all.skip(i as int) =~= Seq::<u8>::empty());
    assert(out@ + Seq::<u8>::empty() =~= out@);
    Some(Ok(out))
}

/// Reads hexadecimal text that falls into pieces of two bytes.
pub fn hex_decode(s: &str) -> (got: Result<Vec<u8>, String>)
    requires
        !(hex_read(encode_utf8(s@)) is Cut),
    ensures
        match hex_read(encode_utf8(s@)) {
            HexRead::Bytes(b) => got matches Ok(v) && v@ == b,
            _ => got matches Err(t) && t@ == "invalid digit found in string"@,
        },
{
    match try_hex_decode(s) {
        Some(r) => r,
        None => Err(own("")),
    }
}

proof fn lemma_hex_append(a: Seq<u8>, x: Seq<u8>, b: Seq<u8>, y: Seq<u8>)
    requires
        hex_read(a) == HexRead::Bytes(x),
        hex_read(b) == HexRead::Bytes(y),
        b.len() > 0 ==> b[0] < 0x80,
    ensures
        hex_read(a + b) == HexRead::Bytes(x + y),
    decreases a.len(),
{
    if a.len() == 0 {
        assert(a + b =~= b);
        assert(x + y =~= y);
    } else {
        let v = pair_value(a[0], a[1])->0;
        let tail = hex_read(a.skip(2))->Bytes_0;
        assert((a + b).skip(2) =~= a.skip(2) + b);
        lemma_hex_append(a.skip(2), tail, b, y);
        if a.len() > 2 {
            assert((a + b)[2] == a[2]);
        }
        assert(x + y =~= seq![v as u8] + (tail + y));
    }
}

proof fn lemma_hex_byte(b: u8)
    ensures
        hex_read(encode_utf8(hex_byte(b, false))) == HexRead::Bytes(seq![b]),
        encode_utf8(hex_byte(b, false)).len() == 2,
        encode_utf8(hex_byte(b, false))[0] < 0x80,
{
    let s = hex_byte(b, false);
    assert(is_ascii_chars(s)) by {
        assert forall|i: int| 0 <= i < s.len() implies '\0' <= #[trigger] s[i] <= '\u{7f}' by {}
    }
    vstd::utf8::is_ascii_chars_encode_utf8(s);
    let e = encode_utf8(s);
    assert(e[0] == s[0] as u8 && e[1] == s[1] as u8);
    assert(e.skip(2) =~= Seq::<u8>::empty());
    assert(hex_read(e.skip(2)) == HexRead::Bytes(Seq::<u8>::empty()));
    assert(pair_value(e[0], e[1]) == Some(b as int));
    assert(seq![b] + Seq::<u8>::empty() =~= seq![b]);
}

/// What was written in hexadecimal reads back.
pub proof fn lemma_hex_roundtrip(bytes: Seq<u8>)
    ensures
        hex_read(encode_utf8(hex_text(bytes, false))) == HexRead::Bytes(bytes),
    decreases bytes.len(),
{
    if bytes.len() == 0 {
        assert(bytes =~= Seq::<u8>::empty());
    } else {
        let front = bytes.drop_last();
        let last = bytes.last();
        lemma_hex_roundtrip(front);
        lemma_hex_byte(last);
        lemma_encode_concat(hex_text(front, false), hex_byte(last, false));
        lemma_hex_append(
            encode_utf8(hex_text(front, false)),
            front,
            encode_utf8(hex_byte(last, false)),
            seq![last],
        );
        assert(bytes =~= front + seq![last]);
    }
}

/// Makes random identifiers.
#[derive(Clone, Copy, Debug)]
pub struct Uuid;

impl Uuid {
    /// The random identifier made of sixteen random bytes.
    pub fn from_random(raw: &[u8; 16]) -> (id: UuidV4)
        ensures
            id@ == marked(raw@),
    {
        UuidV4 { bytes: mark_random(raw) }
    }

    /// A new random identifier.
    pub fn new_v4() -> (id: UuidV4)
        ensures
            exists|raw: Seq<u8>| raw.len() == 16 && id@ == #[trigger] marked(raw),
    {
        let bytes: Vec<u8> = random_bytes(16);
        let mut raw: [u8; 16] = [0; 16];
        let mut i: usize = 0;
        while i < 16
            invariant
                i <= 16,
                bytes@.len() == 16,
            decreases 16 - i,
        {
            raw[i] = bytes[i];
            i += 1;
        }
        Uuid::from_random(&raw)
    }
}

/// A random identifier.
#[derive(Clone, Copy, Debug)]
pub struct UuidV4 {
    bytes: [u8; 16],
}

impl View for UuidV4 {
    type V = Seq<u8>;

    closed spec fn view(&self) -> Seq<u8> {
        self.bytes@
    }
}

impl UuidV4 {
    /// The identifier with small digits.
    pub fn text(&self) -> (s: String)
        ensures
            s@ == uuid_text(self@, false),
    {
        uuid_to_lower_string(&self.bytes)
    }

    /// The identifier with capital digits.
    pub fn upper_text(&self) -> (s: String)
        ensures
            s@ == uuid_text(self@, true),
    {
        uuid_to_upper_string(&self.bytes)
    }
}

/// The seed of the signing key of a pairing, or why there is none.
pub open spec fn seed_of(signing_key: Seq<char>) -> Result<Seq<u8>, Seq<char>> {
    match hex_read(encode_utf8(signing_key)) {
        HexRead::Bytes(b) => if b.len() == 32 {
            Ok(b)
        } else {
            Err("signing key must be 32 bytes"@)
        },
        _ => Err("bad signing key hex: "@ + "invalid digit found in string"@),
    }
}

/// Whether the signing key of a pairing can be read at all.
pub open spec fn key_readable(signing_key: Seq<char>) -> bool {
    !(hex_read(encode_utf8(signing_key)) is Cut)
}

/// The record of a host that has not paired yet.
pub open spec fn fresh_record(seed: Seq<u8>, id: Seq<u8>) -> RecordModel {
    RecordModel {
        identifier: uuid_text(id, true),
        signing_key: hex_text(seed, false),
        peer_identifier: Seq::empty(),
        peer_public_key: Seq::empty(),
    }
}

/// Whether a record is that of a host that has not paired yet: with a key of 32 bytes and
/// a random identifier.
pub open spec fn is_fresh(r: RecordModel) -> bool {
    exists|seed: Seq<u8>, raw: Seq<u8>|
        seed.len() == 32 && raw.len() == 16 && r == #[trigger] fresh_record(seed, marked(raw))
}

impl RemotePairingRecord {
    /// Whether the signing key can be read at all.
    pub fn has_readable_key(&self) -> (yes: bool)
        ensures
            yes == key_readable(self@.signing_key),
    {
        try_hex_decode(self.our.signing_key.as_str()).is_some()
    }

    /// The seed of the signing key.
    pub fn signing_key(&self) -> (seed: Result<Vec<u8>, Error>)
        requires
            key_readable(self@.signing_key),
        ensures
            match seed_of(self@.signing_key) {
                Ok(s) => seed matches Ok(v) && v@ == s,
                Err(e) => seed matches Err(Error::Protocol(t)) && t@ == e,
            },
    {
        match hex_decode(self.our.signing_key.as_str()) {
            Ok(bytes) => if bytes.len() == 32 {
                Ok(bytes)
            } else {
                Err(Error::Protocol(own("signing key must be 32 bytes")))
            },
            Err(e) => Err(Error::Protocol(join2("bad signing key hex: ", e.as_str()))),
        }
    }

    /// The record of a host with a given seed and identifier.
    pub fn identity_from(seed: &[u8], id: &UuidV4) -> (r: RemotePairingRecord)
        ensures
            r@ == fresh_record(seed@, id@),
    {
        let none: String = String::new();
        let nobody: String = String::new();
        assert(none@ =~= Seq::<char>::empty());
        assert(nobody@ =~= Seq::<char>::empty());
        RemotePairingRecord {
            our: OurIdentity { identifier: id.upper_text(), signing_key: hex_encode(seed) },
            peer: PeerCredentials { peer_identifier: none, peer_public_key: nobody },
        }
    }

    /// The record of a host with a new key and a new identifier.
    pub fn new_identity(_udid: &str) -> (r: RemotePairingRecord)
        ensures
            is_fresh(r@),
    {
        let seed: Vec<u8> = random_seed();
        let id: UuidV4 = Uuid::new_v4();
        let r: RemotePairingRecord = RemotePairingRecord::identity_from(seed.as_slice(), &id);
        proof {
            let raw = choose|raw: Seq<u8>| raw.len() == 16 && id@ == #[trigger] marked(raw);
            assert(r@ == fresh_record(seed@, marked(raw)));
        }
        r
    }

    /// Another record with the same content.
    pub fn dup(&self) -> (r: RemotePairingRecord)
        ensures
            r@ == self@,
    {
        RemotePairingRecord {
            our: OurIdentity {
                identifier: own(self.our.identifier.as_str()),
                signing_key: own(self.our.signing_key.as_str()),
            },
            peer: PeerCredentials {
                peer_identifier: own(self.peer.peer_identifier.as_str()),
                peer_public_key: own(self.peer.peer_public_key.as_str()),
            },
        }
    }
}

/// The key of a new record can be read, and is the seed that the record was made of.
pub proof fn lemma_fresh_key(seed: Seq<u8>, id: Seq<u8>)
    requires
        seed.len() == 32,
    ensures
        key_readable(fresh_record(seed, id).signing_key),
        seed_of(fresh_record(seed, id).signing_key) == Ok::<Seq<u8>, Seq<char>>(seed),
{
    lemma_hex_roundtrip(seed);
}

/// What each digit counts, and what two characters stand for: the first counts sixteens, a
/// plus sign nothing.
pub proof fn lemma_pair_values(a: u8, b: u8)
    ensures
        0x30 <= b <= 0x39 ==> digit_value(b) == Some(b - 48),
        0x41 <= b <= 0x46 ==> digit_value(b) == Some(b - 55),
        0x61 <= b <= 0x66 ==> digit_value(b) == Some(b - 87),
        digit_value(b) matches Some(n) ==> 0 <= n < 16,
        digit_value(b) is Some <==> 0x30 <= b <= 0x39 || 0x41 <= b <= 0x46 || 0x61 <= b <= 0x66,
        a == 43 ==> pair_value(a, b) == digit_value(b),
        a != 43 ==> (pair_value(a, b) is Some <==> digit_value(a) is Some && digit_value(b) is Some),
        a != 43 ==> (pair_value(a, b) matches Some(n) ==> n / 16 == digit_value(a)->0 && n % 16
            == digit_value(b)->0),
{
}

/// What a new record holds: the identifier with capital digits, the seed with small ones,
/// and nothing of the device.
pub proof fn lemma_fresh_record(seed: Seq<u8>, id: Seq<u8>)
    ensures
        fresh_record(seed, id).identifier == uuid_text(id, true),
        hex_read(encode_utf8(fresh_record(seed, id).signing_key)) == HexRead::Bytes(seed),
        fresh_record(seed, id).peer_identifier.len() == 0,
        fresh_record(seed, id).peer_public_key.len() == 0,
{
    lemma_hex_roundtrip(seed);
}

/// A signing key has to count 32 bytes.
pub proof fn lemma_seeds(signing_key: Seq<char>)
    ensures
        seed_of(signing_key) matches Ok(seed) ==> seed.len() == 32 && hex_read(
            encode_utf8(signing_key),
        ) == HexRead::Bytes(seed),
        hex_read(encode_utf8(signing_key)) matches HexRead::Bytes(b) ==> (b.len() == 32 <==> seed_of(
            signing_key,
        ) is Ok),
        key_readable(signing_key) <==> !(hex_read(encode_utf8(signing_key)) is Cut),
{
}

/// A signing key that is hexadecimal of another length than 32 bytes is refused for that,
/// and one that is not hexadecimal for a digit.
pub proof fn lemma_seed_refusals(signing_key: Seq<char>)
    ensures
        match hex_read(encode_utf8(signing_key)) {
            HexRead::Bytes(b) => b.len() != 32
                ==> seed_of(signing_key)
                == Err::<Seq<u8>, Seq<char>>("signing key must be 32 bytes"@),
            _ => seed_of(signing_key)
                == Err::<Seq<u8>, Seq<char>>(
                "bad signing key hex: "@ + "invalid digit found in string"@,
            ),
        },
{
}

} // verus!
