//! The file service: requests and replies behind a header of forty bytes.

use vstd::prelude::*;
use vstd::utf8::encode_utf8;
use crate::bytes::{
    copy_bytes, get_le, le_at, le_bytes, lemma_stands_le, put_le, put_slice, same_bytes, stands_at,
    sub_vec, zeros,
};
use crate::entries::Entries;
use crate::framing::{carries, prefix};
use crate::lockdown::error::Error;
use crate::proplist::format::{from_bytes, plist_error_text, plist_parse, to_xml};
use crate::proplist::{no_entries, plain_entries, uid_free_entries, Dict, Plist, Tree};
use crate::text::{
    after_last, dec_u64, decimal, hex_u64, hexadecimal, join2, join3, last_part,
    lemma_nul_free_bytes, lossy, nul_free, own, parse_decimal, parse_unsigned, same_str, str_bytes,
    texts, utf8_text_lossy,
};

verus! {

/// The name of the service.
pub const SERVICE: &'static str = "com.apple.afc";

/// The service that hands out the container of an application.
pub const HOUSE_ARREST: &'static str = "com.apple.mobile.house_arrest";

/// The length of a header.
pub const HEADER_SIZE: usize = 40;

/// How much is asked for in one read.
pub const READ_CHUNK: usize = 4_194_304;

/// How much is sent in one write.
pub const WRITE_CHUNK: usize = 262_144;

pub const OP_STATUS: u64 = 0x01;

pub const OP_DATA: u64 = 0x02;

pub const OP_READ_DIR: u64 = 0x03;

pub const OP_REMOVE_PATH: u64 = 0x08;

pub const OP_MAKE_DIR: u64 = 0x09;

pub const OP_GET_FILE_INFO: u64 = 0x0a;

pub const OP_GET_DEVINFO: u64 = 0x0b;

pub const OP_FILE_OPEN: u64 = 0x0d;

pub const OP_FILE_OPEN_RES: u64 = 0x0e;

pub const OP_FILE_READ: u64 = 0x0f;

pub const OP_FILE_WRITE: u64 = 0x10;

pub const OP_FILE_CLOSE: u64 = 0x14;

pub const OP_RENAME_PATH: u64 = 0x22;

pub const OP_MAKE_LINK: u64 = 0x28;

/// Open for reading.
pub const FOPEN_RDONLY: u64 = 0x01;

/// Create or truncate.
pub const FOPEN_WR: u64 = 0x04;

pub const STATUS_SUCCESS: u64 = 0;

pub const STATUS_END_OF_DATA: u64 = 14;

pub const STATUS_OBJECT_EXISTS: u64 = 16;

/// The first eight bytes of a header.
pub open spec fn magic() -> Seq<u8> {
    seq![0x43u8, 0x46, 0x41, 0x36, 0x4c, 0x50, 0x41, 0x41]
}

fn magic_bytes() -> (m: Vec<u8>)
    ensures
        m@ == magic(),
{
    let m: Vec<u8> = vec![0x43, 0x46, 0x41, 0x36, 0x4c, 0x50, 0x41, 0x41];
    assert(m@ =~= magic());
    m
}

/// The kind of a file.
#[derive(Clone, Copy, Debug, PartialEq, Eq, Structural)]
pub enum FileType {
    Regular,
    Directory,
    Symlink,
    Other,
}

impl FileType {
    /// The kind that a format name means.
    pub open spec fn named(s: Seq<char>) -> FileType {
        if s == "S_IFREG"@ {
            FileType::Regular
        } else if s == "S_IFDIR"@ {
            FileType::Directory
        } else if s == "S_IFLNK"@ {
            FileType::Symlink
        } else {
            FileType::Other
        }
    }

    pub fn from_str(s: &str) -> (t: FileType)
        ensures
            t == FileType::named(s@),
    {
        if same_str(s, "S_IFREG") {
            FileType::Regular
        } else if same_str(s, "S_IFDIR") {
            FileType::Directory
        } else if same_str(s, "S_IFLNK") {
            FileType::Symlink
        } else {
            FileType::Other
        }
    }

    /// The letter that listings show.
    pub fn indicator(&self) -> (c: char)
        ensures
            c == match *self {
                FileType::Regular => '-',
                FileType::Directory => 'd',
                FileType::Symlink => 'l',
                FileType::Other => '?',
            },
    {
        match self {
            FileType::Regular => '-',
            FileType::Directory => 'd',
            FileType::Symlink => 'l',
            FileType::Other => '?',
        }
    }
}

/// A text as bytes, with a zero behind it.
pub open spec fn nul_bytes(s: Seq<char>) -> Seq<u8> {
    encode_utf8(s).push(0)
}

/// The bytes of a text, with a zero behind them.
pub fn nul_str(s: &str) -> (out: Vec<u8>)
    ensures
        out@ == nul_bytes(s@),
{
    let mut v: Vec<u8> = str_bytes(s);
    v.push(0);
    v
}

/// The number that eight bytes hold, least significant first: zero where the buffer
/// ends before them.
pub open spec fn u64_at(buf: Seq<u8>, offset: int) -> nat {
    if offset + 8 <= buf.len() {
        le_at(buf, offset, 8)
    } else {
        0
    }
}

/// Reads a number of eight bytes at `offset`, least significant first. Zero where the buffer
/// ends before them.
pub fn le_u64(buf: &[u8], offset: usize) -> (n: u64)
    ensures
        n == u64_at(buf@, offset as int),
{
    assert(buf@.len() == buf.len());
    if buf.len() < 8 || buf.len() - 8 < offset {
        return 0;
    }
    get_le(buf, offset, 8)
}

/// Where the first zero is: at the end if there is none.
pub open spec fn nul_index(s: Seq<u8>) -> nat
    decreases s.len(),
{
    if s.len() == 0 || s[0] == 0 {
        0
    } else {
        1 + nul_index(s.skip(1))
    }
}

/// The texts that end at a zero or at the end of the bytes, the empty ones too. Behind a
/// last zero there is no text.
pub open spec fn nul_pieces(s: Seq<u8>) -> Seq<Seq<char>>
    decreases s.len(),
{
    if s.len() == 0 {
        Seq::empty()
    } else {
        let n = nul_index(s);
        let rest = if n < s.len() {
            nul_pieces(s.skip(n as int + 1))
        } else {
            Seq::empty()
        };
        seq![lossy(s.take(n as int))] + rest
    }
}

/// The texts between zeros, without the empty ones.
pub open spec fn nul_texts(s: Seq<u8>) -> Seq<Seq<char>>
    decreases s.len(),
{
    if s.len() == 0 {
        Seq::empty()
    } else {
        let n = nul_index(s);
        let rest = if n < s.len() {
            nul_texts(s.skip(n as int + 1))
        } else {
            Seq::empty()
        };
        if n == 0 {
            rest
        } else {
            seq![lossy(s.take(n as int))] + rest
        }
    }
}

proof fn lemma_nul_index_bound(s: Seq<u8>)
    ensures
        nul_index(s) <= s.len(),
    decreases s.len(),
{
    if s.len() > 0 && s[0] != 0 {
        lemma_nul_index_bound(s.skip(1));
    }
}

fn find_nul(data: &[u8], from: usize) -> (end: usize)
    requires
        from <= data@.len(),
    ensures
        from <= end <= data@.len(),
        end - from == nul_index(data@.skip(from as int)),
        forall|i: int| from <= i < end ==> #[trigger] data@[i] != 0,
{
    assert(data@.len() == data.len());
    let mut j: usize = from;
    while j < data.len() && data[j] != 0
        invariant
            data@.len() == data.len(),
            from <= j <= data@.len(),
            nul_index(data@.skip(from as int)) == (j - from) + nul_index(data@.skip(j as int)),
            forall|i: int| from <= i < j ==> #[trigger] data@[i] != 0,
        decreases data@.len() - j,
    {
        assert(data@.skip(j as int).skip(1) =~= data@.skip(j + 1));
        j += 1;
    }
    j
}

/// Reads the texts between zeros. None of them is empty or holds a zero, whatever the
/// bytes are.
pub fn parse_nul_strings(data: &[u8]) -> (out: Vec<String>)
    ensures
        texts(out@) == nul_texts(data@),
        forall|i: int|
            0 <= i < out@.len() ==> (#[trigger] out@[i])@.len() > 0 && nul_free(out@[i]@),
{
    let mut out: Vec<String> = Vec::new();
    let mut pos: usize = 0;
    assert(data@.len() == data.len());
    assert(data@.skip(0) =~= data@);
    assert(texts(out@) + nul_texts(data@.skip(0)) =~= nul_texts(data@));
    while pos < data.len()
        invariant
            data@.len() == data.len(),
            pos <= data@.len(),
            texts(out@) + nul_texts(data@.skip(pos as int)) == nul_texts(data@),
            forall|i: int|
                0 <= i < out@.len() ==> (#[trigger] out@[i])@.len() > 0 && nul_free(out@[i]@),
        decreases data@.len() - pos,
    {
        let ghost rest = data@.skip(pos as int);
        let ghost before = texts(out@);
        let end: usize = find_nul(data, pos);
        if end > pos {
            let part: Vec<u8> = sub_vec(data, pos, end);
            assert(part@ =~= rest.take(end - pos));
            assert forall|i: int| 0 <= i < part@.len() implies #[trigger] part@[i] != 0 by {
                assert(part@[i] == data@[pos + i]);
            }
            let ghost old_out = out@;
            out.push(utf8_text_lossy(part.as_slice()));
            assert(texts(out@) =~= texts(old_out).push(lossy(part@)));
        }
        let next: usize = if end < data.len() {
            end + 1
        } else {
            end
        };
        if end == data.len() {
            assert(data@.skip(end as int) =~= Seq::<u8>::empty());
        } else {
            assert(rest.skip(end - pos + 1) =~= data@.skip(end + 1));
        }
        assert(texts(out@) + nul_texts(data@.skip(next as int)) =~= before + nul_texts(rest));
        pos = next;
    }
    assert(data@.skip(pos as int) =~= Seq::<u8>::empty());
    assert(texts(out@) + nul_texts(data@.skip(pos as int)) =~= texts(out@));
    out
}

/// Names with a zero behind each.
pub open spec fn nul_joined(names: Seq<Seq<char>>) -> Seq<u8>
    decreases names.len(),
{
    if names.len() == 0 {
        Seq::empty()
    } else {
        nul_bytes(names[0]) + nul_joined(names.skip(1))
    }
}

proof fn lemma_nul_index_of(head: Seq<u8>, tail: Seq<u8>)
    requires
        forall|i: int| 0 <= i < head.len() ==> #[trigger] head[i] != 0,
    ensures
        nul_index(head.push(0) + tail) == head.len(),
    decreases head.len(),
{
    let s = head.push(0) + tail;
    if head.len() > 0 {
        assert(s[0] == head[0]);
        assert(s.skip(1) =~= head.skip(1).push(0) + tail);
        lemma_nul_index_of(head.skip(1), tail);
    } else {
        assert(s[0] == 0);
    }
}

/// Names that are not empty and hold no zero come back from behind their zeros.
pub proof fn lemma_nul_strings_roundtrip(names: Seq<Seq<char>>)
    requires
        forall|i: int| 0 <= i < names.len() ==> nul_free(#[trigger] names[i]) && names[i].len() > 0,
    ensures
        nul_texts(nul_joined(names)) == names,
    decreases names.len(),
{
    if names.len() > 0 {
        let head = encode_utf8(names[0]);
        let rest = names.skip(1);
        assert forall|i: int| 0 <= i < rest.len() implies nul_free(#[trigger] rest[i])
            && rest[i].len() > 0 by {
            assert(rest[i] == names[i + 1]);
        }
        lemma_nul_strings_roundtrip(rest);
        lemma_nul_free_bytes(names[0]);
        let all = nul_joined(names);
        lemma_nul_index_of(head, nul_joined(rest));
        assert(all.skip(head.len() as int + 1) =~= nul_joined(rest));
        assert(all.take(head.len() as int) =~= head);
        vstd::utf8::encode_utf8_valid_utf8(names[0]);
        vstd::utf8::encode_utf8_decode_utf8(names[0]);
        assert(names =~= seq![names[0]] + rest);
        assert(head.len() > 0);
    } else {
        assert(names =~= Seq::<Seq<char>>::empty());
    }
}

/// Names in bytes with `gaps[i]` zeros more than needed before the `i`-th of them, and
/// `gaps[names.len()]` at the end. With an open end the last name has no zero behind it.
pub open spec fn nul_spread(names: Seq<Seq<char>>, gaps: Seq<nat>, open_end: bool) -> Seq<u8>
    decreases names.len(),
{
    if names.len() == 0 {
        zeros(gaps[0])
    } else if names.len() == 1 && open_end {
        zeros(gaps[0]) + encode_utf8(names[0])
    } else {
        zeros(gaps[0]) + (nul_bytes(names[0]) + nul_spread(names.skip(1), gaps.skip(1), open_end))
    }
}

proof fn lemma_skip_zeros(n: nat, s: Seq<u8>)
    ensures
        nul_texts(zeros(n) + s) == nul_texts(s),
    decreases n,
{
    if n > 0 {
        lemma_skip_zeros((n - 1) as nat, s);
        let all = zeros(n) + s;
        assert(all[0] == 0);
        assert(all.skip(1) =~= zeros((n - 1) as nat) + s);
    } else {
        assert(zeros(0) + s =~= s);
    }
}

proof fn lemma_nul_index_open(s: Seq<u8>)
    requires
        forall|i: int| 0 <= i < s.len() ==> #[trigger] s[i] != 0,
    ensures
        nul_index(s) == s.len(),
    decreases s.len(),
{
    if s.len() > 0 {
        lemma_nul_index_open(s.skip(1));
    }
}

/// Names that are not empty and hold no zero come back also where there are more zeros
/// between them than needed, and where the last one has none behind it.
pub proof fn lemma_nul_strings_spread(names: Seq<Seq<char>>, gaps: Seq<nat>, open_end: bool)
    requires
        forall|i: int| 0 <= i < names.len() ==> nul_free(#[trigger] names[i]) && names[i].len() > 0,
        gaps.len() == names.len() + 1,
    ensures
        nul_texts(nul_spread(names, gaps, open_end)) == names,
    decreases names.len(),
{
    if names.len() == 0 {
        assert(zeros(gaps[0]) + Seq::<u8>::empty() =~= zeros(gaps[0]));
        lemma_skip_zeros(gaps[0], Seq::empty());
        assert(names =~= Seq::<Seq<char>>::empty());
    } else {
        let head = encode_utf8(names[0]);
        let rest = names.skip(1);
        lemma_nul_free_bytes(names[0]);
        vstd::utf8::encode_utf8_valid_utf8(names[0]);
        vstd::utf8::encode_utf8_decode_utf8(names[0]);
        assert(head.len() > 0);
        if names.len() == 1 && open_end {
            lemma_skip_zeros(gaps[0], head);
            lemma_nul_index_open(head);
            assert(head.take(head.len() as int) =~= head);
            assert(names =~= seq![names[0]] + Seq::<Seq<char>>::empty());
        } else {
            assert forall|i: int| 0 <= i < rest.len() implies nul_free(#[trigger] rest[i])
                && rest[i].len() > 0 by {
                assert(rest[i] == names[i + 1]);
            }
            lemma_nul_strings_spread(rest, gaps.skip(1), open_end);
            let tail = nul_spread(rest, gaps.skip(1), open_end);
            let all = nul_bytes(names[0]) + tail;
            lemma_skip_zeros(gaps[0], all);
            lemma_nul_index_of(head, tail);
            assert(all.skip(head.len() as int + 1) =~= tail);
            assert(all.take(head.len() as int) =~= head);
            assert(names =~= seq![names[0]] + rest);
        }
    }
}

/// Texts that hold no zero come back from behind their zeros, the empty ones too.
proof fn lemma_nul_pieces_roundtrip(names: Seq<Seq<char>>)
    requires
        forall|i: int| 0 <= i < names.len() ==> nul_free(#[trigger] names[i]),
    ensures
        nul_pieces(nul_joined(names)) == names,
    decreases names.len(),
{
    if names.len() > 0 {
        let head = encode_utf8(names[0]);
        let rest = names.skip(1);
        assert forall|i: int| 0 <= i < rest.len() implies nul_free(#[trigger] rest[i]) by {
            assert(rest[i] == names[i + 1]);
        }
        lemma_nul_pieces_roundtrip(rest);
        lemma_nul_free_bytes(names[0]);
        let all = nul_joined(names);
        lemma_nul_index_of(head, nul_joined(rest));
        assert(all.skip(head.len() as int + 1) =~= nul_joined(rest));
        assert(all.take(head.len() as int) =~= head);
        vstd::utf8::encode_utf8_valid_utf8(names[0]);
        vstd::utf8::encode_utf8_decode_utf8(names[0]);
        assert(names =~= seq![names[0]] + rest);
    } else {
        assert(names =~= Seq::<Seq<char>>::empty());
    }
}

/// Keys and texts one after the other.
pub open spec fn unpaired(pairs: Seq<(Seq<char>, Seq<char>)>) -> Seq<Seq<char>> {
    Seq::new(
        2 * pairs.len(),
        |i: int|
            if i % 2 == 0 {
                pairs[i / 2].0
            } else {
                pairs[i / 2].1
            },
    )
}

/// Keys and texts that hold no zero come back from behind their zeros. Either may be
/// empty.
pub proof fn lemma_pairs_roundtrip(pairs: Seq<(Seq<char>, Seq<char>)>)
    requires
        forall|i: int|
            0 <= i < pairs.len() ==> nul_free((#[trigger] pairs[i]).0) && nul_free(pairs[i].1),
    ensures
        pairs_in(nul_joined(unpaired(pairs))) == pairs,
{
    let all = unpaired(pairs);
    assert forall|i: int| 0 <= i < all.len() implies nul_free(#[trigger] all[i]) by {
        assert(nul_free(pairs[i / 2].0) && nul_free(pairs[i / 2].1));
    }
    lemma_nul_pieces_roundtrip(all);
    assert(paired(all) =~= pairs) by {
        assert forall|i: int| 0 <= i < pairs.len() implies paired(all)[i] == pairs[i] by {
            assert((2 * i) / 2 == i && (2 * i + 1) / 2 == i);
        }
    }
}

/// Texts under keys. Of several texts under one key the last counts.
#[derive(Debug)]
pub struct KvPairs {
    pub pairs: Vec<(String, String)>,
}

impl View for KvPairs {
    type V = Seq<(Seq<char>, Seq<char>)>;

    open spec fn view(&self) -> Seq<(Seq<char>, Seq<char>)> {
        self.pairs@.map_values(|p: (String, String)| (p.0@, p.1@))
    }
}

impl KvPairs {
    /// The text under a key.
    pub fn get(&self, key: &str) -> (value: Option<&String>)
        ensures
            match value {
                Some(v) => self@.lookup(key@) == Some(v@),
                None => self@.lookup(key@) is None,
            },
    {
        let mut i: usize = self.pairs.len();
        assert(self@.take(i as int) =~= self@);
        while i > 0
            invariant
                i <= self.pairs@.len(),
                self@.lookup(key@) == self@.take(i as int).lookup(key@),
            decreases i,
        {
            i -= 1;
            assert(self@.take(i + 1).drop_last() =~= self@.take(i as int));
            assert(self@.take(i + 1).last() == (self.pairs@[i as int].0@, self.pairs@[i as int].1@));
            if same_str(self.pairs[i].0.as_str(), key) {
                return Some(&self.pairs[i].1);
            }
        }
        None
    }

    /// Whether there is a text under a key.
    pub fn contains_key(&self, key: &str) -> (yes: bool)
        ensures
            yes == (self@.lookup(key@) is Some),
    {
        self.get(key).is_some()
    }
}

/// Texts taken two at a time: a key and what is under it. An odd one at the end is
/// dropped.
pub open spec fn paired(s: Seq<Seq<char>>) -> Seq<(Seq<char>, Seq<char>)> {
    Seq::new(s.len() / 2, |i: int| (s[2 * i], s[2 * i + 1]))
}

/// The keys and texts in some bytes: a key, a zero, a text, a zero, and so on.
pub open spec fn pairs_in(data: Seq<u8>) -> Seq<(Seq<char>, Seq<char>)> {
    paired(nul_pieces(data))
}

fn split_nul(data: &[u8]) -> (out: Vec<String>)
    ensures
        texts(out@) == nul_pieces(data@),
{
    let mut out: Vec<String> = Vec::new();
    let mut pos: usize = 0;
    assert(data@.len() == data.len());
    assert(data@.skip(0) =~= data@);
    assert(texts(out@) + nul_pieces(data@.skip(0)) =~= nul_pieces(data@));
    while pos < data.len()
        invariant
            data@.len() == data.len(),
            pos <= data@.len(),
            texts(out@) + nul_pieces(data@.skip(pos as int)) == nul_pieces(data@),
        decreases data@.len() - pos,
    {
        let ghost rest = data@.skip(pos as int);
        let ghost before = out@;
        let end: usize = find_nul(data, pos);
        let part: Vec<u8> = sub_vec(data, pos, end);
        assert(part@ =~= rest.take(end - pos));
        out.push(utf8_text_lossy(part.as_slice()));
        assert(texts(out@) =~= texts(before).push(lossy(part@)));
        let next: usize = if end < data.len() {
            end + 1
        } else {
            end
        };
        if end == data.len() {
            assert(data@.skip(end as int) =~= Seq::<u8>::empty());
        } else {
            assert(rest.skip(end - pos + 1) =~= data@.skip(end + 1));
        }
        assert(texts(out@) + nul_pieces(data@.skip(next as int)) =~= texts(before) + nul_pieces(
            rest,
        ));
        pos = next;
    }
    assert(data@.skip(pos as int) =~= Seq::<u8>::empty());
    assert(texts(out@) + nul_pieces(data@.skip(pos as int)) =~= texts(out@));
    out
}

/// Reads keys and texts that alternate, with a zero behind each. A text may be empty.
pub fn parse_kv_pairs(data: &[u8]) -> (map: KvPairs)
    ensures
        map@ == pairs_in(data@),
{
    let strings: Vec<String> = split_nul(data);
    let ghost all = texts(strings@);
    let mut pairs: Vec<(String, String)> = Vec::new();
    let len: usize = strings.len();
    let n: usize = len / 2;
    let mut i: usize = 0;
    while i < n
        invariant
            n == len / 2,
            len == strings@.len(),
            i <= n,
            all == texts(strings@),
            pairs@.len() == i,
            forall|j: int|
                0 <= j < i ==> (#[trigger] pairs@[j]).0@ == all[2 * j] && pairs@[j].1@ == all[2 * j
                    + 1],
        decreases n - i,
    {
        pairs.push((own(strings[2 * i].as_str()), own(strings[2 * i + 1].as_str())));
        i += 1;
    }
    let map = KvPairs { pairs };
    assert(map@ =~= paired(all));
    map
}

/// The number under a key: zero where there is none.
pub open spec fn number_at(pairs: Seq<(Seq<char>, Seq<char>)>, key: Seq<char>) -> nat {
    match pairs.lookup(key) {
        Some(s) => match parse_unsigned(s, u64::MAX as nat) {
            Some(n) => n,
            None => 0,
        },
        None => 0,
    }
}

fn number_in(pairs: &KvPairs, key: &str) -> (n: u64)
    ensures
        n == number_at(pairs@, key@),
{
    match pairs.get(key) {
        Some(s) => match parse_decimal(s.as_str(), u64::MAX) {
            Some(n) => n,
            None => 0,
        },
        None => 0,
    }
}

/// What the service knows of a file.
#[derive(Debug)]
pub struct FileInfo {
    /// The last part of the path.
    pub name: String,
    pub file_type: FileType,
    /// In bytes: zero for a directory.
    pub size: u64,
    /// Nanoseconds since 1970.
    pub modified_nanos: u64,
    /// Where a symbolic link leads. Only a symbolic link has one.
    pub link_target: Option<String>,
}

impl FileInfo {
    /// Reads what the service says of a file.
    pub fn parse(name: &str, data: &[u8]) -> (info: FileInfo)
        ensures
            info.is_info(name@, pairs_in(data@)),
    {
        let pairs: KvPairs = parse_kv_pairs(data);
        let file_type: FileType = match pairs.get("st_ifmt") {
            Some(s) => FileType::from_str(s.as_str()),
            None => FileType::Other,
        };
        let link_target: Option<String> = match (file_type, pairs.get("LinkTarget")) {
            (FileType::Symlink, Some(s)) => Some(own(s.as_str())),
            _ => None,
        };
        let size: u64 = match file_type {
            FileType::Directory => 0,
            _ => number_in(&pairs, "st_size"),
        };
        FileInfo {
            name: own(name),
            file_type,
            size,
            modified_nanos: number_in(&pairs, "st_mtime"),
            link_target,
        }
    }

    /// Whether this is what some pairs say of a file.
    pub open spec fn is_info(self, name: Seq<char>, pairs: Seq<(Seq<char>, Seq<char>)>) -> bool {
        &&& self.name@ == name
        &&& self.file_type == match pairs.lookup("st_ifmt"@) {
            Some(s) => FileType::named(s),
            None => FileType::Other,
        }
        &&& self.size == if self.file_type is Directory {
            0
        } else {
            number_at(pairs, "st_size"@)
        }
        &&& self.modified_nanos == number_at(pairs, "st_mtime"@)
        &&& match pairs.lookup("LinkTarget"@) {
            Some(s) if self.file_type is Symlink => self.link_target matches Some(t) && t@ == s,
            _ => self.link_target is None,
        }
    }
}

/// What the service knows of the file system.
#[derive(Debug)]
pub struct AfcDeviceInfo {
    pub model: String,
    pub total_bytes: u64,
    pub free_bytes: u64,
    pub block_size: u64,
}

impl AfcDeviceInfo {
    /// Reads what the service says of the file system.
    pub fn parse(data: &[u8]) -> (info: AfcDeviceInfo)
        ensures
            info.is_info(pairs_in(data@)),
    {
        let pairs: KvPairs = parse_kv_pairs(data);
        let model: String = match pairs.get("Model") {
            Some(s) => own(s.as_str()),
            None => {
                let none: String = String::new();
                assert(none@ =~= Seq::<char>::empty());
                none
            },
        };
        AfcDeviceInfo {
            model,
            total_bytes: number_in(&pairs, "FSTotalBytes"),
            free_bytes: number_in(&pairs, "FSFreeBytes"),
            block_size: number_in(&pairs, "FSBlockSize"),
        }
    }

    /// Whether this is what some pairs say of the file system.
    pub open spec fn is_info(self, pairs: Seq<(Seq<char>, Seq<char>)>) -> bool {
        &&& self.model@ == match pairs.lookup("Model"@) {
            Some(s) => s,
            None => Seq::empty(),
        }
        &&& self.total_bytes == number_at(pairs, "FSTotalBytes"@)
        &&& self.free_bytes == number_at(pairs, "FSFreeBytes"@)
        &&& self.block_size == number_at(pairs, "FSBlockSize"@)
    }
}

/// What a status code means.
pub open spec fn status_word(code: nat) -> Seq<char> {
    if code == 0 {
        "success"@
    } else if code == 1 {
        "unknown error"@
    } else if code == 2 {
        "invalid header"@
    } else if code == 3 {
        "no resources"@
    } else if code == 4 {
        "read error"@
    } else if code == 5 {
        "write error"@
    } else if code == 6 {
        "unknown packet type"@
    } else if code == 7 {
        "invalid arg"@
    } else if code == 8 {
        "not found"@
    } else if code == 9 {
        "is a directory"@
    } else if code == 10 {
        "permission denied"@
    } else if code == 11 {
        "not connected"@
    } else if code == 12 {
        "timeout"@
    } else if code == 13 {
        "too much data"@
    } else if code == 14 {
        "end of data"@
    } else if code == 15 {
        "not supported"@
    } else if code == 16 {
        "object exists"@
    } else if code == 17 {
        "object busy"@
    } else if code == 18 {
        "no space left"@
    } else if code == 20 {
        "I/O error"@
    } else {
        "unknown"@
    }
}

/// A status code with its meaning.
pub open spec fn status_text(code: nat) -> Seq<char> {
    status_word(code) + " (code "@ + decimal(code) + ")"@
}

/// Names a status code.
pub fn status_name(code: u64) -> (name: String)
    ensures
        name@ == status_text(code as nat),
{
    let word: &str = match code {
        0 => "success",
        1 => "unknown error",
        2 => "invalid header",
        3 => "no resources",
        4 => "read error",
        5 => "write error",
        6 => "unknown packet type",
        7 => "invalid arg",
        8 => "not found",
        9 => "is a directory",
        10 => "permission denied",
        11 => "not connected",
        12 => "timeout",
        13 => "too much data",
        14 => "end of data",
        15 => "not supported",
        16 => "object exists",
        17 => "object busy",
        18 => "no space left",
        20 => "I/O error",
        _ => "unknown",
    };
    join2(join3(word, " (code ", dec_u64(code).as_str()).as_str(), ")")
}

/// The bytes of a request.
pub open spec fn request_bytes(op: u64, args: Seq<u8>, data: Seq<u8>, number: u64) -> Seq<u8> {
    magic() + le_bytes(40 + args.len() + data.len(), 8) + le_bytes(40 + args.len(), 8) + le_bytes(
        number as nat,
        8,
    ) + le_bytes(op as nat, 8) + args + data
}

/// What the header of a reply says: the operation, and how many bytes follow.
#[derive(Clone, Copy, Debug, PartialEq, Eq, Structural)]
pub struct ReplyHead {
    pub op: u64,
    pub len: u64,
}

/// How many bytes follow a header.
pub open spec fn payload_len(entire: nat, this: nat) -> nat {
    ((if this >= 40 {
        this - 40
    } else {
        0
    }) + (if entire >= this {
        entire - this
    } else {
        0
    })) as nat
}

/// The header of a reply, unless the magic is wrong.
pub open spec fn head_of(hdr: Seq<u8>) -> Option<ReplyHead> {
    if hdr.take(8) != magic() {
        None
    } else {
        Some(
            ReplyHead {
                op: le_at(hdr, 32, 8) as u64,
                len: payload_len(le_at(hdr, 8, 8), le_at(hdr, 16, 8)) as u64,
            },
        )
    }
}

/// Reads the header of a reply.
pub fn read_head(hdr: &[u8]) -> (head: Result<ReplyHead, Error>)
    requires
        hdr@.len() == 40,
    ensures
        match head_of(hdr@) {
            Some(h) => head matches Ok(v) && v == h && v.op == le_at(hdr@, 32, 8) && v.len
                == payload_len(le_at(hdr@, 8, 8), le_at(hdr@, 16, 8)),
            None => head matches Err(Error::Afc(t)) && t@ == "bad AFC magic in response"@,
        },
{
    let start: Vec<u8> = sub_vec(hdr, 0, 8);
    assert(start@ =~= hdr@.take(8));
    if !same_bytes(start.as_slice(), magic_bytes().as_slice()) {
        return Err(Error::Afc(own("bad AFC magic in response")));
    }
    let entire: u64 = le_u64(hdr, 8);
    let this: u64 = le_u64(hdr, 16);
    let op: u64 = le_u64(hdr, 32);
    let args_len: u64 = if this >= 40 {
        this - 40
    } else {
        0
    };
    let data_len: u64 = if entire >= this {
        entire - this
    } else {
        0
    };
    Ok(ReplyHead { op, len: args_len + data_len })
}

/// A client of the file service: it numbers its requests from one.
#[derive(Debug)]
pub struct AfcClient {
    packet_num: u64,
}

impl AfcClient {
    /// How many requests were made.
    pub closed spec fn made(self) -> u64 {
        self.packet_num
    }

    /// A client that has made no request yet.
    pub fn new() -> (c: AfcClient)
        ensures
            c.made() == 0,
    {
        AfcClient { packet_num: 0 }
    }

    /// How many requests were made.
    pub fn count(&self) -> (n: u64)
        ensures
            n == self.made(),
    {
        self.packet_num
    }

    /// The bytes of the next request.
    pub fn send_request(&mut self, op: u64, args: &[u8], file_data: &[u8]) -> (out: Vec<u8>)
        requires
            old(self).made() < u64::MAX,
        ensures
            final(self).made() == old(self).made() + 1,
            out@ == request_bytes(op, args@, file_data@, final(self).made()),
    {
        let mut body: Vec<u8> = Vec::new();
        crate::bytes::put_zeros(&mut body, HEADER_SIZE);
        put_slice(&mut body, args);
        let this_length: u64 = body.len() as u64;
        put_slice(&mut body, file_data);
        let entire_length: u64 = body.len() as u64;
        self.packet_num = self.packet_num + 1;
        let mut out: Vec<u8> = magic_bytes();
        put_le(&mut out, entire_length, 8);
        put_le(&mut out, this_length, 8);
        put_le(&mut out, self.packet_num, 8);
        put_le(&mut out, op, 8);
        put_slice(&mut out, args);
        put_slice(&mut out, file_data);
        out
    }

    /// Asks for the entries of a directory.
    pub fn list_dir(&mut self, path: &str) -> (out: Vec<u8>)
        requires
            old(self).made() < u64::MAX,
        ensures
            final(self).made() == old(self).made() + 1,
            out@ == request_bytes(
                OP_READ_DIR,
                nul_bytes(path@),
                Seq::empty(),
                final(self).made(),
            ),
    {
        self.simple(OP_READ_DIR, nul_str(path))
    }

    fn simple(&mut self, op: u64, args: Vec<u8>) -> (out: Vec<u8>)
        requires
            old(self).made() < u64::MAX,
        ensures
            final(self).made() == old(self).made() + 1,
            out@ == request_bytes(op, args@, Seq::empty(), final(self).made()),
    {
        let none: Vec<u8> = Vec::new();
        assert(none@ =~= Seq::<u8>::empty());
        self.send_request(op, args.as_slice(), none.as_slice())
    }

    /// Asks what the service knows of a file.
    pub fn get_file_info(&mut self, path: &str) -> (out: Vec<u8>)
        requires
            old(self).made() < u64::MAX,
        ensures
            final(self).made() == old(self).made() + 1,
            out@ == request_bytes(
                OP_GET_FILE_INFO,
                nul_bytes(path@),
                Seq::empty(),
                final(self).made(),
            ),
    {
        self.simple(OP_GET_FILE_INFO, nul_str(path))
    }

    /// Asks what the service knows of the file system.
    pub fn device_info(&mut self) -> (out: Vec<u8>)
        requires
            old(self).made() < u64::MAX,
        ensures
            final(self).made() == old(self).made() + 1,
            out@ == request_bytes(OP_GET_DEVINFO, Seq::empty(), Seq::empty(), final(self).made()),
    {
        let none: Vec<u8> = Vec::new();
        assert(none@ =~= Seq::<u8>::empty());
        self.simple(OP_GET_DEVINFO, none)
    }

    /// Asks to make a directory.
    pub fn mkdir(&mut self, path: &str) -> (out: Vec<u8>)
        requires
            old(self).made() < u64::MAX,
        ensures
            final(self).made() == old(self).made() + 1,
            out@ == request_bytes(
                OP_MAKE_DIR,
                nul_bytes(path@),
                Seq::empty(),
                final(self).made(),
            ),
    {
        self.simple(OP_MAKE_DIR, nul_str(path))
    }

    /// Asks to remove a file or an empty directory.
    pub fn remove_path(&mut self, path: &str) -> (out: Vec<u8>)
        requires
            old(self).made() < u64::MAX,
        ensures
            final(self).made() == old(self).made() + 1,
            out@ == request_bytes(
                OP_REMOVE_PATH,
                nul_bytes(path@),
                Seq::empty(),
                final(self).made(),
            ),
    {
        self.simple(OP_REMOVE_PATH, nul_str(path))
    }

    /// Asks to rename or move a file.
    pub fn rename(&mut self, from: &str, to: &str) -> (out: Vec<u8>)
        requires
            old(self).made() < u64::MAX,
        ensures
            final(self).made() == old(self).made() + 1,
            out@ == request_bytes(
                OP_RENAME_PATH,
                nul_bytes(from@) + nul_bytes(to@),
                Seq::empty(),
                final(self).made(),
            ),
    {
        let mut args: Vec<u8> = nul_str(from);
        put_slice(&mut args, nul_str(to).as_slice());
        self.simple(OP_RENAME_PATH, args)
    }

    /// Asks for a link: one of its own kind, or to the same file.
    pub fn make_link(&mut self, hard: bool, target: &str, link_name: &str) -> (out: Vec<u8>)
        requires
            old(self).made() < u64::MAX,
        ensures
            final(self).made() == old(self).made() + 1,
            out@ == request_bytes(
                OP_MAKE_LINK,
                le_bytes(
                    if hard {
                        1
                    } else {
                        2
                    },
                    8,
                ) + nul_bytes(target@) + nul_bytes(link_name@),
                Seq::empty(),
                final(self).made(),
            ),
    {
        let mut args: Vec<u8> = Vec::new();
        let kind: u64 = if hard {
            1
        } else {
            2
        };
        put_le(&mut args, kind, 8);
        put_slice(&mut args, nul_str(target).as_slice());
        put_slice(&mut args, nul_str(link_name).as_slice());
        assert(args@ =~= le_bytes(kind as nat, 8) + nul_bytes(target@) + nul_bytes(link_name@));
        self.simple(OP_MAKE_LINK, args)
    }

    fn open_with_mode(&mut self, path: &str, mode: u64) -> (out: Vec<u8>)
        requires
            old(self).made() < u64::MAX,
        ensures
            final(self).made() == old(self).made() + 1,
            out@ == request_bytes(
                OP_FILE_OPEN,
                le_bytes(mode as nat, 8) + nul_bytes(path@),
                Seq::empty(),
                final(self).made(),
            ),
    {
        let mut args: Vec<u8> = Vec::new();
        put_le(&mut args, mode, 8);
        put_slice(&mut args, nul_str(path).as_slice());
        assert(args@ =~= le_bytes(mode as nat, 8) + nul_bytes(path@));
        self.simple(OP_FILE_OPEN, args)
    }

    /// Asks to open a file for reading.
    pub fn file_open_read(&mut self, path: &str) -> (out: Vec<u8>)
        requires
            old(self).made() < u64::MAX,
        ensures
            final(self).made() == old(self).made() + 1,
            out@ == request_bytes(
                OP_FILE_OPEN,
                le_bytes(FOPEN_RDONLY as nat, 8) + nul_bytes(path@),
                Seq::empty(),
                final(self).made(),
            ),
    {
        self.open_with_mode(path, FOPEN_RDONLY)
    }

    /// Asks to open a file for writing; it is created, or cut to nothing.
    pub fn file_open(&mut self, path: &str) -> (out: Vec<u8>)
        requires
            old(self).made() < u64::MAX,
        ensures
            final(self).made() == old(self).made() + 1,
            out@ == request_bytes(
                OP_FILE_OPEN,
                le_bytes(FOPEN_WR as nat, 8) + nul_bytes(path@),
                Seq::empty(),
                final(self).made(),
            ),
    {
        self.open_with_mode(path, FOPEN_WR)
    }

    /// Asks for the next bytes of an open file.
    pub fn file_read(&mut self, handle: u64, size: usize) -> (out: Vec<u8>)
        requires
            old(self).made() < u64::MAX,
        ensures
            final(self).made() == old(self).made() + 1,
            out@ == request_bytes(
                OP_FILE_READ,
                le_bytes(handle as nat, 8) + le_bytes(size as nat, 8),
                Seq::empty(),
                final(self).made(),
            ),
    {
        let mut args: Vec<u8> = Vec::new();
        put_le(&mut args, handle, 8);
        put_le(&mut args, size as u64, 8);
        assert(args@ =~= le_bytes(handle as nat, 8) + le_bytes(size as nat, 8));
        self.simple(OP_FILE_READ, args)
    }

    /// Sends the next bytes of an open file.
    pub fn file_write(&mut self, handle: u64, data: &[u8]) -> (out: Vec<u8>)
        requires
            old(self).made() < u64::MAX,
        ensures
            final(self).made() == old(self).made() + 1,
            out@ == request_bytes(
                OP_FILE_WRITE,
                le_bytes(handle as nat, 8),
                data@,
                final(self).made(),
            ),
    {
        let mut args: Vec<u8> = Vec::new();
        put_le(&mut args, handle, 8);
        assert(args@ =~= le_bytes(handle as nat, 8));
        self.send_request(OP_FILE_WRITE, args.as_slice(), data)
    }

    /// Asks to close an open file.
    pub fn file_close(&mut self, handle: u64) -> (out: Vec<u8>)
        requires
            old(self).made() < u64::MAX,
        ensures
            final(self).made() == old(self).made() + 1,
            out@ == request_bytes(
                OP_FILE_CLOSE,
                le_bytes(handle as nat, 8),
                Seq::empty(),
                final(self).made(),
            ),
    {
        let mut args: Vec<u8> = Vec::new();
        put_le(&mut args, handle, 8);
        assert(args@ =~= le_bytes(handle as nat, 8));
        self.simple(OP_FILE_CLOSE, args)
    }
}

/// A refusal: what was tried, and the status.
pub open spec fn refused(what: Seq<char>, data: Seq<u8>) -> Seq<char> {
    what + ": "@ + status_text(u64_at(data, 0))
}

/// An operation that does not belong to the request.
pub open spec fn unexpected(what: Seq<char>, op: u64) -> Seq<char> {
    what + ": unexpected op 0x"@ + hexadecimal(op as nat)
}

fn refuse<T>(what: &str, data: &[u8]) -> (out: Result<T, Error>)
    ensures
        out matches Err(Error::Afc(t)) && t@ == refused(what@, data@),
{
    Err(Error::Afc(join3(what, ": ", status_name(le_u64(data, 0)).as_str())))
}

fn misfit<T>(what: &str, op: u64) -> (out: Result<T, Error>)
    ensures
        out matches Err(Error::Afc(t)) && t@ == unexpected(what@, op),
{
    Err(Error::Afc(join3(what, ": unexpected op 0x", hex_u64(op).as_str())))
}

/// Whether a name stands for the directory itself or its parent.
pub open spec fn is_dots(name: Seq<char>) -> bool {
    name == "."@ || name == ".."@
}

fn without_dots(names: Vec<String>) -> (out: Vec<String>)
    ensures
        texts(out@) == texts(names@).filter(|n: Seq<char>| !is_dots(n)),
{
    let mut out: Vec<String> = Vec::new();
    let ghost keep = |n: Seq<char>| !is_dots(n);
    let ghost all = texts(names@);
    let mut i: usize = 0;
    proof {
        reveal(Seq::filter);
        assert(texts(out@) =~= all.take(0).filter(keep));
    }
    while i < names.len()
        invariant
            i <= names@.len(),
            all == texts(names@),
            keep == (|n: Seq<char>| !is_dots(n)),
            texts(out@) == all.take(i as int).filter(keep),
        decreases names@.len() - i,
    {
        let ghost before = out@;
        proof {
            reveal(Seq::filter);
            assert(all.take(i + 1).drop_last() =~= all.take(i as int));
            assert(all.take(i + 1).last() == names@[i as int]@);
        }
        if !same_str(names[i].as_str(), ".") && !same_str(names[i].as_str(), "..") {
            out.push(own(names[i].as_str()));
            assert(texts(out@) =~= texts(before).push(names@[i as int]@));
        }
        i += 1;
    }
    assert(all.take(i as int) =~= all);
    out
}

/// The entries of a directory that a reply lists.
pub fn listed(path: &str, op: u64, data: &[u8]) -> (names: Result<Vec<String>, Error>)
    ensures
        if op == OP_DATA {
            names matches Ok(n) && texts(n@) == nul_texts(data@).filter(|n: Seq<char>| !is_dots(n))
        } else if op == OP_STATUS {
            names matches Err(Error::Afc(t)) && t@ == refused("list_dir "@ + path@, data@)
        } else {
            names matches Err(Error::Afc(t)) && t@ == unexpected("list_dir"@, op)
        },
{
    if op == OP_DATA {
        Ok(without_dots(parse_nul_strings(data)))
    } else if op == OP_STATUS {
        refuse(join2("list_dir ", path).as_str(), data)
    } else {
        misfit("list_dir", op)
    }
}

/// What a reply says of a file.
pub fn file_info(path: &str, op: u64, data: &[u8]) -> (info: Result<FileInfo, Error>)
    ensures
        if op == OP_DATA {
            info matches Ok(i) && i.is_info(after_last(path@, '/'), pairs_in(data@))
        } else if op == OP_STATUS {
            info matches Err(Error::Afc(t)) && t@ == refused("stat "@ + path@, data@)
        } else {
            info matches Err(Error::Afc(t)) && t@ == unexpected("stat"@, op)
        },
{
    if op == OP_DATA {
        Ok(FileInfo::parse(last_part(path, '/').as_str(), data))
    } else if op == OP_STATUS {
        refuse(join2("stat ", path).as_str(), data)
    } else {
        misfit("stat", op)
    }
}

/// What a reply says of the file system.
pub fn file_system(op: u64, data: &[u8]) -> (info: Result<AfcDeviceInfo, Error>)
    ensures
        if op == OP_DATA {
            info matches Ok(i) && i.is_info(pairs_in(data@))
        } else if op == OP_STATUS {
            info matches Err(Error::Afc(t)) && t@ == refused("device_info"@, data@)
        } else {
            info matches Err(Error::Afc(t)) && t@ == unexpected("device_info"@, op)
        },
{
    if op == OP_DATA {
        Ok(AfcDeviceInfo::parse(data))
    } else if op == OP_STATUS {
        refuse("device_info", data)
    } else {
        misfit("device_info", op)
    }
}

/// Whether a directory was made, or was there before.
pub fn made_dir(path: &str, op: u64, data: &[u8]) -> (done: Result<(), Error>)
    ensures
        if op == OP_STATUS {
            if u64_at(data@, 0) == STATUS_SUCCESS || u64_at(data@, 0) == STATUS_OBJECT_EXISTS {
                done matches Ok(())
            } else {
                done matches Err(Error::Afc(t)) && t@ == refused("mkdir "@ + path@, data@)
            }
        } else {
            done matches Err(Error::Afc(t)) && t@ == unexpected("mkdir"@, op)
        },
{
    if op == OP_STATUS {
        let code: u64 = le_u64(data, 0);
        if code == STATUS_SUCCESS || code == STATUS_OBJECT_EXISTS {
            Ok(())
        } else {
            refuse(join2("mkdir ", path).as_str(), data)
        }
    } else {
        misfit("mkdir", op)
    }
}

/// Whether what was tried succeeded.
pub fn expect_status(context: &str, op: u64, data: &[u8]) -> (done: Result<(), Error>)
    ensures
        if op == OP_STATUS {
            if u64_at(data@, 0) == STATUS_SUCCESS {
                done matches Ok(())
            } else {
                done matches Err(Error::Afc(t)) && t@ == refused(context@, data@)
            }
        } else {
            done matches Err(Error::Afc(t)) && t@ == unexpected(context@, op)
        },
{
    if op == OP_STATUS {
        if le_u64(data, 0) == STATUS_SUCCESS {
            Ok(())
        } else {
            refuse(context, data)
        }
    } else {
        misfit(context, op)
    }
}

/// The handle of a file that was opened.
pub fn opened(path: &str, op: u64, data: &[u8]) -> (handle: Result<u64, Error>)
    ensures
        if op == OP_FILE_OPEN_RES {
            handle matches Ok(h) && h == u64_at(data@, 0)
        } else if op == OP_STATUS {
            handle matches Err(Error::Afc(t)) && t@ == refused("file_open "@ + path@, data@)
        } else {
            handle matches Err(Error::Afc(t)) && t@ == unexpected("file_open"@, op)
        },
{
    if op == OP_FILE_OPEN_RES {
        Ok(le_u64(data, 0))
    } else if op == OP_STATUS {
        refuse(join2("file_open ", path).as_str(), data)
    } else {
        misfit("file_open", op)
    }
}

/// The bytes that were read: none at the end of the file.
pub fn read_bytes(op: u64, data: &[u8]) -> (bytes: Result<Vec<u8>, Error>)
    ensures
        if op == OP_DATA {
            bytes matches Ok(b) && b@ == data@
        } else if op == OP_STATUS {
            if u64_at(data@, 0) == STATUS_SUCCESS || u64_at(data@, 0) == STATUS_END_OF_DATA {
                bytes matches Ok(b) && b@.len() == 0
            } else {
                bytes matches Err(Error::Afc(t)) && t@ == refused("file_read"@, data@)
            }
        } else {
            bytes matches Err(Error::Afc(t)) && t@ == unexpected("file_read"@, op)
        },
{
    if op == OP_DATA {
        Ok(copy_bytes(data))
    } else if op == OP_STATUS {
        let code: u64 = le_u64(data, 0);
        if code == STATUS_SUCCESS || code == STATUS_END_OF_DATA {
            Ok(Vec::new())
        } else {
            refuse("file_read", data)
        }
    } else {
        misfit("file_read", op)
    }
}

/// What a request says of itself in its header is what follows the header.
pub proof fn lemma_request_header(op: u64, args: Seq<u8>, data: Seq<u8>, number: u64)
    requires
        40 + args.len() + data.len() <= u64::MAX,
    ensures
        ({
            let all = request_bytes(op, args, data, number);
            &&& head_of(all.take(40)) == Some(
                ReplyHead { op, len: (args.len() + data.len()) as u64 },
            )
            &&& all.skip(40) == args + data
            &&& le_at(all, 24, 8) == number
        }),
{
    broadcast use crate::bytes::lemma_le_bytes_len;

    crate::bytes::lemma_byte_ranges();
    let entire: nat = 40 + args.len() + data.len();
    let this: nat = 40 + args.len();
    let all = request_bytes(op, args, data, number);
    let hdr = all.take(40);
    let f1 = le_bytes(entire, 8);
    let f2 = le_bytes(this, 8);
    let f3 = le_bytes(number as nat, 8);
    let f4 = le_bytes(op as nat, 8);
    assert(hdr =~= magic() + f1 + f2 + f3 + f4);
    assert(hdr.take(8) =~= magic());
    assert(stands_at(hdr, 8, f1)) by {
        assert(hdr.subrange(8, 16) =~= f1);
    }
    assert(stands_at(hdr, 16, f2)) by {
        assert(hdr.subrange(16, 24) =~= f2);
    }
    assert(stands_at(hdr, 32, f4)) by {
        assert(hdr.subrange(32, 40) =~= f4);
    }
    assert(stands_at(all, 24, f3)) by {
        assert(all.subrange(24, 32) =~= f3);
    }
    lemma_stands_le(hdr, 8, entire, 8);
    lemma_stands_le(hdr, 16, this, 8);
    lemma_stands_le(hdr, 32, op as nat, 8);
    lemma_stands_le(all, 24, number as nat, 8);
    assert(all.skip(40) =~= args + data);
}

/// A request for the container of an application.
pub open spec fn vend_tree(command: Seq<char>, bundle_id: Seq<char>) -> Tree {
    Tree::Dictionary(
        no_entries().with("Command"@, Tree::String(command)).with(
            "Identifier"@,
            Tree::String(bundle_id),
        ),
    )
}

/// Asks for the container of an application: `VendContainer` for all of it,
/// `VendDocuments` for its documents.
pub fn house_arrest_request(command: &str, bundle_id: &str) -> (out: Result<Vec<u8>, Error>)
    ensures
        out matches Ok(bytes) && carries(bytes@, vend_tree(command@, bundle_id@)),
{
    broadcast use crate::proplist::lemma_plain_with, crate::proplist::lemma_uid_free_with;

    let mut d: Dict = Dict::new();
    d.put_str("Command", command);
    d.put_str("Identifier", bundle_id);
    assert(plain_entries(d@) && uid_free_entries(d@)) by {
        assert(plain_entries(no_entries()) && uid_free_entries(no_entries()));
    }
    match to_xml(&Plist::dict(d)) {
        Ok(xml) => Ok(prefix(xml.as_slice())),
        Err(e) => Err(Error::Plist(e)),
    }
}

/// Checks the length that a reply states.
pub fn house_arrest_len(bundle_id: &str, len: u32) -> (ok: Result<usize, Error>)
    ensures
        if len == 0 || len > 1_048_576 {
            ok matches Err(Error::Afc(t)) && t@ == "house_arrest("@ + bundle_id@
                + "): service closed without response. On iOS 17.4+ use connect_app_shim() with the RSD shim stream."@
        } else {
            ok matches Ok(n) && n == len
        },
{
    if len == 0 || len > 1_048_576 {
        return Err(
            Error::Afc(
                join3(
                    "house_arrest(",
                    bundle_id,
                    "): service closed without response. On iOS 17.4+ use connect_app_shim() with the RSD shim stream.",
                ),
            ),
        );
    }
    Ok(len as usize)
}

/// Why a container was not handed out, if it was not.
pub open spec fn vend_refusal(bundle_id: Seq<char>, t: Tree) -> Option<Seq<char>> {
    match t.text_at("Error"@) {
        Some(e) => Some(
            "house_arrest("@ + bundle_id + "): "@ + match t.text_at("ErrorDescription"@) {
                Some(d) => d,
                None => e,
            },
        ),
        None => None,
    }
}

/// Reads the reply to a request for a container.
pub fn house_arrest_reply(bundle_id: &str, body: &[u8]) -> (client: Result<AfcClient, Error>)
    ensures
        match plist_parse(body@) {
            Err(why) => client matches Err(Error::Plist(e)) && plist_error_text(e) == why,
            Ok(t) => match vend_refusal(bundle_id@, t) {
                Some(text) => client matches Err(Error::Afc(e)) && e@ == text,
                None => client matches Ok(c) && c.made() == 0,
            },
        },
{
    let resp: Plist = match from_bytes(body) {
        Ok(p) => p,
        Err(e) => {
            return Err(Error::Plist(e));
        },
    };
    match resp.text_at("Error") {
        Some(e) => {
            let why: &str = match resp.text_at("ErrorDescription") {
                Some(d) => d,
                None => e,
            };
            Err(Error::Afc(join2(join3("house_arrest(", bundle_id, "): ").as_str(), why)))
        },
        None => Ok(AfcClient::new()),
    }
}

/// What stands where in a request: the magic `CFA6LPAA`, the whole length, the length
/// without the data, the number, the operation, the arguments, and the data.
pub proof fn lemma_request_layout(op: u64, args: Seq<u8>, data: Seq<u8>, number: u64)
    requires
        40 + args.len() + data.len() <= u64::MAX,
    ensures
        ({
            let all = request_bytes(op, args, data, number);
            &&& all.take(8) == seq![67u8, 70, 65, 54, 76, 80, 65, 65]
            &&& le_at(all, 8, 8) == all.len()
            &&& le_at(all, 16, 8) == 40 + args.len()
            &&& le_at(all, 24, 8) == number
            &&& le_at(all, 32, 8) == op
            &&& all.subrange(40, 40 + args.len() as int) == args
            &&& all.skip(40 + args.len() as int) == data
        }),
{
    broadcast use crate::bytes::lemma_le_bytes_len;

    crate::bytes::lemma_byte_ranges();
    let entire: nat = 40 + args.len() + data.len();
    let this: nat = 40 + args.len();
    let all = request_bytes(op, args, data, number);
    assert(all.take(8) =~= magic());
    assert(all.subrange(8, 16) =~= le_bytes(entire, 8));
    assert(all.subrange(16, 24) =~= le_bytes(this, 8));
    assert(all.subrange(24, 32) =~= le_bytes(number as nat, 8));
    assert(all.subrange(32, 40) =~= le_bytes(op as nat, 8));
    lemma_stands_le(all, 8, entire, 8);
    lemma_stands_le(all, 16, this, 8);
    lemma_stands_le(all, 24, number as nat, 8);
    lemma_stands_le(all, 32, op as nat, 8);
    assert(all.subrange(40, 40 + args.len() as int) =~= args);
    assert(all.skip(40 + args.len() as int) =~= data);
}

/// The numbers of the operations, of the ways to open a file, and of the status codes that
/// replies are judged by.
pub proof fn lemma_numbers()
    ensures
        OP_STATUS == 1,
        OP_DATA == 2,
        OP_READ_DIR == 3,
        OP_REMOVE_PATH == 8,
        OP_MAKE_DIR == 9,
        OP_GET_FILE_INFO == 10,
        OP_GET_DEVINFO == 11,
        OP_FILE_OPEN == 13,
        OP_FILE_OPEN_RES == 14,
        OP_FILE_READ == 15,
        OP_FILE_WRITE == 16,
        OP_FILE_CLOSE == 20,
        OP_RENAME_PATH == 34,
        OP_MAKE_LINK == 40,
        FOPEN_RDONLY == 1,
        FOPEN_WR == 4,
        STATUS_SUCCESS == 0,
        STATUS_END_OF_DATA == 14,
        STATUS_OBJECT_EXISTS == 16,
{
}

/// What a header means: it has to start with `CFA6LPAA`; the operation stands in its last
/// eight bytes, and what the whole length says follows behind the header.
pub proof fn lemma_head_means(hdr: Seq<u8>)
    requires
        hdr.len() == 40,
    ensures
        head_of(hdr) is Some <==> hdr.take(8) == seq![67u8, 70, 65, 54, 76, 80, 65, 65],
        head_of(hdr) matches Some(h) ==> {
            let entire = le_at(hdr, 8, 8);
            let this = le_at(hdr, 16, 8);
            &&& h.op == le_at(hdr, 32, 8)
            &&& 40 <= this <= entire ==> h.len == entire - 40
            &&& this < 40 && this <= entire ==> h.len == entire - this
            &&& 40 <= this && entire < this ==> h.len == this - 40
            &&& this < 40 && entire < this ==> h.len == 0
        },
{
    crate::bytes::lemma_byte_ranges();
    crate::bytes::lemma_le_value_bound(hdr.subrange(8, 16));
    crate::bytes::lemma_le_value_bound(hdr.subrange(16, 24));
    crate::bytes::lemma_le_value_bound(hdr.subrange(32, 40));
}

/// Where the first zero is: it is one, and none stands before it.
pub proof fn lemma_first_nul(s: Seq<u8>)
    ensures
        nul_index(s) <= s.len(),
        nul_index(s) < s.len() ==> s[nul_index(s) as int] == 0,
        forall|i: int| 0 <= i < nul_index(s) ==> #[trigger] s[i] != 0,
    decreases s.len(),
{
    if s.len() > 0 && s[0] != 0 {
        let rest = s.skip(1);
        lemma_first_nul(rest);
        assert forall|i: int| 0 <= i < nul_index(s) implies #[trigger] s[i] != 0 by {
            if i > 0 {
                assert(rest[i - 1] == s[i]);
            }
        }
    }
}

/// A text in a request is followed by one zero.
pub proof fn lemma_nul_behind(s: Seq<char>)
    ensures
        nul_bytes(s).len() == encode_utf8(s).len() + 1,
        nul_bytes(s).drop_last() == encode_utf8(s),
        nul_bytes(s).last() == 0,
{
    assert(nul_bytes(s).drop_last() =~= encode_utf8(s));
}

/// A number of eight bytes is read where they all are, and else is zero.
pub proof fn lemma_u64_at(buf: Seq<u8>, offset: int)
    ensures
        offset + 8 <= buf.len() ==> u64_at(buf, offset) == le_at(buf, offset, 8),
        offset + 8 > buf.len() ==> u64_at(buf, offset) == 0,
{
}

/// The names of the kinds of files; each name means one kind, and all others none of the
/// three.
pub proof fn lemma_file_types(s: Seq<char>)
    ensures
        FileType::named(s) is Regular <==> s == "S_IFREG"@,
        FileType::named(s) is Directory <==> s == "S_IFDIR"@,
        FileType::named(s) is Symlink <==> s == "S_IFLNK"@,
{
    reveal_strlit("S_IFREG");
    reveal_strlit("S_IFDIR");
    reveal_strlit("S_IFLNK");
    assert("S_IFREG"@.len() == 7);
    assert("S_IFDIR"@.len() == 7);
    assert("S_IFLNK"@.len() == 7);
    assert("S_IFREG"@[4] == 'R');
    assert("S_IFDIR"@[4] == 'D');
    assert("S_IFLNK"@[4] == 'L');
}

/// The number under a key is what its digits count; anything else there, or nothing,
/// counts as zero.
pub proof fn lemma_number_at(pairs: Seq<(Seq<char>, Seq<char>)>, key: Seq<char>)
    ensures
        pairs.lookup(key) is None ==> number_at(pairs, key) == 0,
        pairs.lookup(key) matches Some(s) ==> {
            &&& s.len() > 0 && crate::text::all_digits(s) && crate::text::digits_value(s)
                <= u64::MAX ==> number_at(pairs, key) == crate::text::digits_value(s)
            &&& parse_unsigned(s, u64::MAX as nat) is None ==> number_at(pairs, key) == 0
        },
{
    if let Some(s) = pairs.lookup(key) {
        crate::text::lemma_parse_unsigned(s, u64::MAX as nat);
    }
}

/// What is known of a file: its kind by `st_ifmt`, its size by `st_size`, but none for a
/// directory, its time by `st_mtime`, and for a symbolic link, and only for one, where it
/// leads.
pub proof fn lemma_file_known(info: FileInfo, name: Seq<char>, pairs: Seq<(Seq<char>, Seq<char>)>)
    requires
        info.is_info(name, pairs),
    ensures
        info.name@ == name,
        info.file_type is Directory <==> pairs.lookup("st_ifmt"@) == Some("S_IFDIR"@),
        info.file_type is Regular <==> pairs.lookup("st_ifmt"@) == Some("S_IFREG"@),
        info.file_type is Symlink <==> pairs.lookup("st_ifmt"@) == Some("S_IFLNK"@),
        info.file_type is Directory ==> info.size == 0,
        !(info.file_type is Directory) ==> info.size == number_at(pairs, "st_size"@),
        info.modified_nanos == number_at(pairs, "st_mtime"@),
        info.link_target matches Some(t) ==> info.file_type is Symlink && pairs.lookup(
            "LinkTarget"@,
        ) == Some(t@),
        info.file_type is Symlink && pairs.lookup("LinkTarget"@) is Some
            ==> info.link_target is Some,
{
    if let Some(s) = pairs.lookup("st_ifmt"@) {
        lemma_file_types(s);
    }
}

/// What is known of the file system: its model, and by their keys how many bytes it has,
/// how many of them are free, and how large its blocks are.
pub proof fn lemma_file_system_known(info: AfcDeviceInfo, pairs: Seq<(Seq<char>, Seq<char>)>)
    requires
        info.is_info(pairs),
    ensures
        pairs.lookup("Model"@) matches Some(s) ==> info.model@ == s,
        pairs.lookup("Model"@) is None ==> info.model@.len() == 0,
        info.total_bytes == number_at(pairs, "FSTotalBytes"@),
        info.free_bytes == number_at(pairs, "FSFreeBytes"@),
        info.block_size == number_at(pairs, "FSBlockSize"@),
{
}

/// What each status code is called, and that its digits follow in brackets.
pub proof fn lemma_status_words(code: nat)
    ensures
        code == 0 ==> status_word(code) == "success"@,
        code == 1 ==> status_word(code) == "unknown error"@,
        code == 2 ==> status_word(code) == "invalid header"@,
        code == 3 ==> status_word(code) == "no resources"@,
        code == 4 ==> status_word(code) == "read error"@,
        code == 5 ==> status_word(code) == "write error"@,
        code == 6 ==> status_word(code) == "unknown packet type"@,
        code == 7 ==> status_word(code) == "invalid arg"@,
        code == 8 ==> status_word(code) == "not found"@,
        code == 9 ==> status_word(code) == "is a directory"@,
        code == 10 ==> status_word(code) == "permission denied"@,
        code == 11 ==> status_word(code) == "not connected"@,
        code == 12 ==> status_word(code) == "timeout"@,
        code == 13 ==> status_word(code) == "too much data"@,
        code == 14 ==> status_word(code) == "end of data"@,
        code == 15 ==> status_word(code) == "not supported"@,
        code == 16 ==> status_word(code) == "object exists"@,
        code == 17 ==> status_word(code) == "object busy"@,
        code == 18 ==> status_word(code) == "no space left"@,
        code == 20 ==> status_word(code) == "I/O error"@,
        code == 19 || code > 20 ==> status_word(code) == "unknown"@,
        ({
            let t = status_text(code);
            let n = status_word(code).len() as int;
            &&& t.take(n) == status_word(code)
            &&& t.subrange(n, n + 7) == " (code "@
            &&& t.last() == ')'
            &&& crate::text::digits_value(t.subrange(n + 7, t.len() - 1)) == code
        }),
{
    reveal_strlit(" (code ");
    reveal_strlit(")");
    let t = status_text(code);
    let n = status_word(code).len() as int;
    assert(t.take(n) =~= status_word(code));
    assert(t.subrange(n, n + 7) =~= " (code "@);
    assert(t.subrange(n + 7, t.len() - 1) =~= decimal(code));
    crate::text::lemma_decimal_value(code);
}

/// A refusal says what was tried and the status in the first eight bytes; an operation
/// that does not fit is shown in hexadecimal.
pub proof fn lemma_refusals(what: Seq<char>, data: Seq<u8>, op: u64)
    ensures
        ({
            let n = what.len() as int;
            let t = refused(what, data);
            let u = unexpected(what, op);
            &&& t.take(n) == what
            &&& t.subrange(n, n + 2) == ": "@
            &&& t.skip(n + 2) == status_text(u64_at(data, 0))
            &&& u.take(n) == what
            &&& u.subrange(n, n + 18) == ": unexpected op 0x"@
            &&& crate::text::hex_digits_value(u.skip(n + 18)) == op
        }),
{
    reveal_strlit(": ");
    reveal_strlit(": unexpected op 0x");
    let n = what.len() as int;
    let t = refused(what, data);
    let u = unexpected(what, op);
    assert(t.take(n) =~= what);
    assert(t.subrange(n, n + 2) =~= ": "@);
    assert(t.skip(n + 2) =~= status_text(u64_at(data, 0)));
    assert(u.take(n) =~= what);
    assert(u.subrange(n, n + 18) =~= ": unexpected op 0x"@);
    assert(u.skip(n + 18) =~= hexadecimal(op as nat));
    crate::text::lemma_hexadecimal_value(op as nat);
}

/// The names that are left out of listings are one dot and two dots.
pub proof fn lemma_dots(name: Seq<char>)
    ensures
        is_dots(name) <==> name == seq!['.'] || name == seq!['.', '.'],
{
    reveal_strlit(".");
    reveal_strlit("..");
    assert("."@ =~= seq!['.']);
    assert(".."@ =~= seq!['.', '.']);
}

/// A request for a container names the command and the application.
pub proof fn lemma_vend_tells(command: Seq<char>, bundle_id: Seq<char>)
    ensures
        vend_tree(command, bundle_id) matches Tree::Dictionary(d) && {
            &&& d.len() == 2
            &&& d.lookup("Command"@) == Some(Tree::String(command))
            &&& d.lookup("Identifier"@) == Some(Tree::String(bundle_id))
        },
{
    broadcast use crate::entries::lemma_lookup_with;

    reveal_strlit("Command");
    reveal_strlit("Identifier");
    assert("Command"@.len() == 7);
    assert("Identifier"@.len() == 10);
}

/// A container is refused exactly if the reply tells an error; it says why, by the
/// description where there is one.
pub proof fn lemma_vend_refused(bundle_id: Seq<char>, d: Seq<(Seq<char>, Tree)>)
    ensures
        ({
            let t = Tree::Dictionary(d);
            match d.lookup("Error"@) {
                Some(Tree::String(e)) => vend_refusal(bundle_id, t) == Some(
                    "house_arrest("@ + bundle_id + "): "@ + match d.lookup("ErrorDescription"@) {
                        Some(Tree::String(why)) => why,
                        _ => e,
                    },
                ),
                _ => vend_refusal(bundle_id, t) is None,
            }
        }),
{
}

} // verus!
