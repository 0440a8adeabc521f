//! Text as sequences of characters: building strings piece by piece, reading
//! and writing decimal numbers, and moving between strings and UTF-8 bytes.

use vstd::prelude::*;
use vstd::string::StrSliceExecFns;
use vstd::string::StringExecFns;
use vstd::utf8::{decode_utf8, encode_utf8, valid_utf8};
use crate::bytes::same_bytes;

verus! {

/// `String::push` appends one character.
pub assume_specification[ std::string::String::push ](s: &mut std::string::String, c: char)
    ensures
        final(s)@ == old(s)@.push(c),
;

/// `std::str::from_utf8` succeeds exactly on valid UTF-8, and then hands out the
/// text that those bytes encode.
#[verifier::external_body]
pub(crate) fn utf8_text(bytes: &[u8]) -> (text: Option<String>)
    ensures
        text is Some <==> valid_utf8(bytes@),
        text is Some ==> text->0@ == decode_utf8(bytes@),
{
    match std::str::from_utf8(bytes) {
        Ok(s) => Some(s.to_owned()),
        Err(_) => None,
    }
}

/// What `String::from_utf8_lossy` makes of some bytes.
pub uninterp spec fn lossy_text(bytes: Seq<u8>) -> Seq<char>;

/// The text of some bytes: what they encode, where they are valid UTF-8.
pub open spec fn lossy(bytes: Seq<u8>) -> Seq<char> {
    if valid_utf8(bytes) {
        decode_utf8(bytes)
    } else {
        lossy_text(bytes)
    }
}

/// `String::from_utf8_lossy` gives the text that valid UTF-8 encodes, and puts U+FFFD
/// in the place of what is not valid. So some bytes never give an empty text, and a NUL
/// comes from a zero byte only. Which text stands in for other input is left to the name
/// `lossy_text`.
#[verifier::external_body]
pub(crate) fn utf8_text_lossy(bytes: &[u8]) -> (text: String)
    ensures
        !valid_utf8(bytes@) ==> text@ == lossy_text(bytes@),
        valid_utf8(bytes@) ==> text@ == decode_utf8(bytes@),
        bytes@.len() > 0 ==> text@.len() > 0,
        (forall|i: int| 0 <= i < bytes@.len() ==> #[trigger] bytes@[i] != 0) ==> nul_free(text@),
{
    String::from_utf8_lossy(bytes).into_owned()
}

/// How the `Debug` format of std shows a string.
pub uninterp spec fn quoted(s: Seq<char>) -> Seq<char>;

/// The `Debug` format of `str`: in quotation marks, with escapes that depend on
/// the characters alone.
#[verifier::external_body]
pub(crate) fn quote(s: &str) -> (text: String)
    ensures
        text@ == quoted(s@),
{
    format!("{s:?}")
}

/// Whether two strings hold the same characters.
pub fn same_str(a: &str, b: &str) -> (same: bool)
    ensures
        same == (a@ == b@),
{
    let same: bool = same_bytes(a.as_bytes(), b.as_bytes());
    proof {
        vstd::utf8::encode_utf8_decode_utf8(a@);
        vstd::utf8::encode_utf8_decode_utf8(b@);
    }
    same
}

/// The UTF-8 bytes of a string.
pub fn str_bytes(s: &str) -> (out: Vec<u8>)
    ensures
        out@ == encode_utf8(s@),
{
    s.as_bytes_vec()
}

/// An owned copy of a string.
pub fn own(s: &str) -> (out: String)
    ensures
        out@ == s@,
{
    s.to_owned()
}

/// The texts of some strings.
pub open spec fn texts(items: Seq<String>) -> Seq<Seq<char>> {
    items.map_values(|s: String| s@)
}

/// `a` followed by `b`.
pub fn join2(a: &str, b: &str) -> (out: String)
    ensures
        out@ == a@ + b@,
{
    let mut out: String = a.to_owned();
    out.append(b);
    out
}

/// `a`, `b` and `c` in a row.
pub fn join3(a: &str, b: &str, c: &str) -> (out: String)
    ensures
        out@ == a@ + b@ + c@,
{
    let mut out: String = a.to_owned();
    out.append(b);
    out.append(c);
    out
}

/// The decimal digit that stands for `d`.
pub open spec fn digit_char(d: nat) -> char {
    (('0' as u32) + d) as char
}

/// `n` in decimal, without leading zeros.
pub open spec fn decimal(n: nat) -> Seq<char>
    decreases n,
{
    if n < 10 {
        seq![digit_char(n)]
    } else {
        decimal(n / 10).push(digit_char(n % 10))
    }
}

fn digit(d: u8) -> (c: char)
    requires
        d < 10,
    ensures
        c == digit_char(d as nat),
{
    (48u8 + d) as char
}

/// An ASCII letter in lower case; other characters stay.
pub open spec fn ascii_lower(c: char) -> char {
    if 'A' <= c && c <= 'Z' {
        ((c as u32) + 32) as char
    } else {
        c
    }
}

/// Whether two texts differ at most in the case of ASCII letters.
pub open spec fn alike(a: Seq<char>, b: Seq<char>) -> bool {
    &&& a.len() == b.len()
    &&& forall|i: int| 0 <= i < a.len() ==> ascii_lower(#[trigger] a[i]) == ascii_lower(b[i])
}

fn lower(c: char) -> (out: char)
    ensures
        out == ascii_lower(c),
{
    if 'A' <= c && c <= 'Z' {
        ((c as u32) + 32) as u8 as char
    } else {
        c
    }
}

/// Compares two texts without regard to the case of ASCII letters.
pub fn same_ignoring_case(a: &str, b: &str) -> (same: bool)
    ensures
        same == alike(a@, b@),
{
    let x: Vec<char> = chars_of(a);
    let y: Vec<char> = chars_of(b);
    if x.len() != y.len() {
        return false;
    }
    let mut i: usize = 0;
    while i < x.len()
        invariant
            x@ == a@,
            y@ == b@,
            x@.len() == y@.len(),
            i <= x@.len(),
            forall|j: int| 0 <= j < i ==> ascii_lower(#[trigger] a@[j]) == ascii_lower(b@[j]),
        decreases x@.len() - i,
    {
        if lower(x[i]) != lower(y[i]) {
            assert(ascii_lower(a@[i as int]) != ascii_lower(b@[i as int]));
            return false;
        }
        i += 1;
    }
    true
}

/// The lower-case hexadecimal digit that stands for `d`.
pub open spec fn hex_char(d: nat) -> char {
    if d < 10 {
        digit_char(d)
    } else {
        (('a' as u32) + (d - 10)) as char
    }
}

/// `n` in lower-case hexadecimal, without leading zeros.
pub open spec fn hexadecimal(n: nat) -> Seq<char>
    decreases n,
{
    if n < 16 {
        seq![hex_char(n)]
    } else {
        hexadecimal(n / 16).push(hex_char(n % 16))
    }
}

/// Writes `n` in lower-case hexadecimal.
pub fn hex_u64(n: u64) -> (out: String)
    ensures
        out@ == hexadecimal(n as nat),
    decreases n,
{
    let low: u8 = (n % 16) as u8;
    let c: char = if low < 10 {
        (48u8 + low) as char
    } else {
        (97u8 + (low - 10)) as char
    };
    if n < 16 {
        let mut out: String = String::new();
        out.push(c);
        assert(out@ =~= seq![hex_char(n as nat)]);
        out
    } else {
        let mut out: String = hex_u64(n / 16);
        out.push(c);
        out
    }
}

/// Writes `n` in decimal.
pub fn dec_u64(n: u64) -> (out: String)
    ensures
        out@ == decimal(n as nat),
    decreases n,
{
    if n < 10 {
        let mut out: String = String::new();
        out.push(digit(n as u8));
        assert(out@ =~= seq![digit_char(n as nat)]);
        out
    } else {
        let mut out: String = dec_u64(n / 10);
        out.push(digit((n % 10) as u8));
        out
    }
}

/// A signed number in decimal.
pub open spec fn signed_decimal(n: int) -> Seq<char> {
    if n < 0 {
        "-"@ + decimal((-n) as nat)
    } else {
        decimal(n as nat)
    }
}

/// Writes a signed number in decimal.
pub fn signed_text(n: i64) -> (out: String)
    ensures
        out@ == signed_decimal(n as int),
{
    if n < 0 {
        let size: u64 = (-(n + 1)) as u64 + 1;
        join2("-", dec_u64(size).as_str())
    } else {
        dec_u64(n as u64)
    }
}

/// Whether `c` is an ASCII decimal digit.
pub open spec fn is_digit(c: char) -> bool {
    '0' <= c && c <= '9'
}

/// Whether `s` consists of ASCII decimal digits only.
pub open spec fn all_digits(s: Seq<char>) -> bool {
    forall|i: int| 0 <= i < s.len() ==> is_digit(#[trigger] s[i])
}

/// The number that a run of decimal digits stands for.
pub open spec fn digits_value(s: Seq<char>) -> nat
    decreases s.len(),
{
    if s.len() == 0 {
        0
    } else {
        10 * digits_value(s.drop_last()) + (s.last() as u32 - '0' as u32) as nat
    }
}

/// The unsigned number that `s` writes in decimal, when it is at most `max`: one
/// or more digits, after at most one plus sign.
pub open spec fn parse_unsigned(s: Seq<char>, max: nat) -> Option<nat> {
    let digits = if s.len() > 0 && s[0] == '+' {
        s.skip(1)
    } else {
        s
    };
    if digits.len() > 0 && all_digits(digits) && digits_value(digits) <= max {
        Some(digits_value(digits))
    } else {
        None
    }
}

/// Whether no character of `s` is NUL.
pub open spec fn nul_free(s: Seq<char>) -> bool {
    forall|i: int| 0 <= i < s.len() ==> #[trigger] s[i] != '\0'
}

/// Only NUL has a zero byte in its encoding.
pub proof fn lemma_nul_free_bytes(s: Seq<char>)
    requires
        nul_free(s),
    ensures
        forall|i: int| 0 <= i < encode_utf8(s).len() ==> #[trigger] encode_utf8(s)[i] != 0,
    decreases s.len(),
{
    if s.len() > 0 {
        let c = s[0] as u32;
        let rest = s.drop_first();
        assert(nul_free(rest)) by {
            assert forall|i: int| 0 <= i < rest.len() implies #[trigger] rest[i] != '\0' by {
                assert(s[i + 1] != '\0');
            }
        }
        lemma_nul_free_bytes(rest);
        assert(s[0] != '\0');
        vstd::utf8::char_is_scalar(s[0]);
        vstd::utf8::char_u32_cast(s[0], c);
        assert(c != 0);
        assert(c != 0 && c <= 0x7f ==> (c & 0x7F) as u8 != 0) by (bit_vector);
        assert(0xC0u8 | ((c >> 6) & 0x1F) as u8 != 0) by (bit_vector);
        assert(0xE0u8 | ((c >> 12) & 0x0F) as u8 != 0) by (bit_vector);
        assert(0xF0u8 | ((c >> 18) & 0x7) as u8 != 0) by (bit_vector);
        assert(0x80u8 | (c & 0x3F) as u8 != 0) by (bit_vector);
        assert(0x80u8 | ((c >> 6) & 0x3F) as u8 != 0) by (bit_vector);
        assert(0x80u8 | ((c >> 12) & 0x3F) as u8 != 0) by (bit_vector);
        let head = vstd::utf8::encode_scalar(c);
        assert forall|i: int| 0 <= i < encode_utf8(s).len() implies #[trigger] encode_utf8(s)[i]
            != 0 by {
            if i >= head.len() {
                assert(encode_utf8(s)[i] == encode_utf8(rest)[i - head.len()]);
            }
        }
    }
}

/// Encoding goes character by character.
pub proof fn lemma_encode_concat(a: Seq<char>, b: Seq<char>)
    ensures
        encode_utf8(a + b) == encode_utf8(a) + encode_utf8(b),
    decreases a.len(),
{
    if a.len() == 0 {
        assert(a + b =~= b);
        assert(encode_utf8(a) + encode_utf8(b) =~= encode_utf8(b));
    } else {
        lemma_encode_concat(a.drop_first(), b);
        assert((a + b).drop_first() =~= a.drop_first() + b);
        assert(encode_utf8(a + b) =~= encode_utf8(a) + encode_utf8(b));
    }
}

/// The characters of a string.
pub fn chars_of(s: &str) -> (out: Vec<char>)
    ensures
        out@ == s@,
{
    let mut out: Vec<char> = Vec::new();
    for c in it: s.chars()
        invariant
            out@ == s@.take(it.index()),
            it.seq() == s@,
    {
        out.push(c);
        assert(out@ =~= s@.take(it.index() + 1));
    }
    assert(out@ =~= s@);
    out
}

/// The string of some characters.
pub fn string_of(chars: &[char]) -> (s: String)
    ensures
        s@ == chars@,
{
    let mut s: String = String::new();
    let mut i: usize = 0;
    assert(s@ =~= chars@.take(0));
    while i < chars.len()
        invariant
            i <= chars@.len(),
            s@ == chars@.take(i as int),
        decreases chars@.len() - i,
    {
        s.push(chars[i]);
        i += 1;
        assert(s@ =~= chars@.take(i as int));
    }
    assert(s@ =~= chars@);
    s
}

/// Whether `part` occurs in `s` at `i`.
pub open spec fn occurs_at(s: Seq<char>, part: Seq<char>, i: int) -> bool {
    0 <= i && i + part.len() <= s.len() && s.subrange(i, i + part.len()) == part
}

/// Whether `part` occurs in `s`.
pub open spec fn occurs_in(s: Seq<char>, part: Seq<char>) -> bool {
    exists|i: int| #[trigger] occurs_at(s, part, i)
}

fn check_at(s: &[char], part: &[char], i: usize) -> (hit: bool)
    requires
        i <= s@.len(),
    ensures
        hit == occurs_at(s@, part@, i as int),
{
    if s.len() - i < part.len() {
        return false;
    }
    let mut j: usize = 0;
    while j < part.len()
        invariant
            s@.len() == s.len(),
            i + part@.len() <= s@.len(),
            j <= part@.len(),
            forall|k: int| 0 <= k < j ==> s@[i + k] == part@[k],
        decreases part@.len() - j,
    {
        if s[i + j] != part[j] {
            assert(s@.subrange(i as int, i + part@.len())[j as int] != part@[j as int]);
            return false;
        }
        j += 1;
    }
    assert(s@.subrange(i as int, i + part@.len()) =~= part@);
    true
}

/// Whether `part` occurs in `s`.
pub fn contains(s: &str, part: &str) -> (hit: bool)
    ensures
        hit == occurs_in(s@, part@),
{
    let whole: Vec<char> = chars_of(s);
    let wanted: Vec<char> = chars_of(part);
    let mut i: usize = 0;
    while i < whole.len()
        invariant
            whole@ == s@,
            wanted@ == part@,
            i <= whole@.len(),
            forall|k: int| 0 <= k < i ==> !#[trigger] occurs_at(s@, part@, k),
        decreases whole@.len() - i,
    {
        if check_at(whole.as_slice(), wanted.as_slice(), i) {
            return true;
        }
        i += 1;
    }
    check_at(whole.as_slice(), wanted.as_slice(), i)
}

/// Whether `s` starts with `part`.
pub open spec fn begins_with(s: Seq<char>, part: Seq<char>) -> bool {
    occurs_at(s, part, 0)
}

/// Whether `s` starts with `part`.
pub fn starts_with(s: &str, part: &str) -> (hit: bool)
    ensures
        hit == begins_with(s@, part@),
{
    check_at(chars_of(s).as_slice(), chars_of(part).as_slice(), 0)
}

/// What follows `part` at the start of a text, if it starts with it.
pub open spec fn stripped(s: Seq<char>, part: Seq<char>) -> Option<Seq<char>> {
    if begins_with(s, part) {
        Some(s.skip(part.len() as int))
    } else {
        None
    }
}

/// Takes `part` off the start of a text.
pub fn strip_prefix(s: &str, part: &str) -> (rest: Option<String>)
    ensures
        match rest {
            Some(r) => stripped(s@, part@) == Some(r@),
            None => stripped(s@, part@) is None,
        },
{
    if !starts_with(s, part) {
        return None;
    }
    let chars: Vec<char> = chars_of(s);
    let skip: usize = chars_of(part).len();
    let rest: String = part_of(&chars, skip, chars.len());
    assert(rest@ =~= s@.skip(skip as int));
    Some(rest)
}

/// Whether a text ends with another.
pub open spec fn finishes_with(s: Seq<char>, part: Seq<char>) -> bool {
    part.len() <= s.len() && s.skip(s.len() - part.len()) == part
}

/// Whether `s` ends with `part`.
pub fn ends_with(s: &str, part: &str) -> (hit: bool)
    ensures
        hit == finishes_with(s@, part@),
{
    let a: Vec<char> = chars_of(s);
    let b: Vec<char> = chars_of(part);
    if b.len() > a.len() {
        return false;
    }
    let n: usize = a.len();
    let at: usize = n - b.len();
    let mut i: usize = 0;
    while i < b.len()
        invariant
            n == a@.len(),
            a@ == s@,
            b@ == part@,
            b@.len() <= a@.len(),
            at == a@.len() - b@.len(),
            i <= b@.len(),
            forall|j: int| 0 <= j < i ==> a@[at + j] == b@[j],
        decreases b@.len() - i,
    {
        if a[at + i] != b[i] {
            assert(s@.skip(at as int)[i as int] != part@[i as int]);
            return false;
        }
        i += 1;
    }
    assert(s@.skip(at as int) =~= part@);
    true
}

/// `s` without the occurrences of `suffix` at its end.
pub open spec fn without_end(s: Seq<char>, suffix: Seq<char>) -> Seq<char>
    decreases s.len(),
{
    if suffix.len() > 0 && occurs_at(s, suffix, s.len() - suffix.len()) {
        without_end(s.take(s.len() - suffix.len()), suffix)
    } else {
        s
    }
}

/// `s` without the occurrences of `suffix` at its end.
pub fn trim_end(s: &str, suffix: &str) -> (out: String)
    ensures
        out@ == without_end(s@, suffix@),
{
    let mut chars: Vec<char> = chars_of(s);
    let suffix: Vec<char> = chars_of(suffix);
    let ghost whole = without_end(s@, suffix@);
    while suffix.len() > 0 && chars.len() >= suffix.len() && check_at(
        chars.as_slice(),
        suffix.as_slice(),
        chars.len() - suffix.len(),
    )
        invariant
            without_end(chars@, suffix@) == whole,
        decreases chars@.len(),
    {
        let n: usize = chars.len() - suffix.len();
        assert(chars@.take(n as int) =~= chars@.subrange(0, n as int));
        chars.truncate(n);
    }
    string_of(chars.as_slice())
}

/// The part of `s` behind its last `c`, or all of it.
pub open spec fn after_last(s: Seq<char>, c: char) -> Seq<char>
    decreases s.len(),
{
    if s.len() == 0 || s.last() == c {
        Seq::empty()
    } else {
        after_last(s.drop_last(), c).push(s.last())
    }
}

/// The part of `s` behind its last `c`, or all of it.
pub fn last_part(s: &str, c: char) -> (out: String)
    ensures
        out@ == after_last(s@, c),
{
    let chars: Vec<char> = chars_of(s);
    let mut i: usize = chars.len();
    let ghost whole = after_last(s@, c);
    assert(s@.take(i as int) =~= s@);
    assert(whole =~= after_last(s@, c) + Seq::<char>::empty());
    while i > 0 && chars[i - 1] != c
        invariant
            i <= chars@.len(),
            chars@ == s@,
            whole == after_last(s@.take(i as int), c) + s@.skip(i as int),
        decreases i,
    {
        proof {
            let head = s@.take(i as int);
            assert(head.drop_last() =~= s@.take(i - 1));
            assert(after_last(head.drop_last(), c).push(head.last()) + s@.skip(i as int)
                =~= after_last(head.drop_last(), c) + s@.skip(i - 1));
        }
        i -= 1;
    }
    assert(whole =~= s@.skip(i as int));
    string_of(vstd::slice::slice_subrange(chars.as_slice(), i, chars.len()))
}

/// More digits make a number at least as large.
proof fn lemma_digits_monotone(s: Seq<char>, n: int)
    requires
        all_digits(s),
        0 <= n <= s.len(),
    ensures
        digits_value(s.take(n)) <= digits_value(s),
    decreases s.len(),
{
    if n < s.len() {
        let front = s.drop_last();
        assert(all_digits(front)) by {
            assert forall|i: int| 0 <= i < front.len() implies is_digit(#[trigger] front[i]) by {
                assert(is_digit(s[i]));
            }
        }
        assert(is_digit(s[s.len() - 1]));
        lemma_digits_monotone(front, n);
        assert(front.take(n) =~= s.take(n));
    } else {
        assert(s.take(n) =~= s);
    }
}

/// Reads an unsigned decimal number of at most `max`.
pub fn parse_decimal(s: &str, max: u64) -> (n: Option<u64>)
    ensures
        match n {
            Some(n) => parse_unsigned(s@, max as nat) == Some(n as nat),
            None => parse_unsigned(s@, max as nat) is None,
        },
{
    let chars: Vec<char> = chars_of(s);
    let start: usize = if chars.len() > 0 && chars[0] == '+' {
        1
    } else {
        0
    };
    let ghost digits = if s@.len() > 0 && s@[0] == '+' {
        s@.skip(1)
    } else {
        s@
    };
    assert(digits =~= chars@.skip(start as int));
    if chars.len() == start {
        return None;
    }
    let mut n: u64 = 0;
    let mut i: usize = start;
    assert(digits.take(0) =~= Seq::<char>::empty());
    while i < chars.len()
        invariant
            start <= i <= chars@.len(),
            start < chars@.len(),
            digits == chars@.skip(start as int),
            all_digits(digits.take(i - start)),
            n == digits_value(digits.take(i - start)),
            n <= max,
            digits.len() == chars@.len() - start,
            parse_unsigned(s@, max as nat) is Some ==> all_digits(digits) && digits_value(digits)
                <= max,
        decreases chars@.len() - i,
    {
        let c: char = chars[i];
        let ghost head = digits.take(i - start);
        let ghost next = digits.take(i - start + 1);
        assert(next.drop_last() =~= head);
        assert(next.last() == c);
        if c < '0' || c > '9' {
            assert(!is_digit(digits[i - start]));
            return None;
        }
        let d: u64 = (c as u32 - 48) as u64;
        let wide: u128 = n as u128 * 10 + d as u128;
        assert(wide == digits_value(next));
        assert(all_digits(next)) by {
            assert forall|k: int| 0 <= k < next.len() implies is_digit(#[trigger] next[k]) by {
                if k < head.len() {
                    assert(is_digit(head[k]));
                }
            }
        }
        if wide > max as u128 {
            proof {
                if all_digits(digits) {
                    lemma_digits_monotone(digits, i - start + 1);
                }
            }
            return None;
        }
        n = wide as u64;
        i += 1;
    }
    assert(digits.take(i - start) =~= digits);
    Some(n)
}

/// Reads an unsigned decimal number of 16 bits.
pub fn parse_u16(s: &str) -> (n: Option<u16>)
    ensures
        match n {
            Some(n) => parse_unsigned(s@, 0xffff) == Some(n as nat),
            None => parse_unsigned(s@, 0xffff) is None,
        },
{
    match parse_decimal(s, 0xffff) {
        Some(n) => Some(n as u16),
        None => None,
    }
}

/// Where a character first stands: at the end if nowhere.
pub open spec fn first_of(s: Seq<char>, c: char) -> nat
    decreases s.len(),
{
    if s.len() == 0 || s[0] == c {
        0
    } else {
        1 + first_of(s.skip(1), c)
    }
}

/// Finds a character, from a place on.
pub fn find_char(s: &Vec<char>, from: usize, c: char) -> (at: usize)
    requires
        from <= s@.len(),
    ensures
        from <= at <= s@.len(),
        at - from == first_of(s@.skip(from as int), c),
{
    let mut i: usize = from;
    while i < s.len() && s[i] != c
        invariant
            from <= i <= s@.len(),
            first_of(s@.skip(from as int), c) == (i - from) + first_of(s@.skip(i as int), c),
        decreases s@.len() - i,
    {
        assert(s@.skip(i as int).skip(1) =~= s@.skip(i + 1));
        i += 1;
    }
    i
}

/// A text cut in two at the first `c`, which goes away.
pub open spec fn cut(s: Seq<char>, c: char) -> Option<(Seq<char>, Seq<char>)> {
    let n = first_of(s, c) as int;
    if n < s.len() {
        Some((s.take(n), s.skip(n + 1)))
    } else {
        None
    }
}

fn part_of(chars: &Vec<char>, from: usize, to: usize) -> (out: String)
    requires
        from <= to <= chars@.len(),
    ensures
        out@ == chars@.subrange(from as int, to as int),
{
    let mut out: Vec<char> = Vec::new();
    let mut i: usize = from;
    while i < to
        invariant
            from <= i <= to <= chars@.len(),
            out@ == chars@.subrange(from as int, i as int),
        decreases to - i,
    {
        out.push(chars[i]);
        i += 1;
        assert(out@ =~= chars@.subrange(from as int, i as int));
    }
    string_of(out.as_slice())
}

/// Cuts a text in two at the first `c`.
pub fn split_once(s: &str, c: char) -> (parts: Option<(String, String)>)
    ensures
        match parts {
            Some((a, b)) => cut(s@, c) == Some((a@, b@)),
            None => cut(s@, c) is None,
        },
{
    let chars: Vec<char> = chars_of(s);
    let at: usize = find_char(&chars, 0, c);
    assert(chars@.skip(0) =~= chars@);
    if at >= chars.len() {
        return None;
    }
    let a: String = part_of(&chars, 0, at);
    let b: String = part_of(&chars, at + 1, chars.len());
    assert(a@ =~= s@.take(at as int));
    assert(b@ =~= s@.skip(at + 1));
    Some((a, b))
}

/// The first place of a character is before all others where it stands; where it stands
/// nowhere the place is the end.
pub proof fn lemma_first_of(s: Seq<char>, c: char)
    ensures
        first_of(s, c) <= s.len(),
        first_of(s, c) < s.len() ==> s[first_of(s, c) as int] == c,
        forall|i: int| 0 <= i < first_of(s, c) ==> s[i] != c,
        first_of(s, c) < s.len() <==> s.contains(c),
    decreases s.len(),
{
    if s.len() > 0 && s[0] != c {
        let rest = s.skip(1);
        lemma_first_of(rest, c);
        assert forall|i: int| 0 <= i < first_of(s, c) implies s[i] != c by {
            if i > 0 {
                assert(rest[i - 1] != c);
            }
        }
        if s.contains(c) {
            let i = choose|i: int| 0 <= i < s.len() && s[i] == c;
            assert(rest[i - 1] == c);
        }
    }
}

/// A text that is cut in two is its first part, the character and its second part, and the
/// first part does not hold the character. A text without the character is not cut.
pub proof fn lemma_cut(s: Seq<char>, c: char)
    ensures
        cut(s, c) is Some <==> s.contains(c),
        cut(s, c) matches Some((a, b)) ==> s == a + seq![c] + b && !a.contains(c),
{
    lemma_first_of(s, c);
    if let Some((a, b)) = cut(s, c) {
        assert(s =~= a + seq![c] + b);
        assert forall|i: int| 0 <= i < a.len() implies a[i] != c by {
            assert(a[i] == s[i]);
        }
    }
}

/// A number in decimal consists of digits, is read as that number, and starts with a zero
/// only if it is zero.
pub proof fn lemma_decimal_value(n: nat)
    ensures
        decimal(n).len() > 0,
        all_digits(decimal(n)),
        digits_value(decimal(n)) == n,
        decimal(n)[0] == '0' ==> n == 0,
    decreases n,
{
    let s = decimal(n);
    if n < 10 {
        assert(s.drop_last() =~= Seq::<char>::empty());
        reveal_with_fuel(digits_value, 2);
    } else {
        let front = decimal(n / 10);
        lemma_decimal_value(n / 10);
        assert(s.drop_last() =~= front);
        assert forall|i: int| 0 <= i < s.len() implies is_digit(#[trigger] s[i]) by {
            if i < front.len() {
                assert(is_digit(front[i]));
            }
        }
        assert(s[0] == front[0]);
    }
}

/// What a hexadecimal digit counts.
pub open spec fn hex_digit_value(c: char) -> nat {
    if '0' <= c && c <= '9' {
        (c as u32 - '0' as u32) as nat
    } else {
        (c as u32 - 'a' as u32 + 10) as nat
    }
}

/// What a run of hexadecimal digits counts.
pub open spec fn hex_digits_value(s: Seq<char>) -> nat
    decreases s.len(),
{
    if s.len() == 0 {
        0
    } else {
        16 * hex_digits_value(s.drop_last()) + hex_digit_value(s.last())
    }
}

/// A number in hexadecimal is written with digits and the letters from `a` to `f`, counts
/// that number, and starts with a zero only if it is zero.
pub proof fn lemma_hexadecimal_value(n: nat)
    ensures
        hexadecimal(n).len() > 0,
        forall|i: int|
            0 <= i < hexadecimal(n).len() ==> {
                let c = #[trigger] hexadecimal(n)[i];
                ('0' <= c && c <= '9') || ('a' <= c && c <= 'f')
            },
        hex_digits_value(hexadecimal(n)) == n,
        hexadecimal(n)[0] == '0' ==> n == 0,
    decreases n,
{
    let s = hexadecimal(n);
    if n < 16 {
        assert(s.drop_last() =~= Seq::<char>::empty());
        reveal_with_fuel(hex_digits_value, 2);
    } else {
        let front = hexadecimal(n / 16);
        lemma_hexadecimal_value(n / 16);
        assert(s.drop_last() =~= front);
        assert forall|i: int| 0 <= i < s.len() implies ({
            let c = #[trigger] s[i];
            ('0' <= c && c <= '9') || ('a' <= c && c <= 'f')
        }) by {
            if i < front.len() {
                assert(s[i] == front[i]);
            }
        }
        assert(s[0] == front[0]);
    }
}

/// The part behind the last place of a character does not hold it, and ends the text; it
/// is all of a text without the character.
pub proof fn lemma_after_last(s: Seq<char>, c: char)
    ensures
        !after_last(s, c).contains(c),
        finishes_with(s, after_last(s, c)),
        !s.contains(c) ==> after_last(s, c) == s,
        s.contains(c) ==> after_last(s, c).len() < s.len() && s[s.len() - after_last(s, c).len() - 1]
            == c,
    decreases s.len(),
{
    let a = after_last(s, c);
    if s.len() == 0 {
        assert(s.skip(0) =~= a);
    } else if s.last() == c {
        assert(s.skip(s.len() as int) =~= a);
        assert(s[s.len() - 1] == c);
    } else {
        let front = s.drop_last();
        lemma_after_last(front, c);
        let b = after_last(front, c);
        assert(s.skip(s.len() - a.len()) =~= front.skip(front.len() - b.len()).push(s.last()));
        assert forall|i: int| 0 <= i < a.len() implies a[i] != c by {
            if i < b.len() {
                assert(b[i] != c);
            }
        }
        if s.contains(c) {
            let i = choose|i: int| 0 <= i < s.len() && s[i] == c;
            assert(front[i] == c);
        } else {
            if front.contains(c) {
                let i = choose|i: int| 0 <= i < front.len() && front[i] == c;
                assert(s[i] == c);
            }
            assert(a =~= s);
        }
    }
}

/// Texts are alike exactly if they are the same but for the case of the letters from A to
/// Z.
pub proof fn lemma_alike(c: char)
    ensures
        'A' <= c && c <= 'Z' ==> ascii_lower(c) as u32 == c as u32 + 32,
        !('A' <= c && c <= 'Z') ==> ascii_lower(c) == c,
{
}

/// An empty text and one with anything but digits behind at most one plus sign is no
/// number; a number is read if it is not too large.
pub proof fn lemma_parse_unsigned(s: Seq<char>, max: nat)
    ensures
        s.len() == 0 ==> parse_unsigned(s, max) is None,
        parse_unsigned(s, max) matches Some(n) ==> n <= max,
        forall|n: nat| n <= max ==> parse_unsigned(#[trigger] decimal(n), max) == Some(n),
        forall|n: nat| n > max ==> parse_unsigned(#[trigger] decimal(n), max) is None,
        forall|i: int|
            0 <= i < s.len() && !is_digit(#[trigger] s[i]) && !(i == 0 && s[i] == '+')
                ==> parse_unsigned(s, max) is None,
{
    assert forall|n: nat| true implies ({
        let d = #[trigger] decimal(n);
        &&& d.len() > 0
        &&& d[0] != '+'
        &&& all_digits(d)
        &&& digits_value(d) == n
    }) by {
        lemma_decimal_value(n);
        assert(is_digit(decimal(n)[0]));
    }
    assert forall|i: int|
        0 <= i < s.len() && !is_digit(#[trigger] s[i]) && !(i == 0 && s[i]
            == '+') implies parse_unsigned(s, max) is None by {
        if s[0] == '+' {
            assert(s.skip(1)[i - 1] == s[i]);
            assert(!all_digits(s.skip(1)));
        } else {
            assert(!all_digits(s));
        }
    }
}

/// A digit behind others counts once, and they count ten times as much; hexadecimal digits
/// count sixteen times as much.
pub proof fn lemma_digit_weights(s: Seq<char>, c: char)
    ensures
        digits_value(Seq::<char>::empty()) == 0,
        '0' <= c && c <= '9' ==> is_digit(c) && digits_value(s.push(c)) == 10 * digits_value(s) + (
        c as int - 48),
        is_digit(c) ==> '0' <= c && c <= '9',
        hex_digits_value(Seq::<char>::empty()) == 0,
        '0' <= c && c <= '9' ==> hex_digits_value(s.push(c)) == 16 * hex_digits_value(s) + (c as int
            - 48),
        'a' <= c && c <= 'f' ==> hex_digits_value(s.push(c)) == 16 * hex_digits_value(s) + (c as int
            - 87),
{
    assert(s.push(c).drop_last() =~= s);
}

/// A part occurs in a text exactly if the text is something, the part, and something.
pub proof fn lemma_occurs(s: Seq<char>, part: Seq<char>, a: Seq<char>, b: Seq<char>)
    ensures
        s == a + part + b ==> occurs_in(s, part),
        occurs_in(s, part) ==> exists|i: int|
            0 <= i <= s.len() - part.len() && s == (#[trigger] s.take(i)) + part + s.skip(
                i + part.len(),
            ),
{
    if s == a + part + b {
        let i = a.len() as int;
        assert(s.subrange(i, i + part.len()) =~= part);
        assert(occurs_at(s, part, i));
    }
    if occurs_in(s, part) {
        let i = choose|i: int| occurs_at(s, part, i);
        assert(s =~= s.take(i) + part + s.skip(i + part.len())) by {
            assert forall|j: int| 0 <= j < part.len() implies s[i + j] == part[j] by {
                assert(s.subrange(i, i + part.len())[j] == s[i + j]);
            }
        }
    }
}

/// A text starts with a part exactly if it is the part and something, which is what is left
/// without the part; it ends with a part exactly if it is something and the part.
pub proof fn lemma_ends(s: Seq<char>, part: Seq<char>, rest: Seq<char>)
    ensures
        begins_with(part + rest, part),
        stripped(part + rest, part) == Some(rest),
        stripped(s, part) matches Some(r) ==> s == part + r,
        begins_with(s, part) <==> stripped(s, part) is Some,
        finishes_with(rest + part, part),
        finishes_with(s, part) ==> s == s.take(s.len() - part.len()) + part,
{
    assert((part + rest).subrange(0, part.len() as int) =~= part);
    assert((part + rest).skip(part.len() as int) =~= rest);
    assert((rest + part).skip(rest.len() as int) =~= part);
    if begins_with(s, part) {
        assert(s =~= part + s.skip(part.len() as int)) by {
            assert forall|j: int| 0 <= j < part.len() implies s[j] == part[j] by {
                assert(s.subrange(0, part.len() as int)[j] == s[j]);
            }
        }
    }
    if finishes_with(s, part) {
        assert(s =~= s.take(s.len() - part.len()) + part) by {
            assert forall|j: int| 0 <= j < part.len() implies s[s.len() - part.len() + j]
                == part[j] by {
                assert(s.skip(s.len() - part.len())[j] == s[s.len() - part.len() + j]);
            }
        }
    }
}

/// What is left without a suffix starts the text and does not end with the suffix, and one
/// suffix more makes no difference; a text that does not end with it stays.
pub proof fn lemma_without_end(s: Seq<char>, suffix: Seq<char>)
    requires
        suffix.len() > 0,
    ensures
        without_end(s, suffix).len() <= s.len(),
        s.take(without_end(s, suffix).len() as int) == without_end(s, suffix),
        !finishes_with(without_end(s, suffix), suffix),
        without_end(s + suffix, suffix) == without_end(s, suffix),
        !finishes_with(s, suffix) ==> without_end(s, suffix) == s,
    decreases s.len(),
{
    let more = s + suffix;
    assert(more.subrange(s.len() as int, more.len() as int) =~= suffix);
    assert(more.take(s.len() as int) =~= s);
    let at = s.len() - suffix.len();
    if occurs_at(s, suffix, at) {
        let front = s.take(at);
        lemma_without_end(front, suffix);
        let r = without_end(s, suffix);
        assert(s.take(r.len() as int) =~= front.take(r.len() as int));
        assert(s.skip(at) =~= s.subrange(at, s.len() as int));
    } else {
        assert(s.take(s.len() as int) =~= s);
        if finishes_with(s, suffix) {
            assert(s.skip(at) =~= s.subrange(at, s.len() as int));
        }
    }
}

/// A signed number is written as its digits, a negative one behind a minus sign.
pub proof fn lemma_signed_decimal(n: int)
    ensures
        n >= 0 ==> all_digits(signed_decimal(n)) && digits_value(signed_decimal(n)) == n,
        n < 0 ==> signed_decimal(n).len() > 1 && signed_decimal(n)[0] == '-' && digits_value(
            signed_decimal(n).skip(1),
        ) == -n,
{
    if n < 0 {
        reveal_strlit("-");
        lemma_decimal_value((-n) as nat);
        assert(signed_decimal(n).skip(1) =~= decimal((-n) as nat));
    } else {
        lemma_decimal_value(n as nat);
    }
}

/// A plus sign in front of digits changes nothing.
pub proof fn lemma_plus_sign(s: Seq<char>, max: nat)
    requires
        s.len() > 0,
        s[0] != '+',
    ensures
        parse_unsigned(seq!['+'] + s, max) == parse_unsigned(s, max),
        all_digits(s) && digits_value(s) <= max ==> parse_unsigned(s, max) == Some(digits_value(s)),
        all_digits(s) && digits_value(s) > max ==> parse_unsigned(s, max) is None,
        !all_digits(s) ==> parse_unsigned(s, max) is None,
{
    assert((seq!['+'] + s).skip(1) =~= s);
}

/// Texts are alike if they have the same length and each letter is the same but for its
/// case.
pub proof fn lemma_alike_texts(a: Seq<char>, b: Seq<char>)
    ensures
        alike(a, a),
        alike(a, b) <==> alike(b, a),
        alike(a, b) ==> a.len() == b.len(),
        alike(a, b) ==> forall|i: int|
            0 <= i < a.len() ==> #[trigger] a[i] == b[i] || a[i] as int == b[i] as int + 32 || b[i] as int
                == a[i] as int + 32,
        a.len() == b.len() && (forall|i: int|
            0 <= i < a.len() ==> ascii_lower(#[trigger] a[i]) == ascii_lower(b[i])) ==> alike(a, b),
{
    if alike(a, b) {
        assert forall|i: int| 0 <= i < b.len() implies ascii_lower(#[trigger] b[i]) == ascii_lower(
            a[i],
        ) by {
            assert(ascii_lower(a[i]) == ascii_lower(b[i]));
        }
    }
    if alike(b, a) {
        assert forall|i: int| 0 <= i < a.len() implies ascii_lower(#[trigger] a[i]) == ascii_lower(
            b[i],
        ) by {
            assert(ascii_lower(b[i]) == ascii_lower(a[i]));
        }
    }
}

} // verus!
