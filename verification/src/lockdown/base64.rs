//! Base64 and PEM.

use vstd::prelude::*;
use vstd::string::StringExecFns;
use vstd::utf8::encode_utf8;
use crate::text::{chars_of, join3, str_bytes};

verus! {

/// The character that stands for a number below 64.
pub open spec fn symbol(n: int) -> char {
    if n < 26 {
        ('A' as u32 + n) as char
    } else if n < 52 {
        ('a' as u32 + (n - 26)) as char
    } else if n < 62 {
        ('0' as u32 + (n - 52)) as char
    } else if n == 62 {
        '+'
    } else {
        '/'
    }
}

/// Base64 of some bytes, three at a time.
pub open spec fn base64(s: Seq<u8>) -> Seq<char>
    decreases s.len(),
{
    if s.len() == 0 {
        Seq::empty()
    } else if s.len() == 1 {
        seq![symbol(s[0] as int / 4), symbol(s[0] as int % 4 * 16), '=', '=']
    } else if s.len() == 2 {
        seq![
            symbol(s[0] as int / 4),
            symbol(s[0] as int % 4 * 16 + s[1] as int / 16),
            symbol(s[1] as int % 16 * 4),
            '=',
        ]
    } else {
        seq![
            symbol(s[0] as int / 4),
            symbol(s[0] as int % 4 * 16 + s[1] as int / 16),
            symbol(s[1] as int % 16 * 4 + s[2] as int / 64),
            symbol(s[2] as int % 64),
        ] + base64(s.skip(3))
    }
}

fn symbol_char(n: u8) -> (c: char)
    requires
        n < 64,
    ensures
        c == symbol(n as int),
{
    if n < 26 {
        (65u8 + n) as char
    } else if n < 52 {
        (97u8 + (n - 26)) as char
    } else if n < 62 {
        (48u8 + (n - 52)) as char
    } else if n == 62 {
        '+'
    } else {
        '/'
    }
}

/// Encodes bytes in base64.
pub fn base64_encode(input: &[u8]) -> (out: String)
    ensures
        out@ == base64(input@),
{
    let mut out: String = String::new();
    let mut i: usize = 0;
    assert(input@.skip(0) =~= input@);
    assert(out@ + base64(input@) =~= base64(input@));
    assert(input@.len() == input.len());
    while input.len() - i >= 3
        invariant
            i <= input@.len(),
            input@.len() == input.len(),
            out@ + base64(input@.skip(i as int)) == base64(input@),
        decreases input@.len() - i,
    {
        let ghost before = out@;
        let ghost rest = input@.skip(i as int);
        let a: u8 = input[i];
        let b: u8 = input[i + 1];
        let c: u8 = input[i + 2];
        out.push(symbol_char(a / 4));
        out.push(symbol_char(a % 4 * 16 + b / 16));
        out.push(symbol_char(b % 16 * 4 + c / 64));
        out.push(symbol_char(c % 64));
        assert(rest.skip(3) =~= input@.skip(i + 3));
        assert(out@ + base64(input@.skip(i + 3)) =~= before + base64(rest));
        i += 3;
    }
    let ghost rest = input@.skip(i as int);
    let ghost before = out@;
    if input.len() - i == 1 {
        let a: u8 = input[i];
        out.push(symbol_char(a / 4));
        out.push(symbol_char(a % 4 * 16));
        out.push('=');
        out.push('=');
    } else if input.len() - i == 2 {
        let a: u8 = input[i];
        let b: u8 = input[i + 1];
        out.push(symbol_char(a / 4));
        out.push(symbol_char(a % 4 * 16 + b / 16));
        out.push(symbol_char(b % 16 * 4));
        out.push('=');
    }
    assert(out@ =~= before + base64(rest));
    out
}

/// Base64 has four characters for every three bytes begun.
pub proof fn lemma_base64_len(s: Seq<u8>)
    ensures
        base64(s).len() == (s.len() + 2) / 3 * 4,
    decreases s.len(),
{
    if s.len() > 2 {
        lemma_base64_len(s.skip(3));
    }
}

/// A text in lines of at most 64 characters.
pub open spec fn lines64(s: Seq<char>) -> Seq<char>
    decreases s.len(),
{
    if s.len() == 0 {
        Seq::empty()
    } else if s.len() <= 64 {
        s.push('\n')
    } else {
        s.take(64).push('\n') + lines64(s.skip(64))
    }
}

/// The PEM text of some bytes.
pub open spec fn pem_text(label: Seq<char>, der: Seq<u8>) -> Seq<char> {
    "-----BEGIN "@ + label + "-----\n"@ + lines64(base64(der)) + ("-----END "@ + label
        + "-----\n"@)
}

fn put_lines(out: &mut String, text: &str)
    ensures
        final(out)@ == old(out)@ + lines64(text@),
{
    let chars: Vec<char> = chars_of(text);
    let mut i: usize = 0;
    assert(text@.skip(0) =~= text@);
    assert(out@ + lines64(text@.skip(0)) =~= old(out)@ + lines64(text@));
    while i < chars.len()
        invariant
            chars@ == text@,
            i <= chars@.len(),
            out@ + lines64(text@.skip(i as int)) == old(out)@ + lines64(text@),
        decreases chars@.len() - i,
    {
        let ghost rest = text@.skip(i as int);
        let ghost before = out@;
        let end: usize = if chars.len() - i > 64 {
            i + 64
        } else {
            chars.len()
        };
        let mut j: usize = i;
        assert(rest.take(0) =~= Seq::<char>::empty());
        assert(out@ =~= before + rest.take(0));
        while j < end
            invariant
                chars@ == text@,
                i <= j <= end <= chars@.len(),
                rest == text@.skip(i as int),
                out@ == before + rest.take(j - i),
            decreases end - j,
        {
            out.push(chars[j]);
            j += 1;
            assert(out@ =~= before + rest.take(j - i));
        }
        out.push('\n');
        assert(text@.skip(end as int) =~= rest.skip(end - i));
        assert(rest.take(end - i).push('\n') + lines64(rest.skip(end - i)) =~= lines64(rest)) by {
            if rest.len() <= 64 {
                assert(rest.take(end - i) =~= rest);
                assert(rest.skip(end - i) =~= Seq::<char>::empty());
            }
        }
        assert(out@ + lines64(text@.skip(end as int)) =~= before + lines64(rest));
        i = end;
    }
    assert(text@.skip(i as int) =~= Seq::<char>::empty());
    assert(out@ + lines64(text@.skip(i as int)) =~= out@);
}

/// Encodes bytes as PEM.
pub fn pem_encode(label: &str, der: &[u8]) -> (out: Vec<u8>)
    ensures
        out@ == encode_utf8(pem_text(label@, der@)),
{
    let mut text: String = join3("-----BEGIN ", label, "-----\n");
    put_lines(&mut text, base64_encode(der).as_str());
    let tail: String = join3("-----END ", label, "-----\n");
    text.append(tail.as_str());
    str_bytes(text.as_str())
}

/// The number that a character of the alphabet stands for.
pub open spec fn sextet(c: char) -> int {
    if 'A' <= c && c <= 'Z' {
        c as int - 'A' as int
    } else if 'a' <= c && c <= 'z' {
        c as int - 'a' as int + 26
    } else if '0' <= c && c <= '9' {
        c as int - '0' as int + 52
    } else if c == '+' {
        62
    } else {
        63
    }
}

proof fn lemma_symbol(n: int)
    requires
        0 <= n < 64,
    ensures
        sextet(symbol(n)) == n,
        symbol(n) != '=',
{
}

/// Four characters of base64, each for six bits, count the same as the three bytes that
/// they stand for; one byte or two bytes at the end are filled up with zero bits, and the
/// missing characters are equals signs.
pub proof fn lemma_base64_group(s: Seq<u8>, i: int)
    requires
        0 <= 3 * i < s.len(),
    ensures
        ({
            let t = base64(s);
            let a = sextet(t[4 * i]);
            let b = sextet(t[4 * i + 1]);
            let c = sextet(t[4 * i + 2]);
            let d = sextet(t[4 * i + 3]);
            if 3 * i + 2 < s.len() {
                0x40000 * a + 0x1000 * b + 0x40 * c + d == 0x10000 * s[3 * i] + 0x100 * s[3 * i + 1]
                    + s[3 * i + 2]
            } else if 3 * i + 1 < s.len() {
                &&& 0x1000 * a + 0x40 * b + c == 4 * (0x100 * s[3 * i] + s[3 * i + 1])
                &&& t[4 * i + 3] == '='
            } else {
                &&& 0x40 * a + b == 16 * s[3 * i]
                &&& t[4 * i + 2] == '='
                &&& t[4 * i + 3] == '='
            }
        }),
    decreases s.len(),
{
    let t = base64(s);
    lemma_base64_len(s);
    if i == 0 {
        let x = s[0] as int;
        lemma_symbol(x / 4);
        if s.len() == 1 {
            lemma_symbol(x % 4 * 16);
        } else {
            let y = s[1] as int;
            lemma_symbol(x % 4 * 16 + y / 16);
            if s.len() == 2 {
                lemma_symbol(y % 16 * 4);
            } else {
                let z = s[2] as int;
                lemma_symbol(y % 16 * 4 + z / 64);
                lemma_symbol(z % 64);
            }
        }
    } else {
        let rest = s.skip(3);
        lemma_base64_group(rest, i - 1);
        lemma_base64_len(rest);
        assert(rest[3 * (i - 1)] == s[3 * i]);
        assert(3 * i + 1 < s.len() ==> rest[3 * (i - 1) + 1] == s[3 * i + 1]);
        assert(3 * i + 2 < s.len() ==> rest[3 * (i - 1) + 2] == s[3 * i + 2]);
        assert(t[4 * i] == base64(rest)[4 * (i - 1)]);
        assert(t[4 * i + 1] == base64(rest)[4 * (i - 1) + 1]);
        assert(t[4 * i + 2] == base64(rest)[4 * (i - 1) + 2]);
        assert(t[4 * i + 3] == base64(rest)[4 * (i - 1) + 3]);
    }
}

/// Lines keep the characters in order, 64 on each line but the last, and each line ends
/// with a line feed.
pub proof fn lemma_lines(s: Seq<char>, i: int)
    requires
        0 <= i < s.len(),
    ensures
        ({
            let t = lines64(s);
            let end = if 64 * (i / 64) + 64 <= s.len() {
                65 * (i / 64) + 64
            } else {
                t.len() - 1
            };
            &&& t.len() == s.len() + (s.len() + 63) / 64
            &&& t[i + i / 64] == s[i]
            &&& t[end] == '\n'
        }),
    decreases s.len(),
{
    let t = lines64(s);
    if s.len() > 64 {
        let rest = s.skip(64);
        if i < 64 {
            lemma_lines(rest, 0);
        } else {
            lemma_lines(rest, i - 64);
            assert(s[i] == rest[i - 64]);
            assert(t[i + i / 64] == lines64(rest)[i - 64 + (i - 64) / 64]);
        }
    }
}

/// PEM has a line that names the label before the lines of base64, and one behind them.
pub proof fn lemma_pem(label: Seq<char>, der: Seq<u8>)
    ensures
        ({
            let t = pem_text(label, der);
            let n = 17 + label.len() as int;
            let m = t.len() - (15 + label.len());
            &&& n <= m
            &&& t.take(n) == "-----BEGIN "@ + label + "-----\n"@
            &&& t.subrange(n, m) == lines64(base64(der))
            &&& t.skip(m) == "-----END "@ + label + "-----\n"@
        }),
{
    reveal_strlit("-----BEGIN ");
    reveal_strlit("-----END ");
    reveal_strlit("-----\n");
    let t = pem_text(label, der);
    let n = 17 + label.len() as int;
    let m = t.len() - (15 + label.len());
    assert(t.take(n) =~= "-----BEGIN "@ + label + "-----\n"@);
    assert(t.subrange(n, m) =~= lines64(base64(der)));
    assert(t.skip(m) =~= "-----END "@ + label + "-----\n"@);
}

} // verus!
