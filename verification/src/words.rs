//! White space, and the words between it.

use vstd::prelude::*;
use crate::text::{chars_of, string_of};

verus! {

/// Whether a character has the Unicode property White_Space.
pub open spec fn white(c: char) -> bool {
    let n = c as u32;
    ||| 0x9 <= n <= 0xd
    ||| n == 0x20
    ||| n == 0x85
    ||| n == 0xa0
    ||| n == 0x1680
    ||| 0x2000 <= n <= 0x200a
    ||| n == 0x2028
    ||| n == 0x2029
    ||| n == 0x202f
    ||| n == 0x205f
    ||| n == 0x3000
}

/// Whether a character is white space.
pub fn is_white(c: char) -> (yes: bool)
    ensures
        yes == white(c),
{
    let n: u32 = c as u32;
    (0x9 <= n && n <= 0xd) || n == 0x20 || n == 0x85 || n == 0xa0 || n == 0x1680 || (0x2000 <= n
        && n <= 0x200a) || n == 0x2028 || n == 0x2029 || n == 0x202f || n == 0x205f || n == 0x3000
}

/// How many characters there are before the first white space.
pub open spec fn word_len(s: Seq<char>) -> nat
    decreases s.len(),
{
    if s.len() == 0 || white(s[0]) {
        0
    } else {
        1 + word_len(s.skip(1))
    }
}

/// The words of a text.
pub open spec fn words(s: Seq<char>) -> Seq<Seq<char>>
    decreases s.len(),
{
    if s.len() == 0 {
        Seq::empty()
    } else if white(s[0]) {
        words(s.skip(1))
    } else {
        proof {
            lemma_word_len(s);
        }
        seq![s.take(word_len(s) as int)] + words(s.skip(word_len(s) as int))
    }
}

/// A word does not reach past the end, and is not empty.
pub proof fn lemma_word_len(s: Seq<char>)
    ensures
        word_len(s) <= s.len(),
        s.len() > 0 && !white(s[0]) ==> word_len(s) > 0,
    decreases s.len(),
{
    if s.len() > 0 && !white(s[0]) {
        lemma_word_len(s.skip(1));
    }
}

fn word_end(chars: &Vec<char>, from: usize) -> (end: usize)
    requires
        from <= chars@.len(),
    ensures
        from <= end <= chars@.len(),
        end - from == word_len(chars@.skip(from as int)),
{
    let mut j: usize = from;
    while j < chars.len() && !is_white(chars[j])
        invariant
            from <= j <= chars@.len(),
            word_len(chars@.skip(from as int)) == (j - from) + word_len(chars@.skip(j as int)),
        decreases chars@.len() - j,
    {
        assert(chars@.skip(j as int).skip(1) =~= chars@.skip(j + 1));
        j += 1;
    }
    j
}

/// The contents of some character strings.
pub open spec fn spelled(items: Seq<Vec<char>>) -> Seq<Seq<char>> {
    items.map_values(|v: Vec<char>| v@)
}

/// A part of a character string.
pub fn part(chars: &Vec<char>, from: usize, to: usize) -> (out: Vec<char>)
    requires
        from <= to <= chars@.len(),
    ensures
        out@ == chars@.subrange(from as int, to as int),
{
    let mut out: Vec<char> = Vec::new();
    let mut i: usize = from;
    while i < to
        invariant
            from <= i <= to <= chars@.len(),
            out@ == chars@.subrange(from as int, i as int),
        decreases to - i,
    {
        out.push(chars[i]);
        i += 1;
        assert(out@ =~= chars@.subrange(from as int, i as int));
    }
    out
}

/// Splits a text into its words.
pub fn split_words(chars: &Vec<char>) -> (out: Vec<Vec<char>>)
    ensures
        spelled(out@) == words(chars@),
{
    let mut out: Vec<Vec<char>> = Vec::new();
    let mut pos: usize = 0;
    assert(chars@.skip(0) =~= chars@);
    assert(spelled(out@) + words(chars@.skip(0)) =~= words(chars@));
    while pos < chars.len()
        invariant
            pos <= chars@.len(),
            spelled(out@) + words(chars@.skip(pos as int)) == words(chars@),
        decreases chars@.len() - pos,
    {
        let ghost rest = chars@.skip(pos as int);
        if is_white(chars[pos]) {
            assert(rest.skip(1) =~= chars@.skip(pos + 1));
            pos += 1;
        } else {
            proof {
                lemma_word_len(rest);
            }
            let ghost before = out@;
            let end: usize = word_end(chars, pos);
            let word: Vec<char> = part(chars, pos, end);
            assert(word@ =~= rest.take(end - pos));
            out.push(word);
            assert(spelled(out@) =~= spelled(before).push(rest.take(end - pos)));
            assert(rest.skip(end - pos) =~= chars@.skip(end as int));
            assert(spelled(out@) + words(chars@.skip(end as int)) =~= spelled(before) + words(
                rest,
            ));
            pos = end;
        }
    }
    assert(chars@.skip(pos as int) =~= Seq::<char>::empty());
    assert(spelled(out@) + words(chars@.skip(pos as int)) =~= spelled(out@));
    out
}

/// Words with one blank between each two.
pub open spec fn spaced(ws: Seq<Seq<char>>) -> Seq<char>
    decreases ws.len(),
{
    if ws.len() == 0 {
        Seq::empty()
    } else if ws.len() == 1 {
        ws[0]
    } else {
        spaced(ws.drop_last()) + seq![' '] + ws.last()
    }
}

/// Joins words with one blank between each two, from the word `from` on.
pub fn join_words(ws: &Vec<Vec<char>>, from: usize) -> (out: Vec<char>)
    ensures
        out@ == if from < ws@.len() {
            spaced(spelled(ws@).skip(from as int))
        } else {
            Seq::empty()
        },
{
    let mut out: Vec<char> = Vec::new();
    if from >= ws.len() {
        assert(out@ =~= Seq::<char>::empty());
        return out;
    }
    let ghost all = spelled(ws@).skip(from as int);
    let mut i: usize = from;
    assert(all.take(0) =~= Seq::<Seq<char>>::empty());
    assert(out@ =~= spaced(all.take(0)));
    while i < ws.len()
        invariant
            from <= i <= ws@.len(),
            all == spelled(ws@).skip(from as int),
            out@ == spaced(all.take(i - from)),
        decreases ws@.len() - i,
    {
        let ghost before = out@;
        if i > from {
            out.push(' ');
        }
        let ghost front = out@;
        let mut j: usize = 0;
        assert(front + ws@[i as int]@.take(0) =~= front);
        while j < ws[i].len()
            invariant
                i < ws@.len(),
                j <= ws@[i as int]@.len(),
                out@ == front + ws@[i as int]@.take(j as int),
            decreases ws@[i as int]@.len() - j,
        {
            out.push(ws[i][j]);
            j += 1;
            assert(out@ =~= front + ws@[i as int]@.take(j as int));
        }
        assert(ws@[i as int]@.take(j as int) =~= ws@[i as int]@);
        assert(all.take(i - from + 1).drop_last() =~= all.take(i - from));
        assert(all.take(i - from + 1).last() == ws@[i as int]@);
        if i == from {
            assert(front =~= Seq::<char>::empty());
        }
        assert(out@ =~= spaced(all.take(i - from + 1)));
        i += 1;
    }
    assert(all.take(i - from) =~= all);
    out
}

/// A text without white space around it.
pub open spec fn trimmed(s: Seq<char>) -> Seq<char>
    decreases s.len(),
{
    if s.len() == 0 {
        s
    } else if white(s[0]) {
        trimmed(s.skip(1))
    } else if white(s.last()) {
        trimmed(s.drop_last())
    } else {
        s
    }
}

/// Takes the white space off both ends.
pub fn trim(s: &str) -> (out: String)
    ensures
        out@ == trimmed(s@),
{
    let chars: Vec<char> = chars_of(s);
    let mut from: usize = 0;
    let mut to: usize = chars.len();
    assert(chars@.subrange(0, to as int) =~= chars@);
    while from < to && is_white(chars[from])
        invariant
            from <= to == chars@.len(),
            trimmed(chars@.subrange(from as int, to as int)) == trimmed(chars@),
        decreases to - from,
    {
        assert(chars@.subrange(from as int, to as int).skip(1) =~= chars@.subrange(
            from + 1,
            to as int,
        ));
        from += 1;
    }
    while from < to && is_white(chars[to - 1])
        invariant
            from <= to <= chars@.len(),
            from < to ==> !white(chars@[from as int]),
            trimmed(chars@.subrange(from as int, to as int)) == trimmed(chars@),
        decreases to - from,
    {
        assert(chars@.subrange(from as int, to as int).drop_last() =~= chars@.subrange(
            from as int,
            to - 1,
        ));
        to -= 1;
    }
    let out: Vec<char> = part(&chars, from, to);
    string_of(out.as_slice())
}

/// Of the characters of ASCII, the blank and the five from the tab to the carriage return
/// are white space, and no others.
pub proof fn lemma_ascii_white(c: char)
    requires
        (c as u32) < 0x80,
    ensures
        white(c) <==> c == ' ' || c == '\t' || c == '\n' || c == '\r' || c as u32 == 0xb || c as u32
            == 0xc,
{
}

/// A text without white space is one word, unless it is empty; white space alone has no
/// words.
pub proof fn lemma_one_word(s: Seq<char>)
    ensures
        s.len() > 0 && (forall|i: int| 0 <= i < s.len() ==> !white(#[trigger] s[i])) ==> words(s)
            == seq![s],
        (forall|i: int| 0 <= i < s.len() ==> white(#[trigger] s[i])) ==> words(s) == Seq::<
            Seq<char>,
        >::empty(),
    decreases s.len(),
{
    if s.len() > 0 {
        if forall|i: int| 0 <= i < s.len() ==> white(#[trigger] s[i]) {
            let rest = s.skip(1);
            assert forall|i: int| 0 <= i < rest.len() implies white(#[trigger] rest[i]) by {
                assert(white(s[i + 1]));
            }
            assert(white(s[0]));
            lemma_one_word(rest);
        } else if forall|i: int| 0 <= i < s.len() ==> !white(#[trigger] s[i]) {
            lemma_whole_word(s);
            assert(s.take(s.len() as int) =~= s);
            assert(s.skip(s.len() as int) =~= Seq::<char>::empty());
            assert(words(s.skip(s.len() as int)) =~= Seq::<Seq<char>>::empty());
            assert(!white(s[0]));
            assert(words(s) =~= seq![s]);
        }
    }
}

proof fn lemma_whole_word(s: Seq<char>)
    requires
        forall|i: int| 0 <= i < s.len() ==> !white(#[trigger] s[i]),
    ensures
        word_len(s) == s.len(),
    decreases s.len(),
{
    if s.len() > 0 {
        let rest = s.skip(1);
        assert forall|i: int| 0 <= i < rest.len() implies !white(#[trigger] rest[i]) by {
            assert(!white(s[i + 1]));
        }
        assert(!white(s[0]));
        lemma_whole_word(rest);
    }
}

proof fn lemma_word_ends(s: Seq<char>)
    ensures
        word_len(s) <= s.len(),
        word_len(s) < s.len() ==> white(s[word_len(s) as int]),
        forall|i: int| 0 <= i < word_len(s) ==> !white(#[trigger] s[i]),
    decreases s.len(),
{
    if s.len() > 0 && !white(s[0]) {
        let rest = s.skip(1);
        lemma_word_ends(rest);
        assert forall|i: int| 0 <= i < word_len(s) implies !white(#[trigger] s[i]) by {
            if i > 0 {
                assert(!white(rest[i - 1]));
            }
        }
    }
}

/// A word is not empty and holds no white space.
pub proof fn lemma_words_are_words(s: Seq<char>, i: int)
    requires
        0 <= i < words(s).len(),
    ensures
        words(s)[i].len() > 0,
        forall|j: int| 0 <= j < words(s)[i].len() ==> !white(#[trigger] words(s)[i][j]),
    decreases s.len(),
{
    if s.len() > 0 {
        if white(s[0]) {
            lemma_words_are_words(s.skip(1), i);
        } else {
            lemma_word_len(s);
            lemma_word_ends(s);
            let first = s.take(word_len(s) as int);
            let rest = s.skip(word_len(s) as int);
            if i == 0 {
                assert(words(s)[0] == first);
                assert forall|j: int| 0 <= j < first.len() implies !white(#[trigger] first[j]) by {
                    assert(first[j] == s[j]);
                }
            } else {
                lemma_words_are_words(rest, i - 1);
                assert(words(s)[i] == words(rest)[i - 1]);
            }
        }
    }
}

/// White space parts the words before it from those behind it.
pub proof fn lemma_words_part(a: Seq<char>, c: char, b: Seq<char>)
    requires
        white(c),
    ensures
        words(a + seq![c] + b) == words(a) + words(b),
    decreases a.len(),
{
    let s = a + seq![c] + b;
    if a.len() == 0 {
        assert(s.skip(1) =~= b);
        assert(words(a) + words(b) =~= words(b));
    } else if white(a[0]) {
        assert(s[0] == a[0]);
        assert(s.skip(1) =~= a.skip(1) + seq![c] + b);
        lemma_words_part(a.skip(1), c, b);
    } else {
        assert(s[0] == a[0]);
        lemma_word_len(a);
        lemma_word_ends(a);
        let n = word_len(a) as int;
        lemma_word_stops(s, n);
        assert(s.take(n) =~= a.take(n));
        assert(s.skip(n) =~= a.skip(n) + seq![c] + b);
        lemma_words_part(a.skip(n), c, b);
        assert(words(s) =~= words(a) + words(b));
    }
}

proof fn lemma_word_stops(s: Seq<char>, n: int)
    requires
        0 <= n < s.len(),
        white(s[n]),
        forall|i: int| 0 <= i < n ==> !white(#[trigger] s[i]),
    ensures
        word_len(s) == n,
    decreases n,
{
    if n > 0 {
        let rest = s.skip(1);
        assert(!white(s[0]));
        assert forall|i: int| 0 <= i < n - 1 implies !white(#[trigger] rest[i]) by {
            assert(!white(s[i + 1]));
        }
        lemma_word_stops(rest, n - 1);
    }
}

/// Words that are joined by blanks are those words again, with one blank between each two.
pub proof fn lemma_spaced(ws: Seq<Seq<char>>)
    requires
        forall|i: int, j: int|
            0 <= i < ws.len() && 0 <= j < ws[i].len() ==> !white(#[trigger] ws[i][j]),
        forall|i: int| 0 <= i < ws.len() ==> (#[trigger] ws[i]).len() > 0,
    ensures
        words(spaced(ws)) == ws,
        ws.len() == 0 ==> spaced(ws) == Seq::<char>::empty(),
        ws.len() == 1 ==> spaced(ws) == ws[0],
        ws.len() > 1 ==> spaced(ws) == spaced(ws.drop_last()) + seq![' '] + ws.last(),
    decreases ws.len(),
{
    if ws.len() == 0 {
        assert(words(spaced(ws)) =~= ws);
    } else if ws.len() == 1 {
        assert forall|j: int| 0 <= j < ws[0].len() implies !white(#[trigger] ws[0][j]) by {}
        lemma_one_word(ws[0]);
        assert(ws =~= seq![ws[0]]);
    } else {
        let front = ws.drop_last();
        let last = ws.last();
        assert forall|i: int, j: int| 0 <= i < front.len() && 0 <= j < front[i].len() implies !white(
            #[trigger] front[i][j],
        ) by {
            assert(!white(ws[i][j]));
        }
        assert forall|i: int| 0 <= i < front.len() implies (#[trigger] front[i]).len() > 0 by {
            assert(ws[i].len() > 0);
        }
        lemma_spaced(front);
        assert forall|j: int| 0 <= j < last.len() implies !white(#[trigger] last[j]) by {
            assert(!white(ws[ws.len() - 1][j]));
        }
        assert(last == ws[ws.len() - 1]);
        lemma_one_word(last);
        lemma_words_part(spaced(front), ' ', last);
        assert(words(spaced(ws)) =~= front.push(last));
        assert(front.push(last) =~= ws);
    }
}

/// What is trimmed off a text is white space, and what is left neither starts nor ends with
/// any.
pub proof fn lemma_trimmed(s: Seq<char>)
    ensures
        trimmed(s).len() > 0 ==> !white(trimmed(s)[0]) && !white(trimmed(s).last()),
        exists|a: Seq<char>, b: Seq<char>|
            s == #[trigger] (a + trimmed(s) + b) && (forall|i: int|
                0 <= i < a.len() ==> white(#[trigger] a[i])) && (forall|i: int|
                0 <= i < b.len() ==> white(#[trigger] b[i])),
    decreases s.len(),
{
    let none = Seq::<char>::empty();
    let t = trimmed(s);
    if s.len() == 0 || (!white(s[0]) && !white(s.last())) {
        assert(s =~= none + t + none);
    } else if white(s[0]) {
        let rest = s.skip(1);
        lemma_trimmed(rest);
        let (a, b) = choose|a: Seq<char>, b: Seq<char>|
            rest == #[trigger] (a + trimmed(rest) + b) && (forall|i: int|
                0 <= i < a.len() ==> white(#[trigger] a[i])) && (forall|i: int|
                0 <= i < b.len() ==> white(#[trigger] b[i]));
        let c = seq![s[0]] + a;
        assert(s =~= seq![s[0]] + rest);
        assert(rest == a + t + b);
        assert(seq![s[0]] + (a + t + b) =~= c + t + b);
        assert forall|i: int| 0 <= i < c.len() implies white(#[trigger] c[i]) by {
            if i > 0 {
                assert(white(a[i - 1]));
            }
        }
    } else {
        let rest = s.drop_last();
        lemma_trimmed(rest);
        let (a, b) = choose|a: Seq<char>, b: Seq<char>|
            rest == #[trigger] (a + trimmed(rest) + b) && (forall|i: int|
                0 <= i < a.len() ==> white(#[trigger] a[i])) && (forall|i: int|
                0 <= i < b.len() ==> white(#[trigger] b[i]));
        let c = b.push(s.last());
        assert(s =~= rest.push(s.last()));
        assert(rest == a + t + b);
        assert((a + t + b).push(s.last()) =~= a + t + c);
        assert forall|i: int| 0 <= i < c.len() implies white(#[trigger] c[i]) by {
            if i < b.len() {
                assert(white(b[i]));
            }
        }
    }
}

} // verus!
