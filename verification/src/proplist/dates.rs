//! Dates in the XML of a property list. The `plist` crate counts a date in universal time;
//! where the count runs past the year 9999 it has no answer. This file finds the date
//! elements for which that may happen, before the bytes are handed over.

use vstd::prelude::*;
use crate::bytes::{same_bytes, sub_vec};

verus! {

/// The first bytes of the binary format.
pub const MAGIC: [u8; 8] = [98, 112, 108, 105, 115, 116, 48, 48];

/// The name of a date element.
pub const DATE: [u8; 4] = [100, 97, 116, 101];

/// The last day that has a number: 9999-12-31.
pub const LAST_DAY: [u8; 10] = [57, 57, 57, 57, 45, 49, 50, 45, 51, 49];

/// Whether some bytes begin with others.
pub open spec fn led_by(s: Seq<u8>, part: Seq<u8>) -> bool {
    part.len() <= s.len() && s.take(part.len() as int) == part
}

/// Whether a byte ends the name of an element: a blank or `>`.
pub open spec fn ends_name(b: u8) -> bool {
    b == 32 || b == 9 || b == 10 || b == 13 || b == 62
}

/// Where the name that starts at an index ends.
pub open spec fn name_end(s: Seq<u8>, i: int) -> int
    decreases s.len() - i,
{
    if i >= s.len() || ends_name(s[i]) {
        i
    } else {
        name_end(s, i + 1)
    }
}

/// Where a tag ends, read on from an index inside it: at the first `>` that stands
/// outside quotes.
pub open spec fn tag_end(s: Seq<u8>, i: int, quote: Option<u8>) -> int
    decreases s.len() - i,
{
    if i >= s.len() {
        i
    } else {
        match quote {
            Some(q) => tag_end(s, i + 1, if s[i] == q { None } else { quote }),
            None => if s[i] == 62 {
                i
            } else {
                tag_end(s, i + 1, if s[i] == 39 || s[i] == 34 { Some(s[i]) } else { None })
            },
        }
    }
}

/// Where the text that starts at an index ends: at the next `<`.
pub open spec fn text_end(s: Seq<u8>, i: int) -> int
    decreases s.len() - i,
{
    if i >= s.len() || s[i] == 60 {
        i
    } else {
        text_end(s, i + 1)
    }
}

/// Whether a name is that of a date element, in a namespace or without one.
pub open spec fn names_date(name: Seq<u8>) -> bool {
    name == DATE@ || (name.len() > 4 && name.skip(name.len() - 4) == DATE@ && name[name.len() - 5]
        == 58)
}

/// Whether the text of a date element is on the last day, with something negative behind
/// the day: an offset that may put the date into the year 10000.
pub open spec fn may_overrun(text: Seq<u8>) -> bool {
    led_by(text, LAST_DAY@) && text.skip(10).contains(45)
}

/// Whether a date element opens at an index whose date may be past the year 9999, as far
/// as its text tells; a text with references, comments or the like in it does not tell.
pub open spec fn overruns_at(s: Seq<u8>, i: int) -> bool {
    let from = name_end(s, i + 1);
    let open = tag_end(s, from, None);
    let end = text_end(s, open + 1);
    let text = s.subrange(open + 1, end);
    &&& s[i] == 60
    &&& names_date(s.subrange(i + 1, from))
    &&& open < s.len()
    &&& text.contains(38) || may_overrun(text) || (end + 1 < s.len() && (s[end + 1] == 33 || s[end
        + 1] == 63))
}

/// Whether no date in some bytes can be past the year 9999. Each `<` counts as the start
/// of an element; the binary format has none.
pub open spec fn dates_fit(s: Seq<u8>) -> bool {
    led_by(s, MAGIC@) || forall|i: int| 0 <= i < s.len() ==> !(#[trigger] overruns_at(s, i))
}

fn starts(s: &[u8], part: &[u8]) -> (yes: bool)
    ensures
        yes == led_by(s@, part@),
{
    if s.len() < part.len() {
        return false;
    }
    let front: Vec<u8> = sub_vec(s, 0, part.len());
    assert(front@ =~= s@.take(part@.len() as int));
    same_bytes(front.as_slice(), part)
}

fn holds(s: &[u8], from: usize, b: u8) -> (yes: bool)
    requires
        from <= s@.len(),
    ensures
        yes == s@.skip(from as int).contains(b),
{
    let ghost rest = s@.skip(from as int);
    let mut i: usize = from;
    while i < s.len()
        invariant
            rest == s@.skip(from as int),
            from <= i <= s@.len(),
            forall|j: int| 0 <= j < i - from ==> rest[j] != b,
        decreases s@.len() - i,
    {
        if s[i] == b {
            assert(rest[i - from] == b);
            return true;
        }
        i += 1;
    }
    false
}

fn find_name_end(s: &[u8], from: usize) -> (end: usize)
    requires
        from <= s@.len(),
    ensures
        end == name_end(s@, from as int),
        from <= end <= s@.len(),
{
    let mut i: usize = from;
    while i < s.len()
        invariant
            from <= i <= s@.len(),
            name_end(s@, from as int) == name_end(s@, i as int),
        decreases s@.len() - i,
    {
        let b: u8 = s[i];
        if b == 32 || b == 9 || b == 10 || b == 13 || b == 62 {
            return i;
        }
        i += 1;
    }
    i
}

fn find_tag_end(s: &[u8], from: usize) -> (end: usize)
    requires
        from <= s@.len(),
    ensures
        end == tag_end(s@, from as int, None),
        from <= end <= s@.len(),
{
    let mut i: usize = from;
    let mut quote: Option<u8> = None;
    while i < s.len()
        invariant
            from <= i <= s@.len(),
            tag_end(s@, from as int, None) == tag_end(s@, i as int, quote),
        decreases s@.len() - i,
    {
        let b: u8 = s[i];
        match quote {
            Some(q) => if b == q {
                quote = None;
            },
            None => if b == 62 {
                return i;
            } else if b == 39 || b == 34 {
                quote = Some(b);
            },
        }
        i += 1;
    }
    i
}

fn find_text_end(s: &[u8], from: usize) -> (end: usize)
    requires
        from <= s@.len(),
    ensures
        end == text_end(s@, from as int),
        from <= end <= s@.len(),
{
    let mut i: usize = from;
    while i < s.len()
        invariant
            from <= i <= s@.len(),
            text_end(s@, from as int) == text_end(s@, i as int),
        decreases s@.len() - i,
    {
        if s[i] == 60 {
            return i;
        }
        i += 1;
    }
    i
}

fn is_date_name(name: &[u8]) -> (yes: bool)
    ensures
        yes == names_date(name@),
{
    let n: usize = name.len();
    if n <= 4 {
        return same_bytes(name, DATE.as_slice());
    }
    let back: Vec<u8> = sub_vec(name, n - 4, n);
    assert(back@ =~= name@.skip(n - 4));
    name[n - 5] == 58 && same_bytes(back.as_slice(), DATE.as_slice())
}

fn overruns(s: &[u8], i: usize) -> (yes: bool)
    requires
        i < s@.len(),
    ensures
        yes == overruns_at(s@, i as int),
{
    if s[i] != 60 {
        return false;
    }
    let from: usize = find_name_end(s, i + 1);
    let name: Vec<u8> = sub_vec(s, i + 1, from);
    if !is_date_name(name.as_slice()) {
        return false;
    }
    let open: usize = find_tag_end(s, from);
    if open >= s.len() {
        return false;
    }
    let end: usize = find_text_end(s, open + 1);
    let text: Vec<u8> = sub_vec(s, open + 1, end);
    assert(text@.skip(0) =~= text@);
    if holds(text.as_slice(), 0, 38) {
        return true;
    }
    if starts(text.as_slice(), LAST_DAY.as_slice()) && holds(text.as_slice(), 10, 45) {
        return true;
    }
    end < s.len() - 1 && (s[end + 1] == 33 || s[end + 1] == 63)
}

/// Tests whether no date in some bytes can be past the year 9999.
pub fn dates_are_fit(s: &[u8]) -> (yes: bool)
    ensures
        yes == dates_fit(s@),
{
    if starts(s, MAGIC.as_slice()) {
        return true;
    }
    let mut i: usize = 0;
    while i < s.len()
        invariant
            i <= s@.len(),
            !led_by(s@, MAGIC@),
            forall|j: int| 0 <= j < i ==> !(#[trigger] overruns_at(s@, j)),
        decreases s@.len() - i,
    {
        if overruns(s, i) {
            return false;
        }
        i += 1;
    }
    true
}

/// Where a name and a text end: at the first byte that ends them, or with the bytes.
pub proof fn lemma_name_and_text_end(s: Seq<u8>, i: int)
    requires
        0 <= i <= s.len(),
    ensures
        i <= name_end(s, i) <= s.len(),
        forall|j: int|
            i <= j < name_end(s, i) ==> #[trigger] s[j] != 32 && s[j] != 9 && s[j] != 10 && s[j] != 13
                && s[j] != 62,
        name_end(s, i) < s.len() ==> {
            let b = s[name_end(s, i)];
            b == 32 || b == 9 || b == 10 || b == 13 || b == 62
        },
        i <= text_end(s, i) <= s.len(),
        forall|j: int| i <= j < text_end(s, i) ==> #[trigger] s[j] != 60,
        text_end(s, i) < s.len() ==> s[text_end(s, i)] == 60,
    decreases s.len() - i,
{
    if i < s.len() {
        lemma_name_and_text_end(s, i + 1);
    }
}

/// Where a tag ends: nothing inside quotes ends it, and outside of them the first `>` does.
pub proof fn lemma_tag_end(s: Seq<u8>, i: int, q: u8)
    requires
        0 <= i < s.len(),
    ensures
        s[i] == 62 ==> tag_end(s, i, None) == i,
        s[i] == 34 || s[i] == 39 ==> tag_end(s, i, None) == tag_end(s, i + 1, Some(s[i])),
        s[i] != 62 && s[i] != 34 && s[i] != 39 ==> tag_end(s, i, None) == tag_end(s, i + 1, None),
        s[i] == q ==> tag_end(s, i, Some(q)) == tag_end(s, i + 1, None),
        s[i] != q ==> tag_end(s, i, Some(q)) == tag_end(s, i + 1, Some(q)),
        tag_end(s, s.len() as int, None) == s.len(),
{
}

/// Date elements are called `date`, alone or behind a namespace and a colon.
pub proof fn lemma_date_names(space: Seq<u8>, name: Seq<u8>)
    ensures
        names_date(seq![100u8, 97, 116, 101]),
        names_date(space + seq![58u8, 100, 97, 116, 101]),
        names_date(name) ==> name == seq![100u8, 97, 116, 101] || (name.len() >= 5 && name.skip(
            name.len() - 5,
        ) == seq![58u8, 100, 97, 116, 101]),
{
    let date = seq![100u8, 97, 116, 101];
    assert(DATE@ =~= date);
    let long = space + seq![58u8, 100, 97, 116, 101];
    assert(long.skip(long.len() - 4) =~= date);
    if names_date(name) && name != date {
        let n = name.len() as int;
        assert(name.skip(n - 5) =~= seq![58u8, 100, 97, 116, 101]) by {
            assert forall|j: int| 0 <= j < 4 implies name[n - 4 + j] == date[j] by {
                assert(name.skip(n - 4)[j] == name[n - 4 + j]);
            }
        }
    }
}

/// A date may be past the year 9999 only where it is on its last day and something negative
/// follows.
pub proof fn lemma_overruns(text: Seq<u8>, i: int)
    ensures
        may_overrun(text) ==> text.len() > 10 && text.take(10) == seq![
            57u8,
            57,
            57,
            57,
            45,
            49,
            50,
            45,
            51,
            49,
        ],
        text.len() > 10 && text.take(10) == seq![57u8, 57, 57, 57, 45, 49, 50, 45, 51, 49] && 10 <= i
            < text.len() && text[i] == 45 ==> may_overrun(text),
{
    let day = seq![57u8, 57, 57, 57, 45, 49, 50, 45, 51, 49];
    assert(LAST_DAY@ =~= day);
    if 10 <= i < text.len() && text[i] == 45 {
        assert(text.skip(10)[i - 10] == 45);
    }
}

/// Bytes of the binary format, and bytes without any element, hold no such date.
pub proof fn lemma_dates_fit(s: Seq<u8>)
    ensures
        s.len() >= 8 && s.take(8) == seq![98u8, 112, 108, 105, 115, 116, 48, 48] ==> dates_fit(s),
        (forall|i: int| 0 <= i < s.len() ==> #[trigger] s[i] != 60) ==> dates_fit(s),
        !dates_fit(s) ==> exists|i: int| 0 <= i < s.len() && #[trigger] overruns_at(s, i),
{
    assert(MAGIC@ =~= seq![98u8, 112, 108, 105, 115, 116, 48, 48]);
    if forall|i: int| 0 <= i < s.len() ==> #[trigger] s[i] != 60 {
        assert forall|i: int| 0 <= i < s.len() implies !(#[trigger] overruns_at(s, i)) by {
            assert(s[i] != 60);
        }
    }
}

/// Bytes begin with others exactly where these are no longer and agree with them place by
/// place; so they begin with themselves and with whatever they were appended to.
pub proof fn lemma_led_by(s: Seq<u8>, part: Seq<u8>, rest: Seq<u8>)
    ensures
        led_by(s, s),
        led_by(part + rest, part),
        led_by(s, part) <==> part.len() <= s.len() && forall|i: int| 0 <= i < part.len()
            ==> s[i] == #[trigger] part[i],
{
    assert(s.take(s.len() as int) =~= s);
    assert((part + rest).take(part.len() as int) =~= part);
    if part.len() <= s.len() && (forall|i: int| 0 <= i < part.len()
        ==> s[i] == #[trigger] part[i]) {
        assert(s.take(part.len() as int) =~= part);
    }
    if led_by(s, part) {
        assert forall|i: int| 0 <= i < part.len() implies s[i] == #[trigger] part[i] by {
            assert(s.take(part.len() as int)[i] == part[i]);
        }
    }
}

} // verus!
