//! Ordered entries under string keys, as the models of dictionaries.

use vstd::prelude::*;

verus! {

/// What can be asked of, and done to, a sequence of entries.
pub trait Entries<V>: Sized {
    /// Whether some entry is under `key`.
    spec fn has_key(self, key: Seq<char>) -> bool;

    /// The value under `key`.
    spec fn lookup(self, key: Seq<char>) -> Option<V>;

    /// The entries after `value` has been put under `key`: in the place of what
    /// was there, or else at the end.
    spec fn with(self, key: Seq<char>, value: V) -> Self;

    /// Whether no key occurs twice.
    spec fn distinct(self) -> bool;
}

/// The value of the last entry under `key`.
pub open spec fn last_under<V>(s: Seq<(Seq<char>, V)>, key: Seq<char>) -> Option<V>
    decreases s.len(),
{
    if s.len() == 0 {
        None
    } else if s.last().0 == key {
        Some(s.last().1)
    } else {
        last_under(s.drop_last(), key)
    }
}

impl<V> Entries<V> for Seq<(Seq<char>, V)> {
    open spec fn has_key(self, key: Seq<char>) -> bool {
        exists|i: int| 0 <= i < self.len() && (#[trigger] self[i]).0 == key
    }

    open spec fn lookup(self, key: Seq<char>) -> Option<V> {
        last_under(self, key)
    }

    open spec fn with(self, key: Seq<char>, value: V) -> Self {
        if self.has_key(key) {
            Seq::new(
                self.len(),
                |i: int|
                    if self[i].0 == key {
                        (key, value)
                    } else {
                        self[i]
                    },
            )
        } else {
            self.push((key, value))
        }
    }

    open spec fn distinct(self) -> bool {
        forall|i: int, j: int| 0 <= i < j < self.len() ==> self[i].0 != self[j].0
    }
}

/// A key is found exactly when some entry is under it.
pub proof fn lemma_lookup_has_key<V>(s: Seq<(Seq<char>, V)>, key: Seq<char>)
    ensures
        s.lookup(key) is Some <==> s.has_key(key),
    decreases s.len(),
{
    if s.len() > 0 {
        let front = s.drop_last();
        lemma_lookup_has_key(front, key);
        if front.has_key(key) {
            let i = choose|i: int| 0 <= i < front.len() && (#[trigger] front[i]).0 == key;
            assert(s[i].0 == key);
        }
        if s.has_key(key) && s.last().0 != key {
            let i = choose|i: int| 0 <= i < s.len() && (#[trigger] s[i]).0 == key;
            assert(front[i].0 == key);
        }
        if s.last().0 == key {
            assert(s[s.len() - 1].0 == key);
        }
    }
}

/// With distinct keys, an entry's value is what its key looks up.
pub proof fn lemma_lookup_at<V>(s: Seq<(Seq<char>, V)>, i: int)
    requires
        s.distinct(),
        0 <= i < s.len(),
    ensures
        s.lookup(s[i].0) == Some(s[i].1),
    decreases s.len(),
{
    if i < s.len() - 1 {
        let front = s.drop_last();
        assert(s[i].0 != s[s.len() - 1].0);
        assert(front.distinct()) by {
            assert forall|a: int, b: int| 0 <= a < b < front.len() implies front[a].0
                != front[b].0 by {
                assert(s[a].0 != s[b].0);
            }
        }
        lemma_lookup_at(front, i);
        assert(front[i] == s[i]);
    }
}

/// Putting a value under a key keeps keys distinct.
pub proof fn lemma_with_distinct<V>(s: Seq<(Seq<char>, V)>, key: Seq<char>, value: V)
    requires
        s.distinct(),
    ensures
        s.with(key, value).distinct(),
{
    let w = s.with(key, value);
    assert forall|i: int, j: int| 0 <= i < j < w.len() implies w[i].0 != w[j].0 by {
        if s.has_key(key) {
            assert(w[i].0 == s[i].0 && w[j].0 == s[j].0);
        } else if j == s.len() {
            assert(s[i].0 != key);
        }
    }
}

/// A value put under a key is what that key then looks up, and every other key
/// looks up what it did.
pub proof fn lemma_with_lookup<V>(
    s: Seq<(Seq<char>, V)>,
    key: Seq<char>,
    value: V,
    other: Seq<char>,
)
    ensures
        s.with(key, value).lookup(key) == Some(value),
        other != key ==> s.with(key, value).lookup(other) == s.lookup(other),
    decreases s.len(), 1nat,
{
    if s.has_key(key) {
        let front = s.drop_last();
        let w = s.with(key, value);
        if s.last().0 == key {
            lemma_replace_lookup(s, key, value, other);
        } else {
            let i = choose|i: int| 0 <= i < s.len() && (#[trigger] s[i]).0 == key;
            assert(front[i].0 == key);
            lemma_with_lookup(front, key, value, other);
            assert(w.drop_last() =~= front.with(key, value));
        }
    } else {
        let w = s.with(key, value);
        assert(w.drop_last() =~= s);
    }
}

proof fn lemma_replace_lookup<V>(
    s: Seq<(Seq<char>, V)>,
    key: Seq<char>,
    value: V,
    other: Seq<char>,
)
    requires
        s.len() > 0,
        s.last().0 == key,
    ensures
        s.with(key, value).lookup(key) == Some(value),
        other != key ==> s.with(key, value).lookup(other) == s.lookup(other),
    decreases s.len(), 0nat,
{
    let front = s.drop_last();
    let w = s.with(key, value);
    assert(s[s.len() - 1].0 == key);
    assert(w.last() == (key, value));
    if other != key {
        if front.has_key(key) {
            lemma_with_lookup(front, key, value, other);
            assert(w.drop_last() =~= front.with(key, value));
        } else {
            assert(w.drop_last() =~= front) by {
                assert forall|i: int| 0 <= i < front.len() implies w[i] == front[i] by {
                    assert(front[i].0 != key);
                }
            }
        }
    }
}

/// What is found after a value has been put.
pub broadcast proof fn lemma_lookup_with<V>(
    s: Seq<(Seq<char>, V)>,
    key: Seq<char>,
    value: V,
    other: Seq<char>,
)
    ensures
        #[trigger] s.with(key, value).lookup(other) == if other == key {
            Some(value)
        } else {
            s.lookup(other)
        },
{
    lemma_with_lookup(s, key, value, other);
}

} // verus!
