//! Keyed entries: a sequence of `(key, value)` pairs read as a map in which a
//! later entry for a key hides an earlier one. Object members and the
//! variable and step stores of an execution context are kept this way.

use vstd::prelude::*;
use crate::json::{Json, JsonView, members_view, lemma_members_view};
use crate::text::str_eq;

verus! {

/// Position of the last entry whose key is `key`, or -1.
pub open spec fn last_index(s: Seq<(Seq<char>, JsonView)>, key: Seq<char>) -> int
    decreases s.len(),
{
    if s.len() == 0 {
        -1
    } else if s.last().0 == key {
        s.len() - 1
    } else {
        last_index(s.drop_last(), key)
    }
}

/// The value stored under `key`, if any.
pub open spec fn find_key(s: Seq<(Seq<char>, JsonView)>, key: Seq<char>) -> Option<JsonView> {
    let i = last_index(s, key);
    if i < 0 {
        None
    } else {
        Some(s[i].1)
    }
}

/// `s` with `key` bound to `value`: the last entry for `key` is replaced in
/// place, or a new entry is appended when there is none.
pub open spec fn set_entry(s: Seq<(Seq<char>, JsonView)>, key: Seq<char>, value: JsonView) -> Seq<(Seq<char>, JsonView)> {
    let i = last_index(s, key);
    if i < 0 {
        s.push((key, value))
    } else {
        s.update(i, (key, value))
    }
}

/// No key occurs twice.
pub open spec fn unique_keys(s: Seq<(Seq<char>, JsonView)>) -> bool {
    forall|i: int, j: int| 0 <= i < j < s.len() ==> #[trigger] s[i].0 != #[trigger] s[j].0
}

/// What `last_index` finds: an in-range position holding the key with no
/// later one, or no position at all.
pub proof fn lemma_last_index(s: Seq<(Seq<char>, JsonView)>, key: Seq<char>)
    ensures
        -1 <= last_index(s, key) < s.len(),
        last_index(s, key) >= 0 ==> s[last_index(s, key)].0 == key,
        forall|j: int| last_index(s, key) < j < s.len() ==> #[trigger] s[j].0 != key,
    decreases s.len(),
{
    if s.len() > 0 && s.last().0 != key {
        lemma_last_index(s.drop_last(), key);
        assert forall|j: int| last_index(s, key) < j < s.len() implies #[trigger] s[j].0 != key by {
            if j < s.len() - 1 {
                assert(s.drop_last()[j] == s[j]);
            }
        }
    }
}

/// `last_index` is the position characterised by [`lemma_last_index`].
pub proof fn lemma_last_index_unique(s: Seq<(Seq<char>, JsonView)>, key: Seq<char>, i: int)
    requires
        -1 <= i < s.len(),
        i >= 0 ==> s[i].0 == key,
        forall|j: int| i < j < s.len() ==> #[trigger] s[j].0 != key,
    ensures
        last_index(s, key) == i,
    decreases s.len(),
{
    if s.len() > 0 && i != s.len() - 1 {
        assert(s[s.len() - 1].0 != key);
        assert forall|j: int| i < j < s.drop_last().len() implies #[trigger] s.drop_last()[j].0 != key by {
            assert(s.drop_last()[j] == s[j]);
        }
        lemma_last_index_unique(s.drop_last(), key, i);
    }
}

/// A read gives back what a write wrote, and leaves every other key as it
/// was.
pub proof fn lemma_set_then_find(s: Seq<(Seq<char>, JsonView)>, key: Seq<char>, value: JsonView, other: Seq<char>)
    ensures
        find_key(set_entry(s, key, value), key) == Some(value),
        other != key ==> find_key(set_entry(s, key, value), other) == find_key(s, other),
{
    let t = set_entry(s, key, value);
    lemma_last_index(s, key);
    lemma_last_index(s, other);
    let i = last_index(s, key);
    if i < 0 {
        lemma_last_index_unique(t, key, t.len() - 1);
        if other != key {
            let k = last_index(s, other);
            assert forall|j: int| k < j < t.len() implies #[trigger] t[j].0 != other by {
                if j < s.len() {
                    assert(t[j] == s[j]);
                }
            }
            if k >= 0 {
                assert(t[k] == s[k]);
            }
            lemma_last_index_unique(t, other, k);
        }
    } else {
        assert forall|j: int| i < j < t.len() implies #[trigger] t[j].0 != key by {
            assert(t[j] == s[j]);
        }
        lemma_last_index_unique(t, key, i);
        if other != key {
            let k = last_index(s, other);
            assert(k != i);
            assert forall|j: int| k < j < t.len() implies #[trigger] t[j].0 != other by {
                if j != i {
                    assert(t[j] == s[j]);
                }
            }
            if k >= 0 {
                assert(t[k] == s[k]);
            }
            lemma_last_index_unique(t, other, k);
        }
    }
}

/// Binding a key keeps the keys unique.
pub proof fn lemma_set_keeps_unique(s: Seq<(Seq<char>, JsonView)>, key: Seq<char>, value: JsonView)
    requires
        unique_keys(s),
    ensures
        unique_keys(set_entry(s, key, value)),
{
    lemma_last_index(s, key);
    let t = set_entry(s, key, value);
    let i = last_index(s, key);
    assert forall|a: int, b: int| 0 <= a < b < t.len() implies #[trigger] t[a].0 != #[trigger] t[b].0 by {
        if i < 0 {
            if b == s.len() {
                assert(t[a] == s[a]);
                assert(s[a].0 != key);
            } else {
                assert(t[a] == s[a] && t[b] == s[b]);
            }
        } else {
            if a == i {
                assert(t[b] == s[b]);
                assert(s[i].0 != s[b].0);
            } else if b == i {
                assert(t[a] == s[a]);
                assert(s[a].0 != s[i].0);
            } else {
                assert(t[a] == s[a] && t[b] == s[b]);
            }
        }
    }
}

/// Position of the last entry of `entries` keyed `key`.
pub fn find_entry(entries: &Vec<(String, Json)>, key: &str) -> (r: Option<usize>)
    ensures
        members_view(entries@).len() == entries@.len(),
        match r {
            None => last_index(members_view(entries@), key@) == -1,
            Some(i) => i as int == last_index(members_view(entries@), key@) && i < entries@.len(),
        },
{
    proof {
        lemma_members_view(entries@);
    }
    let ghost s = members_view(entries@);
    let mut i: usize = entries.len();
    while i > 0
        invariant
            i <= entries@.len(),
            s == members_view(entries@),
            s.len() == entries@.len(),
            forall|k: int| 0 <= k < entries@.len() ==> #[trigger] s[k] == (entries@[k].0@, entries@[k].1@),
            forall|j: int| i <= j < s.len() ==> #[trigger] s[j].0 != key@,
        decreases i,
    {
        let k = i - 1;
        if str_eq(entries[k].0.as_str(), key) {
            proof {
                assert(s[k as int].0 == key@);
                lemma_last_index_unique(s, key@, k as int);
            }
            return Some(k);
        }
        i = k;
    }
    proof {
        lemma_last_index_unique(s, key@, -1);
    }
    None
}

/// The value stored under `key` in `entries`.
pub fn get_entry<'a>(entries: &'a Vec<(String, Json)>, key: &str) -> (r: Option<&'a Json>)
    ensures
        match r {
            None => find_key(members_view(entries@), key@) is None,
            Some(v) => find_key(members_view(entries@), key@) == Some(v@),
        },
{
    match find_entry(entries, key) {
        None => None,
        Some(i) => {
            proof {
                lemma_members_view(entries@);
            }
            Some(&entries[i].1)
        },
    }
}

/// Binds `key` to `value` in `entries` (see [`set_entry`]).
pub fn put_entry(entries: &mut Vec<(String, Json)>, key: String, value: Json)
    ensures
        members_view(final(entries)@) == set_entry(members_view(old(entries)@), key@, value@),
{
    proof {
        lemma_members_view(old(entries)@);
    }
    let found = find_entry(entries, key.as_str());
    let ghost k = key@;
    let ghost v = value@;
    match found {
        None => {
            entries.push((key, value));
            proof {
                lemma_members_view(entries@);
                assert(members_view(entries@) =~= members_view(old(entries)@).push((k, v)));
            }
        },
        Some(i) => {
            entries.set(i, (key, value));
            proof {
                lemma_members_view(entries@);
                assert(members_view(entries@) =~= members_view(old(entries)@).update(i as int, (k, v)));
            }
        },
    }
}

} // verus!
