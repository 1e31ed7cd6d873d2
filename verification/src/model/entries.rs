//! Ordered, keyed entries: what an insertion-ordered map holds, as a
//! sequence of pairs of key and value.

use vstd::prelude::*;

verus! {

/// The index of the first entry of `s` whose key is `key`.
pub open spec fn entry_index<T>(s: Seq<(Seq<char>, T)>, key: Seq<char>) -> Option<int>
    decreases s.len(),
{
    if s.len() == 0 {
        None
    } else {
        match entry_index(s.drop_last(), key) {
            Some(i) => Some(i),
            None => if s.last().0 == key {
                Some(s.len() - 1)
            } else {
                None
            },
        }
    }
}

/// `entry_index` finds the first entry of that key, or none where there is
/// none.
pub proof fn lemma_entry_index<T>(s: Seq<(Seq<char>, T)>, key: Seq<char>)
    ensures
        match entry_index(s, key) {
            Some(i) => 0 <= i < s.len() && s[i].0 == key && forall|j: int|
                0 <= j < i ==> (#[trigger] s[j]).0 != key,
            None => forall|j: int| 0 <= j < s.len() ==> (#[trigger] s[j]).0 != key,
        },
    decreases s.len(),
{
    if s.len() > 0 {
        lemma_entry_index(s.drop_last(), key);
        assert forall|j: int| 0 <= j < s.len() - 1 implies s[j] == s.drop_last()[j] by {}
    }
}

/// The entries after an insertion under `key`: where the key is there, its
/// entry keeps its place and gets the new value; where it is not, a new
/// entry comes last.
pub open spec fn insert_entry<T>(s: Seq<(Seq<char>, T)>, key: Seq<char>, value: T) -> Seq<
    (Seq<char>, T),
> {
    match entry_index(s, key) {
        Some(i) => s.update(i, (s[i].0, value)),
        None => s.push((key, value)),
    }
}

/// The entries after the removal of `key`: its entry is gone, and those
/// after it have moved up.
pub open spec fn remove_entry<T>(s: Seq<(Seq<char>, T)>, key: Seq<char>) -> Seq<(Seq<char>, T)> {
    match entry_index(s, key) {
        Some(i) => s.remove(i),
        None => s,
    }
}

/// The value that `s` holds under `key`.
pub open spec fn entry_value<T>(s: Seq<(Seq<char>, T)>, key: Seq<char>) -> Option<T> {
    match entry_index(s, key) {
        Some(i) => Some(s[i].1),
        None => None,
    }
}

/// Of the entries of `s`, only the one at position `at` may have the key
/// `key`.
pub open spec fn only_at<T>(s: Seq<(Seq<char>, T)>, key: Seq<char>, at: int) -> bool {
    forall|j: int| 0 <= j < s.len() && j != at ==> (#[trigger] s[j]).0 != key
}

/// No two entries of `s` have the same key.
pub open spec fn distinct_keys<T>(s: Seq<(Seq<char>, T)>) -> bool {
    forall|i: int, j: int| 0 <= i < j < s.len() ==> (#[trigger] s[i]).0 != (#[trigger] s[j]).0
}

/// What is inserted under a key is what is found under it.
pub proof fn lemma_insert_then_find<T>(s: Seq<(Seq<char>, T)>, key: Seq<char>, value: T)
    ensures
        entry_value(insert_entry(s, key, value), key) == Some(value),
        insert_entry(s, key, value).len() == if entry_index(s, key) is Some {
            s.len()
        } else {
            s.len() + 1
        },
{
    lemma_entry_index(s, key);
    let t = insert_entry(s, key, value);
    lemma_entry_index(t, key);
    match entry_index(s, key) {
        Some(i) => {
            assert(t[i].0 == key);
            assert forall|j: int| 0 <= j < i implies t[j].0 != key by {
                assert(t[j] == s[j]);
            }
            if entry_index(t, key) != Some(i) {
                let k = entry_index(t, key).unwrap();
                assert(t[k].0 == key);
                if k > i {
                    assert(false);
                } else {
                    assert(t[k] == s[k]);
                }
            }
        },
        None => {
            assert(t[s.len() as int].0 == key);
            let k = entry_index(t, key).unwrap();
            if k < s.len() {
                assert(t[k] == s[k]);
            }
        },
    }
}

/// An insertion under one key leaves what is found under another.
pub proof fn lemma_insert_keeps_others<T>(
    s: Seq<(Seq<char>, T)>,
    key: Seq<char>,
    value: T,
    other: Seq<char>,
)
    requires
        other != key,
    ensures
        entry_value(insert_entry(s, key, value), other) == entry_value(s, other),
{
    lemma_entry_index(s, key);
    lemma_entry_index(s, other);
    let t = insert_entry(s, key, value);
    lemma_entry_index(t, other);
    assert forall|j: int| 0 <= j < s.len() implies (#[trigger] t[j]).0 == s[j].0 by {}
    match entry_index(s, other) {
        Some(i) => {
            assert(t[i].0 == other);
            let k = entry_index(t, other).unwrap();
            if k < i {
                assert(t[k].0 == s[k].0);
            }
            if k > i {
                assert(false);
            }
            assert(t[i] == s[i]);
        },
        None => {
            if entry_index(t, other) is Some {
                let k = entry_index(t, other).unwrap();
                if k < s.len() {
                    assert(t[k].0 == s[k].0);
                }
            }
        },
    }
}

/// An insertion leaves the keys all different.
pub proof fn lemma_insert_keeps_distinct<T>(s: Seq<(Seq<char>, T)>, key: Seq<char>, value: T)
    requires
        distinct_keys(s),
    ensures
        distinct_keys(insert_entry(s, key, value)),
{
    lemma_entry_index(s, key);
    let t = insert_entry(s, key, value);
    assert forall|i: int, j: int| 0 <= i < j < t.len() implies (#[trigger] t[i]).0 != (
    #[trigger] t[j]).0 by {
        match entry_index(s, key) {
            Some(k) => {
                assert(t[i].0 == s[i].0);
                assert(t[j].0 == s[j].0);
            },
            None => {
                assert(t[i] == s[i]);
                if j < s.len() {
                    assert(t[j] == s[j]);
                }
            },
        }
    }
}

/// A removal leaves the keys all different.
pub proof fn lemma_remove_keeps_distinct<T>(s: Seq<(Seq<char>, T)>, key: Seq<char>)
    requires
        distinct_keys(s),
    ensures
        distinct_keys(remove_entry(s, key)),
{
    lemma_entry_index(s, key);
    let t = remove_entry(s, key);
    assert forall|i: int, j: int| 0 <= i < j < t.len() implies (#[trigger] t[i]).0 != (
    #[trigger] t[j]).0 by {
        match entry_index(s, key) {
            Some(k) => {
                let a = if i < k {
                    i
                } else {
                    i + 1
                };
                let b = if j < k {
                    j
                } else {
                    j + 1
                };
                assert(t[i] == s[a]);
                assert(t[j] == s[b]);
            },
            None => {},
        }
    }
}

/// Where the keys are all different, nothing is found under a key that has
/// been removed.
pub proof fn lemma_remove_then_find<T>(s: Seq<(Seq<char>, T)>, key: Seq<char>)
    requires
        distinct_keys(s),
    ensures
        entry_value(remove_entry(s, key), key) is None,
{
    lemma_entry_index(s, key);
    let t = remove_entry(s, key);
    lemma_entry_index(t, key);
    if entry_index(t, key) is Some {
        let k = entry_index(t, key).unwrap();
        match entry_index(s, key) {
            Some(i) => {
                if k < i {
                    assert(t[k] == s[k]);
                } else {
                    assert(t[k] == s[k + 1]);
                    assert(s[i].0 != s[k + 1].0);
                }
            },
            None => {},
        }
    }
}

} // verus!
