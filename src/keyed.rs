//! Association lists keyed by strings: `Vec<(String, Vec<T>)>`, read by the
//! first entry with a given key.

use vstd::prelude::*;

verus! {

/// `i` is the first position of `s` whose key is `k`.
pub open spec fn first_key_at<T>(s: Seq<(String, T)>, k: Seq<char>, i: int) -> bool {
    &&& 0 <= i < s.len()
    &&& s[i].0@ == k
    &&& forall|j: int| 0 <= j < i ==> s[j].0@ != k
}

/// Some entry of `s` has key `k`.
pub open spec fn has_key<T>(s: Seq<(String, T)>, k: Seq<char>) -> bool {
    exists|i: int| first_key_at(s, k, i)
}

/// No entry of `s` has key `k`.
pub open spec fn lacks_key<T>(s: Seq<(String, T)>, k: Seq<char>) -> bool {
    forall|j: int| 0 <= j < s.len() ==> s[j].0@ != k
}

/// No two entries of `s` share a key.
pub open spec fn keys_distinct<T>(s: Seq<(String, T)>) -> bool {
    forall|i: int, j: int| 0 <= i < s.len() && 0 <= j < s.len() && i != j ==> s[i].0@ != s[j].0@
}

/// The list filed under `k` (the first entry with that key), or the empty
/// sequence where there is none.
pub open spec fn entries_for<T>(s: Seq<(String, Vec<T>)>, k: Seq<char>) -> Seq<T> {
    if has_key(s, k) {
        s[choose|i: int| first_key_at(s, k, i)].1@
    } else {
        Seq::empty()
    }
}

pub proof fn lemma_first_key_unique<T>(s: Seq<(String, T)>, k: Seq<char>, i: int, j: int)
    requires
        first_key_at(s, k, i),
        first_key_at(s, k, j),
    ensures
        i == j,
{
}

pub proof fn lemma_entries_at<T>(s: Seq<(String, Vec<T>)>, k: Seq<char>, i: int)
    requires
        first_key_at(s, k, i),
    ensures
        entries_for(s, k) == s[i].1@,
{
    let c = choose|c: int| first_key_at(s, k, c);
    lemma_first_key_unique(s, k, i, c);
}

pub proof fn lemma_entries_absent<T>(s: Seq<(String, Vec<T>)>, k: Seq<char>)
    requires
        lacks_key(s, k),
    ensures
        entries_for(s, k) == Seq::<T>::empty(),
        !has_key(s, k),
{
}

/// Where `t` has the keys of `s` at the positions of `s`, and no `k` past
/// them, `k` is first at the same position in both.
proof fn lemma_same_first_key<T>(s: Seq<(String, Vec<T>)>, t: Seq<(String, Vec<T>)>, k: Seq<char>)
    requires
        s.len() <= t.len(),
        forall|j: int| 0 <= j < s.len() ==> (#[trigger] t[j]).0@ == s[j].0@,
        forall|j: int| s.len() <= j < t.len() ==> (#[trigger] t[j]).0@ != k,
    ensures
        forall|m: int| #[trigger] first_key_at(t, k, m) <==> first_key_at(s, k, m),
{
    assert forall|m: int| #[trigger] first_key_at(t, k, m) <==> first_key_at(s, k, m) by {
        if first_key_at(t, k, m) {
            assert forall|j: int| 0 <= j < m implies s[j].0@ != k by {
                assert(t[j].0@ != k);
            }
        }
        if first_key_at(s, k, m) {
            assert forall|j: int| 0 <= j < m implies t[j].0@ != k by {
                assert(s[j].0@ != k);
            }
        }
    }
}

/// Replacing an entry's list, key kept, changes what that entry's key reads.
pub proof fn lemma_entries_update<T>(
    s: Seq<(String, Vec<T>)>,
    i: int,
    e: (String, Vec<T>),
    k: Seq<char>,
)
    requires
        0 <= i < s.len(),
        e.0@ == s[i].0@,
    ensures
        entries_for(s.update(i, e), k) == if first_key_at(s, k, i) {
            e.1@
        } else {
            entries_for(s, k)
        },
{
    let t = s.update(i, e);
    lemma_same_first_key(s, t, k);
    if has_key(s, k) {
        let c = choose|c: int| first_key_at(s, k, c);
        assert(first_key_at(t, k, c));
        lemma_entries_at(s, k, c);
        lemma_entries_at(t, k, c);
        if first_key_at(s, k, i) {
            lemma_first_key_unique(s, k, i, c);
        }
    } else {
        assert(!has_key(t, k));
    }
}

/// Appending an entry under a fresh key adds that key and nothing else.
pub proof fn lemma_entries_push<T>(s: Seq<(String, Vec<T>)>, e: (String, Vec<T>), k: Seq<char>)
    requires
        lacks_key(s, e.0@),
    ensures
        entries_for(s.push(e), k) == if k == e.0@ {
            e.1@
        } else {
            entries_for(s, k)
        },
{
    let t = s.push(e);
    if k == e.0@ {
        assert(first_key_at(t, k, s.len() as int));
        lemma_entries_at(t, k, s.len() as int);
    } else {
        lemma_same_first_key(s, t, k);
        if has_key(s, k) {
            let c = choose|c: int| first_key_at(s, k, c);
            assert(first_key_at(t, k, c));
            lemma_entries_at(s, k, c);
            lemma_entries_at(t, k, c);
        } else {
            assert(!has_key(t, k));
        }
    }
}

/// The position of the first entry of `s` with key `k`.
pub fn find_key<T>(s: &Vec<(String, T)>, k: &String) -> (r: Option<usize>)
    ensures
        match r {
            Some(i) => first_key_at(s@, k@, i as int),
            None => lacks_key(s@, k@),
        },
{
    let mut i: usize = 0;
    while i < s.len()
        invariant
            i <= s.len(),
            forall|j: int| 0 <= j < i ==> s@[j].0@ != k@,
        decreases s.len() - i,
    {
        if s[i].0 == *k {
            return Some(i);
        }
        i = i + 1;
    }
    None
}

/// Whether no two entries of `s` share a key.
pub fn distinct_keys<T>(s: &Vec<(String, T)>) -> (r: bool)
    ensures
        r == keys_distinct(s@),
{
    let mut i: usize = 0;
    while i < s.len()
        invariant
            i <= s@.len(),
            forall|a: int, b: int| 0 <= a < i && 0 <= b < i && a != b ==> s@[a].0@ != s@[b].0@,
        decreases s.len() - i,
    {
        let mut j: usize = 0;
        while j < i
            invariant
                i < s@.len(),
                j <= i,
                forall|a: int, b: int| 0 <= a < i && 0 <= b < i && a != b ==> s@[a].0@ != s@[b].0@,
                forall|b: int| 0 <= b < j ==> s@[b].0@ != s@[i as int].0@,
            decreases i - j,
        {
            if s[j].0 == s[i].0 {
                return false;
            }
            j = j + 1;
        }
        i = i + 1;
    }
    true
}

} // verus!
