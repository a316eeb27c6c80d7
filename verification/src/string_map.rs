//! Verified operations for a mapping from text keys to values.
//!
//! The mapping is held as a vector of key/value pairs whose key texts are
//! pairwise distinct, and is abstracted by a `Map<Seq<char>, V>` view.  The
//! containers of this crate keep one such vector per value kind and call the
//! operations here on it.

use vstd::prelude::*;

verus! {

/// Does some entry of `s` carry a key whose characters are `k`?
pub(crate) open spec fn has_str_key<V>(s: Seq<(String, V)>, k: Seq<char>) -> bool {
    exists|i: int| 0 <= i < s.len() && (#[trigger] s[i]).0@ == k
}

/// The index of the entry carrying key text `k`; meaningful when such an
/// entry exists, and unique when the key texts are pairwise distinct.
pub(crate) open spec fn str_key_index<V>(s: Seq<(String, V)>, k: Seq<char>) -> int {
    choose|i: int| 0 <= i < s.len() && (#[trigger] s[i]).0@ == k
}

/// No two entries of `s` carry the same key text.
pub(crate) open spec fn keys_distinct<V>(s: Seq<(String, V)>) -> bool {
    forall|i: int, j: int|
        #![trigger s[i], s[j]]
        0 <= i < j < s.len() ==> s[i].0@ != s[j].0@
}

/// The mapping described by an entry sequence with distinct key texts.
pub(crate) open spec fn assoc_map<V>(s: Seq<(String, V)>) -> Map<Seq<char>, V> {
    Map::new(
        |k: Seq<char>| has_str_key(s, k),
        |k: Seq<char>| s[str_key_index(s, k)].1,
    )
}

proof fn lemma_index_unique<V>(s: Seq<(String, V)>, i: int)
    requires
        keys_distinct(s),
        0 <= i < s.len(),
    ensures
        has_str_key(s, s[i].0@),
        str_key_index(s, s[i].0@) == i,
{
    let k = s[i].0@;
    assert(has_str_key(s, k));
    let j = str_key_index(s, k);
    assert(0 <= j < s.len() && s[j].0@ == k);
    assert(j == i);
}

proof fn lemma_push_view<V>(s: Seq<(String, V)>, p: (String, V))
    requires
        keys_distinct(s),
        forall|i: int| 0 <= i < s.len() ==> (#[trigger] s[i]).0@ != p.0@,
    ensures
        keys_distinct(s.push(p)),
        assoc_map(s.push(p)) == assoc_map(s).insert(p.0@, p.1),
{
    let s2 = s.push(p);
    assert forall|i: int, j: int|
        #![trigger s2[i], s2[j]]
        0 <= i < j < s2.len() implies s2[i].0@ != s2[j].0@ by {
        assert(s2[i] == s[i]);
        if j < s.len() {
            assert(s2[j] == s[j]);
        } else {
            assert(s2[j] == p);
        }
    }
    assert forall|k: Seq<char>|
        #[trigger] assoc_map(s2).contains_key(k)
            <==> assoc_map(s).insert(p.0@, p.1).contains_key(k) by {
        if has_str_key(s2, k) {
            let i = str_key_index(s2, k);
            assert(0 <= i < s2.len() && s2[i].0@ == k);
            if i < s.len() {
                assert(s2[i] == s[i]);
                assert(has_str_key(s, k));
            } else {
                assert(s2[i] == p);
            }
        }
        if has_str_key(s, k) {
            let i = str_key_index(s, k);
            assert(0 <= i < s.len() && s[i].0@ == k);
            assert(s2[i] == s[i]);
            assert(has_str_key(s2, k));
        }
        if k == p.0@ {
            assert(s2[s.len() as int] == p);
            assert(has_str_key(s2, k));
        }
    }
    assert forall|k: Seq<char>| assoc_map(s2).contains_key(k) implies #[trigger] assoc_map(
        s2,
    )[k] == assoc_map(s).insert(p.0@, p.1)[k] by {
        if k == p.0@ {
            assert(s2[s.len() as int] == p);
            lemma_index_unique(s2, s.len() as int);
            assert(assoc_map(s2)[k] == p.1);
        } else {
            assert(has_str_key(s2, k));
            let i = str_key_index(s, k);
            assert(0 <= i < s.len() && s[i].0@ == k);
            assert(s2[i] == s[i]);
            lemma_index_unique(s2, i);
            lemma_index_unique(s, i);
            assert(assoc_map(s2)[k] == s[i].1);
            assert(assoc_map(s)[k] == s[i].1);
        }
    }
    assert(assoc_map(s.push(p)) =~= assoc_map(s).insert(p.0@, p.1));
}

proof fn lemma_remove_view<V>(s: Seq<(String, V)>, at: int)
    requires
        keys_distinct(s),
        0 <= at < s.len(),
    ensures
        keys_distinct(s.remove(at)),
        forall|i: int|
            0 <= i < s.remove(at).len() ==> (#[trigger] s.remove(at)[i]).0@ != s[at].0@,
        assoc_map(s.remove(at)) == assoc_map(s).remove(s[at].0@),
{
    s.remove_ensures(at);
    let s2 = s.remove(at);
    assert forall|i: int, j: int|
        #![trigger s2[i], s2[j]]
        0 <= i < j < s2.len() implies s2[i].0@ != s2[j].0@ by {
        let i0: int = if i < at {
            i
        } else {
            i + 1
        };
        let j0: int = if j < at {
            j
        } else {
            j + 1
        };
        assert(s2[i] == s[i0]);
        assert(s2[j] == s[j0]);
    }
    assert forall|i: int| 0 <= i < s2.len() implies (#[trigger] s2[i]).0@ != s[at].0@ by {
        let i0: int = if i < at {
            i
        } else {
            i + 1
        };
        assert(s2[i] == s[i0]);
        assert(i0 != at);
        if i0 < at {
            assert(s[i0].0@ != s[at].0@);
        } else {
            assert(s[at].0@ != s[i0].0@);
        }
    }
    assert forall|k: Seq<char>|
        #[trigger] assoc_map(s2).contains_key(k)
            <==> assoc_map(s).remove(s[at].0@).contains_key(k) by {
        if has_str_key(s2, k) {
            let i = str_key_index(s2, k);
            assert(0 <= i < s2.len() && s2[i].0@ == k);
            let i0: int = if i < at {
                i
            } else {
                i + 1
            };
            assert(s2[i] == s[i0]);
            assert(has_str_key(s, k));
            assert(k != s[at].0@);
        }
        if has_str_key(s, k) && k != s[at].0@ {
            let i0 = str_key_index(s, k);
            assert(0 <= i0 < s.len() && s[i0].0@ == k);
            assert(i0 != at);
            let i: int = if i0 < at {
                i0
            } else {
                i0 - 1
            };
            assert(s2[i] == s[i0]);
            assert(has_str_key(s2, k));
        }
    }
    assert forall|k: Seq<char>| assoc_map(s2).contains_key(k) implies #[trigger] assoc_map(
        s2,
    )[k] == assoc_map(s).remove(s[at].0@)[k] by {
        assert(has_str_key(s2, k));
        let i = str_key_index(s2, k);
        assert(0 <= i < s2.len() && s2[i].0@ == k);
        let i0: int = if i < at {
            i
        } else {
            i + 1
        };
        assert(s2[i] == s[i0]);
        lemma_index_unique(s2, i);
        lemma_index_unique(s, i0);
        assert(assoc_map(s2)[k] == s2[i].1);
        assert(assoc_map(s)[k] == s[i0].1);
    }
    assert(assoc_map(s.remove(at)) =~= assoc_map(s).remove(s[at].0@));
}

/// Inserts `value` under `key`, overwriting any value the key held before.
pub(crate) fn map_insert<V>(pairs: &mut Vec<(String, V)>, key: String, value: V)
    requires
        keys_distinct(old(pairs)@),
    ensures
        keys_distinct(final(pairs)@),
        assoc_map(final(pairs)@) == assoc_map(old(pairs)@).insert(key@, value),
{
    let n = pairs.len();
    let mut i: usize = 0;
    let mut found: bool = false;
    let mut at: usize = 0;
    while i < n
        invariant
            *pairs == *old(pairs),
            n == pairs@.len(),
            i <= n,
            !found ==> forall|t: int| 0 <= t < i ==> (#[trigger] pairs@[t]).0@ != key@,
            found ==> at < n && pairs@[at as int].0@ == key@,
        decreases n - i,
    {
        if pairs[i].0 == key {
            found = true;
            at = i;
        }
        i += 1;
    }
    if found {
        let _ = pairs.remove(at);
        proof {
            lemma_remove_view(old(pairs)@, at as int);
        }
    }
    proof {
        assert(keys_distinct(pairs@));
        assert(forall|t: int| 0 <= t < pairs@.len() ==> (#[trigger] pairs@[t]).0@ != key@);
    }
    let ghost mid = pairs@;
    pairs.push((key, value));
    proof {
        assert(pairs@ == mid.push((key, value)));
        lemma_push_view(mid, (key, value));
        if found {
            assert(assoc_map(pairs@) =~= assoc_map(old(pairs)@).insert(key@, value));
        }
    }
}

/// Removes the entry under `key`, returning its value, or `None` when the
/// key is absent; an absent key leaves the mapping untouched.
pub(crate) fn map_remove<V>(pairs: &mut Vec<(String, V)>, key: &String) -> (r: Option<V>)
    requires
        keys_distinct(old(pairs)@),
    ensures
        keys_distinct(final(pairs)@),
        assoc_map(final(pairs)@) == assoc_map(old(pairs)@).remove(key@),
        r == (if assoc_map(old(pairs)@).contains_key(key@) {
            Some(assoc_map(old(pairs)@)[key@])
        } else {
            None::<V>
        }),
        r is None ==> *final(pairs) == *old(pairs),
{
    let n = pairs.len();
    let mut i: usize = 0;
    while i < n
        invariant
            *pairs == *old(pairs),
            keys_distinct(pairs@),
            n == pairs@.len(),
            i <= n,
            forall|t: int| 0 <= t < i ==> (#[trigger] pairs@[t]).0@ != key@,
        decreases n - i,
    {
        if pairs[i].0 == *key {
            proof {
                lemma_index_unique(pairs@, i as int);
                lemma_remove_view(pairs@, i as int);
            }
            let pair = pairs.remove(i);
            return Some(pair.1);
        }
        i += 1;
    }
    proof {
        assert(!has_str_key(pairs@, key@));
        assert(assoc_map(pairs@).remove(key@) =~= assoc_map(pairs@));
    }
    None
}

/// Looks up `key`, returning a reference to its value, or `None` when the
/// key is absent.
pub(crate) fn map_get<'a, V>(pairs: &'a Vec<(String, V)>, key: &String) -> (r: Option<&'a V>)
    requires
        keys_distinct(pairs@),
    ensures
        (match r {
            Some(v) => assoc_map(pairs@).contains_key(key@) && *v == assoc_map(pairs@)[key@],
            None => !assoc_map(pairs@).contains_key(key@),
        }),
{
    let n = pairs.len();
    let mut i: usize = 0;
    while i < n
        invariant
            keys_distinct(pairs@),
            n == pairs@.len(),
            i <= n,
            forall|t: int| 0 <= t < i ==> (#[trigger] pairs@[t]).0@ != key@,
        decreases n - i,
    {
        if pairs[i].0 == *key {
            proof {
                lemma_index_unique(pairs@, i as int);
            }
            return Some(&pairs[i].1);
        }
        i += 1;
    }
    proof {
        assert(!has_str_key(pairs@, key@));
    }
    None
}

} // verus!
