//! A vector of records with unique string keys, read as a map from key to
//! the record's model.

use vstd::prelude::*;

verus! {

/// The map that a sequence of records denotes: each record's key is bound
/// to its value, later records overriding earlier ones.
pub open spec fn keyed_map<T, V>(
    s: Seq<T>,
    key: spec_fn(T) -> Seq<char>,
    val: spec_fn(T) -> V,
) -> Map<Seq<char>, V>
    decreases s.len(),
{
    if s.len() == 0 {
        Map::empty()
    } else {
        keyed_map(s.drop_last(), key, val).insert(key(s.last()), val(s.last()))
    }
}

/// No two records share a key.
pub open spec fn keys_unique<T>(s: Seq<T>, key: spec_fn(T) -> Seq<char>) -> bool {
    forall|i: int, j: int|
        0 <= i < s.len() && 0 <= j < s.len() && i != j ==> key(#[trigger] s[i]) != key(
            #[trigger] s[j],
        )
}

/// A key is bound exactly when some record carries it.
pub proof fn lemma_keyed_map_domain<T, V>(
    s: Seq<T>,
    key: spec_fn(T) -> Seq<char>,
    val: spec_fn(T) -> V,
    k: Seq<char>,
)
    ensures
        keyed_map(s, key, val).contains_key(k) <==> exists|i: int|
            0 <= i < s.len() && key(#[trigger] s[i]) == k,
    decreases s.len(),
{
    if s.len() > 0 {
        let d = s.drop_last();
        lemma_keyed_map_domain(d, key, val, k);
        if keyed_map(d, key, val).contains_key(k) {
            let i = choose|i: int| 0 <= i < d.len() && key(#[trigger] d[i]) == k;
            assert(s[i] == d[i]);
        }
        if exists|i: int| 0 <= i < s.len() && key(#[trigger] s[i]) == k {
            let i = choose|i: int| 0 <= i < s.len() && key(#[trigger] s[i]) == k;
            if i < s.len() - 1 {
                assert(d[i] == s[i]);
            }
        }
    }
}

/// With unique keys, each record's key is bound to that record's value.
pub proof fn lemma_keyed_map_value<T, V>(
    s: Seq<T>,
    key: spec_fn(T) -> Seq<char>,
    val: spec_fn(T) -> V,
    i: int,
)
    requires
        keys_unique(s, key),
        0 <= i < s.len(),
    ensures
        keyed_map(s, key, val).contains_key(key(s[i])),
        keyed_map(s, key, val)[key(s[i])] == val(s[i]),
    decreases s.len(),
{
    let d = s.drop_last();
    if i < s.len() - 1 {
        assert(d[i] == s[i]);
        assert(keys_unique(d, key)) by {
            assert forall|a: int, b: int|
                0 <= a < d.len() && 0 <= b < d.len() && a != b implies key(
                    #[trigger] d[a],
                ) != key(#[trigger] d[b]) by {
                assert(d[a] == s[a] && d[b] == s[b]);
            }
        }
        lemma_keyed_map_value(d, key, val, i);
        assert(key(s[i]) != key(s[s.len() - 1]));
    }
}

/// Removing the record at `i` removes its key and keeps the keys unique.
pub proof fn lemma_keyed_map_remove<T, V>(
    s: Seq<T>,
    key: spec_fn(T) -> Seq<char>,
    val: spec_fn(T) -> V,
    i: int,
)
    requires
        keys_unique(s, key),
        0 <= i < s.len(),
    ensures
        keyed_map(s.remove(i), key, val) == keyed_map(s, key, val).remove(key(s[i])),
        keys_unique(s.remove(i), key),
    decreases s.len(),
{
    let d = s.drop_last();
    let t = s.remove(i);
    assert(keys_unique(d, key)) by {
        assert forall|a: int, b: int|
            0 <= a < d.len() && 0 <= b < d.len() && a != b implies key(#[trigger] d[a]) != key(
                #[trigger] d[b],
            ) by {
            assert(d[a] == s[a] && d[b] == s[b]);
        }
    }
    assert(keys_unique(t, key)) by {
        assert forall|a: int, b: int|
            0 <= a < t.len() && 0 <= b < t.len() && a != b implies key(#[trigger] t[a]) != key(
                #[trigger] t[b],
            ) by {
            let a2 = if a < i { a } else { a + 1 };
            let b2 = if b < i { b } else { b + 1 };
            assert(t[a] == s[a2] && t[b] == s[b2]);
        }
    }
    if i == s.len() - 1 {
        assert(t =~= d);
        lemma_keyed_map_domain(d, key, val, key(s[i]));
        if keyed_map(d, key, val).contains_key(key(s[i])) {
            let j = choose|j: int| 0 <= j < d.len() && key(#[trigger] d[j]) == key(s[i]);
            assert(d[j] == s[j]);
        }
        assert(keyed_map(s, key, val).remove(key(s[i])) =~= keyed_map(d, key, val));
    } else {
        assert(t.drop_last() =~= d.remove(i));
        assert(t.last() == s.last());
        assert(d[i] == s[i]);
        lemma_keyed_map_remove(d, key, val, i);
        assert(key(s[i]) != key(s[s.len() - 1]));
        assert(keyed_map(t, key, val) =~= keyed_map(s, key, val).remove(key(s[i])));
    }
}

/// Appending a record whose key is new keeps the keys unique.
pub proof fn lemma_keys_unique_push<T, V>(
    s: Seq<T>,
    key: spec_fn(T) -> Seq<char>,
    val: spec_fn(T) -> V,
    v: T,
)
    requires
        keys_unique(s, key),
        !keyed_map(s, key, val).contains_key(key(v)),
    ensures
        keys_unique(s.push(v), key),
        keyed_map(s.push(v), key, val) == keyed_map(s, key, val).insert(key(v), val(v)),
{
    let t = s.push(v);
    assert(t.drop_last() =~= s);
    lemma_keyed_map_domain(s, key, val, key(v));
    assert forall|a: int, b: int|
        0 <= a < t.len() && 0 <= b < t.len() && a != b implies key(#[trigger] t[a]) != key(
            #[trigger] t[b],
        ) by {
        if a < s.len() && b < s.len() {
            assert(t[a] == s[a] && t[b] == s[b]);
        } else if a < s.len() {
            assert(t[a] == s[a]);
        } else {
            assert(t[b] == s[b]);
        }
    }
}

} // verus!
