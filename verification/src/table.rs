//! Tables keyed by strings: a sequence of (key, value) entries in which no key
//! appears twice, standing for a map that remembers the order keys arrived in.

use vstd::prelude::*;

verus! {

/// Position of `key` in the table, searching from the back.
pub open spec fn key_index<V>(t: Seq<(Seq<char>, V)>, key: Seq<char>) -> Option<int>
    decreases t.len(),
{
    if t.len() == 0 {
        None
    } else if t.last().0 == key {
        Some(t.len() - 1)
    } else {
        key_index(t.drop_last(), key)
    }
}

/// The value stored under `key`, if any.
pub open spec fn lookup<V>(t: Seq<(Seq<char>, V)>, key: Seq<char>) -> Option<V> {
    match key_index(t, key) {
        Some(i) => Some(t[i].1),
        None => None,
    }
}

/// No key appears twice.
pub open spec fn keys_distinct<V>(t: Seq<(Seq<char>, V)>) -> bool {
    forall|i: int, j: int| 0 <= i < j < t.len() ==> t[i].0 != t[j].0
}

/// The table after storing `v` under `key`: in place if the key is there, at the end
/// otherwise.
pub open spec fn store<V>(t: Seq<(Seq<char>, V)>, key: Seq<char>, v: V) -> Seq<(Seq<char>, V)> {
    match key_index(t, key) {
        Some(i) => t.update(i, (key, v)),
        None => t.push((key, v)),
    }
}

/// The keys of a table, in order.
pub open spec fn keys<V>(t: Seq<(Seq<char>, V)>) -> Seq<Seq<char>> {
    t.map_values(|e: (Seq<char>, V)| e.0)
}

/// The table with string keys taken by their characters.
pub open spec fn key_view<V>(t: Seq<(String, V)>) -> Seq<(Seq<char>, V)> {
    t.map_values(|e: (String, V)| (e.0@, e.1))
}

/// What `key_index` finds: the one entry with that key, or none at all.
pub proof fn lemma_key_index<V>(t: Seq<(Seq<char>, V)>, key: Seq<char>)
    ensures
        match key_index(t, key) {
            Some(i) => 0 <= i < t.len() && t[i].0 == key && forall|j: int|
                i < j < t.len() ==> t[j].0 != key,
            None => forall|j: int| 0 <= j < t.len() ==> t[j].0 != key,
        },
    decreases t.len(),
{
    if t.len() > 0 {
        if t.last().0 != key {
            lemma_key_index(t.drop_last(), key);
            assert forall|j: int| 0 <= j < t.len() - 1 implies t[j] == t.drop_last()[j] by {}
        }
    }
}

/// In a table without repeated keys, an entry is found at its own position.
pub proof fn lemma_key_index_of_entry<V>(t: Seq<(Seq<char>, V)>, i: int)
    requires
        keys_distinct(t),
        0 <= i < t.len(),
    ensures
        key_index(t, t[i].0) == Some(i),
{
    lemma_key_index(t, t[i].0);
    match key_index(t, t[i].0) {
        Some(k) => {
            assert(k == i);
        },
        None => {},
    }
}

/// Storing keeps the keys distinct.
pub proof fn lemma_store_distinct<V>(t: Seq<(Seq<char>, V)>, key: Seq<char>, v: V)
    requires
        keys_distinct(t),
    ensures
        keys_distinct(store(t, key, v)),
{
    lemma_key_index(t, key);
}

/// Reading after storing: the stored key gives the stored value, every other key
/// what it gave before.
pub proof fn lemma_lookup_store<V>(t: Seq<(Seq<char>, V)>, key: Seq<char>, v: V, other: Seq<char>)
    requires
        keys_distinct(t),
    ensures
        lookup(store(t, key, v), other) == if other == key {
            Some(v)
        } else {
            lookup(t, other)
        },
{
    let t2 = store(t, key, v);
    lemma_key_index(t, key);
    lemma_key_index(t, other);
    lemma_store_distinct(t, key, v);
    lemma_key_index(t2, other);
    match key_index(t, key) {
        Some(i) => {
            if other != key {
                match key_index(t, other) {
                    Some(j) => {
                        assert(t2[j] == t[j]);
                        lemma_key_index_of_entry(t2, j);
                    },
                    None => {
                        assert forall|j: int| 0 <= j < t2.len() implies t2[j].0 != other by {
                            if j != i {
                                assert(t2[j] == t[j]);
                            }
                        }
                    },
                }
            } else {
                lemma_key_index_of_entry(t2, i);
            }
        },
        None => {
            if other != key {
                match key_index(t, other) {
                    Some(j) => {
                        assert(t2[j] == t[j]);
                        lemma_key_index_of_entry(t2, j);
                    },
                    None => {
                        assert forall|j: int| 0 <= j < t2.len() implies t2[j].0 != other by {
                            if j < t.len() {
                                assert(t2[j] == t[j]);
                            }
                        }
                    },
                }
            } else {
                lemma_key_index_of_entry(t2, t.len() as int);
            }
        },
    }
}

/// Where a key is found depends on the keys alone.
pub proof fn lemma_key_index_keys<V, W>(t: Seq<(Seq<char>, V)>, u: Seq<(Seq<char>, W)>, key: Seq<char>)
    requires
        t.len() == u.len(),
        forall|i: int| 0 <= i < t.len() ==> #[trigger] t[i].0 == u[i].0,
    ensures
        key_index(t, key) == key_index(u, key),
    decreases t.len(),
{
    if t.len() > 0 {
        assert(t.last().0 == u.last().0);
        lemma_key_index_keys(t.drop_last(), u.drop_last(), key);
    }
}

/// Finds the position of a key among string-keyed entries, searching from the back.
pub fn find_key<V>(entries: &Vec<(String, V)>, key: &str) -> (r: Option<usize>)
    ensures
        r matches Some(i) ==> key_index(key_view(entries@), key@) == Some(i as int),
        r is None ==> key_index(key_view(entries@), key@) is None,
        r matches Some(i) ==> i < entries@.len() && entries@[i as int].0@ == key@,
{
    let ghost t = key_view(entries@);
    proof {
        lemma_key_index(t, key@);
    }
    let mut k = entries.len();
    assert(t.take(k as int) =~= t);
    while k > 0
        invariant
            k <= entries.len(),
            t == key_view(entries@),
            key_index(t, key@) == key_index(t.take(k as int), key@),
        decreases k,
    {
        assert(t.take(k as int).drop_last() =~= t.take(k - 1));
        assert(t.take(k as int).last() == t[k - 1]);
        if crate::text::str_eq(entries[k - 1].0.as_str(), key) {
            return Some(k - 1);
        }
        k -= 1;
    }
    None
}

} // verus!
