//! Lookup tables keyed by interned names: vectors of (name, value) pairs in
//! which a name occurs at most once, and stacks of such tables for scopes.

use vstd::prelude::*;
use super::StrDescriptor;

verus! {

/// Whether no name occurs twice among the entries.
pub open spec fn keys_unique<V>(entries: Seq<(StrDescriptor, V)>) -> bool {
    forall|i: int, j: int| 0 <= i < j < entries.len() ==> entries[i].0 != entries[j].0
}

/// Whether the name occurs among the entries.
pub open spec fn has_key<V>(entries: Seq<(StrDescriptor, V)>, key: StrDescriptor) -> bool {
    exists|i: int| 0 <= i < entries.len() && entries[i].0 == key
}


/// The table as a map from names to values.
pub open spec fn as_map<V>(entries: Seq<(StrDescriptor, V)>) -> Map<StrDescriptor, V> {
    Map::new(
        |k: StrDescriptor| has_key(entries, k),
        |k: StrDescriptor| entries[choose|i: int| 0 <= i < entries.len() && entries[i].0 == k].1,
    )
}

pub proof fn lemma_as_map_index<V>(entries: Seq<(StrDescriptor, V)>, i: int)
    requires keys_unique(entries), 0 <= i < entries.len(),
    ensures
        as_map(entries).contains_key(entries[i].0),
        as_map(entries)[entries[i].0] == entries[i].1,
{
    let k = entries[i].0;
    assert(has_key(entries, k));
    let j = choose|j: int| 0 <= j < entries.len() && entries[j].0 == k;
    if j != i {
        if j < i { assert(entries[j].0 != entries[i].0); } else { assert(entries[i].0 != entries[j].0); }
    }
}

pub proof fn lemma_as_map_push<V>(entries: Seq<(StrDescriptor, V)>, k: StrDescriptor, v: V)
    requires keys_unique(entries), !has_key(entries, k),
    ensures
        keys_unique(entries.push((k, v))),
        as_map(entries.push((k, v))) == as_map(entries).insert(k, v),
{
    let e2 = entries.push((k, v));
    assert(keys_unique(e2)) by {
        assert forall|i: int, j: int| 0 <= i < j < e2.len() implies e2[i].0 != e2[j].0 by {
            if j == entries.len() {
                assert(entries[i].0 != k);
            } else {
                assert(e2[i] == entries[i] && e2[j] == entries[j]);
            }
        }
    }
    assert forall|x: StrDescriptor| #[trigger] as_map(e2).contains_key(x) <==> as_map(entries).insert(k, v).contains_key(x) by {
        if has_key(e2, x) && x != k {
            let i = choose|i: int| 0 <= i < e2.len() && e2[i].0 == x;
            assert(entries[i].0 == x);
        }
        if has_key(entries, x) {
            let i = choose|i: int| 0 <= i < entries.len() && entries[i].0 == x;
            assert(e2[i].0 == x);
        }
        if x == k {
            assert(e2[entries.len() as int].0 == x);
        }
    }
    assert forall|x: StrDescriptor| #[trigger] as_map(e2).contains_key(x) implies as_map(e2)[x] == as_map(entries).insert(k, v)[x] by {
        if x == k {
            lemma_as_map_index(e2, entries.len() as int);
        } else {
            let i = choose|i: int| 0 <= i < e2.len() && e2[i].0 == x;
            assert(i < entries.len());
            lemma_as_map_index(e2, i);
            lemma_as_map_index(entries, i);
        }
    }
    assert(as_map(e2) =~= as_map(entries).insert(k, v));
}

pub proof fn lemma_as_map_update<V>(entries: Seq<(StrDescriptor, V)>, i: int, v: V)
    requires keys_unique(entries), 0 <= i < entries.len(),
    ensures
        keys_unique(entries.update(i, (entries[i].0, v))),
        as_map(entries.update(i, (entries[i].0, v))) == as_map(entries).insert(entries[i].0, v),
{
    let k = entries[i].0;
    let e2 = entries.update(i, (k, v));
    assert(keys_unique(e2)) by {
        assert forall|a: int, b: int| 0 <= a < b < e2.len() implies e2[a].0 != e2[b].0 by {
            assert(e2[a].0 == entries[a].0 && e2[b].0 == entries[b].0);
        }
    }
    assert forall|x: StrDescriptor| #[trigger] as_map(e2).contains_key(x) <==> as_map(entries).insert(k, v).contains_key(x) by {
        if has_key(e2, x) {
            let j = choose|j: int| 0 <= j < e2.len() && e2[j].0 == x;
            assert(entries[j].0 == x);
        }
        if has_key(entries, x) {
            let j = choose|j: int| 0 <= j < entries.len() && entries[j].0 == x;
            assert(e2[j].0 == x);
        }
    }
    assert forall|x: StrDescriptor| #[trigger] as_map(e2).contains_key(x) implies as_map(e2)[x] == as_map(entries).insert(k, v)[x] by {
        let j = choose|j: int| 0 <= j < e2.len() && e2[j].0 == x;
        lemma_as_map_index(e2, j);
        if x != k {
            lemma_as_map_index(entries, j);
        } else {
            if j != i {
                if j < i { assert(entries[j].0 != entries[i].0); } else { assert(entries[i].0 != entries[j].0); }
            }
        }
    }
    assert(as_map(e2) =~= as_map(entries).insert(k, v));
}

/// The position of the first entry with the given name.
pub fn find_key<V>(entries: &Vec<(StrDescriptor, V)>, key: StrDescriptor) -> (r: Option<usize>)
    ensures
        match r {
            Some(i) => i < entries@.len() && entries@[i as int].0 == key
                && forall|j: int| 0 <= j < i ==> entries@[j].0 != key,
            None => forall|j: int| 0 <= j < entries@.len() ==> entries@[j].0 != key,
        },
        r is Some <==> has_key(entries@, key),
{
    let mut i: usize = 0;
    while i < entries.len()
        invariant
            i <= entries.len(),
            forall|j: int| 0 <= j < i ==> entries@[j].0 != key,
        decreases entries.len() - i,
    {
        if entries[i].0 == key {
            return Some(i);
        }
        i = i + 1;
    }
    None
}

/// Where the innermost binding of a name is found in a stack of scopes:
/// the scope's index and the entry's index in it.
pub open spec fn innermost<V>(scopes: Seq<Vec<(StrDescriptor, V)>>, key: StrDescriptor, s: int, e: int) -> bool {
    &&& 0 <= s < scopes.len()
    &&& 0 <= e < scopes[s]@.len()
    &&& scopes[s]@[e].0 == key
    &&& forall|j: int| 0 <= j < e ==> scopes[s]@[j].0 != key
    &&& forall|t: int| s < t < scopes.len() ==> !has_key(scopes[t]@, key)
}

/// Looks a name up from the innermost (last) scope outwards.
pub fn find_in_scopes<V>(scopes: &Vec<Vec<(StrDescriptor, V)>>, key: StrDescriptor) -> (r: Option<(usize, usize)>)
    ensures
        match r {
            Some((s, e)) => innermost(scopes@, key, s as int, e as int),
            None => forall|t: int| 0 <= t < scopes@.len() ==> !has_key(scopes@[t]@, key),
        },
{
    let mut s: usize = scopes.len();
    while s > 0
        invariant
            s <= scopes.len(),
            forall|t: int| s <= t < scopes@.len() ==> !has_key(scopes@[t]@, key),
        decreases s,
    {
        s = s - 1;
        match find_key(&scopes[s], key) {
            Some(e) => return Some((s, e)),
            None => {},
        }
    }
    None
}

} // verus!
