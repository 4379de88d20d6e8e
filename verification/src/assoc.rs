//! Sequences of key-value pairs read as finite maps.
//!
//! A table keeps its entries in the order in which their keys first arrived.
//! What it means is the map from each key to the value beside it, and that is
//! well defined because no key occurs twice.

use vstd::prelude::*;

verus! {

/// Whether no key occurs twice in `s`.
pub open spec fn keys_distinct<K, V>(s: Seq<(K, V)>) -> bool {
    forall|i: int, j: int| 0 <= i < j < s.len() ==> s[i].0 != s[j].0
}

/// Whether some entry of `s` has the key `k`.
pub open spec fn has_key<K, V>(s: Seq<(K, V)>, k: K) -> bool {
    exists|i: int| 0 <= i < s.len() && #[trigger] s[i].0 == k
}

/// A position in `s` at which the key `k` stands, if there is one.
pub open spec fn position_of<K, V>(s: Seq<(K, V)>, k: K) -> int {
    choose|i: int| 0 <= i < s.len() && #[trigger] s[i].0 == k
}

/// The map that the entries of `s` spell out.
pub open spec fn as_map<K, V>(s: Seq<(K, V)>) -> Map<K, V> {
    Map::new(|k: K| has_key(s, k), |k: K| s[position_of(s, k)].1)
}

/// With distinct keys, the map holds at each entry's key that entry's value.
pub proof fn lemma_entry_in_map<K, V>(s: Seq<(K, V)>, i: int)
    requires
        keys_distinct(s),
        0 <= i < s.len(),
    ensures
        as_map(s).contains_key(s[i].0),
        as_map(s)[s[i].0] == s[i].1,
{
    assert(s[i].0 == s[i].0);
    let j = position_of(s, s[i].0);
    assert(0 <= j < s.len() && s[j].0 == s[i].0);
    if j < i {
        assert(s[j].0 != s[i].0);
    } else if i < j {
        assert(s[i].0 != s[j].0);
    }
}

/// Appending an entry with a new key inserts it into the map.
pub proof fn lemma_push_new_key<K, V>(s: Seq<(K, V)>, k: K, v: V)
    requires
        keys_distinct(s),
        !has_key(s, k),
    ensures
        keys_distinct(s.push((k, v))),
        as_map(s.push((k, v))) == as_map(s).insert(k, v),
{
    let t = s.push((k, v));
    assert forall|i: int, j: int| 0 <= i < j < t.len() implies t[i].0 != t[j].0 by {
        if j == s.len() {
            assert(s[i].0 == t[i].0);
        } else {
            assert(s[i].0 == t[i].0 && s[j].0 == t[j].0);
        }
    }
    assert forall|key: K| has_key(t, key) <==> (key == k || has_key(s, key)) by {
        if has_key(t, key) {
            let i = position_of(t, key);
            if i < s.len() {
                assert(s[i].0 == key);
            }
        }
        if has_key(s, key) {
            let i = position_of(s, key);
            assert(t[i].0 == key);
        }
        if key == k {
            assert(t[s.len() as int].0 == key);
        }
    }
    assert forall|key: K| has_key(t, key) implies #[trigger] as_map(t)[key] == as_map(s).insert(k, v)[key] by {
        let i = position_of(t, key);
        lemma_entry_in_map(t, i);
        if i < s.len() {
            assert(s[i].0 == key);
            lemma_entry_in_map(s, i);
        }
    }
    assert(as_map(t) =~= as_map(s).insert(k, v));
}

/// Replacing the value of the entry at `i` updates the map at that entry's key.
pub proof fn lemma_replace_value<K, V>(s: Seq<(K, V)>, i: int, k: K, v: V)
    requires
        keys_distinct(s),
        0 <= i < s.len(),
        s[i].0 == k,
    ensures
        keys_distinct(s.update(i, (k, v))),
        as_map(s.update(i, (k, v))) == as_map(s).insert(k, v),
{
    let t = s.update(i, (k, v));
    assert forall|a: int, b: int| 0 <= a < b < t.len() implies t[a].0 != t[b].0 by {
        assert(s[a].0 == t[a].0 && s[b].0 == t[b].0);
    }
    assert forall|key: K| has_key(t, key) <==> has_key(s, key) by {
        if has_key(t, key) {
            let j = position_of(t, key);
            assert(s[j].0 == key);
        }
        if has_key(s, key) {
            let j = position_of(s, key);
            assert(t[j].0 == key);
        }
    }
    assert(s[i].0 == k);
    assert forall|key: K| has_key(t, key) implies #[trigger] as_map(t)[key] == as_map(s).insert(k, v)[key] by {
        let j = position_of(t, key);
        lemma_entry_in_map(t, j);
        if j != i {
            assert(s[j].0 == key);
            lemma_entry_in_map(s, j);
        }
    }
    assert(as_map(t) =~= as_map(s).insert(k, v));
}

/// With distinct keys, the map has exactly as many keys as there are entries.
pub proof fn lemma_map_size<K, V>(s: Seq<(K, V)>)
    requires
        keys_distinct(s),
    ensures
        as_map(s).dom().finite(),
        as_map(s).dom().len() == s.len(),
    decreases s.len(),
{
    if s.len() == 0 {
        assert(as_map(s).dom() =~= Set::<K>::empty());
    } else {
        let head = s.drop_last();
        let last = s.last();
        assert forall|i: int, j: int| 0 <= i < j < head.len() implies head[i].0 != head[j].0 by {
            assert(head[i] == s[i] && head[j] == s[j]);
        }
        lemma_map_size(head);
        if has_key(head, last.0) {
            let i = position_of(head, last.0);
            assert(s[i].0 == last.0);
            assert(s[i].0 != s[s.len() - 1].0);
        }
        lemma_push_new_key(head, last.0, last.1);
        assert(head.push(last) =~= s);
        assert(as_map(s).dom() =~= as_map(head).dom().insert(last.0));
    }
}

} // verus!
