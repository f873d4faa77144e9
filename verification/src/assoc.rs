//! Association lists: parallel key and value sequences with distinct keys,
//! viewed as finite maps.
use vstd::prelude::*;

verus! {

/// No key occurs twice.
pub open spec fn distinct<K>(keys: Seq<K>) -> bool {
    forall|i: int, j: int| 0 <= i < keys.len() && 0 <= j < keys.len() && i != j ==> keys[i] != keys[j]
}

/// Whether `k` is one of the keys.
pub open spec fn key_in<K>(keys: Seq<K>, k: K) -> bool {
    exists|i: int| 0 <= i < keys.len() && #[trigger] keys[i] == k
}

/// The map that associates each key with the value at its position.
pub open spec fn assoc_map<K, V>(keys: Seq<K>, vals: Seq<V>) -> Map<K, V> {
    Map::new(|k: K| key_in(keys, k), |k: K| vals[choose|i: int| 0 <= i < keys.len() && #[trigger] keys[i] == k])
}

pub proof fn lemma_assoc_at<K, V>(keys: Seq<K>, vals: Seq<V>, i: int)
    requires
        distinct(keys),
        0 <= i < keys.len(),
    ensures
        assoc_map(keys, vals).contains_key(keys[i]),
        assoc_map(keys, vals)[keys[i]] == vals[i],
{
    assert(key_in(keys, keys[i]));
    let j = choose|j: int| 0 <= j < keys.len() && #[trigger] keys[j] == keys[i];
    assert(i == j);
}

pub proof fn lemma_assoc_push<K, V>(keys: Seq<K>, vals: Seq<V>, k: K, v: V)
    requires
        distinct(keys),
        keys.len() == vals.len(),
        !key_in(keys, k),
    ensures
        distinct(keys.push(k)),
        assoc_map(keys.push(k), vals.push(v)) == assoc_map(keys, vals).insert(k, v),
{
    let nk = keys.push(k);
    let nv = vals.push(v);
    assert forall|i: int, j: int| 0 <= i < nk.len() && 0 <= j < nk.len() && i != j implies nk[i] != nk[j] by {
        if i == keys.len() {
            assert(keys[j] == nk[j]);
        } else if j == keys.len() {
            assert(keys[i] == nk[i]);
        }
    }
    let m = assoc_map(keys, vals).insert(k, v);
    assert forall|x: K| #[trigger] assoc_map(nk, nv).contains_key(x) <==> m.contains_key(x) by {
        if key_in(nk, x) {
            let i = choose|i: int| 0 <= i < nk.len() && #[trigger] nk[i] == x;
            if i < keys.len() {
                assert(keys[i] == x);
            }
        }
        if key_in(keys, x) {
            let i = choose|i: int| 0 <= i < keys.len() && #[trigger] keys[i] == x;
            assert(nk[i] == x);
        }
        if x == k {
            assert(nk[keys.len() as int] == x);
        }
    }
    assert forall|x: K| #[trigger] assoc_map(nk, nv).contains_key(x) implies assoc_map(nk, nv)[x] == m[x] by {
        let i = choose|i: int| 0 <= i < nk.len() && #[trigger] nk[i] == x;
        lemma_assoc_at(nk, nv, i);
        if i < keys.len() {
            lemma_assoc_at(keys, vals, i);
        }
    }
    assert(assoc_map(nk, nv) =~= m);
}

pub proof fn lemma_assoc_remove<K, V>(keys: Seq<K>, vals: Seq<V>, i: int)
    requires
        distinct(keys),
        keys.len() == vals.len(),
        0 <= i < keys.len(),
    ensures
        distinct(keys.remove(i)),
        assoc_map(keys.remove(i), vals.remove(i)) == assoc_map(keys, vals).remove(keys[i]),
{
    let nk = keys.remove(i);
    let nv = vals.remove(i);
    assert forall|a: int, b: int| 0 <= a < nk.len() && 0 <= b < nk.len() && a != b implies nk[a] != nk[b] by {
        let a2 = if a < i { a } else { a + 1 };
        let b2 = if b < i { b } else { b + 1 };
        assert(nk[a] == keys[a2]);
        assert(nk[b] == keys[b2]);
    }
    let m = assoc_map(keys, vals).remove(keys[i]);
    assert forall|x: K| #[trigger] assoc_map(nk, nv).contains_key(x) <==> m.contains_key(x) by {
        if key_in(nk, x) {
            let a = choose|a: int| 0 <= a < nk.len() && #[trigger] nk[a] == x;
            let a2 = if a < i { a } else { a + 1 };
            assert(keys[a2] == x);
        }
        if key_in(keys, x) && x != keys[i] {
            let a = choose|a: int| 0 <= a < keys.len() && #[trigger] keys[a] == x;
            if a < i {
                assert(nk[a] == x);
            } else {
                assert(nk[a - 1] == x);
            }
        }
    }
    assert forall|x: K| #[trigger] assoc_map(nk, nv).contains_key(x) implies assoc_map(nk, nv)[x] == m[x] by {
        let a = choose|a: int| 0 <= a < nk.len() && #[trigger] nk[a] == x;
        lemma_assoc_at(nk, nv, a);
        let a2 = if a < i { a } else { a + 1 };
        assert(nk[a] == keys[a2]);
        assert(nv[a] == vals[a2]);
        lemma_assoc_at(keys, vals, a2);
    }
    assert(assoc_map(nk, nv) =~= m);
}

pub proof fn lemma_assoc_len<K, V>(keys: Seq<K>, vals: Seq<V>)
    requires
        distinct(keys),
    ensures
        assoc_map(keys, vals).dom().finite(),
        assoc_map(keys, vals).len() == keys.len(),
{
    assert(keys.no_duplicates());
    assert(assoc_map(keys, vals).dom() =~= keys.to_set()) by {
        assert forall|k: K| #[trigger] assoc_map(keys, vals).dom().contains(k) <==> keys.to_set().contains(k) by {
            if keys.to_set().contains(k) {
                let i = choose|i: int| 0 <= i < keys.len() && keys[i] == k;
                assert(key_in(keys, k));
            }
        }
    }
    keys.unique_seq_to_set();
}

pub proof fn lemma_assoc_empty<K, V>()
    ensures
        assoc_map(Seq::<K>::empty(), Seq::<V>::empty()) == Map::<K, V>::empty(),
        distinct(Seq::<K>::empty()),
{
    assert(assoc_map(Seq::<K>::empty(), Seq::<V>::empty()) =~= Map::<K, V>::empty());
}

} // verus!
