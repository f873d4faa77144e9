//! A table of entries keyed by peer identifier, kept in insertion order,
//! each identifier at most once.
use vstd::prelude::*;
use crate::assoc::{assoc_map, distinct, key_in, lemma_assoc_at, lemma_assoc_empty, lemma_assoc_len, lemma_assoc_push, lemma_assoc_remove};
use crate::bytes::hash_eq;
use crate::p2p::PeerId;

verus! {

/// Views of a list of peer identifiers.
pub open spec fn peer_id_seq(v: Seq<PeerId>) -> Seq<Seq<u8>> {
    v.map_values(|a: PeerId| a@)
}

#[derive(Debug, Clone, PartialEq, Eq)]
pub struct PeerTable<T> {
    ids: Vec<PeerId>,
    entries: Vec<T>,
}

impl<T> PeerTable<T> {
    /// Identifiers in insertion order.
    pub closed spec fn keys(&self) -> Seq<Seq<u8>> {
        peer_id_seq(self.ids@)
    }

    /// Entries in insertion order, the entry at a position belonging to the
    /// identifier at that position.
    pub closed spec fn values(&self) -> Seq<T> {
        self.entries@
    }

    /// Entries by identifier.
    pub open spec fn map(&self) -> Map<Seq<u8>, T> {
        assoc_map(self.keys(), self.values())
    }

    pub closed spec fn wf(&self) -> bool {
        &&& self.ids@.len() == self.entries@.len()
        &&& distinct(self.keys())
    }

    /// How the ordered identifiers and entries make up the map.
    pub proof fn lemma_table(&self)
        requires
            self.wf(),
        ensures
            self.keys().len() == self.values().len(),
            distinct(self.keys()),
            forall|i: int| 0 <= i < self.keys().len() ==> #[trigger] self.map().contains_key(self.keys()[i])
                && self.map()[self.keys()[i]] == self.values()[i],
            forall|k: Seq<u8>| #[trigger] self.map().contains_key(k) ==> key_in(self.keys(), k),
            self.map().dom().finite(),
            self.map().len() == self.keys().len(),
    {
        assert forall|i: int| 0 <= i < self.keys().len() implies #[trigger] self.map().contains_key(self.keys()[i])
            && self.map()[self.keys()[i]] == self.values()[i] by {
            lemma_assoc_at(self.keys(), self.values(), i);
        }
        lemma_assoc_len(self.keys(), self.values());
    }

    pub fn new() -> (r: Self)
        ensures
            r.wf(),
            r.map() == Map::<Seq<u8>, T>::empty(),
            r.keys().len() == 0,
    {
        let r = PeerTable { ids: Vec::new(), entries: Vec::new() };
        assert(r.keys() =~= Seq::<Seq<u8>>::empty());
        assert(r.values() =~= Seq::<T>::empty());
        proof {
            lemma_assoc_empty::<Seq<u8>, T>();
        }
        r
    }

    pub fn len(&self) -> (r: usize)
        requires
            self.wf(),
        ensures
            r == self.map().len(),
            r == self.keys().len(),
    {
        proof {
            self.lemma_table();
        }
        self.ids.len()
    }

    /// Position of an identifier.
    pub fn position(&self, id: &PeerId) -> (r: Option<usize>)
        requires
            self.wf(),
        ensures
            r is None <==> !self.map().contains_key(id@),
            r matches Some(i) ==> i < self.keys().len() && self.keys()[i as int] == id@,
    {
        let n = self.ids.len();
        for i in 0..n
            invariant
                n == self.ids@.len(),
                self.wf(),
                forall|j: int| 0 <= j < i ==> #[trigger] self.keys()[j] != id@,
        {
            if hash_eq(&self.ids[i], id) {
                assert(self.keys()[i as int] == id@);
                return Some(i);
            }
        }
        proof {
            if self.map().contains_key(id@) {
                assert(key_in(self.keys(), id@));
                let j = choose|j: int| 0 <= j < self.keys().len() && #[trigger] self.keys()[j] == id@;
                assert(self.keys()[j] != id@);
            }
        }
        None
    }

    pub fn contains(&self, id: &PeerId) -> (r: bool)
        requires
            self.wf(),
        ensures
            r == self.map().contains_key(id@),
    {
        self.position(id).is_some()
    }

    pub fn get(&self, id: &PeerId) -> (r: Option<&T>)
        requires
            self.wf(),
        ensures
            r is Some <==> self.map().contains_key(id@),
            r matches Some(t) ==> *t == self.map()[id@],
    {
        match self.position(id) {
            Some(i) => {
                proof {
                    lemma_assoc_at(self.keys(), self.values(), i as int);
                }
                Some(&self.entries[i])
            },
            None => None,
        }
    }

    /// The entry under an identifier, to change in place; the table then
    /// holds whatever the entry ends up as.
    pub fn get_mut(&mut self, id: &PeerId) -> (r: Option<&mut T>)
        requires
            old(self).wf(),
        ensures
            r is Some <==> old(self).map().contains_key(id@),
            r matches Some(e) ==> *e == old(self).map()[id@] && final(self).wf() && final(self).keys() == old(
                self,
            ).keys() && final(self).map() == old(self).map().insert(id@, *final(e)),
            r is None ==> *final(self) == *old(self),
    {
        match self.position(id) {
            Some(i) => {
                proof {
                    lemma_assoc_at(self.keys(), self.values(), i as int);
                }
                let ghost k0 = self.keys();
                let ghost v0 = self.values();
                let e = &mut self.entries[i];
                proof {
                    lemma_assoc_update(k0, v0, i as int, *final(e));
                }
                Some(e)
            },
            None => None,
        }
    }

    /// Appends an entry under a new identifier.
    pub fn insert(&mut self, id: PeerId, value: T)
        requires
            old(self).wf(),
            !old(self).map().contains_key(id@),
        ensures
            final(self).wf(),
            final(self).map() == old(self).map().insert(id@, value),
            final(self).keys() == old(self).keys().push(id@),
            final(self).values() == old(self).values().push(value),
    {
        proof {
            if key_in(self.keys(), id@) {
                let j = choose|j: int| 0 <= j < self.keys().len() && #[trigger] self.keys()[j] == id@;
                lemma_assoc_at(self.keys(), self.values(), j);
            }
            lemma_assoc_push(self.keys(), self.values(), id@, value);
        }
        let ghost k0 = self.keys();
        self.ids.push(id);
        self.entries.push(value);
        assert(self.keys() =~= k0.push(id@));
    }

    /// Removes the entry under an identifier, if any.
    pub fn remove(&mut self, id: &PeerId) -> (r: Option<T>)
        requires
            old(self).wf(),
        ensures
            final(self).wf(),
            r is Some <==> old(self).map().contains_key(id@),
            r matches Some(t) ==> t == old(self).map()[id@],
            final(self).map() == old(self).map().remove(id@),
            r is None ==> final(self).keys() == old(self).keys() && final(self).values() == old(self).values(),
    {
        match self.position(id) {
            Some(i) => {
                proof {
                    lemma_assoc_at(self.keys(), self.values(), i as int);
                    lemma_assoc_remove(self.keys(), self.values(), i as int);
                }
                let ghost k0 = self.keys();
                self.ids.remove(i);
                let t = self.entries.remove(i);
                assert(self.keys() =~= k0.remove(i as int));
                Some(t)
            },
            None => {
                assert(self.map() =~= self.map().remove(id@));
                None
            },
        }
    }

    /// Replaces the entry under an identifier that is present.
    pub fn set(&mut self, id: &PeerId, value: T)
        requires
            old(self).wf(),
            old(self).map().contains_key(id@),
        ensures
            final(self).wf(),
            final(self).map() == old(self).map().insert(id@, value),
            final(self).keys() == old(self).keys(),
    {
        let i = self.position(id).unwrap();
        let ghost k0 = self.keys();
        let ghost v0 = self.values();
        self.entries.set(i, value);
        proof {
            let m = old(self).map().insert(id@, value);
            assert forall|x: Seq<u8>| #[trigger] self.map().contains_key(x) <==> m.contains_key(x) by {
                if key_in(k0, x) {
                    let j = choose|j: int| 0 <= j < k0.len() && #[trigger] k0[j] == x;
                    assert(self.keys()[j] == x);
                }
                if key_in(self.keys(), x) {
                    let j = choose|j: int| 0 <= j < self.keys().len() && #[trigger] self.keys()[j] == x;
                    assert(k0[j] == x);
                }
            }
            assert forall|x: Seq<u8>| #[trigger] self.map().contains_key(x) implies self.map()[x] == m[x] by {
                let j = choose|j: int| 0 <= j < self.keys().len() && #[trigger] self.keys()[j] == x;
                lemma_assoc_at(self.keys(), self.values(), j);
                if j != i {
                    lemma_assoc_at(k0, v0, j);
                }
            }
            assert(self.map() =~= m);
        }
    }

    pub fn clear(&mut self)
        ensures
            final(self).wf(),
            final(self).map() == Map::<Seq<u8>, T>::empty(),
            final(self).keys().len() == 0,
    {
        self.ids.clear();
        self.entries.clear();
        assert(self.keys() =~= Seq::<Seq<u8>>::empty());
        assert(self.values() =~= Seq::<T>::empty());
        proof {
            lemma_assoc_empty::<Seq<u8>, T>();
        }
    }

    /// The entries in insertion order.
    pub fn entries(&self) -> (r: &[T])
        ensures
            r@ == self.values(),
    {
        self.entries.as_slice()
    }

    /// The identifiers in insertion order.
    pub fn ids(&self) -> (r: &[PeerId])
        ensures
            peer_id_seq(r@) == self.keys(),
    {
        self.ids.as_slice()
    }
}

/// Replacing the value at a position replaces the value under that
/// position's key.
pub proof fn lemma_assoc_update<T>(keys: Seq<Seq<u8>>, vals: Seq<T>, i: int, value: T)
    requires
        distinct(keys),
        keys.len() == vals.len(),
        0 <= i < keys.len(),
    ensures
        assoc_map(keys, vals.update(i, value)) == assoc_map(keys, vals).insert(keys[i], value),
{
    let m = assoc_map(keys, vals).insert(keys[i], value);
    let vals2 = vals.update(i, value);
    assert forall|x: Seq<u8>| #[trigger] assoc_map(keys, vals2).contains_key(x) <==> m.contains_key(x) by {
        if key_in(keys, x) {
            let j = choose|j: int| 0 <= j < keys.len() && #[trigger] keys[j] == x;
            lemma_assoc_at(keys, vals, j);
            lemma_assoc_at(keys, vals2, j);
        }
        if m.contains_key(x) && x != keys[i] {
            assert(key_in(keys, x));
        }
        if x == keys[i] {
            lemma_assoc_at(keys, vals2, i);
        }
    }
    assert forall|x: Seq<u8>| #[trigger] assoc_map(keys, vals2).contains_key(x) implies assoc_map(keys, vals2)[x]
        == m[x] by {
        let j = choose|j: int| 0 <= j < keys.len() && #[trigger] keys[j] == x;
        lemma_assoc_at(keys, vals2, j);
        if j != i {
            lemma_assoc_at(keys, vals, j);
        }
    }
    assert(assoc_map(keys, vals2) =~= m);
}

} // verus!
