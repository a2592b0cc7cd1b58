use vstd::prelude::*;
use crate::util::{
    keyed_map, keys_unique, lemma_keyed_map_absent, lemma_keyed_map_get, lemma_keyed_map_insert_at,
    lemma_keyed_map_update, lemma_lex_irreflexive, lemma_lex_trans, lemma_sorted_unique, lex_lt, lex_order,
    strictly_sorted,
};

verus! {

/// Entries with their ids taken as byte sequences.
pub open spec fn key_view<V>(s: Seq<([u8; 32], V)>) -> Seq<(Seq<u8>, V)> {
    s.map_values(|e: ([u8; 32], V)| (e.0@, e.1))
}

/// Records keyed by a 32-byte id, kept in increasing id order.
pub struct IdTable<V> {
    entries: Vec<([u8; 32], V)>,
}

impl<V> IdTable<V> {
    /// The entries, in id order.
    pub closed spec fn view(&self) -> Seq<([u8; 32], V)> {
        self.entries@
    }

    /// The ids, in order.
    pub open spec fn keys(&self) -> Seq<Seq<u8>> {
        self@.map_values(|e: ([u8; 32], V)| e.0@)
    }

    /// The records by id.
    pub open spec fn map(&self) -> Map<Seq<u8>, V> {
        keyed_map(key_view(self@))
    }

    /// Ids strictly increase.
    pub open spec fn wf(&self) -> bool {
        strictly_sorted(self.keys())
    }

    /// No records.
    pub fn new() -> (t: Self)
        ensures
            t.wf(),
            t@.len() == 0,
    {
        IdTable { entries: Vec::new() }
    }

    /// How many records.
    pub fn len(&self) -> (n: usize)
        ensures
            n == self@.len(),
    {
        self.entries.len()
    }

    /// The entry at position `i`.
    pub fn entry(&self, i: usize) -> (e: &([u8; 32], V))
        requires
            i < self@.len(),
        ensures
            *e == self@[i as int],
    {
        &self.entries[i]
    }

    fn slot(&self, id: &[u8; 32]) -> (r: (usize, bool))
        requires
            self.wf(),
        ensures
            r.0 <= self@.len(),
            forall|i: int| 0 <= i < r.0 ==> lex_lt(#[trigger] self@[i].0@, id@),
            r.1 ==> r.0 < self@.len() && self@[r.0 as int].0@ == id@,
            !r.1 ==> forall|i: int| r.0 <= i < self@.len() ==> lex_lt(id@, #[trigger] self@[i].0@),
            r.1 <==> self.map().contains_key(id@),
            r.1 ==> self.map()[id@] == self@[r.0 as int].1,
    {
        let ghost ks = self.keys();
        proof {
            assert(key_view(self@).map_values(|e: (Seq<u8>, V)| e.0) =~= ks);
            lemma_sorted_unique(key_view(self@));
        }
        let mut i: usize = 0;
        while i < self.entries.len()
            invariant
                i <= self.entries@.len(),
                ks == self.keys(),
                strictly_sorted(ks),
                keys_unique(key_view(self@)),
                forall|j: int| 0 <= j < i ==> lex_lt(#[trigger] self@[j].0@, id@),
            decreases self.entries@.len() - i,
        {
            let c = lex_order(self.entries[i].0.as_slice(), id.as_slice());
            if c == 0 {
                proof {
                    lemma_keyed_map_get(key_view(self@), i as int);
                }
                return (i, true);
            }
            if c > 0 {
                proof {
                    assert forall|j: int| i <= j < self@.len() implies lex_lt(id@, #[trigger] self@[j].0@) by {
                        if j > i {
                            assert(lex_lt(ks[i as int], ks[j]));
                            lemma_lex_trans(id@, ks[i as int], ks[j]);
                        }
                    }
                    assert forall|j: int| 0 <= j < key_view(self@).len() implies key_view(self@)[j].0 != id@ by {
                        lemma_lex_irreflexive(id@);
                    }
                    lemma_keyed_map_absent(key_view(self@), id@);
                }
                return (i, false);
            }
            i = i + 1;
        }
        proof {
            assert forall|j: int| 0 <= j < key_view(self@).len() implies key_view(self@)[j].0 != id@ by {
                lemma_lex_irreflexive(id@);
            }
            lemma_keyed_map_absent(key_view(self@), id@);
        }
        (i, false)
    }

    /// The record of `id`, if any.
    pub fn find(&self, id: &[u8; 32]) -> (r: Option<&V>)
        requires
            self.wf(),
        ensures
            match r {
                Some(v) => self.map().contains_key(id@) && *v == self.map()[id@],
                None => !self.map().contains_key(id@),
            },
    {
        let (pos, found) = self.slot(id);
        if found {
            Some(&self.entries[pos].1)
        } else {
            None
        }
    }

    /// Whether `id` has a record.
    pub fn contains(&self, id: &[u8; 32]) -> (b: bool)
        requires
            self.wf(),
        ensures
            b == self.map().contains_key(id@),
    {
        self.slot(id).1
    }

    /// Sets the record of `id` to `v`, in place when the id is known and at its
    /// position in id order otherwise.
    pub fn upsert(&mut self, id: [u8; 32], v: V)
        requires
            old(self).wf(),
        ensures
            final(self).wf(),
            final(self).map() == old(self).map().insert(id@, v),
            final(self)@.len() == old(self)@.len() + (if old(self).map().contains_key(id@) { 0int } else { 1int }),
    {
        let (pos, found) = self.slot(&id);
        let ghost pe = key_view(self@);
        let ghost kv = self.keys();
        let ghost vv = v;
        proof {
            assert(pe.map_values(|e: (Seq<u8>, V)| e.0) =~= kv);
            lemma_sorted_unique(pe);
        }
        if found {
            self.entries.set(pos, (id, v));
            proof {
                lemma_keyed_map_update(pe, pos as int, vv);
                assert(key_view(self@) =~= pe.update(pos as int, (pe[pos as int].0, vv)));
                assert(self.keys() =~= kv);
            }
        } else {
            self.entries.insert(pos, (id, v));
            proof {
                let pid = id@;
                assert forall|j: int| 0 <= j < pe.len() implies pe[j].0 != pid by {
                    lemma_lex_irreflexive(pid);
                }
                lemma_keyed_map_insert_at(pe, pos as int, (pid, vv));
                assert(key_view(self@) =~= pe.insert(pos as int, (pid, vv)));
                let kv1 = self.keys();
                assert(kv1 =~= kv.insert(pos as int, pid));
                assert forall|i: int, j: int| 0 <= i < j < kv1.len() implies lex_lt(#[trigger] kv1[i], #[trigger] kv1[j]) by {
                    if i < pos && j > pos {
                        lemma_lex_trans(kv1[i], pid, kv1[j]);
                    }
                }
            }
        }
    }
}

} // verus!
