//! The exported, serialization-ready form of zero or more clients' state:
//! for each client id, its key map, its db view and its ephemeral store.

use vstd::prelude::*;

use crate::assoc::{assoc_map, has_key, keys_unique, lemma_assoc_map_at, lemma_assoc_map_domain,
    lemma_assoc_map_remove};
use crate::codec::TripleView;
use crate::db::DbView;
use crate::ids::ClientId;
use crate::keystore::KeyStore;
use crate::kvlist::kv_view;
use crate::store::{store_view, Store};

verus! {

/// One client's exported triple: key map, db view, store.
#[derive(Debug, PartialEq, Eq)]
pub struct ClientTriple {
    pub keys: KeyStore,
    pub db: DbView,
    pub store: Store,
}

impl View for ClientTriple {
    type V = TripleView;

    open spec fn view(&self) -> TripleView {
        (kv_view(self.keys.entries@), kv_view(self.db.vaults@), store_view(self.store.entries@))
    }
}

impl ClientTriple {
    /// Well-formed triple: its three tables are well-formed.
    pub open spec fn wf(&self) -> bool {
        self.keys.wf() && self.db.wf() && self.store.wf()
    }

    /// An empty triple.
    pub fn empty() -> (r: Self)
        ensures
            r.wf(),
            r@ == empty_triple(),
    {
        let r = ClientTriple { keys: KeyStore::new(), db: DbView::new(), store: Store::new() };
        proof {
            assert(r@.0 =~= empty_triple().0);
            assert(r@.1 =~= empty_triple().1);
            assert(r@.2 =~= empty_triple().2);
        }
        r
    }

    /// An owned copy of the triple.
    pub fn export(&self) -> (r: Self)
        requires
            self.wf(),
        ensures
            r.wf(),
            r@ == self@,
    {
        ClientTriple { keys: self.keys.export(), db: self.db.export(), store: self.store.export() }
    }
}

/// The view of a triple with three empty tables.
pub open spec fn empty_triple() -> TripleView {
    (
        Seq::<(Seq<u8>, Seq<u8>)>::empty(),
        Seq::<(Seq<u8>, Seq<u8>)>::empty(),
        Seq::<(Seq<u8>, (Seq<u8>, Option<u64>))>::empty(),
    )
}

/// View of the client rows.
pub open spec fn state_view(s: Seq<(ClientId, ClientTriple)>) -> Seq<(Seq<u8>, TripleView)> {
    s.map_values(|c: (ClientId, ClientTriple)| (c.0@, c.1@))
}

/// Key projection of a viewed client row.
pub open spec fn state_kf() -> spec_fn((Seq<u8>, TripleView)) -> Seq<u8> {
    |c: (Seq<u8>, TripleView)| c.0
}

/// Value projection of a viewed client row.
pub open spec fn state_vf() -> spec_fn((Seq<u8>, TripleView)) -> TripleView {
    |c: (Seq<u8>, TripleView)| c.1
}

/// The staged snapshot state: one triple per client id.
#[derive(Debug, PartialEq, Eq)]
pub struct SnapshotState {
    pub clients: Vec<(ClientId, ClientTriple)>,
}

impl View for SnapshotState {
    type V = Map<Seq<u8>, TripleView>;

    open spec fn view(&self) -> Map<Seq<u8>, TripleView> {
        assoc_map(state_view(self.clients@), state_kf(), state_vf())
    }
}

impl SnapshotState {
    /// Well-formed state: unique client ids, well-formed ids and triples.
    pub open spec fn wf(&self) -> bool {
        &&& keys_unique(state_view(self.clients@), state_kf())
        &&& forall|i: int|
            0 <= i < self.clients@.len() ==> (#[trigger] self.clients@[i]).0.wf()
                && self.clients@[i].1.wf()
    }

    /// An empty state.
    pub fn new() -> (r: Self)
        ensures
            r@ == Map::<Seq<u8>, TripleView>::empty(),
            r.wf(),
            r.clients@.len() == 0,
    {
        SnapshotState { clients: Vec::new() }
    }

    /// Scan for the row of a client id.
    fn find(&self, id: &ClientId) -> (r: Option<usize>)
        ensures
            match r {
                Some(i) => i < self.clients@.len() && self.clients@[i as int].0@ == id@,
                None => !has_key(state_view(self.clients@), state_kf(), id@),
            },
    {
        let mut i: usize = 0;
        while i < self.clients.len()
            invariant
                i <= self.clients@.len(),
                forall|j: int| 0 <= j < i ==> (#[trigger] self.clients@[j]).0@ != id@,
            decreases self.clients@.len() - i,
        {
            if self.clients[i].0.equals(id) {
                return Some(i);
            }
            i += 1;
        }
        proof {
            let s = state_view(self.clients@);
            if has_key(s, state_kf(), id@) {
                let j = choose|j: int| 0 <= j < s.len() && state_kf()(#[trigger] s[j]) == id@;
                assert(self.clients@[j].0@ == id@);
            }
        }
        None
    }

    /// Whether a triple is staged for `id`.
    pub fn has_data(&self, id: &ClientId) -> (r: bool)
        requires
            self.wf(),
        ensures
            r == self@.contains_key(id@),
    {
        proof {
            lemma_assoc_map_domain(state_view(self.clients@), state_kf(), state_vf());
        }
        match self.find(id) {
            Some(i) => {
                proof {
                    assert(state_kf()(state_view(self.clients@)[i as int]) == id@);
                }
                true
            },
            None => false,
        }
    }

    /// Stages one client's triple, overwriting any prior entry for that id.
    pub fn add_data(&mut self, id: ClientId, data: ClientTriple)
        requires
            old(self).wf(),
            id.wf(),
            data.wf(),
        ensures
            final(self).wf(),
            final(self)@ == old(self)@.insert(id@, data@),
            !old(self)@.contains_key(id@) ==> state_view(final(self).clients@) == state_view(
                old(self).clients@,
            ).push((id@, data@)),
    {
        proof {
            lemma_assoc_map_domain(state_view(old(self).clients@), state_kf(), state_vf());
        }
        let ghost idb = id@;
        let ghost db = data@;
        let ghost s0 = self.clients@;
        match self.find(&id) {
            Some(i) => {
                proof {
                    lemma_assoc_map_remove(state_view(s0), state_kf(), state_vf(), i as int);
                }
                self.clients.remove(i);
                proof {
                    assert(state_view(self.clients@) =~= state_view(s0).remove(i as int));
                    assert forall|j: int|
                        0 <= j < self.clients@.len() implies (#[trigger] self.clients@[j]).0@
                        != idb by {
                        if j < i {
                            assert(self.clients@[j] == s0[j]);
                            assert(state_kf()(state_view(s0)[j]) != state_kf()(
                                state_view(s0)[i as int],
                            ));
                        } else {
                            assert(self.clients@[j] == s0[j + 1]);
                            assert(state_kf()(state_view(s0)[i as int]) != state_kf()(
                                state_view(s0)[j + 1],
                            ));
                        }
                    }
                }
            },
            None => {
                proof {
                    assert forall|j: int|
                        0 <= j < self.clients@.len() implies (#[trigger] self.clients@[j]).0@
                        != idb by {
                        assert(state_kf()(state_view(s0)[j]) == s0[j].0@);
                    }
                }
            },
        };
        let ghost s1 = self.clients@;
        self.clients.push((id, data));
        proof {
            assert(state_view(self.clients@) =~= state_view(s1).push((idb, db)));
            assert(state_view(self.clients@).drop_last() =~= state_view(s1));
            assert(self@ =~= old(self)@.insert(idb, db));
            assert(keys_unique(state_view(self.clients@), state_kf()));
        }
    }

    /// An owned copy of the whole staged state.
    pub fn export(&self) -> (r: Self)
        requires
            self.wf(),
        ensures
            r.wf(),
            r@ == self@,
            state_view(r.clients@) == state_view(self.clients@),
    {
        let mut clients: Vec<(ClientId, ClientTriple)> = Vec::new();
        let mut i: usize = 0;
        while i < self.clients.len()
            invariant
                self.wf(),
                i <= self.clients@.len(),
                clients@.len() == i,
                forall|j: int|
                    0 <= j < i ==> (#[trigger] clients@[j]).0@ == self.clients@[j].0@
                        && clients@[j].1@ == self.clients@[j].1@ && clients@[j].1.wf(),
            decreases self.clients@.len() - i,
        {
            let e = (self.clients[i].0.duplicate(), self.clients[i].1.export());
            clients.push(e);
            i += 1;
        }
        proof {
            assert(state_view(clients@) =~= state_view(self.clients@));
        }
        let r = SnapshotState { clients };
        proof {
            assert forall|j: int|
                0 <= j < r.clients@.len() implies (#[trigger] r.clients@[j]).0.wf()
                && r.clients@[j].1.wf() by {
                assert(r.clients@[j].0@ == self.clients@[j].0@);
            }
        }
        r
    }

    /// A client's staged triple, or an empty triple when none is staged;
    /// callers check `has_data` to tell the two apart.
    pub fn get_state(&self, id: &ClientId) -> (r: ClientTriple)
        requires
            self.wf(),
        ensures
            r.wf(),
            self@.contains_key(id@) ==> r@ == self@[id@],
            !self@.contains_key(id@) ==> r@ == empty_triple(),
    {
        proof {
            lemma_assoc_map_domain(state_view(self.clients@), state_kf(), state_vf());
        }
        match self.find(id) {
            Some(i) => {
                proof {
                    lemma_assoc_map_at(state_view(self.clients@), state_kf(), state_vf(), i as int);
                }
                self.clients[i].1.export()
            },
            None => ClientTriple::empty(),
        }
    }
}

} // verus!
