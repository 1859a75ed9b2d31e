//! A table of vault identifiers and symmetric keys with unique vault ids,
//! shared by the key store and by the db view's vault registry.

use vstd::prelude::*;

use crate::assoc::{assoc_map, has_key, keys_unique, lemma_assoc_map_at, lemma_assoc_map_domain,
    lemma_assoc_map_remove};
use crate::ids::{Key, VaultId};

verus! {

/// View of one entry: the id bytes and the key bytes.
pub open spec fn kv_view(s: Seq<(VaultId, Key)>) -> Seq<(Seq<u8>, Seq<u8>)> {
    s.map_values(|e: (VaultId, Key)| (e.0@, e.1@))
}

/// Key projection of a viewed entry.
pub open spec fn kv_kf() -> spec_fn((Seq<u8>, Seq<u8>)) -> Seq<u8> {
    |p: (Seq<u8>, Seq<u8>)| p.0
}

/// Value projection of a viewed entry.
pub open spec fn kv_vf() -> spec_fn((Seq<u8>, Seq<u8>)) -> Seq<u8> {
    |p: (Seq<u8>, Seq<u8>)| p.1
}

/// The map from vault id bytes to key bytes described by the table.
pub open spec fn kv_map(s: Seq<(VaultId, Key)>) -> Map<Seq<u8>, Seq<u8>> {
    assoc_map(kv_view(s), kv_kf(), kv_vf())
}

/// Well-formed table: unique vault ids, well-formed ids and keys.
pub open spec fn kv_wf(s: Seq<(VaultId, Key)>) -> bool {
    &&& keys_unique(kv_view(s), kv_kf())
    &&& forall|i: int| 0 <= i < s.len() ==> (#[trigger] s[i]).0.wf() && s[i].1.wf()
}

/// Scan for the entry of a vault id.
pub fn kv_find(v: &Vec<(VaultId, Key)>, vid: &VaultId) -> (r: Option<usize>)
    ensures
        match r {
            Some(i) => i < v@.len() && v@[i as int].0@ == vid@,
            None => !has_key(kv_view(v@), kv_kf(), vid@),
        },
{
    let mut i: usize = 0;
    while i < v.len()
        invariant
            i <= v@.len(),
            forall|j: int| 0 <= j < i ==> (#[trigger] v@[j]).0@ != vid@,
        decreases v@.len() - i,
    {
        if v[i].0.equals(vid) {
            return Some(i);
        }
        i += 1;
    }
    proof {
        if has_key(kv_view(v@), kv_kf(), vid@) {
            let j = choose|j: int|
                0 <= j < kv_view(v@).len() && kv_kf()(#[trigger] kv_view(v@)[j]) == vid@;
            assert(v@[j].0@ == vid@);
        }
    }
    None
}

/// Whether the table holds a key for `vid`.
pub fn kv_contains(v: &Vec<(VaultId, Key)>, vid: &VaultId) -> (r: bool)
    requires
        kv_wf(v@),
    ensures
        r == kv_map(v@).contains_key(vid@),
{
    proof {
        lemma_assoc_map_domain(kv_view(v@), kv_kf(), kv_vf());
    }
    match kv_find(v, vid) {
        Some(i) => {
            proof {
                assert(kv_kf()(kv_view(v@)[i as int]) == vid@);
            }
            true
        },
        None => false,
    }
}

/// The key stored for `vid`, as an owned copy.
pub fn kv_get(v: &Vec<(VaultId, Key)>, vid: &VaultId) -> (r: Option<Key>)
    requires
        kv_wf(v@),
    ensures
        match r {
            Some(k) => kv_map(v@).contains_key(vid@) && k@ == kv_map(v@)[vid@] && k.wf(),
            None => !kv_map(v@).contains_key(vid@),
        },
{
    proof {
        lemma_assoc_map_domain(kv_view(v@), kv_kf(), kv_vf());
    }
    match kv_find(v, vid) {
        Some(i) => {
            proof {
                lemma_assoc_map_at(kv_view(v@), kv_kf(), kv_vf(), i as int);
            }
            Some(v[i].1.duplicate())
        },
        None => None,
    }
}

/// Inserts or replaces the key of `vid`.
pub fn kv_upsert(v: &mut Vec<(VaultId, Key)>, vid: VaultId, key: Key)
    requires
        kv_wf(old(v)@),
        vid.wf(),
        key.wf(),
    ensures
        kv_map(final(v)@) == kv_map(old(v)@).insert(vid@, key@),
        kv_wf(final(v)@),
        !kv_map(old(v)@).contains_key(vid@) ==> kv_view(final(v)@) == kv_view(old(v)@).push(
            (vid@, key@),
        ),
{
    proof {
        crate::assoc::lemma_assoc_map_domain(kv_view(old(v)@), kv_kf(), kv_vf());
    }
    let ghost s0 = v@;
    match kv_find(v, &vid) {
        Some(i) => {
            proof {
                lemma_assoc_map_remove(kv_view(s0), kv_kf(), kv_vf(), i as int);
            }
            v.remove(i);
            proof {
                assert(kv_view(v@) =~= kv_view(s0).remove(i as int));
                assert forall|j: int| 0 <= j < v@.len() implies (#[trigger] v@[j]).0@ != vid@ by {
                    if j < i {
                        assert(v@[j] == s0[j]);
                        assert(kv_kf()(kv_view(s0)[j]) != kv_kf()(kv_view(s0)[i as int]));
                    } else {
                        assert(v@[j] == s0[j + 1]);
                        assert(kv_kf()(kv_view(s0)[i as int]) != kv_kf()(kv_view(s0)[j + 1]));
                    }
                }
            }
            let ghost s1 = v@;
            v.push((vid, key));
            proof {
                assert(kv_view(v@) =~= kv_view(s1).push((vid@, key@)));
                assert(kv_view(v@).drop_last() =~= kv_view(s1));
                assert(kv_map(v@) =~= kv_map(s0).insert(vid@, key@));
                assert(keys_unique(kv_view(v@), kv_kf()));
            }
        },
        None => {
            proof {
                if has_key(kv_view(s0), kv_kf(), vid@) {
                    let j = choose|j: int|
                        0 <= j < kv_view(s0).len() && kv_kf()(#[trigger] kv_view(s0)[j]) == vid@;
                }
            }
            v.push((vid, key));
            proof {
                assert(kv_view(v@) =~= kv_view(s0).push((vid@, key@)));
                assert(kv_view(v@).drop_last() =~= kv_view(s0));
                assert(kv_map(v@) =~= kv_map(s0).insert(vid@, key@));
                assert forall|j: int| 0 <= j < s0.len() implies (#[trigger] s0[j]).0@ != vid@ by {
                    assert(kv_kf()(kv_view(s0)[j]) == s0[j].0@);
                }
                assert(keys_unique(kv_view(v@), kv_kf()));
            }
        },
    }
}

/// An owned copy of the whole table.
pub fn kv_clone(v: &Vec<(VaultId, Key)>) -> (r: Vec<(VaultId, Key)>)
    ensures
        kv_view(r@) == kv_view(v@),
        r@.len() == v@.len(),
{
    let mut r: Vec<(VaultId, Key)> = Vec::new();
    let mut i: usize = 0;
    while i < v.len()
        invariant
            i <= v@.len(),
            r@.len() == i,
            forall|j: int| 0 <= j < i ==> (#[trigger] r@[j]).0@ == v@[j].0@ && r@[j].1@ == v@[j].1@,
        decreases v@.len() - i,
    {
        let e = (v[i].0.duplicate(), v[i].1.duplicate());
        r.push(e);
        i += 1;
    }
    proof {
        assert(kv_view(r@) =~= kv_view(v@));
    }
    r
}

} // verus!
