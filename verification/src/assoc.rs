//! A small theory of association sequences viewed as maps keyed by byte
//! strings: the key store, the ephemeral store, the db view and the snapshot
//! state are all association lists with unique keys, and their contracts all
//! speak of the same derived `Map`.

use vstd::prelude::*;

verus! {

/// The map described by an association sequence, later entries winning.
pub open spec fn assoc_map<T, V>(s: Seq<T>, kf: spec_fn(T) -> Seq<u8>, vf: spec_fn(T) -> V) -> Map<
    Seq<u8>,
    V,
>
    decreases s.len(),
{
    if s.len() == 0 {
        Map::empty()
    } else {
        assoc_map(s.drop_last(), kf, vf).insert(kf(s.last()), vf(s.last()))
    }
}

/// No two entries share a key.
pub open spec fn keys_unique<T>(s: Seq<T>, kf: spec_fn(T) -> Seq<u8>) -> bool {
    forall|i: int, j: int| 0 <= i < j < s.len() ==> kf(s[i]) != kf(s[j])
}

/// Some entry carries the key `k`.
pub open spec fn has_key<T>(s: Seq<T>, kf: spec_fn(T) -> Seq<u8>, k: Seq<u8>) -> bool {
    exists|i: int| 0 <= i < s.len() && kf(#[trigger] s[i]) == k
}

/// The domain of the derived map is exactly the set of keys of the entries.
pub proof fn lemma_assoc_map_domain<T, V>(s: Seq<T>, kf: spec_fn(T) -> Seq<u8>, vf: spec_fn(T) -> V)
    ensures
        forall|k: Seq<u8>|
            #[trigger] assoc_map(s, kf, vf).contains_key(k) <==> has_key(s, kf, k),
    decreases s.len(),
{
    if s.len() > 0 {
        lemma_assoc_map_domain(s.drop_last(), kf, vf);
        assert forall|k: Seq<u8>| #[trigger] assoc_map(s, kf, vf).contains_key(k) implies has_key(
            s,
            kf,
            k,
        ) by {
            if k == kf(s.last()) {
                assert(kf(s[s.len() - 1]) == k);
            } else {
                assert(assoc_map(s.drop_last(), kf, vf).contains_key(k));
                assert(has_key(s.drop_last(), kf, k));
                let i = choose|i: int|
                    0 <= i < s.drop_last().len() && kf(#[trigger] s.drop_last()[i]) == k;
                assert(s.drop_last()[i] == s[i]);
                assert(kf(s[i]) == k);
            }
        }
        assert forall|k: Seq<u8>| has_key(s, kf, k) implies #[trigger] assoc_map(
            s,
            kf,
            vf,
        ).contains_key(k) by {
            let i = choose|i: int| 0 <= i < s.len() && kf(#[trigger] s[i]) == k;
            if i < s.len() - 1 {
                assert(s.drop_last()[i] == s[i]);
                assert(kf(s.drop_last()[i]) == k);
                assert(has_key(s.drop_last(), kf, k));
                assert(assoc_map(s.drop_last(), kf, vf).contains_key(k));
            } else {
                assert(k == kf(s.last()));
            }
        }
    }
}

/// Under unique keys, the derived map sends each entry's key to its value.
pub proof fn lemma_assoc_map_at<T, V>(
    s: Seq<T>,
    kf: spec_fn(T) -> Seq<u8>,
    vf: spec_fn(T) -> V,
    i: int,
)
    requires
        keys_unique(s, kf),
        0 <= i < s.len(),
    ensures
        assoc_map(s, kf, vf).contains_key(kf(s[i])),
        assoc_map(s, kf, vf)[kf(s[i])] == vf(s[i]),
    decreases s.len(),
{
    if i == s.len() - 1 {
    } else {
        lemma_assoc_map_at(s.drop_last(), kf, vf, i);
        assert(s.drop_last()[i] == s[i]);
        assert(kf(s.last()) != kf(s[i]));
    }
}

/// Removing the entry at `i` removes exactly its key from the derived map.
pub proof fn lemma_assoc_map_remove<T, V>(
    s: Seq<T>,
    kf: spec_fn(T) -> Seq<u8>,
    vf: spec_fn(T) -> V,
    i: int,
)
    requires
        keys_unique(s, kf),
        0 <= i < s.len(),
    ensures
        assoc_map(s.remove(i), kf, vf) == assoc_map(s, kf, vf).remove(kf(s[i])),
    decreases s.len(),
{
    lemma_assoc_map_domain(s.drop_last(), kf, vf);
    if i == s.len() - 1 {
        assert(s.remove(i) =~= s.drop_last());
        assert(!has_key(s.drop_last(), kf, kf(s[i]))) by {
            if has_key(s.drop_last(), kf, kf(s[i])) {
                let j = choose|j: int|
                    0 <= j < s.drop_last().len() && kf(#[trigger] s.drop_last()[j]) == kf(s[i]);
                assert(kf(s[j]) == kf(s[i]));
            }
        }
        assert(assoc_map(s.drop_last(), kf, vf).insert(kf(s.last()), vf(s.last())).remove(
            kf(s.last()),
        ) =~= assoc_map(s.drop_last(), kf, vf));
    } else {
        assert(s.remove(i).drop_last() =~= s.drop_last().remove(i));
        assert(s.remove(i).last() == s.last());
        lemma_assoc_map_remove(s.drop_last(), kf, vf, i);
        assert(s.drop_last()[i] == s[i]);
        assert(kf(s.last()) != kf(s[i]));
        assert(assoc_map(s.drop_last(), kf, vf).remove(kf(s[i])).insert(
            kf(s.last()),
            vf(s.last()),
        ) =~= assoc_map(s.drop_last(), kf, vf).insert(kf(s.last()), vf(s.last())).remove(
            kf(s[i]),
        ));
    }
}

} // verus!
