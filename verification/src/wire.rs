//! Executable serialization of the snapshot state against the byte format
//! of `codec`: encoding is proved to produce exactly the specified bytes,
//! decoding to recover the rows the specified parser reads.

use vstd::prelude::*;

use crate::codec::{enc_bytes, enc_client, enc_client_items, enc_kv_items, enc_kv_list, enc_opt,
    enc_state, enc_store_items, enc_store_list, enc_u64, lemma_enc_client_items_snoc,
    lemma_enc_kv_items_snoc, lemma_enc_store_items_snoc, parse_bytes, parse_client,
    parse_client_items, parse_fixed, parse_kv_entry, parse_kv_items, parse_kv_list, parse_opt,
    parse_state, parse_store_entry, parse_store_items, parse_store_list, parse_u64, val8,
    TripleView};
use crate::assoc::{assoc_map, keys_unique, lemma_assoc_map_domain};
use crate::db::DbView;
use crate::ids::{ClientId, Key, VaultId};
use crate::keystore::KeyStore;
use crate::kvlist::{kv_kf, kv_map, kv_upsert, kv_vf, kv_view, kv_wf};
use crate::state::{state_kf, state_vf, state_view, ClientTriple, SnapshotState};
use crate::store::{store_kf, store_vf, store_view, Store, StoreEntry};
use crate::{ID_LEN, KEY_LEN};

verus! {

/// Appends the eight-byte little-endian rendering of `n`.
fn push_u64(out: &mut Vec<u8>, n: u64)
    ensures
        final(out)@ == old(out)@ + enc_u64(n as nat),
{
    out.push((n % 256) as u8);
    out.push(((n / 256) % 256) as u8);
    out.push(((n / 65536) % 256) as u8);
    out.push(((n / 16777216) % 256) as u8);
    out.push(((n / 4294967296) % 256) as u8);
    out.push(((n / 1099511627776) % 256) as u8);
    out.push(((n / 281474976710656) % 256) as u8);
    out.push(((n / 72057594037927936) % 256) as u8);
    proof {
        assert(out@ =~= old(out)@ + enc_u64(n as nat));
    }
}

/// Appends the raw bytes of `b`.
fn push_raw(out: &mut Vec<u8>, b: &Vec<u8>)
    ensures
        final(out)@ == old(out)@ + b@,
{
    let mut i: usize = 0;
    while i < b.len()
        invariant
            i <= b@.len(),
            out@ == old(out)@ + b@.take(i as int),
        decreases b@.len() - i,
    {
        out.push(b[i]);
        i += 1;
        proof {
            assert(out@ =~= old(out)@ + b@.take(i as int));
        }
    }
    proof {
        assert(b@.take(b@.len() as int) =~= b@);
    }
}

/// Appends a length-prefixed byte string.
fn push_bytes(out: &mut Vec<u8>, b: &Vec<u8>)
    ensures
        final(out)@ == old(out)@ + enc_bytes(b@),
{
    push_u64(out, b.len() as u64);
    push_raw(out, b);
    proof {
        assert(out@ =~= old(out)@ + enc_bytes(b@));
    }
}

/// Appends a tagged optional expiry.
fn push_opt(out: &mut Vec<u8>, o: Option<u64>)
    ensures
        final(out)@ == old(out)@ + enc_opt(o),
{
    match o {
        None => {
            out.push(0);
            push_u64(out, 0);
        },
        Some(e) => {
            out.push(1);
            push_u64(out, e);
        },
    }
    proof {
        assert(out@ =~= old(out)@ + enc_opt(o));
    }
}

/// Appends a count-prefixed id/key table.
#[verifier::rlimit(100)]
fn push_kv_table(out: &mut Vec<u8>, v: &Vec<(VaultId, Key)>)
    ensures
        final(out)@ == old(out)@ + enc_kv_list(kv_view(v@)),
{
    push_u64(out, v.len() as u64);
    let mut i: usize = 0;
    while i < v.len()
        invariant
            i <= v@.len(),
            out@ == old(out)@ + enc_u64(v@.len() as nat) + enc_kv_items(kv_view(v@).take(i as int)),
        decreases v@.len() - i,
    {
        push_raw(out, &v[i].0.bytes);
        push_raw(out, &v[i].1.bytes);
        i += 1;
        proof {
            let rows = kv_view(v@);
            lemma_enc_kv_items_snoc(rows.take(i - 1), rows[i - 1]);
            assert(rows.take(i as int) =~= rows.take(i - 1).push(rows[i - 1]));
            assert(out@ =~= old(out)@ + enc_u64(v@.len() as nat) + enc_kv_items(
                rows.take(i as int),
            ));
        }
    }
    proof {
        assert(kv_view(v@).take(v@.len() as int) =~= kv_view(v@));
        assert(out@ =~= old(out)@ + enc_kv_list(kv_view(v@)));
    }
}

/// Appends a count-prefixed store table.
#[verifier::rlimit(100)]
fn push_store_table(out: &mut Vec<u8>, v: &Vec<StoreEntry>)
    ensures
        final(out)@ == old(out)@ + enc_store_list(store_view(v@)),
{
    push_u64(out, v.len() as u64);
    let mut i: usize = 0;
    while i < v.len()
        invariant
            i <= v@.len(),
            out@ == old(out)@ + enc_u64(v@.len() as nat) + enc_store_items(
                store_view(v@).take(i as int),
            ),
        decreases v@.len() - i,
    {
        push_bytes(out, &v[i].0);
        push_bytes(out, &v[i].1);
        push_opt(out, v[i].2);
        i += 1;
        proof {
            let rows = store_view(v@);
            lemma_enc_store_items_snoc(rows.take(i - 1), rows[i - 1]);
            assert(rows.take(i as int) =~= rows.take(i - 1).push(rows[i - 1]));
            assert(out@ =~= old(out)@ + enc_u64(v@.len() as nat) + enc_store_items(
                rows.take(i as int),
            ));
        }
    }
    proof {
        assert(store_view(v@).take(v@.len() as int) =~= store_view(v@));
        assert(out@ =~= old(out)@ + enc_store_list(store_view(v@)));
    }
}

/// Serializes the whole staged state.
#[verifier::rlimit(100)]
pub fn encode_state(st: &SnapshotState) -> (r: Vec<u8>)
    ensures
        r@ == enc_state(state_view(st.clients@)),
{
    let mut out: Vec<u8> = Vec::new();
    push_u64(&mut out, st.clients.len() as u64);
    let mut i: usize = 0;
    while i < st.clients.len()
        invariant
            i <= st.clients@.len(),
            out@ == enc_u64(st.clients@.len() as nat) + enc_client_items(
                state_view(st.clients@).take(i as int),
            ),
        decreases st.clients@.len() - i,
    {
        push_raw(&mut out, &st.clients[i].0.bytes);
        push_kv_table(&mut out, &st.clients[i].1.keys.entries);
        push_kv_table(&mut out, &st.clients[i].1.db.vaults);
        push_store_table(&mut out, &st.clients[i].1.store.entries);
        i += 1;
        proof {
            let rows = state_view(st.clients@);
            lemma_enc_client_items_snoc(rows.take(i - 1), rows[i - 1]);
            assert(rows.take(i as int) =~= rows.take(i - 1).push(rows[i - 1]));
            assert(enc_client(rows[i - 1]) =~= st.clients@[i - 1].0@ + (enc_kv_list(
                kv_view(st.clients@[i - 1].1.keys.entries@),
            ) + enc_kv_list(kv_view(st.clients@[i - 1].1.db.vaults@)) + enc_store_list(
                store_view(st.clients@[i - 1].1.store.entries@),
            )));
            assert(out@ =~= enc_u64(st.clients@.len() as nat) + enc_client_items(
                rows.take(i as int),
            ));
        }
    }
    proof {
        assert(state_view(st.clients@).take(st.clients@.len() as int) =~= state_view(st.clients@));
        assert(out@ =~= enc_state(state_view(st.clients@)));
    }
    out
}

/// Reads eight little-endian bytes.
fn read_u64(b: &Vec<u8>, pos: usize) -> (r: Option<(u64, usize)>)
    ensures
        match r {
            Some((v, p)) => parse_u64(b@, pos as int) == Some((v as nat, p as int)) && p == pos
                + 8,
            None => parse_u64(b@, pos as int) is None,
        },
{
    if b.len() < 8 || pos > b.len() - 8 {
        return None;
    }
    let v: u64 = b[pos] as u64 + 256 * (b[pos + 1] as u64) + 65536 * (b[pos + 2] as u64)
        + 16777216 * (b[pos + 3] as u64) + 4294967296 * (b[pos + 4] as u64) + 1099511627776 * (
    b[pos + 5] as u64) + 281474976710656 * (b[pos + 6] as u64) + 72057594037927936 * (b[pos
        + 7] as u64);
    proof {
        let s = b@.subrange(pos as int, pos + 8);
        assert(s[0] == b@[pos as int] && s[1] == b@[pos + 1] && s[2] == b@[pos + 2] && s[3] == b@[
            pos + 3
        ] && s[4] == b@[pos + 4] && s[5] == b@[pos + 5] && s[6] == b@[pos + 6] && s[7] == b@[pos
            + 7]);
        assert(v as nat == val8(s));
    }
    Some((v, pos + 8))
}

/// Reads `n` raw bytes.
fn read_exact(b: &Vec<u8>, pos: usize, n: usize) -> (r: Option<(Vec<u8>, usize)>)
    ensures
        match r {
            Some((v, p)) => parse_fixed(b@, pos as int, n as int) == Some((v@, p as int)) && v@.len()
                == n && p == pos + n,
            None => parse_fixed(b@, pos as int, n as int) is None,
        },
{
    if n > b.len() || pos > b.len() - n {
        return None;
    }
    let end = pos + n;
    let mut v: Vec<u8> = Vec::new();
    let mut j: usize = pos;
    while j < end
        invariant
            pos <= j <= end,
            end == pos + n,
            end <= b@.len(),
            v@ == b@.subrange(pos as int, j as int),
        decreases end - j,
    {
        v.push(b[j]);
        j += 1;
        proof {
            assert(v@ =~= b@.subrange(pos as int, j as int));
        }
    }
    Some((v, end))
}

/// Reads a length-prefixed byte string.
fn read_var(b: &Vec<u8>, pos: usize) -> (r: Option<(Vec<u8>, usize)>)
    ensures
        match r {
            Some((v, p)) => parse_bytes(b@, pos as int) == Some((v@, p as int)),
            None => parse_bytes(b@, pos as int) is None,
        },
{
    match read_u64(b, pos) {
        Some((l, p)) => {
            if l > usize::MAX as u64 {
                return None;
            }
            read_exact(b, p, l as usize)
        },
        None => None,
    }
}

/// Reads a tagged optional expiry.
fn read_opt(b: &Vec<u8>, pos: usize) -> (r: Option<(Option<u64>, usize)>)
    ensures
        match r {
            Some((o, p)) => parse_opt(b@, pos as int) == Some((o, p as int)),
            None => parse_opt(b@, pos as int) is None,
        },
{
    if pos >= b.len() {
        return None;
    }
    let tag = b[pos];
    match read_u64(b, pos + 1) {
        Some((v, p)) => {
            if tag == 0 {
                Some((None, p))
            } else if tag == 1 {
                Some((Some(v), p))
            } else {
                None
            }
        },
        None => None,
    }
}


/// Rebuilds an id/key table from parsed rows, last occurrence of a vault id
/// winning; unique rows are kept exactly as they came.
fn kv_dedup(rows: Vec<(VaultId, Key)>) -> (r: Vec<(VaultId, Key)>)
    requires
        forall|i: int| 0 <= i < rows@.len() ==> (#[trigger] rows@[i]).0.wf() && rows@[i].1.wf(),
    ensures
        kv_wf(r@),
        keys_unique(kv_view(rows@), kv_kf()) ==> kv_view(r@) == kv_view(rows@),
{
    let mut r: Vec<(VaultId, Key)> = Vec::new();
    let mut i: usize = 0;
    while i < rows.len()
        invariant
            i <= rows@.len(),
            forall|j: int| 0 <= j < rows@.len() ==> (#[trigger] rows@[j]).0.wf() && rows@[j].1.wf(),
            kv_wf(r@),
            keys_unique(kv_view(rows@), kv_kf()) ==> kv_view(r@) == kv_view(rows@).take(i as int),
        decreases rows@.len() - i,
    {
        let e = (rows[i].0.duplicate(), rows[i].1.duplicate());
        let ghost rprev = r@;
        kv_upsert(&mut r, e.0, e.1);
        i += 1;
        proof {
            let rv = kv_view(rows@);
            if keys_unique(rv, kv_kf()) {
                lemma_assoc_map_domain(kv_view(rprev), kv_kf(), kv_vf());
                assert(!kv_map(rprev).contains_key(rv[i - 1].0)) by {
                    if crate::assoc::has_key(kv_view(rprev), kv_kf(), rv[i - 1].0) {
                        let j = choose|j: int|
                            0 <= j < kv_view(rprev).len() && kv_kf()(
                                #[trigger] kv_view(rprev)[j],
                            ) == rv[i - 1].0;
                        assert(kv_view(rprev)[j] == rv.take(i - 1)[j]);
                        assert(kv_kf()(rv[j]) == kv_kf()(rv[i - 1]));
                    }
                }
                assert(kv_view(r@) =~= rv.take(i as int));
            }
        }
    }
    proof {
        assert(kv_view(rows@).take(rows@.len() as int) =~= kv_view(rows@));
    }
    r
}

/// Rebuilds a store from parsed rows, last occurrence of a key winning;
/// unique rows are kept exactly as they came.
fn store_from_rows(rows: &Vec<StoreEntry>) -> (r: Store)
    ensures
        r.wf(),
        keys_unique(store_view(rows@), store_kf()) ==> store_view(r.entries@) == store_view(rows@),
{
    let mut r = Store::new();
    let mut i: usize = 0;
    while i < rows.len()
        invariant
            i <= rows@.len(),
            r.wf(),
            keys_unique(store_view(rows@), store_kf()) ==> store_view(r.entries@) == store_view(
                rows@,
            ).take(i as int),
        decreases rows@.len() - i,
    {
        let key = crate::bytes::copy_bytes(&rows[i].0);
        let value = crate::bytes::copy_bytes(&rows[i].1);
        let ghost rprev = r.entries@;
        let ghost mprev = r@;
        r.insert_absolute(key, value, rows[i].2);
        i += 1;
        proof {
            let rv = store_view(rows@);
            if keys_unique(rv, store_kf()) {
                lemma_assoc_map_domain(store_view(rprev), store_kf(), store_vf());
                assert(!mprev.contains_key(rv[i - 1].0)) by {
                    if crate::assoc::has_key(store_view(rprev), store_kf(), rv[i - 1].0) {
                        let j = choose|j: int|
                            0 <= j < store_view(rprev).len() && store_kf()(
                                #[trigger] store_view(rprev)[j],
                            ) == rv[i - 1].0;
                        assert(store_view(rprev)[j] == rv.take(i - 1)[j]);
                        assert(store_kf()(rv[j]) == store_kf()(rv[i - 1]));
                    }
                }
                assert(store_view(r.entries@) =~= rv.take(i as int));
            }
        }
    }
    proof {
        assert(store_view(rows@).take(rows@.len() as int) =~= store_view(rows@));
    }
    r
}

/// Reads a count-prefixed id/key table.
fn read_kv_table(b: &Vec<u8>, pos: usize) -> (r: Option<(Vec<(VaultId, Key)>, usize)>)
    ensures
        match r {
            Some((v, p)) => parse_kv_list(b@, pos as int) == Some((kv_view(v@), p as int))
                && forall|i: int|
                0 <= i < v@.len() ==> (#[trigger] v@[i]).0.wf() && v@[i].1.wf(),
            None => parse_kv_list(b@, pos as int) is None,
        },
{
    let (n, p0) = match read_u64(b, pos) {
        Some(x) => x,
        None => {
            return None;
        },
    };
    let mut v: Vec<(VaultId, Key)> = Vec::new();
    let mut p: usize = p0;
    let mut i: u64 = 0;
    while i < n
        invariant
            i <= n,
            parse_kv_list(b@, pos as int) == (match parse_kv_items(b@, p as int, (n - i) as nat) {
                Some((rest, pp)) => Some((kv_view(v@) + rest, pp)),
                None => None::<(Seq<(Seq<u8>, Seq<u8>)>, int)>,
            }),
            forall|j: int| 0 <= j < v@.len() ==> (#[trigger] v@[j]).0.wf() && v@[j].1.wf(),
        decreases n - i,
    {
        let ghost pold = p as int;
        let ghost vold = v@;
        let ghost left = (n - i) as nat;
        let (idb, p1) = match read_exact(b, p, ID_LEN) {
            Some(x) => x,
            None => {
                proof {
                    assert(parse_kv_items(b@, pold, left) is None);
                }
                return None;
            },
        };
        let (keyb, p2) = match read_exact(b, p1, KEY_LEN) {
            Some(x) => x,
            None => {
                proof {
                    assert(parse_kv_items(b@, pold, left) is None);
                }
                return None;
            },
        };
        let ghost e = (idb@, keyb@);
        v.push((VaultId { bytes: idb }, Key { bytes: keyb }));
        p = p2;
        i = i + 1;
        proof {
            assert(parse_kv_entry(b@, pold) == Some((e, p as int)));
            assert(kv_view(v@) =~= kv_view(vold).push(e));
            match parse_kv_items(b@, p as int, (n - i) as nat) {
                Some((rest2, pp)) => {
                    assert(parse_kv_items(b@, pold, left) == Some((seq![e] + rest2, pp)));
                    assert(kv_view(vold) + (seq![e] + rest2) =~= kv_view(v@) + rest2);
                },
                None => {
                    assert(parse_kv_items(b@, pold, left) is None);
                },
            }
        }
    }
    proof {
        assert(parse_kv_items(b@, p as int, 0) == Some((Seq::<(Seq<u8>, Seq<u8>)>::empty(),
            p as int)));
        assert(kv_view(v@) + Seq::<(Seq<u8>, Seq<u8>)>::empty() =~= kv_view(v@));
    }
    Some((v, p))
}

/// Reads a count-prefixed store table.
fn read_store_table(b: &Vec<u8>, pos: usize) -> (r: Option<(Vec<StoreEntry>, usize)>)
    ensures
        match r {
            Some((v, p)) => parse_store_list(b@, pos as int) == Some((store_view(v@), p as int)),
            None => parse_store_list(b@, pos as int) is None,
        },
{
    let (n, p0) = match read_u64(b, pos) {
        Some(x) => x,
        None => {
            return None;
        },
    };
    let mut v: Vec<StoreEntry> = Vec::new();
    let mut p: usize = p0;
    let mut i: u64 = 0;
    while i < n
        invariant
            i <= n,
            parse_store_list(b@, pos as int) == (match parse_store_items(
                b@,
                p as int,
                (n - i) as nat,
            ) {
                Some((rest, pp)) => Some((store_view(v@) + rest, pp)),
                None => None::<(Seq<(Seq<u8>, (Seq<u8>, Option<u64>))>, int)>,
            }),
        decreases n - i,
    {
        let ghost pold = p as int;
        let ghost vold = v@;
        let ghost left = (n - i) as nat;
        let (kb, p1) = match read_var(b, p) {
            Some(x) => x,
            None => {
                proof {
                    assert(parse_store_items(b@, pold, left) is None);
                }
                return None;
            },
        };
        let (vb, p2) = match read_var(b, p1) {
            Some(x) => x,
            None => {
                proof {
                    assert(parse_store_items(b@, pold, left) is None);
                }
                return None;
            },
        };
        let (ob, p3) = match read_opt(b, p2) {
            Some(x) => x,
            None => {
                proof {
                    assert(parse_store_items(b@, pold, left) is None);
                }
                return None;
            },
        };
        let ghost e = (kb@, (vb@, ob));
        v.push((kb, vb, ob));
        p = p3;
        i = i + 1;
        proof {
            assert(parse_store_entry(b@, pold) == Some((e, p as int)));
            assert(store_view(v@) =~= store_view(vold).push(e));
            match parse_store_items(b@, p as int, (n - i) as nat) {
                Some((rest2, pp)) => {
                    assert(parse_store_items(b@, pold, left) == Some((seq![e] + rest2, pp)));
                    assert(store_view(vold) + (seq![e] + rest2) =~= store_view(v@) + rest2);
                },
                None => {
                    assert(parse_store_items(b@, pold, left) is None);
                },
            }
        }
    }
    proof {
        assert(parse_store_items(b@, p as int, 0) == Some((Seq::<
            (Seq<u8>, (Seq<u8>, Option<u64>)),
        >::empty(), p as int)));
        assert(store_view(v@) + Seq::<(Seq<u8>, (Seq<u8>, Option<u64>))>::empty() =~= store_view(
            v@,
        ));
    }
    Some((v, p))
}

/// All client rows and all tables within them have unique keys.
pub open spec fn rows_tables_unique(rows: Seq<(Seq<u8>, TripleView)>) -> bool {
    &&& keys_unique(rows, state_kf())
    &&& forall|i: int|
        0 <= i < rows.len() ==> keys_unique((#[trigger] rows[i]).1.0, kv_kf()) && keys_unique(
            rows[i].1.1,
            kv_kf(),
        ) && keys_unique(rows[i].1.2, store_kf())
}

/// Deserializes a snapshot state.  Succeeds exactly when the parser accepts
/// the bytes; when the parsed rows have unique keys throughout, as every
/// serialized well-formed state does, the result holds exactly those rows.
#[verifier::rlimit(100)]
pub fn decode_state(b: &Vec<u8>) -> (r: Option<SnapshotState>)
    ensures
        r is Some <==> parse_state(b@, 0) is Some,
        r matches Some(st) ==> st.wf(),
        match parse_state(b@, 0) {
            Some((rows, pp)) => rows_tables_unique(rows) ==> (r matches Some(st) && state_view(
                st.clients@,
            ) == rows),
            None => true,
        },
{
    let (n, p0) = match read_u64(b, 0) {
        Some(x) => x,
        None => {
            return None;
        },
    };
    let mut st = SnapshotState::new();
    let ghost rows_acc = Seq::<(Seq<u8>, TripleView)>::empty();
    let mut p: usize = p0;
    let mut i: u64 = 0;
    proof {
        assert(state_view(st.clients@) =~= rows_acc);
    }
    while i < n
        invariant
            i <= n,
            st.wf(),
            parse_state(b@, 0) == (match parse_client_items(b@, p as int, (n - i) as nat) {
                Some((rest, pp)) => Some((rows_acc + rest, pp)),
                None => None::<(Seq<(Seq<u8>, TripleView)>, int)>,
            }),
            rows_tables_unique(rows_acc) ==> state_view(st.clients@) == rows_acc,
        decreases n - i,
    {
        let ghost pold = p as int;
        let ghost sold = st.clients@;
        let ghost rows_old = rows_acc;
        let ghost left = (n - i) as nat;
        let (idb, p1) = match read_exact(b, p, ID_LEN) {
            Some(x) => x,
            None => {
                proof {
                    assert(parse_client_items(b@, pold, left) is None);
                }
                return None;
            },
        };
        let (krows, p2) = match read_kv_table(b, p1) {
            Some(x) => x,
            None => {
                proof {
                    assert(parse_client_items(b@, pold, left) is None);
                }
                return None;
            },
        };
        let (drows, p3) = match read_kv_table(b, p2) {
            Some(x) => x,
            None => {
                proof {
                    assert(parse_client_items(b@, pold, left) is None);
                }
                return None;
            },
        };
        let (srows, p4) = match read_store_table(b, p3) {
            Some(x) => x,
            None => {
                proof {
                    assert(parse_client_items(b@, pold, left) is None);
                }
                return None;
            },
        };
        let ghost rowv = (idb@, (kv_view(krows@), kv_view(drows@), store_view(srows@)));
        let id = ClientId { bytes: idb };
        let triple = ClientTriple {
            keys: KeyStore { entries: kv_dedup(krows) },
            db: DbView { vaults: kv_dedup(drows) },
            store: store_from_rows(&srows),
        };
        st.add_data(id, triple);
        p = p4;
        i = i + 1;
        proof {
            rows_acc = rows_old.push(rowv);
            assert(parse_client(b@, pold) == Some((rowv, p as int)));
            match parse_client_items(b@, p as int, (n - i) as nat) {
                Some((rest2, pp)) => {
                    assert(parse_client_items(b@, pold, left) == Some((seq![rowv] + rest2, pp)));
                    assert(rows_old + (seq![rowv] + rest2) =~= rows_acc + rest2);
                },
                None => {
                    assert(parse_client_items(b@, pold, left) is None);
                },
            }
            if rows_tables_unique(rows_acc) {
                assert(keys_unique(rows_old, state_kf())) by {
                    assert forall|a: int, c: int|
                        0 <= a < c < rows_old.len() implies state_kf()(rows_old[a]) != state_kf()(
                        rows_old[c],
                    ) by {
                        assert(rows_old[a] == rows_acc[a] && rows_old[c] == rows_acc[c]);
                    }
                }
                assert forall|j: int|
                    0 <= j < rows_old.len() implies keys_unique(
                    (#[trigger] rows_old[j]).1.0,
                    kv_kf(),
                ) && keys_unique(rows_old[j].1.1, kv_kf()) && keys_unique(
                    rows_old[j].1.2,
                    store_kf(),
                ) by {
                    assert(rows_old[j] == rows_acc[j]);
                }
                assert(rows_tables_unique(rows_old));
                assert(state_view(sold) == rows_old);
                assert(keys_unique(rowv.1.0, kv_kf()) && keys_unique(rowv.1.1, kv_kf())
                    && keys_unique(rowv.1.2, store_kf())) by {
                    assert(rows_acc[rows_acc.len() - 1] == rowv);
                }
                assert(triple@ == rowv.1);
                lemma_assoc_map_domain(state_view(sold), state_kf(), state_vf());
                assert(!assoc_map(state_view(sold), state_kf(), state_vf()).contains_key(rowv.0))
                    by {
                    if crate::assoc::has_key(state_view(sold), state_kf(), rowv.0) {
                        let j = choose|j: int|
                            0 <= j < state_view(sold).len() && state_kf()(
                                #[trigger] state_view(sold)[j],
                            ) == rowv.0;
                        assert(rows_old[j].0 == rowv.0);
                        assert(rows_acc[j].0 == rows_acc[rows_acc.len() - 1].0);
                    }
                }
                assert(state_view(st.clients@) =~= rows_acc);
            }
        }
    }
    proof {
        assert(parse_client_items(b@, p as int, 0) == Some((Seq::<(Seq<u8>, TripleView)>::empty(),
            p as int)));
        assert(rows_acc + Seq::<(Seq<u8>, TripleView)>::empty() =~= rows_acc);
    }
    Some(st)
}

} // verus!
