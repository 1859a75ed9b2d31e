//! The byte format of a serialized snapshot state, with a proof that
//! decoding recovers whatever was encoded: little-endian length-prefixed
//! fields, fixed-width identifiers and keys, and count-prefixed entry lists.

use vstd::prelude::*;

use crate::{ID_LEN, KEY_LEN};

verus! {

/// The eight-byte little-endian rendering of a length or count.
pub open spec fn enc_u64(n: nat) -> Seq<u8> {
    seq![
        (n % 256) as u8,
        ((n / 256) % 256) as u8,
        ((n / 65536) % 256) as u8,
        ((n / 16777216) % 256) as u8,
        ((n / 4294967296) % 256) as u8,
        ((n / 1099511627776) % 256) as u8,
        ((n / 281474976710656) % 256) as u8,
        ((n / 72057594037927936) % 256) as u8,
    ]
}

/// The number read back from eight little-endian bytes.
pub open spec fn val8(s: Seq<u8>) -> nat {
    (s[0] + 256 * s[1] + 65536 * s[2] + 16777216 * s[3] + 4294967296 * s[4] + 1099511627776 * s[5]
        + 281474976710656 * s[6] + 72057594037927936 * s[7]) as nat
}

/// Reading back the rendering of `n` yields `n`.
pub proof fn lemma_val8_enc(n: nat)
    requires
        n < 0x1_0000_0000_0000_0000,
    ensures
        val8(enc_u64(n)) == n,
{
    vstd::arithmetic::div_mod::lemma_div_denominator(n as int, 256, 256);
    vstd::arithmetic::div_mod::lemma_div_denominator(n as int, 65536, 256);
    vstd::arithmetic::div_mod::lemma_div_denominator(n as int, 16777216, 256);
    vstd::arithmetic::div_mod::lemma_div_denominator(n as int, 4294967296, 256);
    vstd::arithmetic::div_mod::lemma_div_denominator(n as int, 1099511627776, 256);
    vstd::arithmetic::div_mod::lemma_div_denominator(n as int, 281474976710656, 256);
    vstd::arithmetic::div_mod::lemma_div_denominator(n as int, 72057594037927936, 256);
    vstd::arithmetic::div_mod::lemma_fundamental_div_mod(n as int, 256);
    vstd::arithmetic::div_mod::lemma_fundamental_div_mod(n as int / 256, 256);
    vstd::arithmetic::div_mod::lemma_fundamental_div_mod(n as int / 65536, 256);
    vstd::arithmetic::div_mod::lemma_fundamental_div_mod(n as int / 16777216, 256);
    vstd::arithmetic::div_mod::lemma_fundamental_div_mod(n as int / 4294967296, 256);
    vstd::arithmetic::div_mod::lemma_fundamental_div_mod(n as int / 1099511627776, 256);
    vstd::arithmetic::div_mod::lemma_fundamental_div_mod(n as int / 281474976710656, 256);
    vstd::arithmetic::div_mod::lemma_fundamental_div_mod(n as int / 72057594037927936, 256);
    assert(n as int / 72057594037927936 / 256 == 0) by (nonlinear_arith)
        requires
            0 <= n < 0x1_0000_0000_0000_0000,
            n as int / 72057594037927936 / 256 == n as int / 18446744073709551616,
    ;
}

/// A length-prefixed byte string.
pub open spec fn enc_bytes(b: Seq<u8>) -> Seq<u8> {
    enc_u64(b.len()) + b
}

/// A tagged optional expiry, always nine bytes.
pub open spec fn enc_opt(o: Option<u64>) -> Seq<u8> {
    match o {
        None => seq![0u8] + enc_u64(0),
        Some(e) => seq![1u8] + enc_u64(e as nat),
    }
}

/// One id/key row: fixed-width id bytes then fixed-width key bytes.
pub open spec fn enc_kv_entry(p: (Seq<u8>, Seq<u8>)) -> Seq<u8> {
    p.0 + p.1
}

pub open spec fn enc_kv_items(s: Seq<(Seq<u8>, Seq<u8>)>) -> Seq<u8>
    decreases s.len(),
{
    if s.len() == 0 {
        Seq::empty()
    } else {
        enc_kv_entry(s[0]) + enc_kv_items(s.drop_first())
    }
}

/// A count-prefixed id/key table.
pub open spec fn enc_kv_list(s: Seq<(Seq<u8>, Seq<u8>)>) -> Seq<u8> {
    enc_u64(s.len()) + enc_kv_items(s)
}

/// One store row: key, value, optional expiry.
pub open spec fn enc_store_entry(p: (Seq<u8>, (Seq<u8>, Option<u64>))) -> Seq<u8> {
    enc_bytes(p.0) + enc_bytes(p.1.0) + enc_opt(p.1.1)
}

pub open spec fn enc_store_items(s: Seq<(Seq<u8>, (Seq<u8>, Option<u64>))>) -> Seq<u8>
    decreases s.len(),
{
    if s.len() == 0 {
        Seq::empty()
    } else {
        enc_store_entry(s[0]) + enc_store_items(s.drop_first())
    }
}

/// A count-prefixed store table.
pub open spec fn enc_store_list(s: Seq<(Seq<u8>, (Seq<u8>, Option<u64>))>) -> Seq<u8> {
    enc_u64(s.len()) + enc_store_items(s)
}

/// The view of one client's exported triple: key map rows, db vault rows,
/// store rows.
pub type TripleView = (
    Seq<(Seq<u8>, Seq<u8>)>,
    Seq<(Seq<u8>, Seq<u8>)>,
    Seq<(Seq<u8>, (Seq<u8>, Option<u64>))>,
);

/// One client's triple: its three tables in order.
pub open spec fn enc_triple(t: TripleView) -> Seq<u8> {
    enc_kv_list(t.0) + enc_kv_list(t.1) + enc_store_list(t.2)
}

/// One client row: fixed-width client id, then the triple.
pub open spec fn enc_client(c: (Seq<u8>, TripleView)) -> Seq<u8> {
    c.0 + enc_triple(c.1)
}

pub open spec fn enc_client_items(s: Seq<(Seq<u8>, TripleView)>) -> Seq<u8>
    decreases s.len(),
{
    if s.len() == 0 {
        Seq::empty()
    } else {
        enc_client(s[0]) + enc_client_items(s.drop_first())
    }
}

/// A whole snapshot state: a count-prefixed client table.
pub open spec fn enc_state(s: Seq<(Seq<u8>, TripleView)>) -> Seq<u8> {
    enc_u64(s.len()) + enc_client_items(s)
}

/// Appending one entry extends the rendered items at the end.
pub proof fn lemma_enc_kv_items_snoc(s: Seq<(Seq<u8>, Seq<u8>)>, e: (Seq<u8>, Seq<u8>))
    ensures
        enc_kv_items(s.push(e)) == enc_kv_items(s) + enc_kv_entry(e),
    decreases s.len(),
{
    if s.len() == 0 {
        assert(s.push(e)[0] == e);
        assert(s.push(e).drop_first() =~= Seq::<(Seq<u8>, Seq<u8>)>::empty());
        assert(enc_kv_items(Seq::<(Seq<u8>, Seq<u8>)>::empty()) == Seq::<u8>::empty());
        assert(enc_kv_items(s.push(e)) == enc_kv_entry(e) + Seq::<u8>::empty());
        assert(enc_kv_items(s.push(e)) =~= enc_kv_items(s) + enc_kv_entry(e));
    } else {
        assert(s.push(e).drop_first() =~= s.drop_first().push(e));
        lemma_enc_kv_items_snoc(s.drop_first(), e);
        assert(s.push(e)[0] == s[0]);
        assert(enc_kv_items(s.push(e)) == enc_kv_entry(s[0]) + enc_kv_items(s.push(e).drop_first()));
        assert(enc_kv_items(s.push(e).drop_first()) == enc_kv_items(s.drop_first().push(e)));
        assert(enc_kv_items(s.drop_first().push(e)) == enc_kv_items(s.drop_first()) + enc_kv_entry(e));
        assert(enc_kv_items(s) == enc_kv_entry(s[0]) + enc_kv_items(s.drop_first()));
        assert(enc_kv_items(s.push(e)) =~= enc_kv_items(s) + enc_kv_entry(e));
    }
}

pub proof fn lemma_enc_store_items_snoc(
    s: Seq<(Seq<u8>, (Seq<u8>, Option<u64>))>,
    e: (Seq<u8>, (Seq<u8>, Option<u64>)),
)
    ensures
        enc_store_items(s.push(e)) == enc_store_items(s) + enc_store_entry(e),
    decreases s.len(),
{
    if s.len() == 0 {
        assert(s.push(e)[0] == e);
        assert(s.push(e).drop_first() =~= Seq::<(Seq<u8>, (Seq<u8>, Option<u64>))>::empty());
        assert(enc_store_items(Seq::<(Seq<u8>, (Seq<u8>, Option<u64>))>::empty())
            == Seq::<u8>::empty());
        assert(enc_store_items(s.push(e)) == enc_store_entry(e) + Seq::<u8>::empty());
        assert(enc_store_items(s.push(e)) =~= enc_store_items(s) + enc_store_entry(e));
    } else {
        assert(s.push(e).drop_first() =~= s.drop_first().push(e));
        lemma_enc_store_items_snoc(s.drop_first(), e);
        assert(s.push(e)[0] == s[0]);
        assert(enc_store_items(s.push(e)) == enc_store_entry(s[0]) + enc_store_items(s.push(e).drop_first()));
        assert(enc_store_items(s.push(e).drop_first()) == enc_store_items(s.drop_first().push(e)));
        assert(enc_store_items(s.drop_first().push(e)) == enc_store_items(s.drop_first()) + enc_store_entry(e));
        assert(enc_store_items(s) == enc_store_entry(s[0]) + enc_store_items(s.drop_first()));
        assert(enc_store_items(s.push(e)) =~= enc_store_items(s) + enc_store_entry(e));
    }
}

pub proof fn lemma_enc_client_items_snoc(s: Seq<(Seq<u8>, TripleView)>, e: (Seq<u8>, TripleView))
    ensures
        enc_client_items(s.push(e)) == enc_client_items(s) + enc_client(e),
    decreases s.len(),
{
    if s.len() == 0 {
        assert(s.push(e)[0] == e);
        assert(s.push(e).drop_first() =~= Seq::<(Seq<u8>, TripleView)>::empty());
        assert(enc_client_items(Seq::<(Seq<u8>, TripleView)>::empty()) == Seq::<u8>::empty());
        assert(enc_client_items(s.push(e)) == enc_client(e) + Seq::<u8>::empty());
        assert(enc_client_items(s.push(e)) =~= enc_client_items(s) + enc_client(e));
    } else {
        assert(s.push(e).drop_first() =~= s.drop_first().push(e));
        lemma_enc_client_items_snoc(s.drop_first(), e);
        assert(s.push(e)[0] == s[0]);
        assert(enc_client_items(s.push(e)) == enc_client(s[0]) + enc_client_items(s.push(e).drop_first()));
        assert(enc_client_items(s.push(e).drop_first()) == enc_client_items(s.drop_first().push(e)));
        assert(enc_client_items(s.drop_first().push(e)) == enc_client_items(s.drop_first()) + enc_client(e));
        assert(enc_client_items(s) == enc_client(s[0]) + enc_client_items(s.drop_first()));
        assert(enc_client_items(s.push(e)) =~= enc_client_items(s) + enc_client(e));
    }
}

/// A concatenation seen through a subrange splits into its two parts.
pub proof fn lemma_subrange_split(b: Seq<u8>, pos: int, x: Seq<u8>, y: Seq<u8>)
    requires
        0 <= pos,
        pos + x.len() + y.len() <= b.len(),
        b.subrange(pos, pos + x.len() + y.len()) == x + y,
    ensures
        b.subrange(pos, pos + x.len()) == x,
        b.subrange(pos + x.len(), pos + x.len() + y.len()) == y,
{
    let w = b.subrange(pos, pos + x.len() + y.len());
    assert forall|i: int| 0 <= i < x.len() implies b.subrange(pos, pos + x.len())[i] == x[i] by {
        assert(w[i] == (x + y)[i]);
    }
    assert(b.subrange(pos, pos + x.len()) =~= x);
    assert forall|i: int|
        0 <= i < y.len() implies b.subrange(pos + x.len(), pos + x.len() + y.len())[i] == y[i] by {
        assert(w[x.len() + i] == (x + y)[x.len() + i]);
    }
    assert(b.subrange(pos + x.len(), pos + x.len() + y.len()) =~= y);
}


/// Parses eight little-endian bytes at `pos`.
pub open spec fn parse_u64(b: Seq<u8>, pos: int) -> Option<(nat, int)> {
    if 0 <= pos && pos + 8 <= b.len() {
        Some((val8(b.subrange(pos, pos + 8)), pos + 8))
    } else {
        None
    }
}

/// Parses `n` raw bytes at `pos`.
pub open spec fn parse_fixed(b: Seq<u8>, pos: int, n: int) -> Option<(Seq<u8>, int)> {
    if 0 <= pos && 0 <= n && pos + n <= b.len() {
        Some((b.subrange(pos, pos + n), pos + n))
    } else {
        None
    }
}

/// Parses a length-prefixed byte string at `pos`.
pub open spec fn parse_bytes(b: Seq<u8>, pos: int) -> Option<(Seq<u8>, int)> {
    match parse_u64(b, pos) {
        Some((l, p)) => {
            if l <= usize::MAX as nat {
                parse_fixed(b, p, l as int)
            } else {
                None
            }
        },
        None => None,
    }
}

/// Parses a tagged optional expiry at `pos`.
pub open spec fn parse_opt(b: Seq<u8>, pos: int) -> Option<(Option<u64>, int)> {
    if 0 <= pos && pos + 1 <= b.len() {
        match parse_u64(b, pos + 1) {
            Some((v, p)) => {
                if b[pos] == 0 {
                    Some((None, p))
                } else if b[pos] == 1 {
                    Some((Some(v as u64), p))
                } else {
                    None
                }
            },
            None => None,
        }
    } else {
        None
    }
}

/// Parses one id/key row.
pub open spec fn parse_kv_entry(b: Seq<u8>, pos: int) -> Option<((Seq<u8>, Seq<u8>), int)> {
    match parse_fixed(b, pos, ID_LEN as int) {
        Some((id, p1)) => match parse_fixed(b, p1, KEY_LEN as int) {
            Some((k, p2)) => Some(((id, k), p2)),
            None => None,
        },
        None => None,
    }
}

/// Parses `n` id/key rows.
pub open spec fn parse_kv_items(b: Seq<u8>, pos: int, n: nat) -> Option<
    (Seq<(Seq<u8>, Seq<u8>)>, int),
>
    decreases n,
{
    if n == 0 {
        Some((Seq::empty(), pos))
    } else {
        match parse_kv_entry(b, pos) {
            Some((e, p1)) => match parse_kv_items(b, p1, (n - 1) as nat) {
                Some((rest, p2)) => Some((seq![e] + rest, p2)),
                None => None,
            },
            None => None,
        }
    }
}

/// Parses a count-prefixed id/key table.
pub open spec fn parse_kv_list(b: Seq<u8>, pos: int) -> Option<(Seq<(Seq<u8>, Seq<u8>)>, int)> {
    match parse_u64(b, pos) {
        Some((n, p)) => parse_kv_items(b, p, n),
        None => None,
    }
}

/// Parses one store row.
pub open spec fn parse_store_entry(b: Seq<u8>, pos: int) -> Option<
    ((Seq<u8>, (Seq<u8>, Option<u64>)), int),
> {
    match parse_bytes(b, pos) {
        Some((k, p1)) => match parse_bytes(b, p1) {
            Some((v, p2)) => match parse_opt(b, p2) {
                Some((o, p3)) => Some(((k, (v, o)), p3)),
                None => None,
            },
            None => None,
        },
        None => None,
    }
}

/// Parses `n` store rows.
pub open spec fn parse_store_items(b: Seq<u8>, pos: int, n: nat) -> Option<
    (Seq<(Seq<u8>, (Seq<u8>, Option<u64>))>, int),
>
    decreases n,
{
    if n == 0 {
        Some((Seq::empty(), pos))
    } else {
        match parse_store_entry(b, pos) {
            Some((e, p1)) => match parse_store_items(b, p1, (n - 1) as nat) {
                Some((rest, p2)) => Some((seq![e] + rest, p2)),
                None => None,
            },
            None => None,
        }
    }
}

/// Parses a count-prefixed store table.
pub open spec fn parse_store_list(b: Seq<u8>, pos: int) -> Option<
    (Seq<(Seq<u8>, (Seq<u8>, Option<u64>))>, int),
> {
    match parse_u64(b, pos) {
        Some((n, p)) => parse_store_items(b, p, n),
        None => None,
    }
}

/// Parses one client's triple: its three tables in order.
pub open spec fn parse_triple(b: Seq<u8>, pos: int) -> Option<(TripleView, int)> {
    match parse_kv_list(b, pos) {
        Some((ks, p1)) => match parse_kv_list(b, p1) {
            Some((vs, p2)) => match parse_store_list(b, p2) {
                Some((st, p3)) => Some(((ks, vs, st), p3)),
                None => None,
            },
            None => None,
        },
        None => None,
    }
}

/// Parses one client row.
pub open spec fn parse_client(b: Seq<u8>, pos: int) -> Option<((Seq<u8>, TripleView), int)> {
    match parse_fixed(b, pos, ID_LEN as int) {
        Some((id, p1)) => match parse_triple(b, p1) {
            Some((t, p2)) => Some(((id, t), p2)),
            None => None,
        },
        None => None,
    }
}

/// Parses `n` client rows.
pub open spec fn parse_client_items(b: Seq<u8>, pos: int, n: nat) -> Option<
    (Seq<(Seq<u8>, TripleView)>, int),
>
    decreases n,
{
    if n == 0 {
        Some((Seq::empty(), pos))
    } else {
        match parse_client(b, pos) {
            Some((e, p1)) => match parse_client_items(b, p1, (n - 1) as nat) {
                Some((rest, p2)) => Some((seq![e] + rest, p2)),
                None => None,
            },
            None => None,
        }
    }
}

/// Parses a whole snapshot state.
pub open spec fn parse_state(b: Seq<u8>, pos: int) -> Option<(Seq<(Seq<u8>, TripleView)>, int)> {
    match parse_u64(b, pos) {
        Some((n, p)) => parse_client_items(b, p, n),
        None => None,
    }
}


/// Id/key rows whose fields have the fixed identifier and key widths.
pub open spec fn kv_rows_lens_ok(s: Seq<(Seq<u8>, Seq<u8>)>) -> bool {
    forall|i: int|
        0 <= i < s.len() ==> (#[trigger] s[i]).0.len() == ID_LEN as nat && s[i].1.len()
            == KEY_LEN as nat
}

/// Store rows whose byte strings fit a machine length.
pub open spec fn store_rows_lens_ok(s: Seq<(Seq<u8>, (Seq<u8>, Option<u64>))>) -> bool {
    forall|i: int|
        0 <= i < s.len() ==> (#[trigger] s[i]).0.len() <= usize::MAX as nat && s[i].1.0.len()
            <= usize::MAX as nat
}

/// All three tables of a triple have admissible field widths.
pub open spec fn triple_lens_ok(t: TripleView) -> bool {
    kv_rows_lens_ok(t.0) && kv_rows_lens_ok(t.1) && store_rows_lens_ok(t.2)
}

/// All client rows have admissible field widths.
pub open spec fn rows_lens_ok(rows: Seq<(Seq<u8>, TripleView)>) -> bool {
    forall|i: int|
        0 <= i < rows.len() ==> (#[trigger] rows[i]).0.len() == ID_LEN as nat && triple_lens_ok(
            rows[i].1,
        )
}

pub proof fn lemma_parse_u64_complete(b: Seq<u8>, pos: int, n: nat)
    requires
        0 <= pos,
        pos + 8 <= b.len(),
        n < 0x1_0000_0000_0000_0000,
        b.subrange(pos, pos + 8) == enc_u64(n),
    ensures
        parse_u64(b, pos) == Some((n, pos + 8)),
{
    lemma_val8_enc(n);
}

pub proof fn lemma_parse_bytes_complete(b: Seq<u8>, pos: int, x: Seq<u8>)
    requires
        0 <= pos,
        x.len() <= usize::MAX as nat,
        pos + enc_bytes(x).len() <= b.len(),
        b.subrange(pos, pos + enc_bytes(x).len()) == enc_bytes(x),
    ensures
        parse_bytes(b, pos) == Some((x, pos + 8 + x.len())),
{
    lemma_subrange_split(b, pos, enc_u64(x.len()), x);
    lemma_parse_u64_complete(b, pos, x.len());
}

pub proof fn lemma_parse_opt_complete(b: Seq<u8>, pos: int, o: Option<u64>)
    requires
        0 <= pos,
        pos + 9 <= b.len(),
        b.subrange(pos, pos + 9) == enc_opt(o),
    ensures
        parse_opt(b, pos) == Some((o, pos + 9)),
{
    match o {
        None => {
            lemma_subrange_split(b, pos, seq![0u8], enc_u64(0));
            assert(b[pos] == b.subrange(pos, pos + 1)[0]);
            lemma_parse_u64_complete(b, pos + 1, 0);
        },
        Some(e) => {
            lemma_subrange_split(b, pos, seq![1u8], enc_u64(e as nat));
            assert(b[pos] == b.subrange(pos, pos + 1)[0]);
            lemma_parse_u64_complete(b, pos + 1, e as nat);
        },
    }
}

pub proof fn lemma_parse_kv_entry_complete(b: Seq<u8>, pos: int, p: (Seq<u8>, Seq<u8>))
    requires
        0 <= pos,
        p.0.len() == ID_LEN as nat,
        p.1.len() == KEY_LEN as nat,
        pos + enc_kv_entry(p).len() <= b.len(),
        b.subrange(pos, pos + enc_kv_entry(p).len()) == enc_kv_entry(p),
    ensures
        parse_kv_entry(b, pos) == Some((p, pos + enc_kv_entry(p).len())),
{
    lemma_subrange_split(b, pos, p.0, p.1);
}

pub proof fn lemma_parse_kv_items_complete(b: Seq<u8>, pos: int, s: Seq<(Seq<u8>, Seq<u8>)>)
    requires
        0 <= pos,
        kv_rows_lens_ok(s),
        pos + enc_kv_items(s).len() <= b.len(),
        b.subrange(pos, pos + enc_kv_items(s).len()) == enc_kv_items(s),
    ensures
        parse_kv_items(b, pos, s.len()) == Some((s, pos + enc_kv_items(s).len())),
    decreases s.len(),
{
    if s.len() == 0 {
        assert(s =~= Seq::<(Seq<u8>, Seq<u8>)>::empty());
    } else {
        assert(enc_kv_items(s) == enc_kv_entry(s[0]) + enc_kv_items(s.drop_first()));
        lemma_subrange_split(b, pos, enc_kv_entry(s[0]), enc_kv_items(s.drop_first()));
        lemma_parse_kv_entry_complete(b, pos, s[0]);
        assert(kv_rows_lens_ok(s.drop_first())) by {
            assert forall|i: int|
                0 <= i < s.drop_first().len() implies (#[trigger] s.drop_first()[i]).0.len()
                == ID_LEN as nat && s.drop_first()[i].1.len() == KEY_LEN as nat by {
                assert(s.drop_first()[i] == s[i + 1]);
            }
        }
        lemma_parse_kv_items_complete(b, pos + enc_kv_entry(s[0]).len(), s.drop_first());
        assert(seq![s[0]] + s.drop_first() =~= s);
    }
}

#[verifier::rlimit(100)]
pub proof fn lemma_parse_store_entry_complete(
    b: Seq<u8>,
    pos: int,
    p: (Seq<u8>, (Seq<u8>, Option<u64>)),
)
    requires
        0 <= pos,
        p.0.len() <= usize::MAX as nat,
        p.1.0.len() <= usize::MAX as nat,
        pos + enc_store_entry(p).len() <= b.len(),
        b.subrange(pos, pos + enc_store_entry(p).len()) == enc_store_entry(p),
    ensures
        parse_store_entry(b, pos) == Some((p, pos + enc_store_entry(p).len())),
{
    assert(enc_store_entry(p) =~= enc_bytes(p.0) + (enc_bytes(p.1.0) + enc_opt(p.1.1)));
    lemma_subrange_split(b, pos, enc_bytes(p.0), enc_bytes(p.1.0) + enc_opt(p.1.1));
    lemma_parse_bytes_complete(b, pos, p.0);
    let p1 = pos + enc_bytes(p.0).len();
    lemma_subrange_split(b, p1, enc_bytes(p.1.0), enc_opt(p.1.1));
    lemma_parse_bytes_complete(b, p1, p.1.0);
    let p2 = p1 + enc_bytes(p.1.0).len();
    lemma_parse_opt_complete(b, p2, p.1.1);
}

pub proof fn lemma_parse_store_items_complete(
    b: Seq<u8>,
    pos: int,
    s: Seq<(Seq<u8>, (Seq<u8>, Option<u64>))>,
)
    requires
        0 <= pos,
        store_rows_lens_ok(s),
        pos + enc_store_items(s).len() <= b.len(),
        b.subrange(pos, pos + enc_store_items(s).len()) == enc_store_items(s),
    ensures
        parse_store_items(b, pos, s.len()) == Some((s, pos + enc_store_items(s).len())),
    decreases s.len(),
{
    if s.len() == 0 {
        assert(s =~= Seq::<(Seq<u8>, (Seq<u8>, Option<u64>))>::empty());
    } else {
        assert(enc_store_items(s) == enc_store_entry(s[0]) + enc_store_items(s.drop_first()));
        lemma_subrange_split(b, pos, enc_store_entry(s[0]), enc_store_items(s.drop_first()));
        lemma_parse_store_entry_complete(b, pos, s[0]);
        assert(store_rows_lens_ok(s.drop_first())) by {
            assert forall|i: int|
                0 <= i < s.drop_first().len() implies (#[trigger] s.drop_first()[i]).0.len()
                <= usize::MAX as nat && s.drop_first()[i].1.0.len() <= usize::MAX as nat by {
                assert(s.drop_first()[i] == s[i + 1]);
            }
        }
        lemma_parse_store_items_complete(b, pos + enc_store_entry(s[0]).len(), s.drop_first());
        assert(seq![s[0]] + s.drop_first() =~= s);
    }
}

#[verifier::rlimit(100)]
pub proof fn lemma_parse_triple_complete(b: Seq<u8>, pos: int, t: TripleView)
    requires
        0 <= pos,
        triple_lens_ok(t),
        t.0.len() < 0x1_0000_0000_0000_0000,
        t.1.len() < 0x1_0000_0000_0000_0000,
        t.2.len() < 0x1_0000_0000_0000_0000,
        pos + enc_triple(t).len() <= b.len(),
        b.subrange(pos, pos + enc_triple(t).len()) == enc_triple(t),
    ensures
        parse_triple(b, pos) == Some((t, pos + enc_triple(t).len())),
{
    assert(enc_triple(t) =~= enc_kv_list(t.0) + (enc_kv_list(t.1) + enc_store_list(t.2)));
    lemma_subrange_split(b, pos, enc_kv_list(t.0), enc_kv_list(t.1) + enc_store_list(t.2));
    lemma_subrange_split(b, pos, enc_u64(t.0.len()), enc_kv_items(t.0));
    lemma_parse_u64_complete(b, pos, t.0.len());
    lemma_parse_kv_items_complete(b, pos + 8, t.0);
    let p1 = pos + enc_kv_list(t.0).len();
    lemma_subrange_split(b, p1, enc_kv_list(t.1), enc_store_list(t.2));
    lemma_subrange_split(b, p1, enc_u64(t.1.len()), enc_kv_items(t.1));
    lemma_parse_u64_complete(b, p1, t.1.len());
    lemma_parse_kv_items_complete(b, p1 + 8, t.1);
    let p2 = p1 + enc_kv_list(t.1).len();
    lemma_subrange_split(b, p2, enc_u64(t.2.len()), enc_store_items(t.2));
    lemma_parse_u64_complete(b, p2, t.2.len());
    lemma_parse_store_items_complete(b, p2 + 8, t.2);
}

pub proof fn lemma_parse_client_complete(b: Seq<u8>, pos: int, c: (Seq<u8>, TripleView))
    requires
        0 <= pos,
        c.0.len() == ID_LEN as nat,
        triple_lens_ok(c.1),
        c.1.0.len() < 0x1_0000_0000_0000_0000,
        c.1.1.len() < 0x1_0000_0000_0000_0000,
        c.1.2.len() < 0x1_0000_0000_0000_0000,
        pos + enc_client(c).len() <= b.len(),
        b.subrange(pos, pos + enc_client(c).len()) == enc_client(c),
    ensures
        parse_client(b, pos) == Some((c, pos + enc_client(c).len())),
{
    lemma_subrange_split(b, pos, c.0, enc_triple(c.1));
    lemma_parse_triple_complete(b, pos + ID_LEN as int, c.1);
}

pub proof fn lemma_parse_client_items_complete(b: Seq<u8>, pos: int, s: Seq<(Seq<u8>, TripleView)>)
    requires
        0 <= pos,
        rows_lens_ok(s),
        forall|i: int|
            0 <= i < s.len() ==> (#[trigger] s[i]).1.0.len() < 0x1_0000_0000_0000_0000 && s[i].1.1.len()
                < 0x1_0000_0000_0000_0000 && s[i].1.2.len() < 0x1_0000_0000_0000_0000,
        pos + enc_client_items(s).len() <= b.len(),
        b.subrange(pos, pos + enc_client_items(s).len()) == enc_client_items(s),
    ensures
        parse_client_items(b, pos, s.len()) == Some((s, pos + enc_client_items(s).len())),
    decreases s.len(),
{
    if s.len() == 0 {
        assert(s =~= Seq::<(Seq<u8>, TripleView)>::empty());
    } else {
        assert(enc_client_items(s) == enc_client(s[0]) + enc_client_items(s.drop_first()));
        lemma_subrange_split(b, pos, enc_client(s[0]), enc_client_items(s.drop_first()));
        lemma_parse_client_complete(b, pos, s[0]);
        assert forall|i: int|
            0 <= i < s.drop_first().len() implies (#[trigger] s.drop_first()[i]).0.len()
            == ID_LEN as nat && triple_lens_ok(s.drop_first()[i].1) && s.drop_first()[i].1.0.len()
            < 0x1_0000_0000_0000_0000 && s.drop_first()[i].1.1.len() < 0x1_0000_0000_0000_0000
            && s.drop_first()[i].1.2.len() < 0x1_0000_0000_0000_0000 by {
            assert(s.drop_first()[i] == s[i + 1]);
        }
        lemma_parse_client_items_complete(b, pos + enc_client(s[0]).len(), s.drop_first());
        assert(seq![s[0]] + s.drop_first() =~= s);
    }
}

/// Decoding an encoded snapshot state yields exactly its rows.
pub proof fn lemma_parse_state_complete(b: Seq<u8>, s: Seq<(Seq<u8>, TripleView)>)
    requires
        rows_lens_ok(s),
        s.len() < 0x1_0000_0000_0000_0000,
        forall|i: int|
            0 <= i < s.len() ==> (#[trigger] s[i]).1.0.len() < 0x1_0000_0000_0000_0000 && s[i].1.1.len()
                < 0x1_0000_0000_0000_0000 && s[i].1.2.len() < 0x1_0000_0000_0000_0000,
        b == enc_state(s),
    ensures
        parse_state(b, 0) == Some((s, b.len() as int)),
{
    assert(b.subrange(0, b.len() as int) =~= b);
    lemma_subrange_split(b, 0, enc_u64(s.len()), enc_client_items(s));
    lemma_parse_u64_complete(b, 0, s.len());
    lemma_parse_client_items_complete(b, 8, s);
}

} // verus!
