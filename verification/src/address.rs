//! Deterministic address derivation: a vault path and an optional counter
//! are mapped to stable identifier bytes.  The path fed to the digest is the
//! bracketed decimal rendering of the vault path followed by a suffix: a
//! distinguished marker for counter zero, the decimal counter otherwise, so
//! counter zero can never be confused with a positive counter.

use vstd::prelude::*;

use crate::bytes::{dec_digits, lemma_dec_digits_are_digits, lemma_dec_digits_injective,
    render_decimal};
use crate::ids::id_from_path;

verus! {

/// The ASCII bytes of the marker that stands in for counter zero.
pub open spec fn first_record_marker() -> Seq<u8> {
    seq![102u8, 105u8, 114u8, 115u8, 116u8, 95u8, 114u8, 101u8, 99u8, 111u8, 114u8, 100u8]
}

/// The marker as an owned byte vector.
pub fn first_record_bytes() -> (r: Vec<u8>)
    ensures
        r@ == first_record_marker(),
{
    let mut r: Vec<u8> = Vec::new();
    r.push(102);
    r.push(105);
    r.push(114);
    r.push(115);
    r.push(116);
    r.push(95);
    r.push(114);
    r.push(101);
    r.push(99);
    r.push(111);
    r.push(114);
    r.push(100);
    proof {
        assert(r@ =~= first_record_marker());
    }
    r
}

/// The comma-separated decimal renderings of the bytes of `s`.
pub open spec fn debug_items(s: Seq<u8>) -> Seq<u8>
    decreases s.len(),
{
    if s.len() == 0 {
        Seq::empty()
    } else if s.len() == 1 {
        dec_digits(s[0] as nat)
    } else {
        debug_items(s.drop_last()) + seq![44u8, 32u8] + dec_digits(s.last() as nat)
    }
}

/// The bracketed decimal rendering of a byte string, e.g. `[1, 2, 3]`.
pub open spec fn debug_bytes(s: Seq<u8>) -> Seq<u8> {
    seq![91u8] + debug_items(s) + seq![93u8]
}

/// Renders a byte vector in its bracketed decimal form.
pub fn render_debug_bytes(v: &Vec<u8>) -> (r: Vec<u8>)
    ensures
        r@ == debug_bytes(v@),
{
    let mut r: Vec<u8> = Vec::new();
    r.push(91);
    proof {
        assert(r@ =~= seq![91u8] + debug_items(v@.take(0)));
    }
    let mut i: usize = 0;
    while i < v.len()
        invariant
            i <= v@.len(),
            r@ == seq![91u8] + debug_items(v@.take(i as int)),
        decreases v@.len() - i,
    {
        if i > 0 {
            r.push(44);
            r.push(32);
        }
        let mut d = render_decimal(v[i] as u64);
        r.append(&mut d);
        proof {
            let t1 = v@.take(i + 1 as int);
            assert(t1.last() == v@[i as int]);
            if i == 0 {
                assert(t1.len() == 1);
                assert(t1[0] == v@[0]);
                assert(debug_items(t1) == dec_digits(v@[0] as nat));
                assert(r@ =~= seq![91u8] + debug_items(t1));
            } else {
                assert(t1.drop_last() =~= v@.take(i as int));
                assert(debug_items(t1) == debug_items(v@.take(i as int)) + seq![44u8, 32u8]
                    + dec_digits(v@[i as int] as nat));
                assert(r@ =~= seq![91u8] + debug_items(t1));
            }
        }
        i += 1;
    }
    r.push(93);
    proof {
        assert(v@.take(v@.len() as int) =~= v@);
        assert(r@ =~= seq![91u8] + debug_items(v@) + seq![93u8]);
    }
    r
}

/// The digest input for a counter-based record of a vault path.
pub open spec fn counter_path(vp: Seq<u8>, ctr: nat) -> Seq<u8> {
    if ctr == 0 {
        debug_bytes(vp) + first_record_marker()
    } else {
        debug_bytes(vp) + dec_digits(ctr)
    }
}

/// The identifier bytes of the vault at `path`.
pub open spec fn vault_id_of(path: Seq<u8>) -> Seq<u8> {
    id_from_path(path, path)
}

/// The identifier bytes of the counter-based record `ctr` of `vp`.
pub open spec fn counter_record_id_of(vp: Seq<u8>, ctr: nat) -> Seq<u8> {
    id_from_path(counter_path(vp, ctr), counter_path(vp, ctr))
}

/// The identifier bytes of the path-based record `rp` of `vp`.
pub open spec fn generic_record_id_of(vp: Seq<u8>, rp: Seq<u8>) -> Seq<u8> {
    id_from_path(vault_id_of(vp), rp)
}

/// Equal concatenations with the same left part have the same right part.
pub proof fn lemma_concat_cancel_left(p: Seq<u8>, x: Seq<u8>, y: Seq<u8>)
    requires
        p + x == p + y,
    ensures
        x == y,
{
    assert((p + x).len() == p.len() + x.len());
    assert((p + y).len() == p.len() + y.len());
    assert(x.len() == y.len());
    assert forall|i: int| 0 <= i < x.len() implies x[i] == y[i] by {
        assert((p + x)[p.len() + i] == x[i]);
        assert((p + y)[p.len() + i] == y[i]);
    }
    assert(x =~= y);
}

/// Distinct counters of one vault path feed distinct inputs to the digest:
/// counter zero's marker never collides with a decimal rendering, and decimal
/// renderings of distinct counters differ.
pub proof fn lemma_counter_paths_distinct(vp: Seq<u8>, a: nat, b: nat)
    requires
        a != b,
    ensures
        counter_path(vp, a) != counter_path(vp, b),
{
    let p = debug_bytes(vp);
    if counter_path(vp, a) == counter_path(vp, b) {
        if a == 0 {
            lemma_concat_cancel_left(p, first_record_marker(), dec_digits(b));
            lemma_dec_digits_are_digits(b);
            assert(first_record_marker()[0] == 102);
        } else if b == 0 {
            lemma_concat_cancel_left(p, first_record_marker(), dec_digits(a));
            lemma_dec_digits_are_digits(a);
            assert(first_record_marker()[0] == 102);
        } else {
            lemma_concat_cancel_left(p, dec_digits(a), dec_digits(b));
            lemma_dec_digits_injective(a, b);
        }
    }
}


/// Law: derivation is deterministic.  The executable derivations promise a
/// result equal to a function of the path alone, so any two results for the
/// same path agree.
pub proof fn lemma_vault_id_deterministic(p: Seq<u8>, a: Seq<u8>, b: Seq<u8>)
    requires
        a == vault_id_of(p),
        b == vault_id_of(p),
    ensures
        a == b,
{
}

/// No digest collision among the counter-based record ids of one vault path
/// below `cap`: the collision-resistance hypothesis under which the inverse
/// scan is exact.
pub open spec fn counter_ids_distinct(vp: Seq<u8>, cap: nat) -> bool {
    forall|a: nat, b: nat|
        a < cap && b < cap && a != b ==> counter_record_id_of(vp, a) != counter_record_id_of(
            vp,
            b,
        )
}

/// Law: the inverse scan recovers the counter a record id was derived from.
/// Its hypotheses are exactly what the scan's contract gives for the target
/// derived from `counter`, plus the collision-resistance hypothesis; its
/// conclusion is that the scan's result is that counter.
pub proof fn lemma_index_of_recovers_counter(vp: Seq<u8>, counter: nat, cap: nat, r: nat)
    requires
        counter < cap,
        counter_ids_distinct(vp, cap),
        r <= cap,
        r < cap ==> counter_record_id_of(vp, r) == counter_record_id_of(vp, counter),
        forall|j: nat|
            j < r ==> #[trigger] counter_record_id_of(vp, j) != counter_record_id_of(vp, counter),
    ensures
        r == counter,
{
    if counter < r {
        assert(counter_record_id_of(vp, counter) == counter_record_id_of(vp, counter));
        assert(false);
    } else if r < counter {
        assert(r < cap);
        assert(counter_record_id_of(vp, r) != counter_record_id_of(vp, counter));
        assert(false);
    }
}

} // verus!
