//! Alphabetical labels: the `i`-th label of a run of `count` is a fixed-width
//! string over `A`..`Z`, filled from the right with the base-26 digits of
//! `i` (the first digit plain, later digits shifted by one) and padded with
//! `A` on the left.

use vstd::prelude::*;

verus! {

/// The base-26 digits after the first, least significant first.
pub open spec fn tail_digits(d: nat) -> Seq<nat>
    decreases d,
{
    if d == 0 {
        Seq::empty()
    } else {
        seq![(((d - 1) as nat) % 26)] + tail_digits(((d - 1) as nat) / 26)
    }
}

/// All base-26 digits of a label index, least significant first.
pub open spec fn label_digits(i: nat) -> Seq<nat> {
    if i == 0 {
        Seq::empty()
    } else {
        seq![i % 26] + tail_digits(i / 26)
    }
}

/// The label of index `i` at width `w`: `A`-padded, digits from the right.
pub open spec fn alpha_label(i: nat, w: nat) -> Seq<u8> {
    Seq::new(
        w,
        |p: int|
            if w - 1 - p < label_digits(i).len() {
                (65 + label_digits(i)[w - 1 - p]) as u8
            } else {
                65u8
            },
    )
}

/// The label width for a run of `count` labels.
pub open spec fn alpha_width(c: nat) -> nat
    decreases c,
{
    if c < 26 {
        1
    } else {
        1 + alpha_width(c / 26)
    }
}

/// Computes the label width for a run of `count` labels.
fn alpha_width_exec(count: usize) -> (r: usize)
    ensures
        r == alpha_width(count as nat),
        r >= 1,
{
    let mut w: usize = 1;
    let mut c: usize = count;
    while c >= 26
        invariant
            c <= count,
            w >= 1,
            w <= 1 + count - c,
            alpha_width(count as nat) == (w - 1) + alpha_width(c as nat),
        decreases c,
    {
        c = c / 26;
        w += 1;
    }
    w
}

/// The base-26 digit values of `i`, least significant first.
fn label_digits_exec(i: usize) -> (r: Vec<u8>)
    ensures
        r@.len() == label_digits(i as nat).len(),
        forall|k: int|
            0 <= k < r@.len() ==> (#[trigger] r@[k]) as nat == label_digits(i as nat)[k] && r@[k]
                < 26,
{
    let mut digits: Vec<u8> = Vec::new();
    let mut div: usize = i;
    if div != 0 {
        digits.push((div % 26) as u8);
        div = div / 26;
        while div != 0
            invariant
                label_digits(i as nat) == digits@.map_values(|b: u8| b as nat) + tail_digits(
                    div as nat,
                ),
                forall|k: int| 0 <= k < digits@.len() ==> (#[trigger] digits@[k]) < 26,
            decreases div,
        {
            let ghost d0 = digits@;
            let ghost v0 = div as nat;
            div -= 1;
            digits.push((div % 26) as u8);
            div = div / 26;
            proof {
                assert(tail_digits(v0) == seq![((v0 - 1) as nat) % 26] + tail_digits(
                    ((v0 - 1) as nat) / 26,
                ));
                assert(digits@.map_values(|b: u8| b as nat) =~= d0.map_values(|b: u8| b as nat)
                    + seq![((v0 - 1) as nat) % 26]);
                assert(label_digits(i as nat) =~= digits@.map_values(|b: u8| b as nat)
                    + tail_digits(div as nat));
            }
        }
        proof {
            assert(label_digits(i as nat) =~= digits@.map_values(|b: u8| b as nat));
        }
    }
    proof {
        if i == 0 {
            assert(digits@.len() == label_digits(i as nat).len());
        }
        assert forall|k: int|
            0 <= k < digits@.len() implies (#[trigger] digits@[k]) as nat == label_digits(
            i as nat,
        )[k] by {
            assert(digits@.map_values(|b: u8| b as nat)[k] == digits@[k] as nat);
        }
    }
    digits
}

/// The label of index `i` at width `w`, as ASCII bytes.
fn alpha_label_exec(i: usize, w: usize) -> (r: Vec<u8>)
    ensures
        r@ == alpha_label(i as nat, w as nat),
{
    let digits = label_digits_exec(i);
    let mut r: Vec<u8> = Vec::new();
    let mut p: usize = 0;
    while p < w
        invariant
            p <= w,
            r@.len() == p,
            digits@.len() == label_digits(i as nat).len(),
            forall|k: int|
                0 <= k < digits@.len() ==> (#[trigger] digits@[k]) as nat == label_digits(
                    i as nat,
                )[k] && digits@[k] < 26,
            forall|q: int| 0 <= q < p ==> #[trigger] r@[q] == alpha_label(i as nat, w as nat)[q],
        decreases w - p,
    {
        let back = w - 1 - p;
        if back < digits.len() {
            r.push(65 + digits[back]);
        } else {
            r.push(65);
        }
        p += 1;
    }
    proof {
        assert(r@ =~= alpha_label(i as nat, w as nat));
    }
    r
}

/// All `count` labels, in order, each of the width that `count` calls for:
/// after `Z` comes `AA`, and so on.
pub fn alphabetical(count: usize) -> (r: Vec<Vec<u8>>)
    ensures
        r@.len() == count,
        forall|i: int|
            0 <= i < count ==> (#[trigger] r@[i])@ == alpha_label(
                i as nat,
                alpha_width(count as nat),
            ),
{
    let w = alpha_width_exec(count);
    let mut r: Vec<Vec<u8>> = Vec::new();
    let mut i: usize = 0;
    while i < count
        invariant
            i <= count,
            w == alpha_width(count as nat),
            r@.len() == i,
            forall|j: int|
                0 <= j < i ==> (#[trigger] r@[j])@ == alpha_label(
                    j as nat,
                    alpha_width(count as nat),
                ),
        decreases count - i,
    {
        let label = alpha_label_exec(i, w);
        r.push(label);
        i += 1;
    }
    r
}

} // verus!
