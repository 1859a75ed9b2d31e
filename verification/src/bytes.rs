//! Byte-sequence helpers: comparison, concatenation, and the decimal
//! rendering used when deriving counter-based record addresses.

use vstd::prelude::*;

verus! {

/// Byte-for-byte equality of two byte vectors.
pub fn bytes_eq(a: &Vec<u8>, b: &Vec<u8>) -> (r: bool)
    ensures
        r == (a@ == b@),
{
    if a.len() != b.len() {
        assert(a@ != b@) by {
            assert(a@.len() != b@.len());
        }
        return false;
    }
    let mut i: usize = 0;
    while i < a.len()
        invariant
            i <= a@.len(),
            a@.len() == b@.len(),
            forall|j: int| 0 <= j < i ==> a@[j] == b@[j],
        decreases a@.len() - i,
    {
        if a[i] != b[i] {
            assert(a@ != b@) by {
                assert(a@[i as int] != b@[i as int]);
            }
            return false;
        }
        i += 1;
    }
    proof {
        assert(a@ =~= b@);
    }
    true
}

/// The concatenation of two byte vectors.
pub fn concat_bytes(a: &Vec<u8>, b: &Vec<u8>) -> (r: Vec<u8>)
    ensures
        r@ == a@ + b@,
{
    let mut r: Vec<u8> = Vec::new();
    let mut i: usize = 0;
    while i < a.len()
        invariant
            i <= a@.len(),
            r@ == a@.take(i as int),
        decreases a@.len() - i,
    {
        r.push(a[i]);
        i += 1;
        proof {
            assert(r@ =~= a@.take(i as int));
        }
    }
    assert(r@ == a@) by {
        assert(a@.take(a@.len() as int) =~= a@);
    }
    let mut j: usize = 0;
    while j < b.len()
        invariant
            j <= b@.len(),
            r@ == a@ + b@.take(j as int),
        decreases b@.len() - j,
    {
        r.push(b[j]);
        j += 1;
        proof {
            assert(r@ =~= a@ + b@.take(j as int));
        }
    }
    proof {
        assert(a@ + b@.take(b@.len() as int) =~= a@ + b@);
    }
    r
}

/// An owned copy of a byte vector.
pub fn copy_bytes(a: &Vec<u8>) -> (r: Vec<u8>)
    ensures
        r@ == a@,
{
    let mut r: Vec<u8> = Vec::new();
    let mut i: usize = 0;
    while i < a.len()
        invariant
            i <= a@.len(),
            r@ == a@.take(i as int),
        decreases a@.len() - i,
    {
        r.push(a[i]);
        i += 1;
        proof {
            assert(r@ =~= a@.take(i as int));
        }
    }
    proof {
        assert(a@.take(a@.len() as int) =~= a@);
    }
    r
}

/// ASCII decimal rendering of a natural number, most significant digit first.
pub open spec fn dec_digits(n: nat) -> Seq<u8>
    decreases n,
{
    if n < 10 {
        seq![(48 + n) as u8]
    } else {
        dec_digits(n / 10).push((48 + n % 10) as u8)
    }
}

/// Every byte of a decimal rendering is an ASCII digit.
pub proof fn lemma_dec_digits_are_digits(n: nat)
    ensures
        dec_digits(n).len() >= 1,
        forall|i: int| 0 <= i < dec_digits(n).len() ==> 48 <= #[trigger] dec_digits(n)[i] <= 57,
    decreases n,
{
    if n >= 10 {
        lemma_dec_digits_are_digits(n / 10);
    }
}

/// Distinct numbers have distinct decimal renderings.
pub proof fn lemma_dec_digits_injective(m: nat, n: nat)
    requires
        dec_digits(m) == dec_digits(n),
    ensures
        m == n,
    decreases m + n,
{
    lemma_dec_digits_are_digits(m);
    lemma_dec_digits_are_digits(n);
    if m < 10 && n < 10 {
        assert(dec_digits(m) == seq![(48 + m) as u8]);
        assert(dec_digits(n) == seq![(48 + n) as u8]);
        assert(dec_digits(m)[0] == (48 + m) as u8);
        assert(dec_digits(n)[0] == (48 + n) as u8);
        assert(dec_digits(m)[0] == dec_digits(n)[0]);
        assert((48 + m) as u8 == 48 + m);
        assert((48 + n) as u8 == 48 + n);
        assert(m == n);
    } else if m < 10 && n >= 10 {
        assert(dec_digits(n) == dec_digits(n / 10).push((48 + n % 10) as u8));
        assert(dec_digits(n).len() >= 2) by {
            lemma_dec_digits_are_digits(n / 10);
        }
        assert(dec_digits(m).len() == 1);
        assert(false);
    } else if m >= 10 && n < 10 {
        assert(dec_digits(m) == dec_digits(m / 10).push((48 + m % 10) as u8));
        assert(dec_digits(m).len() >= 2) by {
            lemma_dec_digits_are_digits(m / 10);
        }
        assert(dec_digits(n).len() == 1);
        assert(false);
    } else {
        let dm = dec_digits(m / 10);
        let dn = dec_digits(n / 10);
        assert(dm.push((48 + m % 10) as u8) == dn.push((48 + n % 10) as u8));
        assert(dm.push((48 + m % 10) as u8).last() == dn.push((48 + n % 10) as u8).last());
        assert(m % 10 < 10 && n % 10 < 10) by (nonlinear_arith);
        assert((48 + m % 10) as u8 == 48 + m % 10);
        assert((48 + n % 10) as u8 == 48 + n % 10);
        assert(m % 10 == n % 10);
        assert(dm =~= dn) by {
            assert(dm.push((48 + m % 10) as u8).drop_last() =~= dm);
            assert(dn.push((48 + n % 10) as u8).drop_last() =~= dn);
        }
        lemma_dec_digits_injective(m / 10, n / 10);
        assert(m == 10 * (m / 10) + m % 10) by (nonlinear_arith);
        assert(n == 10 * (n / 10) + n % 10) by (nonlinear_arith);
        assert(m == n);
    }
}

/// Renders `n` in ASCII decimal, most significant digit first.
pub fn render_decimal(n: u64) -> (r: Vec<u8>)
    ensures
        r@ == dec_digits(n as nat),
    decreases n,
{
    if n < 10 {
        let mut v: Vec<u8> = Vec::new();
        v.push(48 + n as u8);
        proof {
            assert(v@ =~= dec_digits(n as nat));
        }
        v
    } else {
        let mut v = render_decimal(n / 10);
        v.push(48 + (n % 10) as u8);
        v
    }
}

/// One lowercase hexadecimal digit.
pub open spec fn hex_digit(n: nat) -> u8 {
    if n < 10 {
        (48 + n) as u8
    } else {
        (87 + n) as u8
    }
}

/// Lowercase hexadecimal rendering of a byte string, two digits per byte.
pub open spec fn hex_digits_of(s: Seq<u8>) -> Seq<u8>
    decreases s.len(),
{
    if s.len() == 0 {
        Seq::empty()
    } else {
        hex_digits_of(s.drop_last()) + seq![
            hex_digit((s.last() / 16) as nat),
            hex_digit((s.last() % 16) as nat),
        ]
    }
}

/// Renders a byte vector in lowercase hexadecimal.
pub fn render_hex(v: &Vec<u8>) -> (r: Vec<u8>)
    ensures
        r@ == hex_digits_of(v@),
{
    let mut r: Vec<u8> = Vec::new();
    let mut i: usize = 0;
    while i < v.len()
        invariant
            i <= v@.len(),
            r@ == hex_digits_of(v@.take(i as int)),
        decreases v@.len() - i,
    {
        let b = v[i];
        let hi = b / 16;
        let lo = b % 16;
        r.push(if hi < 10 { 48 + hi } else { 87 + hi });
        r.push(if lo < 10 { 48 + lo } else { 87 + lo });
        i += 1;
        proof {
            let t = v@.take(i as int);
            assert(t.drop_last() =~= v@.take(i - 1));
            assert(t.last() == v@[i - 1]);
            assert(r@ =~= hex_digits_of(t));
        }
    }
    proof {
        assert(v@.take(v@.len() as int) =~= v@);
    }
    r
}

/// Every hexadecimal digit is ASCII.
pub proof fn lemma_hex_digits_ascii(s: Seq<u8>)
    ensures
        hex_digits_of(s).len() == 2 * s.len(),
        forall|i: int| 0 <= i < hex_digits_of(s).len() ==> #[trigger] hex_digits_of(s)[i] < 128,
    decreases s.len(),
{
    if s.len() > 0 {
        lemma_hex_digits_ascii(s.drop_last());
    }
}

/// Relies on String::from_utf8: bytes below 128 decode to the characters
/// with the same code points, one character per byte.
#[verifier::external_body]
pub fn ascii_to_string(v: Vec<u8>) -> (r: String)
    requires
        forall|i: int| 0 <= i < v@.len() ==> v@[i] < 128,
    ensures
        r@.len() == v@.len(),
        forall|i: int| 0 <= i < v@.len() ==> #[trigger] r@[i] as u32 == v@[i] as u32,
{
    String::from_utf8(v).unwrap_or_default()
}

} // verus!
