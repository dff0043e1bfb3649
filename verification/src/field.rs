//! The modular arithmetic that every constraint is evaluated in.
//!
//! All variable values are canonical residues below [`MODULUS`].  The modulus
//! is chosen for two properties that the gadget proofs rest on:
//!
//! * `MODULUS - 1` is a multiple of 2520 = lcm(1, ..., 9), so every digit
//!   1 through 9 has an explicit multiplicative inverse, computed by
//!   [`inv_digit`];
//! * `MODULUS` exceeds `126 * 125 * ... * 118`, the largest magnitude the
//!   vanishing product `(v - 1)(v - 2)...(v - 9)` can take for `v < 128`, so
//!   for such `v` the product is zero modulo `MODULUS` exactly when `v` is a
//!   digit 1 through 9.

use vstd::prelude::*;

verus! {

/// Modulus of the constraint arithmetic: `2520 * 7300000000000000 + 1`.
pub const MODULUS: u64 = 18396000000000000001;

/// Sum of two residues, reduced.
pub fn add_mod(a: u64, b: u64) -> (r: u64)
    requires
        a < MODULUS,
        b < MODULUS,
    ensures
        r < MODULUS,
        r == (a + b) % (MODULUS as int),
{
    (((a as u128) + (b as u128)) % (MODULUS as u128)) as u64
}

/// Product of two residues, reduced.
pub fn mul_mod(a: u64, b: u64) -> (r: u64)
    requires
        a < MODULUS,
        b < MODULUS,
    ensures
        r < MODULUS,
        r == (a * b) % (MODULUS as int),
{
    proof {
        assert((a as int) * (b as int) <= 18396000000000000000int * 18396000000000000000int
            && (a as int) * (b as int) >= 0) by (nonlinear_arith)
            requires
                0 <= a <= 18396000000000000000int,
                0 <= b <= 18396000000000000000int,
        ;
    }
    (((a as u128) * (b as u128)) % (MODULUS as u128)) as u64
}

/// Multiplicative inverse of a digit.  It exists because the digit divides
/// `MODULUS - 1`: with `q = (MODULUS - 1) / k` the product `k * (MODULUS - q)`
/// is `(k - 1) * MODULUS + 1`.
pub fn inv_digit(k: u64) -> (r: u64)
    requires
        1 <= k <= 9,
    ensures
        0 < r < MODULUS,
        (k * r) % (MODULUS as int) == 1,
{
    let q = (MODULUS - 1) / k;
    let r = MODULUS - q;
    proof {
        let m = MODULUS as int;
        assert(18396000000000000000int % 1 == 0);
        assert(18396000000000000000int % 2 == 0);
        assert(18396000000000000000int % 3 == 0);
        assert(18396000000000000000int % 4 == 0);
        assert(18396000000000000000int % 5 == 0);
        assert(18396000000000000000int % 6 == 0);
        assert(18396000000000000000int % 7 == 0);
        assert(18396000000000000000int % 8 == 0);
        assert(18396000000000000000int % 9 == 0);
        assert((m - 1) % (k as int) == 0);
        vstd::arithmetic::div_mod::lemma_fundamental_div_mod(m - 1, k as int);
        assert((k as int) * (q as int) == m - 1);
        assert(q >= 1) by (nonlinear_arith)
            requires
                1 <= k <= 9,
                (k as int) * (q as int) == 18396000000000000000int,
        ;
        assert((k as int) * (r as int) == (k - 1) * m + 1) by (nonlinear_arith)
            requires
                r == 18396000000000000001int - q,
                m == 18396000000000000001int,
                (k as int) * (q as int) == m - 1,
        ;
        vstd::arithmetic::div_mod::lemma_mod_multiples_vanish(k - 1, 1int, m);
        assert((m * (k - 1) + 1) % m == 1int % m);
        assert(m * (k - 1) == (k - 1) * m) by (nonlinear_arith);
        vstd::arithmetic::div_mod::lemma_small_mod(1nat, m as nat);
    }
    r
}

/// Inverse of the negation of a residue: if `k * ik == 1` modulo the modulus,
/// then `(MODULUS - k) * (MODULUS - ik) == 1` as well.
pub proof fn lemma_neg_inv(k: int, ik: int)
    requires
        0 < k < MODULUS,
        0 < ik < MODULUS,
        (k * ik) % (MODULUS as int) == 1,
    ensures
        ((MODULUS - k) * (MODULUS - ik)) % (MODULUS as int) == 1,
{
    let m = MODULUS as int;
    assert((m - k) * (m - ik) == m * (m - ik - k) + k * ik) by (nonlinear_arith);
    vstd::arithmetic::div_mod::lemma_mod_multiples_vanish(m - ik - k, k * ik, m);
    assert((m * (m - ik - k) + k * ik) % m == (k * ik) % m);
}

} // verus!
