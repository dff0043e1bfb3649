//! The gadget library: reusable sub-circuits written against the capability
//! interface of [`ConstraintSet`] alone.
//!
//! No comparison or branch is available inside the constraint arithmetic, so
//! * range membership is a vanishing product `(v - 1)(v - 2)...(v - 9) == 0`,
//! * the zero test is the inverse trick `v*y + b - 1 == 0`, `v*b == 0`,
//! * equality is the zero test of a difference, and
//! * a conditional check is an arithmetic select over indicator bits.

use vstd::prelude::*;

use crate::field;
use crate::field::MODULUS;
use crate::system::ConstraintSet;
use crate::system::Variable;
use crate::system::Visibility;
use vstd::arithmetic::div_mod::lemma_add_mod_noop_right;
use vstd::arithmetic::div_mod::lemma_mod_add_multiples_vanish;
use vstd::arithmetic::div_mod::lemma_mod_multiples_vanish;
use vstd::arithmetic::div_mod::lemma_mod_self_0;
use vstd::arithmetic::div_mod::lemma_mod_twice;
use vstd::arithmetic::div_mod::lemma_mul_mod_noop_general;
use vstd::arithmetic::div_mod::lemma_small_mod;

verus! {

/// 1 when the residue is zero, 0 otherwise.
pub open spec fn zero_indicator(x: int) -> int {
    if x == 0 {
        1
    } else {
        0
    }
}

/// 1 when the two residues are equal, 0 otherwise.
pub open spec fn eq_indicator(x: int, y: int) -> int {
    if x == y {
        1
    } else {
        0
    }
}

/// Residues whose inverse (when nonzero) the witness pass can supply: zero,
/// a digit, or the negation of a digit.
pub open spec fn small_residue(x: int) -> bool {
    x == 0 || (1 <= x <= 9) || (MODULUS - 9 <= x < MODULUS)
}

/// The difference of the two residues is at most nine in magnitude, so their
/// difference modulo [`MODULUS`] is a [`small_residue`].
pub open spec fn near(x: int, y: int) -> bool {
    -9 <= x - y <= 9
}

/// The partial vanishing product `(x - 1)(x - 2)...(x - j)`, evaluated
/// modulo [`MODULUS`] factor by factor, as the range gadget computes it.
pub open spec fn digit_prod(x: int, j: int) -> int
    decreases j,
{
    if j <= 0 {
        1
    } else {
        (digit_prod(x, j - 1) * ((x - j) % (MODULUS as int))) % (MODULUS as int)
    }
}

/// Does the full vanishing product of the residue evaluate to zero?
pub open spec fn vanishes(x: int) -> bool {
    digit_prod(x, 9) == 0
}

/// The same partial product over the integers, without reduction.
spec fn int_prod(x: int, j: int) -> int
    decreases j,
{
    if j <= 0 {
        1
    } else {
        int_prod(x, j - 1) * (x - j)
    }
}

/// `126^j`, the largest magnitude a `j`-factor product can take for `x < 128`.
spec fn pow126(j: int) -> int
    decreases j,
{
    if j <= 0 {
        1
    } else {
        126 * pow126(j - 1)
    }
}

proof fn lemma_digit_prod_is_int_prod(x: int, j: int)
    requires
        0 <= j,
    ensures
        digit_prod(x, j) == int_prod(x, j) % (MODULUS as int),
    decreases j,
{
    let m = MODULUS as int;
    if j == 0 {
        lemma_small_mod(1nat, m as nat);
    } else {
        lemma_digit_prod_is_int_prod(x, j - 1);
        lemma_mul_mod_noop_general(int_prod(x, j - 1), x - j, m);
    }
}

proof fn lemma_int_prod_zero(x: int, j: int)
    requires
        1 <= x <= j,
    ensures
        int_prod(x, j) == 0,
    decreases j,
{
    if j == x {
        assert(int_prod(x, j) == int_prod(x, j - 1) * 0);
        assert(int_prod(x, j - 1) * 0 == 0) by (nonlinear_arith);
    } else {
        lemma_int_prod_zero(x, j - 1);
        assert(int_prod(x, j) == 0 * (x - j));
        assert(0 * (x - j) == 0) by (nonlinear_arith);
    }
}

proof fn lemma_int_prod_bounds(x: int, j: int)
    requires
        10 <= x <= 127,
        0 <= j <= 9,
    ensures
        1 <= int_prod(x, j) <= pow126(j),
    decreases j,
{
    if j > 0 {
        lemma_int_prod_bounds(x, j - 1);
        let p = int_prod(x, j - 1);
        let f = x - j;
        assert(1 <= f <= 126);
        assert(1 <= p * f <= pow126(j - 1) * 126) by (nonlinear_arith)
            requires
                1 <= p <= pow126(j - 1),
                1 <= f <= 126,
        ;
        assert(pow126(j) == 126 * pow126(j - 1));
        assert(126 * pow126(j - 1) == pow126(j - 1) * 126) by (nonlinear_arith);
    }
}

/// For residues below 128 the vanishing product is zero exactly on the
/// digits 1 through 9: the modulus exceeds every product magnitude that can
/// arise, so no nonzero product can wrap around to zero.
pub proof fn lemma_vanishes_iff_digit(x: int)
    requires
        0 <= x < 128,
    ensures
        vanishes(x) <==> (1 <= x <= 9),
{
    let m = MODULUS as int;
    lemma_digit_prod_is_int_prod(x, 9);
    if 1 <= x <= 9 {
        lemma_int_prod_zero(x, 9);
        assert(0int % m == 0);
    } else if x == 0 {
        assert(int_prod(0, 9) == -362880) by {
            reveal_with_fuel(int_prod, 11);
            assert(int_prod(0, 0) == 1);
            assert(int_prod(0, 1) == -1);
            assert(int_prod(0, 2) == 2);
            assert(int_prod(0, 3) == -6);
            assert(int_prod(0, 4) == 24);
            assert(int_prod(0, 5) == -120);
            assert(int_prod(0, 6) == 720);
            assert(int_prod(0, 7) == -5040);
            assert(int_prod(0, 8) == 40320);
            assert(int_prod(0, 9) == int_prod(0, 8) * (0 - 9));
            assert(40320int * (0 - 9) == -362880) by (nonlinear_arith);
        }
        lemma_mod_add_multiples_vanish(-362880, m);
        lemma_small_mod((m - 362880) as nat, m as nat);
        assert((-362880) % m == m - 362880);
    } else {
        lemma_int_prod_bounds(x, 9);
        assert(pow126(9) < m) by {
            reveal_with_fuel(pow126, 11);
        }
        lemma_small_mod(int_prod(x, 9) as nat, m as nat);
    }
}

/// How the difference of two residues reduces: it is zero exactly when the
/// residues are equal, and otherwise stays clear of zero.
pub proof fn lemma_diff_mod(va: int, vb: int)
    requires
        0 <= va < MODULUS,
        0 <= vb < MODULUS,
    ensures
        ((va - vb) % (MODULUS as int) == 0) <==> (va == vb),
        va > vb ==> (va - vb) % (MODULUS as int) == va - vb,
        va < vb ==> (va - vb) % (MODULUS as int) == va - vb + MODULUS,
{
    let m = MODULUS as int;
    if va == vb {
        assert(0int % m == 0);
    } else if va > vb {
        lemma_small_mod((va - vb) as nat, m as nat);
    } else {
        lemma_mod_add_multiples_vanish(va - vb, m);
        lemma_small_mod((va - vb + m) as nat, m as nat);
    }
}

/// Append the constraints asserting that the variable's value is a digit
/// 1 through 9: the product `(v - 1)(v - 2)...(v - 9)` must vanish.
pub fn range_check(cs: &mut ConstraintSet, value: Variable)
    requires
        old(cs).wf(),
        !old(cs).is_frozen(),
        value.idx < old(cs).num_vars(),
    ensures
        final(cs).wf(),
        !final(cs).is_frozen(),
        final(cs).extends(*old(cs)),
        final(cs).only_private_added(*old(cs)),
        final(cs).satisfied() == (old(cs).satisfied() && vanishes(old(cs).val(value))),
{
    let ghost cs0 = *old(cs);
    let ghost x = old(cs).val(value);
    let ghost m = MODULUS as int;
    let mut acc = cs.add_const(value, MODULUS - 1);
    proof {
        lemma_mod_add_multiples_vanish(x - 1, m);
        assert((x + (MODULUS - 1)) % m == (x - 1) % m);
        lemma_mod_twice(x - 1, m);
        assert(digit_prod(x, 1) == (digit_prod(x, 0) * ((x - 1) % m)) % m);
        assert(digit_prod(x, 0) * ((x - 1) % m) == (x - 1) % m) by (nonlinear_arith)
            requires
                digit_prod(x, 0) == 1,
        ;
        assert(cs.val(acc) == digit_prod(x, 1));
    }
    let mut j: u64 = 2;
    while j <= 9
        invariant
            cs.wf(),
            !cs.is_frozen(),
            2 <= j <= 10,
            cs0.wf(),
            value.idx < cs0.num_vars(),
            x == cs0.val(value),
            m == MODULUS as int,
            cs.extends(cs0),
            cs.only_private_added(cs0),
            acc.idx < cs.num_vars(),
            cs.val(value) == x,
            cs.val(acc) == digit_prod(x, j - 1),
            cs.satisfied() == cs0.satisfied(),
        decreases 10 - j,
    {
        let ghost prev = *cs;
        let t = cs.add_const(value, MODULUS - j);
        let acc2 = cs.mul(acc, t);
        proof {
            lemma_mod_add_multiples_vanish(x - j, m);
            assert(cs.val(t) == (x - j) % m);
            assert(cs.val(acc2) == (digit_prod(x, j - 1) * ((x - j) % m)) % m);
            assert(digit_prod(x, j as int) == (digit_prod(x, j - 1) * ((x - j) % m)) % m);
        }
        acc = acc2;
        j = j + 1;
    }
    cs.assert_zero(acc);
}

/// Introduce a fresh boolean-valued variable that is 1 exactly when the
/// input variable's value is zero, pinned by the two identities
/// `a*y + b - 1 == 0` and `a*b == 0` with an auxiliary variable `y` set to
/// the inverse of `a` when one is available, and to 1 otherwise.
pub fn is_zero_with_output(cs: &mut ConstraintSet, a: Variable) -> (b: Variable)
    requires
        old(cs).wf(),
        !old(cs).is_frozen(),
        a.idx < old(cs).num_vars(),
    ensures
        final(cs).wf(),
        !final(cs).is_frozen(),
        final(cs).extends(*old(cs)),
        final(cs).only_private_added(*old(cs)),
        b.idx < final(cs).num_vars(),
        final(cs).val(b) == zero_indicator(old(cs).val(a)),
        final(cs).satisfied() ==> old(cs).satisfied(),
        small_residue(old(cs).val(a)) ==> final(cs).satisfied() == old(cs).satisfied(),
{
    let ghost m = MODULUS as int;
    let ghost av_spec = old(cs).val(a);
    let av = cs.value_of(a);
    let yv: u64 = if av == 0 {
        1
    } else if av <= 9 {
        field::inv_digit(av)
    } else if av >= MODULUS - 9 {
        let ik = field::inv_digit(MODULUS - av);
        proof {
            field::lemma_neg_inv((MODULUS - av) as int, ik as int);
        }
        MODULUS - ik
    } else {
        1
    };
    let bv: u64 = if av == 0 {
        1
    } else {
        0
    };
    proof {
        assert(small_residue(av_spec) && av != 0 ==> (av as int * yv as int) % m == 1);
    }
    let y = cs.allocate(yv, Visibility::Private);
    let b = cs.allocate(bv, Visibility::Private);
    let t1 = cs.mul(a, y);
    let t2 = cs.add(t1, b);
    let t3 = cs.add_const(t2, MODULUS - 1);
    cs.assert_zero(t3);
    let t4 = cs.mul(a, b);
    cs.assert_zero(t4);
    proof {
        if small_residue(av_spec) {
            if av == 0 {
                assert((0int * 1int) % m == 0) by (nonlinear_arith)
                    requires
                        m > 1,
                ;
                lemma_small_mod(1nat, m as nat);
                assert(cs.val(t2) == (0int + 1) % m);
                lemma_mod_self_0(m);
                assert(cs.val(t3) == (1 + (MODULUS - 1)) % m);
                assert(cs.val(t4) == (0int * 1int) % m);
            } else {
                assert(cs.val(t1) == 1int) by {
                    assert((av as int * yv as int) % m == 1);
                }
                lemma_small_mod(1nat, m as nat);
                assert(cs.val(t2) == (1int + 0) % m);
                lemma_mod_self_0(m);
                assert(cs.val(t3) == (1 + (MODULUS - 1)) % m);
                assert(av as int * 0int == 0) by (nonlinear_arith);
                assert(0int % m == 0);
                assert(cs.val(t4) == (av as int * 0int) % m);
            }
            assert(cs.val(t3) == 0 && cs.val(t4) == 0);
        }
    }
    b
}

/// Introduce a fresh boolean-valued variable that is 1 exactly when the two
/// input variables hold equal values: the zero test of their difference.
pub fn is_eq_with_output(cs: &mut ConstraintSet, a: Variable, b: Variable) -> (e: Variable)
    requires
        old(cs).wf(),
        !old(cs).is_frozen(),
        a.idx < old(cs).num_vars(),
        b.idx < old(cs).num_vars(),
    ensures
        final(cs).wf(),
        !final(cs).is_frozen(),
        final(cs).extends(*old(cs)),
        final(cs).only_private_added(*old(cs)),
        e.idx < final(cs).num_vars(),
        final(cs).val(e) == eq_indicator(old(cs).val(a), old(cs).val(b)),
        final(cs).satisfied() ==> old(cs).satisfied(),
        near(old(cs).val(a), old(cs).val(b)) ==> final(cs).satisfied() == old(cs).satisfied(),
{
    let ghost m = MODULUS as int;
    let ghost va = old(cs).val(a);
    let ghost vb = old(cs).val(b);
    let nb = cs.mul_const(b, MODULUS - 1);
    let d = cs.add(a, nb);
    proof {
        assert(cs.val(nb) == (((MODULUS - 1) as int) * vb) % m);
        lemma_add_mod_noop_right(va, ((MODULUS - 1) as int) * vb, m);
        assert(va + ((MODULUS - 1) as int) * vb == m * vb + (va - vb)) by (nonlinear_arith)
            requires
                m == MODULUS as int,
        ;
        lemma_mod_multiples_vanish(vb, va - vb, m);
        assert(cs.val(d) == (va - vb) % m);
        lemma_diff_mod(va, vb);
    }
    let e = is_zero_with_output(cs, d);
    e
}

/// Enforce that the solution cell agrees with the puzzle cell whenever the
/// puzzle cell is non-blank: with indicator bits `z` ("puzzle cell is zero")
/// and `e` ("the cells are equal"), the select `z + e - z*e` must equal 1.
pub fn enforce_consistency(cs: &mut ConstraintSet, p: Variable, s: Variable)
    requires
        old(cs).wf(),
        !old(cs).is_frozen(),
        p.idx < old(cs).num_vars(),
        s.idx < old(cs).num_vars(),
    ensures
        final(cs).wf(),
        !final(cs).is_frozen(),
        final(cs).extends(*old(cs)),
        final(cs).only_private_added(*old(cs)),
        final(cs).satisfied() ==> (old(cs).satisfied() && (old(cs).val(p) == 0 || old(cs).val(p)
            == old(cs).val(s))),
        (old(cs).satisfied() && 0 <= old(cs).val(p) <= 9 && 0 <= old(cs).val(s) <= 9 && (old(
            cs,
        ).val(p) == 0 || old(cs).val(p) == old(cs).val(s))) ==> final(cs).satisfied(),
{
    let ghost m = MODULUS as int;
    let ghost vp = old(cs).val(p);
    let ghost vs = old(cs).val(s);
    let z = is_zero_with_output(cs, p);
    let e = is_eq_with_output(cs, p, s);
    let ghost vz = zero_indicator(vp);
    let ghost ve = eq_indicator(vp, vs);
    let t = cs.mul(z, e);
    let u = cs.add(z, e);
    let nt = cs.mul_const(t, MODULUS - 1);
    let sel = cs.add(u, nt);
    let selm = cs.add_const(sel, MODULUS - 1);
    proof {
        lemma_small_mod(0nat, m as nat);
        lemma_small_mod(1nat, m as nat);
        lemma_small_mod(2nat, m as nat);
        lemma_small_mod((m - 1) as nat, m as nat);
        lemma_mod_self_0(m);
        lemma_mod_add_multiples_vanish(1, m);
        assert(vz * ve == (if vz == 1 && ve == 1 {
            1int
        } else {
            0int
        })) by (nonlinear_arith)
            requires
                vz == 0 || vz == 1,
                ve == 0 || ve == 1,
        ;
        assert(((MODULUS - 1) as int) * 0 == 0) by (nonlinear_arith);
        assert(((MODULUS - 1) as int) * 1 == m - 1) by (nonlinear_arith)
            requires
                m == MODULUS as int,
        ;
        if vz == 1 || ve == 1 {
            assert(cs.val(selm) == 0);
        } else {
            assert(cs.val(sel) == 0);
            assert(cs.val(selm) == m - 1);
        }
    }
    cs.assert_zero(selm);
}

/// Enforce that the two variables hold different values: the equality
/// indicator of the pair must be zero.
pub fn enforce_not_equal(cs: &mut ConstraintSet, a: Variable, b: Variable)
    requires
        old(cs).wf(),
        !old(cs).is_frozen(),
        a.idx < old(cs).num_vars(),
        b.idx < old(cs).num_vars(),
    ensures
        final(cs).wf(),
        !final(cs).is_frozen(),
        final(cs).extends(*old(cs)),
        final(cs).only_private_added(*old(cs)),
        final(cs).satisfied() ==> (old(cs).satisfied() && old(cs).val(a) != old(cs).val(b)),
        (old(cs).satisfied() && near(old(cs).val(a), old(cs).val(b)) && old(cs).val(a) != old(
            cs,
        ).val(b)) ==> final(cs).satisfied(),
{
    let e = is_eq_with_output(cs, a, b);
    cs.assert_zero(e);
}

} // verus!
