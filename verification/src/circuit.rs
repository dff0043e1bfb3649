//! The composition driver: allocate the 162 grid cells, then apply the
//! range, consistency and distinctness gadgets over the whole 9x9 grid, and
//! freeze the finished constraint set.
//!
//! The build is unconditional: every constraint is appended whether or not
//! the supplied solution satisfies it, so a violation never raises an error
//! here — it surfaces only as unsatisfiability of the finished set.  The one
//! build-time error is a grid that is not 9x9.

use vstd::prelude::*;

use crate::field::MODULUS;
use crate::gadgets;
use crate::gadgets::vanishes;
use crate::system::ConstraintSet;
use crate::system::Variable;
use crate::system::Visibility;
use vstd::arithmetic::div_mod::lemma_fundamental_div_mod;
use vstd::arithmetic::div_mod::lemma_fundamental_div_mod_converse;
use vstd::arithmetic::div_mod::lemma_mod_add_multiples_vanish;
use crate::commitment::commitment_scalar;
use crate::commitment::commitment_spec;
use crate::system::lemma_pub_inputs_prefix;
use crate::system::lemma_pub_inputs_single;

verus! {

/// The input was not a 9x9 grid.  The only build-time failure: range,
/// consistency and distinctness violations surface as unsatisfiability of
/// the finished constraint set instead.
#[derive(Clone, Copy, Debug)]
pub struct GridSizeError;

/// Nine rows of nine cells.
pub open spec fn grid9(g: Seq<Seq<u8>>) -> bool {
    g.len() == 9 && forall|i: int| 0 <= i < 9 ==> (#[trigger] g[i]).len() == 9
}

/// The value of one cell, as an integer.
pub open spec fn gval(g: Seq<Seq<u8>>, i: int, j: int) -> int {
    g[i][j] as int
}

/// Index of the variable bound to puzzle cell `(i, j)`: the puzzle grid is
/// allocated first, in row-major order.
pub open spec fn puz_var_idx(i: int, j: int) -> int {
    9 * i + j
}

/// Index of the variable bound to solution cell `(i, j)`: the solution grid
/// is allocated right after the 81 puzzle cells, in row-major order.
pub open spec fn sol_var_idx(i: int, j: int) -> int {
    81 + 9 * i + j
}

/// The 81 cells of a grid in row-major order, as residues.
pub open spec fn grid_flat_vals(g: Seq<Seq<u8>>) -> Seq<u64> {
    Seq::new(81, |k: int| g[k / 9][k % 9] as u64)
}

/// Every solution cell is a digit 1 through 9.
pub open spec fn cells_in_range(s: Seq<Seq<u8>>) -> bool {
    forall|i: int, j: int| #![trigger gval(s, i, j)]
        0 <= i < 9 && 0 <= j < 9 ==> 1 <= gval(s, i, j) <= 9
}

/// Every non-blank puzzle cell agrees with the solution cell under it.
pub open spec fn consistent_grids(u: Seq<Seq<u8>>, s: Seq<Seq<u8>>) -> bool {
    forall|i: int, j: int|
        #![trigger gval(u, i, j)]
        #![trigger gval(s, i, j)]
        0 <= i < 9 && 0 <= j < 9 ==> (gval(u, i, j) == 0 || gval(u, i, j) == gval(s, i, j))
}

/// Every puzzle cell is a digit 0 through 9 (0 denoting a blank).
pub open spec fn puzzle_digits(u: Seq<Seq<u8>>) -> bool {
    forall|i: int, j: int| #![trigger gval(u, i, j)]
        0 <= i < 9 && 0 <= j < 9 ==> 0 <= gval(u, i, j) <= 9
}

/// Every solution cell is below 128.  The satisfiability characterization
/// is stated under this bound: it keeps every vanishing product strictly
/// below the modulus, so a nonzero product cannot wrap around to zero.
pub open spec fn solution_bounded(s: Seq<Seq<u8>>) -> bool {
    forall|i: int, j: int| #![trigger gval(s, i, j)]
        0 <= i < 9 && 0 <= j < 9 ==> gval(s, i, j) < 128
}

/// Row of member `t` of group `g`: groups 0-8 are the rows, 9-17 the
/// columns, 18-26 the nine non-overlapping 3x3 boxes.
pub open spec fn group_row(g: int, t: int) -> int {
    if g < 9 {
        g
    } else if g < 18 {
        t
    } else {
        3 * ((g - 18) / 3) + t / 3
    }
}

/// Column of member `t` of group `g`.
pub open spec fn group_col(g: int, t: int) -> int {
    if g < 9 {
        t
    } else if g < 18 {
        g - 9
    } else {
        3 * ((g - 18) % 3) + t % 3
    }
}

/// The solution value of member `t` of group `g`.
pub open spec fn group_cell_val(s: Seq<Seq<u8>>, g: int, t: int) -> int {
    gval(s, group_row(g, t), group_col(g, t))
}

/// All pairs of cells enumerated before position `(g, t, w)` of the
/// group/pair walk hold distinct values.
pub open spec fn pairs_done(s: Seq<Seq<u8>>, g: int, t: int, w: int) -> bool {
    forall|g2: int, t2: int, w2: int|
        #![trigger group_cell_val(s, g2, t2), group_cell_val(s, g2, w2)]
        0 <= g2 < 27 && 0 <= w2 < t2 < 9 && (g2 < g || (g2 == g && (t2 < t || (t2 == t && w2 < w))))
            ==> group_cell_val(s, g2, t2) != group_cell_val(s, g2, w2)
}

/// Within each of the 27 groups — 9 rows, 9 columns, 9 boxes — all nine
/// member cells are pairwise distinct.
pub open spec fn groups_distinct(s: Seq<Seq<u8>>) -> bool {
    forall|g: int, t: int, w: int|
        #![trigger group_cell_val(s, g, t), group_cell_val(s, g, w)]
        0 <= g < 27 && 0 <= w < t < 9 ==> group_cell_val(s, g, t) != group_cell_val(s, g, w)
}

/// The solution is a valid Sudoku solution of the puzzle: both grids are
/// 9x9, every solution cell is a digit 1 through 9, the solution agrees
/// with every non-blank puzzle cell, and every row, column and box holds
/// pairwise distinct values.
pub open spec fn sudoku_valid(u: Seq<Seq<u8>>, s: Seq<Seq<u8>>) -> bool {
    grid9(u) && grid9(s) && cells_in_range(s) && consistent_grids(u, s) && groups_distinct(s)
}

/// The variables allocated for the puzzle grid still hold its cell values.
pub open spec fn puz_vars_bound(cs: ConstraintSet, u: Seq<Seq<u8>>) -> bool {
    cs.vals().len() >= 81 && forall|i: int, j: int|
        #![trigger gval(u, i, j)]
        0 <= i < 9 && 0 <= j < 9 ==> cs.vals()[puz_var_idx(i, j)] == gval(u, i, j)
}

/// The variables allocated for the solution grid still hold its cell values.
pub open spec fn sol_vars_bound(cs: ConstraintSet, s: Seq<Seq<u8>>) -> bool {
    cs.vals().len() >= 162 && forall|i: int, j: int|
        #![trigger gval(s, i, j)]
        0 <= i < 9 && 0 <= j < 9 ==> cs.vals()[sol_var_idx(i, j)] == gval(s, i, j)
}

/// Does the vanishing product of every solution cell evaluate to zero?
pub open spec fn all_ranges_vanish(s: Seq<Seq<u8>>) -> bool {
    forall|i: int, j: int| #![trigger gval(s, i, j)]
        0 <= i < 9 && 0 <= j < 9 ==> vanishes(gval(s, i, j))
}

/// Check that the grid has nine rows of nine cells.
pub(crate) fn grid_is_9x9(g: &Vec<Vec<u8>>) -> (r: bool)
    ensures
        r == grid9(g.deep_view()),
{
    if g.len() != 9 {
        return false;
    }
    let mut i: usize = 0;
    while i < 9
        invariant
            g@.len() == 9,
            i <= 9,
            forall|a: int| 0 <= a < i ==> (#[trigger] g.deep_view()[a]).len() == 9,
        decreases 9 - i,
    {
        if g[i].len() != 9 {
            assert(g.deep_view()[i as int].len() != 9);
            return false;
        }
        assert(g.deep_view()[i as int].len() == 9);
        i = i + 1;
    }
    true
}

/// Bind one variable per cell of the grid, in row-major order, all with the
/// same visibility tag.
fn alloc_grid(cs: &mut ConstraintSet, g: &Vec<Vec<u8>>, visibility: Visibility)
    requires
        grid9(g.deep_view()),
        old(cs).wf(),
        !old(cs).is_frozen(),
    ensures
        final(cs).wf(),
        !final(cs).is_frozen(),
        final(cs).extends(*old(cs)),
        final(cs).vals() == old(cs).vals() + grid_flat_vals(g.deep_view()),
        final(cs).cons() == old(cs).cons(),
        final(cs).vis().len() == old(cs).vis().len() + 81,
        forall|i: int|
            old(cs).vis().len() <= i < final(cs).vis().len() ==> #[trigger] final(cs).vis()[i]
                == visibility,
        final(cs).satisfied() == old(cs).satisfied(),
{
    let ghost pre = *old(cs);
    let ghost gv = g.deep_view();
    let mut k: usize = 0;
    while k < 81
        invariant
            grid9(gv),
            gv == g.deep_view(),
            pre.wf(),
            cs.wf(),
            !cs.is_frozen(),
            k <= 81,
            cs.extends(pre),
            cs.vals().len() == pre.vals().len() + k,
            cs.vis().len() == pre.vis().len() + k,
            cs.cons() == pre.cons(),
            forall|m: int|
                0 <= m < k ==> cs.vals()[pre.vals().len() + m] == #[trigger] grid_flat_vals(gv)[m],
            forall|i: int|
                pre.vis().len() <= i < cs.vis().len() ==> #[trigger] cs.vis()[i] == visibility,
            cs.satisfied() == pre.satisfied(),
        decreases 81 - k,
    {
        let i = k / 9;
        let j = k % 9;
        proof {
            lemma_fundamental_div_mod(k as int, 9);
            assert(i < 9);
            assert(g.deep_view()[i as int].len() == 9);
            assert(g@[i as int]@ == g.deep_view()[i as int]);
        }
        let value = g[i][j];
        cs.allocate(value as u64, visibility);
        proof {
            assert(grid_flat_vals(gv)[k as int] == gv[k as int / 9][k as int % 9] as u64);
            assert(gv[i as int] == g@[i as int].deep_view());
        }
        k = k + 1;
    }
    proof {
        assert(cs.vals() =~= pre.vals() + grid_flat_vals(gv));
    }
}

/// Append a range check for all 81 solution cells.
fn apply_range_checks(cs: &mut ConstraintSet, solved: &Vec<Vec<u8>>)
    requires
        grid9(solved.deep_view()),
        old(cs).wf(),
        !old(cs).is_frozen(),
        sol_vars_bound(*old(cs), solved.deep_view()),
    ensures
        final(cs).wf(),
        !final(cs).is_frozen(),
        final(cs).extends(*old(cs)),
        final(cs).only_private_added(*old(cs)),
        final(cs).satisfied() == (old(cs).satisfied() && all_ranges_vanish(solved.deep_view())),
{
    let ghost pre = *old(cs);
    let ghost s = solved.deep_view();
    let mut k: usize = 0;
    while k < 81
        invariant
            grid9(s),
            s == solved.deep_view(),
            pre.wf(),
            cs.wf(),
            !cs.is_frozen(),
            k <= 81,
            cs.extends(pre),
            cs.only_private_added(pre),
            sol_vars_bound(pre, s),
            sol_vars_bound(*cs, s),
            cs.satisfied() == (pre.satisfied() && forall|a: int, b: int|
                #![trigger gval(s, a, b)]
                0 <= a < 9 && 0 <= b < 9 && 9 * a + b < k ==> vanishes(gval(s, a, b))),
        decreases 81 - k,
    {
        let ghost prev = *cs;
        let i = k / 9;
        let j = k % 9;
        proof {
            lemma_fundamental_div_mod(k as int, 9);
            assert(i < 9 && j < 9);
            assert(sol_var_idx(i as int, j as int) == 81 + k);
            assert(cs.vals()[sol_var_idx(i as int, j as int)] == gval(s, i as int, j as int));
        }
        let v = Variable { idx: 81 + k };
        gadgets::range_check(cs, v);
        proof {
            assert(prev.val(v) == gval(s, i as int, j as int));
            assert forall|a: int, b: int|
                0 <= a < 9 && 0 <= b < 9 && 9 * a + b < k + 1 && !(9 * a + b
                    < k) implies #[trigger] gval(s, a, b) == gval(s, i as int, j as int) by {
                lemma_fundamental_div_mod_converse(k as int, 9, a, b);
            }
            assert(sol_vars_bound(*cs, s)) by {
                assert forall|i2: int, j2: int| 0 <= i2 < 9 && 0 <= j2 < 9 implies cs.vals()[
                    sol_var_idx(i2, j2)
                ] == #[trigger] gval(s, i2, j2) by {
                    let xx = gval(s, i2, j2);
                    assert(prev.vals()[sol_var_idx(i2, j2)] == xx);
                }
            }
        }
        k = k + 1;
    }
    proof {
        assert((forall|a: int, b: int|
            #![trigger gval(s, a, b)]
            0 <= a < 9 && 0 <= b < 9 && 9 * a + b < 81 ==> vanishes(gval(s, a, b)))
            == all_ranges_vanish(s));
    }
}

/// Cell bindings survive any extension of the set.
proof fn lemma_puz_bound_preserved(pre: ConstraintSet, post: ConstraintSet, u: Seq<Seq<u8>>)
    requires
        post.extends(pre),
        puz_vars_bound(pre, u),
    ensures
        puz_vars_bound(post, u),
{
    assert forall|i: int, j: int| 0 <= i < 9 && 0 <= j < 9 implies post.vals()[puz_var_idx(i, j)]
        == #[trigger] gval(u, i, j) by {
        let xx = gval(u, i, j);
        assert(pre.vals()[puz_var_idx(i, j)] == xx);
    }
}

/// Cell bindings survive any extension of the set.
proof fn lemma_sol_bound_preserved(pre: ConstraintSet, post: ConstraintSet, s: Seq<Seq<u8>>)
    requires
        post.extends(pre),
        sol_vars_bound(pre, s),
    ensures
        sol_vars_bound(post, s),
{
    assert forall|i: int, j: int| 0 <= i < 9 && 0 <= j < 9 implies post.vals()[sol_var_idx(i, j)]
        == #[trigger] gval(s, i, j) by {
        let xx = gval(s, i, j);
        assert(pre.vals()[sol_var_idx(i, j)] == xx);
    }
}

/// Append the consistency check for all 81 cell pairs.
fn apply_consistency(cs: &mut ConstraintSet, unsolved: &Vec<Vec<u8>>, solved: &Vec<Vec<u8>>)
    requires
        grid9(unsolved.deep_view()),
        grid9(solved.deep_view()),
        old(cs).wf(),
        !old(cs).is_frozen(),
        puz_vars_bound(*old(cs), unsolved.deep_view()),
        sol_vars_bound(*old(cs), solved.deep_view()),
    ensures
        final(cs).wf(),
        !final(cs).is_frozen(),
        final(cs).extends(*old(cs)),
        final(cs).only_private_added(*old(cs)),
        final(cs).satisfied() ==> (old(cs).satisfied() && consistent_grids(
            unsolved.deep_view(),
            solved.deep_view(),
        )),
        (old(cs).satisfied() && puzzle_digits(unsolved.deep_view()) && cells_in_range(
            solved.deep_view(),
        ) && consistent_grids(unsolved.deep_view(), solved.deep_view())) ==> final(cs).satisfied(),
{
    let ghost pre = *old(cs);
    let ghost u = unsolved.deep_view();
    let ghost s = solved.deep_view();
    let mut k: usize = 0;
    while k < 81
        invariant
            grid9(u),
            grid9(s),
            u == unsolved.deep_view(),
            s == solved.deep_view(),
            pre.wf(),
            cs.wf(),
            !cs.is_frozen(),
            k <= 81,
            cs.extends(pre),
            cs.only_private_added(pre),
            puz_vars_bound(pre, u),
            sol_vars_bound(pre, s),
            puz_vars_bound(*cs, u),
            sol_vars_bound(*cs, s),
            cs.satisfied() ==> (pre.satisfied() && forall|a: int, b: int|
                #![trigger gval(u, a, b)]
                0 <= a < 9 && 0 <= b < 9 && 9 * a + b < k ==> (gval(u, a, b) == 0 || gval(u, a, b)
                    == gval(s, a, b))),
            (pre.satisfied() && puzzle_digits(u) && cells_in_range(s) && consistent_grids(u, s))
                ==> cs.satisfied(),
        decreases 81 - k,
    {
        let ghost prev = *cs;
        let i = k / 9;
        let j = k % 9;
        proof {
            lemma_fundamental_div_mod(k as int, 9);
            assert(i < 9 && j < 9);
            assert(puz_var_idx(i as int, j as int) == k);
            assert(sol_var_idx(i as int, j as int) == 81 + k);
            assert(cs.vals()[puz_var_idx(i as int, j as int)] == gval(u, i as int, j as int));
            assert(cs.vals()[sol_var_idx(i as int, j as int)] == gval(s, i as int, j as int));
        }
        let p = Variable { idx: k };
        let sv = Variable { idx: 81 + k };
        gadgets::enforce_consistency(cs, p, sv);
        proof {
            assert(prev.val(p) == gval(u, i as int, j as int));
            assert(prev.val(sv) == gval(s, i as int, j as int));
            lemma_puz_bound_preserved(prev, *cs, u);
            lemma_sol_bound_preserved(prev, *cs, s);
            if cs.satisfied() {
                assert forall|a: int, b: int|
                    0 <= a < 9 && 0 <= b < 9 && 9 * a + b < k + 1 implies (#[trigger] gval(u, a, b)
                    == 0 || gval(u, a, b) == gval(s, a, b)) by {
                    if 9 * a + b == k {
                        lemma_fundamental_div_mod_converse(k as int, 9, a, b);
                    }
                }
            }
            if pre.satisfied() && puzzle_digits(u) && cells_in_range(s) && consistent_grids(u, s) {
                assert(0 <= gval(u, i as int, j as int) <= 9);
                assert(1 <= gval(s, i as int, j as int) <= 9);
                assert(gval(u, i as int, j as int) == 0 || gval(u, i as int, j as int) == gval(
                    s,
                    i as int,
                    j as int,
                ));
                assert(cs.satisfied());
            }
        }
        k = k + 1;
    }
    proof {
        assert((forall|a: int, b: int|
            #![trigger gval(u, a, b)]
            0 <= a < 9 && 0 <= b < 9 && 9 * a + b < 81 ==> (gval(u, a, b) == 0 || gval(u, a, b)
                == gval(s, a, b))) == consistent_grids(u, s));
    }
}

/// Row and column of member `t` of group `g`.
fn group_cell(g: usize, t: usize) -> (rc: (usize, usize))
    requires
        g < 27,
        t < 9,
    ensures
        rc.0 == group_row(g as int, t as int),
        rc.1 == group_col(g as int, t as int),
        rc.0 < 9,
        rc.1 < 9,
{
    if g < 9 {
        (g, t)
    } else if g < 18 {
        (t, g - 9)
    } else {
        let b = g - 18;
        (3 * (b / 3) + t / 3, 3 * (b % 3) + t % 3)
    }
}

/// Append the pairwise distinctness check for every unordered pair of cells
/// within each of the 27 groups: 36 pairs per group, 972 in all.  The walk
/// covers the complete pair set of every group.
fn apply_distinctness(cs: &mut ConstraintSet, solved: &Vec<Vec<u8>>)
    requires
        grid9(solved.deep_view()),
        old(cs).wf(),
        !old(cs).is_frozen(),
        sol_vars_bound(*old(cs), solved.deep_view()),
    ensures
        final(cs).wf(),
        !final(cs).is_frozen(),
        final(cs).extends(*old(cs)),
        final(cs).only_private_added(*old(cs)),
        final(cs).satisfied() ==> (old(cs).satisfied() && groups_distinct(solved.deep_view())),
        (old(cs).satisfied() && cells_in_range(solved.deep_view()) && groups_distinct(
            solved.deep_view(),
        )) ==> final(cs).satisfied(),
{
    let ghost pre = *old(cs);
    let ghost s = solved.deep_view();
    let mut g: usize = 0;
    while g < 27
        invariant
            grid9(s),
            s == solved.deep_view(),
            pre.wf(),
            cs.wf(),
            !cs.is_frozen(),
            g <= 27,
            cs.extends(pre),
            cs.only_private_added(pre),
            sol_vars_bound(pre, s),
            sol_vars_bound(*cs, s),
            cs.satisfied() ==> (pre.satisfied() && pairs_done(s, g as int, 0, 0)),
            (pre.satisfied() && cells_in_range(s) && groups_distinct(s)) ==> cs.satisfied(),
        decreases 27 - g,
    {
        let mut t: usize = 0;
        while t < 9
            invariant
                grid9(s),
                s == solved.deep_view(),
                pre.wf(),
                cs.wf(),
                !cs.is_frozen(),
                g < 27,
                t <= 9,
                cs.extends(pre),
                cs.only_private_added(pre),
                sol_vars_bound(pre, s),
                sol_vars_bound(*cs, s),
                cs.satisfied() ==> (pre.satisfied() && pairs_done(s, g as int, t as int, 0)),
                (pre.satisfied() && cells_in_range(s) && groups_distinct(s)) ==> cs.satisfied(),
            decreases 9 - t,
        {
            let mut w: usize = 0;
            while w < t
                invariant
                    grid9(s),
                    s == solved.deep_view(),
                    pre.wf(),
                    cs.wf(),
                    !cs.is_frozen(),
                    g < 27,
                    t < 9,
                    w <= t,
                    cs.extends(pre),
                    cs.only_private_added(pre),
                    sol_vars_bound(pre, s),
                    sol_vars_bound(*cs, s),
                    cs.satisfied() ==> (pre.satisfied() && pairs_done(
                        s,
                        g as int,
                        t as int,
                        w as int,
                    )),
                    (pre.satisfied() && cells_in_range(s) && groups_distinct(s)) ==> cs.satisfied(),
                decreases t - w,
            {
                let ghost prev = *cs;
                let (r1, c1) = group_cell(g, t);
                let (r2, c2) = group_cell(g, w);
                let v1 = Variable { idx: 81 + 9 * r1 + c1 };
                let v2 = Variable { idx: 81 + 9 * r2 + c2 };
                proof {
                    assert(v1.idx == sol_var_idx(r1 as int, c1 as int));
                    assert(v2.idx == sol_var_idx(r2 as int, c2 as int));
                    assert(cs.vals()[sol_var_idx(r1 as int, c1 as int)] == gval(
                        s,
                        r1 as int,
                        c1 as int,
                    ));
                    assert(cs.vals()[sol_var_idx(r2 as int, c2 as int)] == gval(
                        s,
                        r2 as int,
                        c2 as int,
                    ));
                    assert(gval(s, r1 as int, c1 as int) == group_cell_val(s, g as int, t as int));
                    assert(gval(s, r2 as int, c2 as int) == group_cell_val(s, g as int, w as int));
                }
                gadgets::enforce_not_equal(cs, v1, v2);
                proof {
                    lemma_sol_bound_preserved(prev, *cs, s);
                    if cs.satisfied() {
                        assert(prev.val(v1) != prev.val(v2));
                        assert(group_cell_val(s, g as int, t as int) != group_cell_val(
                            s,
                            g as int,
                            w as int,
                        ));
                        assert forall|g2: int, t2: int, w2: int|
                            0 <= g2 < 27 && 0 <= w2 < t2 < 9 && (g2 < g || (g2 == g && (t2 < t || (
                            t2 == t && w2 < w + 1)))) implies #[trigger] group_cell_val(s, g2, t2)
                            != #[trigger] group_cell_val(s, g2, w2) by {
                            if g2 == g && t2 == t && w2 == w {
                            } else {
                                assert(pairs_done(s, g as int, t as int, w as int));
                            }
                        }
                        assert(pairs_done(s, g as int, t as int, w as int + 1));
                    }
                    if pre.satisfied() && cells_in_range(s) && groups_distinct(s) {
                        assert(1 <= group_cell_val(s, g as int, t as int) <= 9);
                        assert(1 <= group_cell_val(s, g as int, w as int) <= 9);
                        assert(group_cell_val(s, g as int, t as int) != group_cell_val(
                            s,
                            g as int,
                            w as int,
                        ));
                        assert(cs.satisfied());
                    }
                }
                w = w + 1;
            }
            proof {
                if cs.satisfied() {
                    assert forall|g2: int, t2: int, w2: int|
                        0 <= g2 < 27 && 0 <= w2 < t2 < 9 && (g2 < g || (g2 == g && (t2 < t + 1 || (
                        t2 == t + 1 && w2 < 0)))) implies #[trigger] group_cell_val(s, g2, t2)
                        != #[trigger] group_cell_val(s, g2, w2) by {
                        assert(pairs_done(s, g as int, t as int, t as int));
                    }
                    assert(pairs_done(s, g as int, t as int + 1, 0));
                }
            }
            t = t + 1;
        }
        proof {
            if cs.satisfied() {
                assert forall|g2: int, t2: int, w2: int|
                    0 <= g2 < 27 && 0 <= w2 < t2 < 9 && (g2 < g + 1 || (g2 == g + 1 && (t2 < 0 || (
                    t2 == 0 && w2 < 0)))) implies #[trigger] group_cell_val(s, g2, t2)
                    != #[trigger] group_cell_val(s, g2, w2) by {
                    assert(pairs_done(s, g as int, 9, 0));
                }
                assert(pairs_done(s, g as int + 1, 0, 0));
            }
        }
        g = g + 1;
    }
    proof {
        if cs.satisfied() {
            assert forall|g2: int, t2: int, w2: int|
                0 <= g2 < 27 && 0 <= w2 < t2 < 9 implies #[trigger] group_cell_val(s, g2, t2)
                != #[trigger] group_cell_val(s, g2, w2) by {
                assert(pairs_done(s, 27, 0, 0));
            }
        }
    }
}

/// The puzzle and its claimed solution, as supplied by the caller.  The
/// puzzle is the public clue grid (0 denoting a blank); the solution is the
/// private witness grid.
pub struct SudokuCircuit {
    pub unsolved: Vec<Vec<u8>>,
    pub solved: Vec<Vec<u8>>,
}

impl SudokuCircuit {
    /// The puzzle grid as a mathematical value.
    pub open spec fn puzzle_view(self) -> Seq<Seq<u8>> {
        self.unsolved.deep_view()
    }

    /// The solution grid as a mathematical value.
    pub open spec fn solution_view(self) -> Seq<Seq<u8>> {
        self.solved.deep_view()
    }

    /// Allocate the 162 cell variables and append every grid constraint:
    /// ranges, consistency, distinctness.  Shared by both build modes; the
    /// puzzle cells carry the given visibility tag.
    fn build_grid_constraints(&self, puzzle_vis: Visibility) -> (r: Result<
        ConstraintSet,
        GridSizeError,
    >)
        ensures
            r is Ok <==> (grid9(self.puzzle_view()) && grid9(self.solution_view())),
            r matches Ok(sys) ==> {
                &&& sys.wf()
                &&& !sys.is_frozen()
                &&& sys.num_vars() >= 162
                &&& puz_vars_bound(sys, self.puzzle_view())
                &&& sol_vars_bound(sys, self.solution_view())
                &&& (sudoku_valid(self.puzzle_view(), self.solution_view()) ==> sys.satisfied())
                &&& (sys.satisfied() ==> (all_ranges_vanish(self.solution_view())
                    && consistent_grids(self.puzzle_view(), self.solution_view())
                    && groups_distinct(self.solution_view())))
                &&& (solution_bounded(self.solution_view()) ==> (sys.satisfied()
                    <==> sudoku_valid(self.puzzle_view(), self.solution_view())))
                &&& forall|i: int|
                    0 <= i < sys.vis().len() ==> ((#[trigger] sys.vis()[i]) is Public <==> (
                    puzzle_vis is Public && i < 81))
            },
    {
        let ghost u = self.unsolved.deep_view();
        let ghost s = self.solved.deep_view();
        if !grid_is_9x9(&self.unsolved) {
            return Err(GridSizeError);
        }
        if !grid_is_9x9(&self.solved) {
            return Err(GridSizeError);
        }
        let mut cs = ConstraintSet::new();
        let ghost cs0 = cs;
        alloc_grid(&mut cs, &self.unsolved, puzzle_vis);
        let ghost cs1 = cs;
        alloc_grid(&mut cs, &self.solved, Visibility::Private);
        let ghost cs2 = cs;
        proof {
            assert(cs1.vals() =~= grid_flat_vals(u));
            assert(cs2.vals() =~= grid_flat_vals(u) + grid_flat_vals(s));
            assert forall|i: int, j: int| 0 <= i < 9 && 0 <= j < 9 implies cs2.vals()[puz_var_idx(
                i,
                j,
            )] == #[trigger] gval(u, i, j) && cs2.vals()[sol_var_idx(i, j)] == gval(s, i, j) by {
                let k = puz_var_idx(i, j);
                assert(0 <= k < 81);
                lemma_fundamental_div_mod_converse(k, 9, i, j);
                assert(cs2.vals()[k] == grid_flat_vals(u)[k]);
                assert(grid_flat_vals(u)[k] == u[k / 9][k % 9] as u64);
                assert(cs2.vals()[81 + k] == grid_flat_vals(s)[k]);
                assert(grid_flat_vals(s)[k] == s[k / 9][k % 9] as u64);
            }
            assert(puz_vars_bound(cs2, u));
            assert(sol_vars_bound(cs2, s));
            assert(cs2.satisfied());
        }
        apply_range_checks(&mut cs, &self.solved);
        let ghost cs3 = cs;
        proof {
            lemma_puz_bound_preserved(cs2, cs3, u);
            lemma_sol_bound_preserved(cs2, cs3, s);
        }
        apply_consistency(&mut cs, &self.unsolved, &self.solved);
        let ghost cs4 = cs;
        proof {
            lemma_puz_bound_preserved(cs3, cs4, u);
            lemma_sol_bound_preserved(cs3, cs4, s);
        }
        apply_distinctness(&mut cs, &self.solved);
        let ghost cs5 = cs;
        proof {
            lemma_puz_bound_preserved(cs4, cs5, u);
            lemma_sol_bound_preserved(cs4, cs5, s);
            // Forward: a satisfied set pins down every checked property.
            if cs5.satisfied() {
                assert(cs4.satisfied() && groups_distinct(s));
                assert(cs3.satisfied() && consistent_grids(u, s));
                assert(cs2.satisfied() && all_ranges_vanish(s));
            }
            // Backward: a valid solution satisfies every constraint.
            if sudoku_valid(u, s) {
                assert forall|i: int, j: int| 0 <= i < 9 && 0 <= j < 9 implies 0 <= #[trigger] gval(
                    u,
                    i,
                    j,
                ) <= 9 by {
                    assert(gval(u, i, j) == 0 || gval(u, i, j) == gval(s, i, j));
                    assert(1 <= gval(s, i, j) <= 9);
                }
                assert(puzzle_digits(u));
                assert forall|i: int, j: int| 0 <= i < 9 && 0 <= j < 9 implies vanishes(
                    #[trigger] gval(s, i, j),
                ) by {
                    crate::gadgets::lemma_vanishes_iff_digit(gval(s, i, j));
                }
                assert(all_ranges_vanish(s));
                assert(cs3.satisfied());
                assert(cs4.satisfied());
                assert(cs5.satisfied());
            }
            // Under the cell bound, the forward direction yields validity.
            if solution_bounded(s) && cs5.satisfied() {
                assert forall|i: int, j: int| 0 <= i < 9 && 0 <= j < 9 implies 1 <= #[trigger] gval(
                    s,
                    i,
                    j,
                ) <= 9 by {
                    assert(vanishes(gval(s, i, j)));
                    crate::gadgets::lemma_vanishes_iff_digit(gval(s, i, j));
                }
                assert(cells_in_range(s));
                assert(sudoku_valid(u, s));
            }
            // Visibility: public variables are exactly the puzzle cells when
            // the puzzle is public, and there are none otherwise.
            assert forall|i: int| 0 <= i < cs5.vis().len() implies ((#[trigger] cs5.vis()[i])
                is Public <==> (puzzle_vis is Public && i < 81)) by {
                if i < 81 {
                    assert(cs5.vis()[i] == cs4.vis()[i]);
                    assert(cs4.vis()[i] == cs3.vis()[i]);
                    assert(cs3.vis()[i] == cs2.vis()[i]);
                    assert(cs2.vis()[i] == cs1.vis()[i]);
                    assert(cs1.vis()[i] == puzzle_vis);
                } else if i < 162 {
                    assert(cs5.vis()[i] == cs4.vis()[i]);
                    assert(cs4.vis()[i] == cs3.vis()[i]);
                    assert(cs3.vis()[i] == cs2.vis()[i]);
                    assert(cs2.vis()[i] is Private);
                } else if i < cs3.vis().len() {
                    assert(cs5.vis()[i] == cs4.vis()[i]);
                    assert(cs4.vis()[i] == cs3.vis()[i]);
                    assert(cs3.vis()[i] is Private);
                } else if i < cs4.vis().len() {
                    assert(cs5.vis()[i] == cs4.vis()[i]);
                    assert(cs4.vis()[i] is Private);
                } else {
                    assert(cs5.vis()[i] is Private);
                }
            }
        }
        Ok(cs)
    }

    /// Build the full constraint set in public-grid mode: the 81 puzzle
    /// cells are the public input, the 81 solution cells the private
    /// witness.  Fails exactly when either grid is not 9x9; the finished,
    /// frozen set is satisfied by the recorded witness exactly when the
    /// solution is a valid Sudoku solution of the puzzle.
    pub fn synthesize(&self) -> (r: Result<ConstraintSet, GridSizeError>)
        ensures
            r is Ok <==> (grid9(self.puzzle_view()) && grid9(self.solution_view())),
            r matches Ok(sys) ==> {
                &&& sys.wf()
                &&& sys.is_frozen()
                &&& sys.num_vars() >= 162
                &&& puz_vars_bound(sys, self.puzzle_view())
                &&& sol_vars_bound(sys, self.solution_view())
                &&& (sudoku_valid(self.puzzle_view(), self.solution_view()) ==> sys.satisfied())
                &&& (sys.satisfied() ==> (all_ranges_vanish(self.solution_view())
                    && consistent_grids(self.puzzle_view(), self.solution_view())
                    && groups_distinct(self.solution_view())))
                &&& (solution_bounded(self.solution_view()) ==> (sys.satisfied()
                    <==> sudoku_valid(self.puzzle_view(), self.solution_view())))
                &&& forall|i: int|
                    0 <= i < sys.vis().len() ==> ((#[trigger] sys.vis()[i]) is Public <==> i < 81)
                &&& sys.public_inputs_spec() == grid_flat_vals(self.puzzle_view())
            },
    {
        let ghost u = self.unsolved.deep_view();
        let mut cs = match self.build_grid_constraints(Visibility::Public) {
            Ok(cs) => cs,
            Err(e) => {
                return Err(e);
            },
        };
        let ghost before = cs;
        cs.freeze();
        proof {
            assert(cs.vals() == before.vals());
            assert(puz_vars_bound(cs, self.puzzle_view()));
            assert(sol_vars_bound(cs, self.solution_view()));
            lemma_pub_inputs_prefix(cs.vals(), cs.vis(), 81);
            assert forall|k: int| 0 <= k < 81 implies cs.vals().take(81)[k] == #[trigger] grid_flat_vals(
                u,
            )[k] by {
                lemma_fundamental_div_mod(k, 9);
                let i = k / 9;
                let j = k % 9;
                assert(puz_var_idx(i, j) == k);
                assert(cs.vals()[puz_var_idx(i, j)] == gval(u, i, j));
                assert(grid_flat_vals(u)[k] == u[k / 9][k % 9] as u64);
            }
            assert(cs.vals().take(81) =~= grid_flat_vals(u));
        }
        Ok(cs)
    }

    /// Build the full constraint set in commitment mode: the puzzle cells
    /// join the private witness, and the single public input is the claimed
    /// commitment scalar, bound by one constraint to the truncated SHA-256
    /// digest of the puzzle.  The finished set is satisfied by the recorded
    /// witness exactly when the solution is valid and the claimed scalar is
    /// the puzzle's true commitment.
    pub fn synthesize_with_commitment(&self, commitment: u64) -> (r: Result<
        ConstraintSet,
        GridSizeError,
    >)
        requires
            commitment < MODULUS,
        ensures
            r is Ok <==> (grid9(self.puzzle_view()) && grid9(self.solution_view())),
            r matches Ok(sys) ==> {
                &&& sys.wf()
                &&& sys.is_frozen()
                &&& ((sudoku_valid(self.puzzle_view(), self.solution_view()) && commitment
                    == commitment_spec(self.puzzle_view())) ==> sys.satisfied())
                &&& (sys.satisfied() ==> (commitment == commitment_spec(self.puzzle_view())
                    && all_ranges_vanish(self.solution_view()) && consistent_grids(
                    self.puzzle_view(),
                    self.solution_view(),
                ) && groups_distinct(self.solution_view())))
                &&& (solution_bounded(self.solution_view()) ==> (sys.satisfied() <==> (
                sudoku_valid(self.puzzle_view(), self.solution_view()) && commitment
                    == commitment_spec(self.puzzle_view()))))
                &&& sys.public_inputs_spec() == seq![commitment]
            },
    {
        let ghost u = self.unsolved.deep_view();
        let ghost s = self.solved.deep_view();
        let ghost m = MODULUS as int;
        let mut cs = match self.build_grid_constraints(Visibility::Private) {
            Ok(cs) => cs,
            Err(e) => {
                return Err(e);
            },
        };
        let ghost cs5 = cs;
        let dig = commitment_scalar(&self.unsolved);
        let cv = cs.allocate(commitment, Visibility::Public);
        let ghost cs6 = cs;
        let negd: u64 = if dig == 0 {
            0
        } else {
            MODULUS - dig
        };
        let t = cs.add_const(cv, negd);
        cs.assert_zero(t);
        let ghost cs7 = cs;
        proof {
            assert(cs7.val(t) == (commitment + negd) % m);
            crate::gadgets::lemma_diff_mod(commitment as int, dig as int);
            if dig == 0 {
                vstd::arithmetic::div_mod::lemma_small_mod(commitment as nat, m as nat);
            } else {
                assert(commitment + negd == m + (commitment - dig));
                lemma_mod_add_multiples_vanish(commitment - dig, m);
            }
            assert(cs7.val(t) == 0 <==> commitment == dig);
            assert(cs7.satisfied() == (cs5.satisfied() && commitment == dig));
            // The one public variable is the commitment scalar.
            assert forall|i: int| 0 <= i < cs7.vis().len() implies ((#[trigger] cs7.vis()[i])
                is Public <==> i == cs5.vis().len()) by {
                if i < cs5.vis().len() {
                    assert(cs7.vis()[i] == cs6.vis()[i]);
                    assert(cs6.vis()[i] == cs5.vis()[i]);
                    assert(!(cs5.vis()[i] is Public));
                } else if i == cs5.vis().len() {
                    assert(cs6.vis()[i] == Visibility::Public);
                    assert(cs7.vis()[i] == cs6.vis()[i]);
                } else {
                    assert(cs7.vis()[i] is Private);
                }
            }
            lemma_pub_inputs_single(cs7.vals(), cs7.vis(), cs5.vis().len() as int);
            assert(cs7.vals()[cs5.vis().len() as int] == cs6.vals()[cs5.vis().len() as int]);
            assert(cs7.public_inputs_spec() =~= seq![commitment]);
        }
        let ghost before = cs;
        cs.freeze();
        proof {
            assert(cs.vals() == before.vals());
            assert(cs.vis() == before.vis());
        }
        Ok(cs)
    }
}

} // verus!
