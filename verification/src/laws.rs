//! The library's stated laws, each a machine-checked lemma.  Together with
//! the contracts of [`crate::circuit::SudokuCircuit::synthesize`] and of the
//! gadgets they pin down when a built constraint set is satisfiable.

use vstd::prelude::*;

use crate::circuit::cells_in_range;
use crate::circuit::consistent_grids;
use crate::circuit::grid9;
use crate::circuit::group_cell_val;
use crate::circuit::group_col;
use crate::circuit::group_row;
use crate::circuit::groups_distinct;
use crate::circuit::gval;
use crate::circuit::sudoku_valid;
use crate::gadgets::eq_indicator;
use crate::gadgets::zero_indicator;
use crate::system::ConstraintSet;
use vstd::arithmetic::div_mod::lemma_fundamental_div_mod;
use vstd::arithmetic::div_mod::lemma_fundamental_div_mod_converse;

verus! {

/// A solved grid that is valid on its own terms: 9x9, every cell a digit
/// 1 through 9, and all 27 groups pairwise distinct.
pub open spec fn solved_grid_valid(s: Seq<Seq<u8>>) -> bool {
    grid9(s) && cells_in_range(s) && groups_distinct(s)
}

/// Blanking law: a puzzle derived from a valid solved grid by blanking any
/// subset of cells — each puzzle cell is either 0 or a copy of the grid
/// cell — forms a valid instance with that grid.  By the contract of
/// `synthesize`, the constraint set built from the pair is then satisfied
/// by its recorded witness, hence satisfiable.
pub proof fn lemma_blanking_valid(u: Seq<Seq<u8>>, s: Seq<Seq<u8>>)
    requires
        grid9(u),
        solved_grid_valid(s),
        forall|i: int, j: int|
            #![trigger gval(u, i, j)]
            0 <= i < 9 && 0 <= j < 9 ==> (gval(u, i, j) == 0 || gval(u, i, j) == gval(s, i, j)),
    ensures
        sudoku_valid(u, s),
{
    assert(consistent_grids(u, s));
}

/// A satisfied constraint set is satisfiable: the recorded witness is one
/// satisfying assignment.
pub proof fn lemma_satisfied_satisfiable(sys: ConstraintSet)
    requires
        sys.satisfied(),
    ensures
        sys.satisfiable(),
{
    assert(sys.satisfied_with(sys.vals()));
}

/// Range violation: a solution cell outside the digits 1 through 9 makes
/// the instance invalid, so the built constraint set is not satisfied by
/// its witness.
pub proof fn lemma_range_violation(u: Seq<Seq<u8>>, s: Seq<Seq<u8>>, i: int, j: int)
    requires
        0 <= i < 9,
        0 <= j < 9,
        !(1 <= gval(s, i, j) <= 9),
    ensures
        !sudoku_valid(u, s),
{
}

/// Consistency violation: a solution cell that disagrees with a non-blank
/// puzzle cell makes the instance invalid.
pub proof fn lemma_consistency_violation(u: Seq<Seq<u8>>, s: Seq<Seq<u8>>, i: int, j: int)
    requires
        0 <= i < 9,
        0 <= j < 9,
        gval(u, i, j) != 0,
        gval(u, i, j) != gval(s, i, j),
    ensures
        !sudoku_valid(u, s),
{
}

/// Distinctness violation, row form: a digit repeated within a row makes
/// the instance invalid.
pub proof fn lemma_row_duplicate(s: Seq<Seq<u8>>, i: int, j1: int, j2: int)
    requires
        0 <= i < 9,
        0 <= j1 < j2 < 9,
        gval(s, i, j1) == gval(s, i, j2),
    ensures
        !groups_distinct(s),
        forall|u: Seq<Seq<u8>>| !sudoku_valid(u, s),
{
    assert(group_cell_val(s, i, j2) == gval(s, i, j2));
    assert(group_cell_val(s, i, j1) == gval(s, i, j1));
    if groups_distinct(s) {
        assert(group_cell_val(s, i, j2) != group_cell_val(s, i, j1));
    }
}

/// Distinctness violation, column form: a digit repeated within a column
/// makes the instance invalid.
pub proof fn lemma_col_duplicate(s: Seq<Seq<u8>>, j: int, i1: int, i2: int)
    requires
        0 <= j < 9,
        0 <= i1 < i2 < 9,
        gval(s, i1, j) == gval(s, i2, j),
    ensures
        !groups_distinct(s),
        forall|u: Seq<Seq<u8>>| !sudoku_valid(u, s),
{
    assert(group_row(9 + j, i2) == i2 && group_col(9 + j, i2) == j);
    assert(group_cell_val(s, 9 + j, i2) == gval(s, i2, j));
    assert(group_cell_val(s, 9 + j, i1) == gval(s, i1, j));
    if groups_distinct(s) {
        assert(group_cell_val(s, 9 + j, i2) != group_cell_val(s, 9 + j, i1));
    }
}

/// Distinctness violation, box form: a digit repeated within a 3x3 box
/// makes the instance invalid.
pub proof fn lemma_box_duplicate(s: Seq<Seq<u8>>, r1: int, c1: int, r2: int, c2: int)
    requires
        0 <= r1 < 9,
        0 <= c1 < 9,
        0 <= r2 < 9,
        0 <= c2 < 9,
        r1 / 3 == r2 / 3,
        c1 / 3 == c2 / 3,
        !(r1 == r2 && c1 == c2),
        gval(s, r1, c1) == gval(s, r2, c2),
    ensures
        !groups_distinct(s),
        forall|u: Seq<Seq<u8>>| !sudoku_valid(u, s),
{
    let g = 18 + 3 * (r1 / 3) + c1 / 3;
    let t1 = 3 * (r1 % 3) + c1 % 3;
    let t2 = 3 * (r2 % 3) + c2 % 3;
    lemma_fundamental_div_mod(r1, 3);
    lemma_fundamental_div_mod(c1, 3);
    lemma_fundamental_div_mod(r2, 3);
    lemma_fundamental_div_mod(c2, 3);
    lemma_fundamental_div_mod_converse(g - 18, 3, r1 / 3, c1 / 3);
    lemma_fundamental_div_mod_converse(t1, 3, r1 % 3, c1 % 3);
    lemma_fundamental_div_mod_converse(t2, 3, r2 % 3, c2 % 3);
    assert(group_row(g, t1) == 3 * ((g - 18) / 3) + t1 / 3 == r1);
    assert(group_col(g, t1) == 3 * ((g - 18) % 3) + t1 % 3 == c1);
    assert(group_row(g, t2) == r2);
    assert(group_col(g, t2) == c2);
    assert(t1 != t2);
    assert(group_cell_val(s, g, t1) == gval(s, r1, c1));
    assert(group_cell_val(s, g, t2) == gval(s, r2, c2));
    if groups_distinct(s) {
        if t1 < t2 {
            assert(group_cell_val(s, g, t2) != group_cell_val(s, g, t1));
        } else {
            assert(group_cell_val(s, g, t1) != group_cell_val(s, g, t2));
        }
    }
}

/// The zero indicator marks exactly zero, and the equality indicator is
/// reflexive and symmetric.
pub proof fn lemma_indicator_laws(x: int, y: int)
    ensures
        zero_indicator(0) == 1,
        x != 0 ==> zero_indicator(x) == 0,
        eq_indicator(x, x) == 1,
        eq_indicator(x, y) == eq_indicator(y, x),
{
}

} // verus!
