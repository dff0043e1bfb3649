//! End-to-end scenarios over the canonical puzzle/solution pair: a valid
//! instance satisfies the built constraint set, and each kind of violation
//! leaves it unsatisfied.

use sudoku_circuit::circuit::SudokuCircuit;

fn grid(cells: [[u8; 9]; 9]) -> Vec<Vec<u8>> {
    let mut g: Vec<Vec<u8>> = Vec::new();
    for row in cells.iter() {
        g.push(row.to_vec());
    }
    g
}

fn unsolved() -> Vec<Vec<u8>> {
    grid([
        [0, 0, 0, 0, 0, 6, 0, 0, 0],
        [0, 0, 7, 2, 0, 0, 8, 0, 0],
        [9, 0, 6, 8, 0, 0, 0, 1, 0],
        [3, 0, 0, 7, 0, 0, 0, 2, 9],
        [0, 0, 0, 0, 0, 0, 0, 0, 0],
        [4, 0, 0, 5, 0, 0, 0, 7, 0],
        [6, 5, 0, 1, 0, 0, 0, 0, 0],
        [8, 0, 1, 0, 5, 0, 3, 0, 0],
        [7, 9, 2, 0, 0, 0, 0, 0, 4],
    ])
}

fn solved() -> Vec<Vec<u8>> {
    grid([
        [1, 8, 4, 3, 7, 6, 2, 9, 5],
        [5, 3, 7, 2, 9, 1, 8, 4, 6],
        [9, 2, 6, 8, 4, 5, 7, 1, 3],
        [3, 6, 5, 7, 1, 8, 4, 2, 9],
        [2, 7, 8, 4, 6, 9, 5, 3, 1],
        [4, 1, 9, 5, 3, 2, 6, 7, 8],
        [6, 5, 3, 1, 2, 4, 9, 8, 7],
        [8, 4, 1, 9, 5, 7, 3, 6, 2],
        [7, 9, 2, 6, 8, 3, 1, 5, 4],
    ])
}

#[test]
fn test_circuit() {
    let circuit = SudokuCircuit { unsolved: unsolved(), solved: solved() };
    let cs = circuit.synthesize().unwrap();
    assert!(cs.is_satisfied());
    assert!(cs.frozen_flag());
}

#[test]
fn circuit_test_circuit() {
    let circuit = SudokuCircuit { unsolved: unsolved(), solved: solved() };
    let cs = circuit.synthesize().unwrap();
    assert!(cs.is_satisfied());
    // 162 cells plus the gadget auxiliaries; at least one constraint per
    // range, consistency and distinctness check.
    assert!(cs.num_variables() > 162);
    assert!(cs.num_constraints() >= 81 + 81 + 972);
}

#[test]
fn circuit_with_all_gates() {
    let circuit = SudokuCircuit { unsolved: unsolved(), solved: solved() };
    let cs = circuit.synthesize().unwrap();
    assert!(cs.is_satisfied());
    // The public inputs are the 81 puzzle cells in row-major order.
    let pub_inputs = cs.public_inputs();
    assert_eq!(pub_inputs.len(), 81);
    let u = unsolved();
    for i in 0..9 {
        for j in 0..9 {
            assert_eq!(pub_inputs[9 * i + j], u[i][j] as u64);
        }
    }
}

#[test]
fn rejects_out_of_range_cell() {
    let mut s = solved();
    s[0][8] = 10;
    let circuit = SudokuCircuit { unsolved: unsolved(), solved: s };
    let cs = circuit.synthesize().unwrap();
    assert!(!cs.is_satisfied());
}

#[test]
fn rejects_unmatched_solution() {
    // The cell under the clue 6 in row 0 is changed: the solution no longer
    // matches the non-blank puzzle cell.
    let mut s = solved();
    s[0][5] = 5;
    let circuit = SudokuCircuit { unsolved: unsolved(), solved: s };
    let cs = circuit.synthesize().unwrap();
    assert!(!cs.is_satisfied());
}

#[test]
fn rejects_inconsistent_clue() {
    // The solution grid itself stays a valid Sudoku; only one extra clue
    // disagrees with it, so unsatisfiability comes from consistency alone.
    let mut u = unsolved();
    u[4][4] = 5;  // the solution holds 6 there
    let circuit = SudokuCircuit { unsolved: u, solved: solved() };
    let cs = circuit.synthesize().unwrap();
    assert!(!cs.is_satisfied());
}

#[test]
fn rejects_repeated_in_row() {
    let mut s = solved();
    s[0][1] = 1;  // row 0 already holds 1 at column 0
    let circuit = SudokuCircuit { unsolved: unsolved(), solved: s };
    let cs = circuit.synthesize().unwrap();
    assert!(!cs.is_satisfied());
}

#[test]
fn rejects_repeated_in_column() {
    let mut s = solved();
    s[1][0] = 1;  // column 0 already holds 1 at row 0
    let circuit = SudokuCircuit { unsolved: unsolved(), solved: s };
    let cs = circuit.synthesize().unwrap();
    assert!(!cs.is_satisfied());
}

#[test]
fn rejects_repeated_in_square() {
    let mut s = solved();
    s[0][0] = 9;  // the top-left box already holds 9 at row 2, column 0
    let circuit = SudokuCircuit { unsolved: unsolved(), solved: s };
    let cs = circuit.synthesize().unwrap();
    assert!(!cs.is_satisfied());
}

#[test]
fn rejects_wrong_grid_shape() {
    let mut u = unsolved();
    u.pop();
    let circuit = SudokuCircuit { unsolved: u, solved: solved() };
    assert!(circuit.synthesize().is_err());

    let mut s = solved();
    s[3].pop();
    let circuit = SudokuCircuit { unsolved: unsolved(), solved: s };
    assert!(circuit.synthesize().is_err());
}

#[test]
fn blanking_any_subset_is_satisfiable() {
    // Blanking more cells of a valid pair keeps the set satisfiable.
    let mut u = unsolved();
    u[0][5] = 0;
    u[2][0] = 0;
    u[8][8] = 0;
    let circuit = SudokuCircuit { unsolved: u, solved: solved() };
    assert!(circuit.synthesize().unwrap().is_satisfied());

    // Blanking everything leaves any valid solved grid acceptable.
    let all_blank = grid([[0; 9]; 9]);
    let circuit = SudokuCircuit { unsolved: all_blank, solved: solved() };
    assert!(circuit.synthesize().unwrap().is_satisfied());
}
