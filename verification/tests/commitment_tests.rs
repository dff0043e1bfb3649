//! The commitment-binding mode: the expected scalar is cross-checked
//! against an independent SHA-256 computation, the correct scalar leaves the
//! set satisfiable, and any other scalar leaves it unsatisfiable.

use sha2::Digest;

use sudoku_circuit::circuit::SudokuCircuit;
use sudoku_circuit::commitment::commitment_of;

fn grid(cells: [[u8; 9]; 9]) -> Vec<Vec<u8>> {
    let mut g: Vec<Vec<u8>> = Vec::new();
    for row in cells.iter() {
        g.push(row.to_vec());
    }
    g
}

fn unsolved() -> Vec<Vec<u8>> {
    grid([
        [0, 0, 0, 0, 0, 6, 0, 0, 0],
        [0, 0, 7, 2, 0, 0, 8, 0, 0],
        [9, 0, 6, 8, 0, 0, 0, 1, 0],
        [3, 0, 0, 7, 0, 0, 0, 2, 9],
        [0, 0, 0, 0, 0, 0, 0, 0, 0],
        [4, 0, 0, 5, 0, 0, 0, 7, 0],
        [6, 5, 0, 1, 0, 0, 0, 0, 0],
        [8, 0, 1, 0, 5, 0, 3, 0, 0],
        [7, 9, 2, 0, 0, 0, 0, 0, 4],
    ])
}

fn solved() -> Vec<Vec<u8>> {
    grid([
        [1, 8, 4, 3, 7, 6, 2, 9, 5],
        [5, 3, 7, 2, 9, 1, 8, 4, 6],
        [9, 2, 6, 8, 4, 5, 7, 1, 3],
        [3, 6, 5, 7, 1, 8, 4, 2, 9],
        [2, 7, 8, 4, 6, 9, 5, 3, 1],
        [4, 1, 9, 5, 3, 2, 6, 7, 8],
        [6, 5, 3, 1, 2, 4, 9, 8, 7],
        [8, 4, 1, 9, 5, 7, 3, 6, 2],
        [7, 9, 2, 6, 8, 3, 1, 5, 4],
    ])
}

#[test]
fn test_hash() {
    // Recompute the commitment scalar independently: SHA-256 over the 81
    // puzzle bytes in row-major order, then the little-endian value of the
    // first seven digest bytes.
    let u = unsolved();
    let mut bytes: Vec<u8> = Vec::new();
    for row in u.iter() {
        for cell in row.iter() {
            bytes.push(*cell);
        }
    }
    assert_eq!(bytes.len(), 81);
    let digest = sha2::Sha256::digest(&bytes);
    let mut expected: u64 = 0;
    for k in (0..7).rev() {
        expected = expected * 256 + digest[k] as u64;
    }
    assert_eq!(commitment_of(&u).unwrap(), expected);
}

#[test]
fn commitment_of_rejects_wrong_shape() {
    let mut u = unsolved();
    u.pop();
    assert!(commitment_of(&u).is_err());
}

#[test]
fn correct_commitment_is_satisfiable() {
    let u = unsolved();
    let c = commitment_of(&u).unwrap();
    let circuit = SudokuCircuit { unsolved: u, solved: solved() };
    let cs = circuit.synthesize_with_commitment(c).unwrap();
    assert!(cs.is_satisfied());
    // The single public input is the commitment scalar.
    assert_eq!(cs.public_inputs(), vec![c]);
}

#[test]
fn wrong_commitment_is_unsatisfiable() {
    let u = unsolved();
    let c = commitment_of(&u).unwrap();
    let circuit = SudokuCircuit { unsolved: u, solved: solved() };
    let cs = circuit.synthesize_with_commitment(c + 1).unwrap();
    assert!(!cs.is_satisfied());
}

#[test]
fn commitment_mode_still_checks_the_grid() {
    let u = unsolved();
    let c = commitment_of(&u).unwrap();
    let mut s = solved();
    s[0][8] = 10;
    let circuit = SudokuCircuit { unsolved: u, solved: s };
    let cs = circuit.synthesize_with_commitment(c).unwrap();
    assert!(!cs.is_satisfied());
}
