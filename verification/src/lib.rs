//! Constraint-generation core for proving knowledge of a Sudoku solution.
//!
//! A puzzle (public clue grid) and a claimed solution (private witness grid)
//! are translated into a set of polynomial equality assertions over a fixed
//! modulus, built so that the set is satisfiable exactly when the solution is
//! a valid, puzzle-consistent Sudoku.  Range membership, equality tests and
//! conditional checks are all encoded with field addition and multiplication
//! alone, since an arithmetic constraint system offers no native comparison
//! or branching.  Key generation, proving and verification belong to an
//! external proving backend and are not part of this crate's logic.

pub mod circuit;
pub mod commitment;
pub mod field;
pub mod gadgets;
pub mod laws;
pub mod system;
