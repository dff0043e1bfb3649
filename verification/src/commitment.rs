//! The commitment-binding mode: instead of exposing 81 public puzzle cells,
//! the verifier is handed one public scalar, bound to a hash computed over
//! the puzzle.
//!
//! The hash itself is a black box: the 81 puzzle bytes are fed to SHA-256,
//! and the digest is truncated to a width strictly below the modulus — the
//! little-endian value of its first seven bytes — so that binding it to a
//! residue is unambiguous.

use vstd::prelude::*;

use sha2::Digest;

use crate::circuit::grid9;
use crate::circuit::grid_is_9x9;
use crate::circuit::GridSizeError;
use crate::field::MODULUS;

verus! {

/// The 32-byte SHA-256 digest of a byte sequence, named abstractly: it is a
/// function of the input bytes alone, and nothing more is assumed of it.
pub uninterp spec fn sha256_of(input: Seq<u8>) -> Seq<u8>;

/// Relies on sha2::Sha256 (the SHA-256 hash behind the `Digest` trait): the
/// digest has 32 bytes and depends on the input bytes alone.
#[verifier::external_body]
fn sha256_digest(input: &Vec<u8>) -> (r: Vec<u8>)
    ensures
        r@ == sha256_of(input@),
        r@.len() == 32,
{
    sha2::Sha256::digest(input.as_slice()).to_vec()
}

/// The 81 cells of the puzzle in row-major order: the bytes fed to the hash.
pub open spec fn grid_bytes(u: Seq<Seq<u8>>) -> Seq<u8> {
    Seq::new(81, |k: int| u[k / 9][k % 9])
}

/// The little-endian value of the first seven bytes of a digest.  It is
/// below 2^56, hence strictly below the modulus.
pub open spec fn reduce_digest_spec(d: Seq<u8>) -> int {
    d[0] as int + 256 * (d[1] as int + 256 * (d[2] as int + 256 * (d[3] as int + 256 * (
    d[4] as int + 256 * (d[5] as int + 256 * (d[6] as int))))))
}

/// The commitment scalar of a puzzle: its digest, truncated below the
/// modulus.
pub open spec fn commitment_spec(u: Seq<Seq<u8>>) -> int {
    reduce_digest_spec(sha256_of(grid_bytes(u)))
}

/// Truncate a digest to a residue: the little-endian value of its first
/// seven bytes.
pub fn reduce_digest(digest: &Vec<u8>) -> (r: u64)
    requires
        digest@.len() >= 7,
    ensures
        r == reduce_digest_spec(digest@),
        r < MODULUS,
{
    let b0 = digest[0] as u64;
    let b1 = digest[1] as u64;
    let b2 = digest[2] as u64;
    let b3 = digest[3] as u64;
    let b4 = digest[4] as u64;
    let b5 = digest[5] as u64;
    let b6 = digest[6] as u64;
    b0 + 256 * (b1 + 256 * (b2 + 256 * (b3 + 256 * (b4 + 256 * (b5 + 256 * b6)))))
}

/// The 81 cells of the grid as the byte string fed to the hash.
fn grid_to_bytes(g: &Vec<Vec<u8>>) -> (r: Vec<u8>)
    requires
        grid9(g.deep_view()),
    ensures
        r@ == grid_bytes(g.deep_view()),
{
    let ghost gv = g.deep_view();
    let mut out: Vec<u8> = Vec::new();
    let mut k: usize = 0;
    while k < 81
        invariant
            grid9(gv),
            gv == g.deep_view(),
            k <= 81,
            out@.len() == k,
            forall|m: int| 0 <= m < k ==> out@[m] == #[trigger] grid_bytes(gv)[m],
        decreases 81 - k,
    {
        let i = k / 9;
        let j = k % 9;
        proof {
            vstd::arithmetic::div_mod::lemma_fundamental_div_mod(k as int, 9);
            assert(i < 9);
            assert(g.deep_view()[i as int].len() == 9);
            assert(g@[i as int]@ == g.deep_view()[i as int]);
        }
        let value = g[i][j];
        out.push(value);
        proof {
            assert(grid_bytes(gv)[k as int] == gv[k as int / 9][k as int % 9]);
        }
        k = k + 1;
    }
    proof {
        assert(out@ =~= grid_bytes(gv));
    }
    out
}

/// The commitment scalar of a 9x9 grid.
pub(crate) fn commitment_scalar(unsolved: &Vec<Vec<u8>>) -> (r: u64)
    requires
        grid9(unsolved.deep_view()),
    ensures
        r == commitment_spec(unsolved.deep_view()),
        r < MODULUS,
{
    let bytes = grid_to_bytes(unsolved);
    let digest = sha256_digest(&bytes);
    reduce_digest(&digest)
}

/// The commitment scalar a verifier should expect for a puzzle grid: the
/// truncated SHA-256 digest of its 81 cells in row-major order.  Fails
/// exactly when the grid is not 9x9.
pub fn commitment_of(unsolved: &Vec<Vec<u8>>) -> (r: Result<u64, GridSizeError>)
    ensures
        r is Ok <==> grid9(unsolved.deep_view()),
        r matches Ok(c) ==> c == commitment_spec(unsolved.deep_view()) && c < MODULUS,
{
    if !grid_is_9x9(unsolved) {
        return Err(GridSizeError);
    }
    Ok(commitment_scalar(unsolved))
}

} // verus!
