//! Structural laws of the engine that relate several operations.

use vstd::prelude::*;
use vstd::arithmetic::mul::lemma_mul_is_commutative;
use crate::matrix::transpose_data;
use crate::matrix::lemma_flat;
use crate::matrix::lemma_flat_split;

verus! {

/// Transposing twice gives back the original buffer: for every `rows x cols`
/// matrix `A`, `A.transpose().transpose() == A`.
pub proof fn lemma_transpose_involution(d: Seq<u64>, rows: int, cols: int)
    requires
        rows >= 1,
        cols >= 1,
        d.len() == rows * cols,
    ensures
        transpose_data(transpose_data(d, rows, cols), cols, rows) == d,
{
    let t = transpose_data(d, rows, cols);
    let t2 = transpose_data(t, cols, rows);
    lemma_mul_is_commutative(rows, cols);
    assert forall|f: int| 0 <= f < d.len() implies t2[f] == d[f] by {
        lemma_flat_split(f, rows, cols);
        let i = f / cols;
        let j = f % cols;
        lemma_flat(j, i, cols, rows);
        lemma_flat(i, j, rows, cols);
    }
    assert(t2 =~= d);
}

} // verus!
