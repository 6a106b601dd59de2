//! A dense matrix of IEEE-754 double-precision numbers, held as their 64-bit
//! patterns in a flat row-major buffer, with shape-checked arithmetic, LU
//! decomposition with partial pivoting, and the substitution-based derived
//! operations (determinant, inverse, linear-system solving).

use vstd::prelude::*;
use vstd::arithmetic::div_mod::lemma_fundamental_div_mod;
use vstd::arithmetic::div_mod::lemma_fundamental_div_mod_converse;
use vstd::arithmetic::mul::lemma_mul_is_commutative;
use crate::flt::POS_ZERO;
use crate::flt::ONE_BITS;
use crate::flt::f64_add;
use crate::flt::f64_sub;
use crate::flt::f64_mul;
use crate::flt::is_nan_bits;
use crate::flt::regular_bits;
use crate::flt::lemma_special_bits;
use crate::flt::f64_div;
use crate::flt::f64_gt;
use crate::flt::f64_is_zero;
use crate::flt::NEG_ONE_BITS;
use crate::flt::spec_abs_bits;
use crate::flt::abs_bits;
use crate::flt::add_bits;
use crate::flt::sub_bits;
use crate::flt::mul_bits;
use crate::flt::div_bits;
use crate::flt::gt_bits;
use crate::flt::is_zero_bits;
use vstd::pervasive::unreached;

verus! {

/// The failure kinds of the engine; every fallible operation reports exactly
/// one of these.
#[derive(Clone, Copy, Debug, PartialEq, Eq, Structural)]
pub enum MatrixError {
    /// A requested row or column count is 0.
    ZeroDimension,
    /// Operand shapes are incompatible for the requested operation.
    DimensionMismatch,
    /// A row or column index exceeds the matrix's bounds.
    IndexOutOfBounds,
    /// A square-only operation was invoked on a non-square matrix.
    NotSquare,
    /// Elimination found no non-zero pivot in some column.
    Singular,
}

/// A matrix of double-precision numbers, stored in row-major order as bit
/// patterns (element `(r, c)` of an `rows x cols` matrix sits at flat offset
/// `r * cols + c`).
#[derive(Clone, Debug)]
pub struct Matrix {
    /// The matrix data, one 64-bit pattern per element, in row-major order.
    data: Vec<u64>,
    /// The number of rows in the matrix.
    rows: usize,
    /// The number of columns in the matrix.
    cols: usize,
}

/// A flat buffer of `n` elements, all +0.0.
pub open spec fn zero_data(n: int) -> Seq<u64> {
    Seq::new(n as nat, |k: int| POS_ZERO)
}

/// The flat buffer of the `n x n` identity matrix: 1.0 on the diagonal,
/// +0.0 elsewhere.
pub open spec fn ident_data(n: int) -> Seq<u64> {
    Seq::new((n * n) as nat, |f: int| if f / n == f % n {
        ONE_BITS
    } else {
        POS_ZERO
    })
}

/// Elementwise IEEE sum of two equally long flat buffers.
pub open spec fn add_data(a: Seq<u64>, b: Seq<u64>) -> Seq<u64> {
    Seq::new(a.len(), |k: int| f64_add(a[k], b[k]))
}

/// Elementwise IEEE difference of two equally long flat buffers.
pub open spec fn sub_data(a: Seq<u64>, b: Seq<u64>) -> Seq<u64> {
    Seq::new(a.len(), |k: int| f64_sub(a[k], b[k]))
}

/// The flat buffer of the transpose of an `rows x cols` matrix held in `d`:
/// the result is `cols x rows` and its element `(j, i)` is `d`'s `(i, j)`.
pub open spec fn transpose_data(d: Seq<u64>, rows: int, cols: int) -> Seq<u64> {
    Seq::new((rows * cols) as nat, |f: int| d[(f % rows) * cols + f / rows])
}

/// No entry of the buffer is a NaN.
pub open spec fn nan_free(d: Seq<u64>) -> bool {
    forall|k: int| 0 <= k < d.len() ==> !is_nan_bits(#[trigger] d[k])
}

/// Every entry of the buffer is finite and not -0.0 (the entries for which
/// multiplying by an identity matrix reproduces the buffer exactly).
pub open spec fn regular_data(d: Seq<u64>) -> bool {
    forall|k: int| 0 <= k < d.len() ==> regular_bits(#[trigger] d[k])
}

/// The IEEE left fold that a matrix product's element `(i, j)` accumulates:
/// the sum of the first `k` products `a(i, q) * b(q, j)`, added in ascending
/// `q` starting from +0.0, where `a` has `acols` columns and `b` has `bcols`
/// columns.
pub open spec fn dot_prefix(
    a: Seq<u64>,
    b: Seq<u64>,
    acols: int,
    bcols: int,
    i: int,
    j: int,
    k: int,
) -> u64
    decreases k,
{
    if k <= 0 {
        POS_ZERO
    } else {
        f64_add(
            dot_prefix(a, b, acols, bcols, i, j, k - 1),
            f64_mul(a[i * acols + (k - 1)], b[(k - 1) * bcols + j]),
        )
    }
}

/// The flat buffer of the product of an `m x n` matrix `a` and an `n x p`
/// matrix `b`: element `(i, j)` is the `n`-term dot product of row `i` of
/// `a` and column `j` of `b`.
pub open spec fn mul_data(a: Seq<u64>, b: Seq<u64>, m: int, n: int, p: int) -> Seq<u64> {
    Seq::new((m * p) as nat, |f: int| dot_prefix(a, b, n, p, f / p, f % p, n))
}

/// The buffer of an `rows x cols` matrix held in `d`, with rows `r1` and
/// `r2` exchanged in full.
pub open spec fn swap_rows_data(d: Seq<u64>, cols: int, r1: int, r2: int) -> Seq<u64> {
    Seq::new(d.len(), |f: int| if f / cols == r1 {
        d[r2 * cols + f % cols]
    } else if f / cols == r2 {
        d[r1 * cols + f % cols]
    } else {
        d[f]
    })
}

/// The pivot search of one elimination step: scanning column `i` of the
/// buffer over rows `j .. rows`, carrying the largest absolute value seen so
/// far (`m`, started at +0.0) and the first row that attained it (`mi`,
/// started at 0), updating both exactly when a strictly greater absolute
/// value appears.
pub open spec fn scan_pivot(
    d: Seq<u64>,
    rows: int,
    cols: int,
    i: int,
    j: int,
    m: u64,
    mi: int,
) -> (u64, int)
    decreases rows - j,
{
    if j >= rows {
        (m, mi)
    } else {
        let ab = spec_abs_bits(d[j * cols + i]);
        if f64_gt(ab, m) {
            scan_pivot(d, rows, cols, i, j + 1, ab, j)
        } else {
            scan_pivot(d, rows, cols, i, j + 1, m, mi)
        }
    }
}

/// The tail of one elimination row: columns `k .. cols` of row `j` each
/// updated to `d(j, q) - factor * d(i, q)`, in ascending column order.
pub open spec fn elim_row(d: Seq<u64>, cols: int, i: int, j: int, factor: u64, k: int) -> Seq<u64>
    decreases cols - k,
{
    if k >= cols {
        d
    } else {
        elim_row(
            d.update(j * cols + k, f64_sub(d[j * cols + k], f64_mul(factor, d[i * cols + k]))),
            cols,
            i,
            j,
            factor,
            k + 1,
        )
    }
}

/// The elimination of step `i` applied to rows `j .. rows`: each row's
/// multiplier `d(j, i) / d(i, i)` overwrites `d(j, i)` (compact storage of
/// the lower factor) and the rest of the row is reduced by `elim_row`.
pub open spec fn elim_rows(d: Seq<u64>, rows: int, cols: int, i: int, j: int) -> Seq<u64>
    decreases rows - j,
{
    if j >= rows {
        d
    } else {
        let factor = f64_div(d[j * cols + i], d[i * cols + i]);
        elim_rows(
            elim_row(d.update(j * cols + i, factor), cols, i, j, factor, i + 1),
            rows,
            cols,
            i,
            j + 1,
        )
    }
}

/// LU decomposition with partial pivoting, from elimination step `i` on,
/// with `ps` the pivot rows recorded so far: each step scans its column for
/// the largest absolute value, fails (`None`) exactly when that maximum is
/// a zero, and otherwise records the pivot row, swaps it up, eliminates
/// below, and continues.  `Some` carries the combined L/U buffer and the
/// full pivot trace.
pub open spec fn lu_steps(d: Seq<u64>, rows: int, cols: int, i: int, ps: Seq<int>) -> Option<
    (Seq<u64>, Seq<int>),
>
    decreases rows - i,
{
    if i >= rows {
        Some((d, ps))
    } else {
        let sc = scan_pivot(d, rows, cols, i, i, POS_ZERO, 0);
        if f64_is_zero(sc.0) {
            None
        } else {
            lu_steps(
                elim_rows(swap_rows_data(d, cols, i, sc.1), rows, cols, i, i + 1),
                rows,
                cols,
                i + 1,
                ps.push(sc.1),
            )
        }
    }
}

/// The decomposition's row exchanges replayed onto a right-hand-side
/// buffer: for each step `i` in order, rows `i` and `ps(i)` are swapped.
pub open spec fn apply_pivots(d: Seq<u64>, cols: int, ps: Seq<int>, i: int) -> Seq<u64>
    decreases ps.len() - i,
{
    if i >= ps.len() {
        d
    } else {
        apply_pivots(swap_rows_data(d, cols, i, ps[i]), cols, ps, i + 1)
    }
}

/// The running sum of forward substitution at row `i` of column `c`: the
/// first `j` products `lu(i, q) * x(q, c)`, added in ascending `q` from
/// +0.0.
pub open spec fn fsum(lu: Seq<u64>, n: int, x: Seq<u64>, bcols: int, c: int, i: int, j: int) -> u64
    decreases j,
{
    if j <= 0 {
        POS_ZERO
    } else {
        f64_add(
            fsum(lu, n, x, bcols, c, i, j - 1),
            f64_mul(lu[i * n + (j - 1)], x[(j - 1) * bcols + c]),
        )
    }
}

/// Forward substitution on column `c` from row `i` down: each row becomes
/// `x(i, c) - fsum(i)`, rows resolved in ascending order against the unit
/// lower factor.
pub open spec fn fwd_col(lu: Seq<u64>, n: int, x: Seq<u64>, bcols: int, c: int, i: int) -> Seq<u64>
    decreases n - i,
{
    if i >= n {
        x
    } else {
        let s = fsum(lu, n, x, bcols, c, i, i);
        fwd_col(lu, n, x.update(i * bcols + c, f64_sub(x[i * bcols + c], s)), bcols, c, i + 1)
    }
}

/// The running sum of backward substitution at row `i` of column `c`: the
/// products `lu(i, q) * x(q, c)` for `q` in `i + 1 .. j`, added in
/// ascending `q` from +0.0.
pub open spec fn bsum(lu: Seq<u64>, n: int, x: Seq<u64>, bcols: int, c: int, i: int, j: int) -> u64
    decreases j - i,
{
    if j <= i + 1 {
        POS_ZERO
    } else {
        f64_add(
            bsum(lu, n, x, bcols, c, i, j - 1),
            f64_mul(lu[i * n + (j - 1)], x[(j - 1) * bcols + c]),
        )
    }
}

/// Backward substitution on column `c` from row `i` up: each row becomes
/// `(x(i, c) - bsum(i)) / lu(i, i)`, rows resolved in descending order
/// against the upper factor's diagonal.
pub open spec fn bwd_col(lu: Seq<u64>, n: int, x: Seq<u64>, bcols: int, c: int, i: int) -> Seq<u64>
    decreases i + 1,
{
    if i < 0 {
        x
    } else {
        let s = bsum(lu, n, x, bcols, c, i, n);
        bwd_col(
            lu,
            n,
            x.update(i * bcols + c, f64_div(f64_sub(x[i * bcols + c], s), lu[i * n + i])),
            bcols,
            c,
            i - 1,
        )
    }
}

/// Forward then backward substitution applied to columns `c .. bcols` of
/// the right-hand-side buffer, in ascending column order.
pub open spec fn subst_cols(lu: Seq<u64>, n: int, x: Seq<u64>, bcols: int, c: int) -> Seq<u64>
    decreases bcols - c,
{
    if c >= bcols {
        x
    } else {
        subst_cols(
            lu,
            n,
            bwd_col(lu, n, fwd_col(lu, n, x, bcols, c, 0), bcols, c, n - 1),
            bcols,
            c + 1,
        )
    }
}

/// What solving against a factored matrix computes: the decomposition's row
/// exchanges applied to the right-hand side, then forward and backward
/// substitution on each column.
pub open spec fn back_subst_data(
    lu: Seq<u64>,
    n: int,
    ps: Seq<int>,
    b: Seq<u64>,
    bcols: int,
) -> Seq<u64> {
    subst_cols(lu, n, apply_pivots(b, bcols, ps, 0), bcols, 0)
}

/// The signed product of the factored matrix's diagonal from row `i` on:
/// the determinant accumulator, multiplied by each diagonal entry in turn
/// and negated once for every step whose recorded pivot row differs from
/// the step index.
pub open spec fn det_fold(dd: Seq<u64>, n: int, ps: Seq<int>, i: int, acc: u64) -> u64
    decreases n - i,
{
    if i >= n {
        acc
    } else {
        let acc1 = f64_mul(acc, dd[i * n + i]);
        let acc2 = if ps[i] != i {
            f64_mul(acc1, NEG_ONE_BITS)
        } else {
            acc1
        };
        det_fold(dd, n, ps, i + 1, acc2)
    }
}

/// Relates a row/column pair to its row-major flat offset: the offset is in
/// bounds and decomposes back into the pair.
pub(crate) proof fn lemma_flat(i: int, j: int, rows: int, cols: int)
    requires
        0 <= i < rows,
        0 <= j < cols,
    ensures
        0 <= i * cols + j < rows * cols,
        (i * cols + j) / cols == i,
        (i * cols + j) % cols == j,
{
    lemma_fundamental_div_mod_converse(i * cols + j, cols, i, j);
    assert(0 <= i * cols + j < rows * cols) by (nonlinear_arith)
        requires
            0 <= i < rows,
            0 <= j < cols,
    ;
}

/// A flat offset below `rows * cols` decomposes into a row below `rows` and
/// a column below `cols`.
pub(crate) proof fn lemma_flat_split(f: int, rows: int, cols: int)
    requires
        0 <= f < rows * cols,
        0 < rows,
        0 < cols,
    ensures
        0 <= f / cols < rows,
        0 <= f % cols < cols,
        f == (f / cols) * cols + f % cols,
{
    lemma_fundamental_div_mod(f, cols);
    vstd::arithmetic::div_mod::lemma_mod_bound(f, cols);
    assert(f == (f / cols) * cols + f % cols) by (nonlinear_arith)
        requires
            f == cols * (f / cols) + f % cols,
    ;
    assert(0 <= f / cols < rows) by (nonlinear_arith)
        requires
            f == cols * (f / cols) + f % cols,
            0 <= f % cols < cols,
            0 <= f < rows * cols,
            0 < cols,
    ;
}

impl Matrix {
    /// The number of rows, as a mathematical integer.
    pub closed spec fn spec_rows(&self) -> int {
        self.rows as int
    }

    /// The number of columns, as a mathematical integer.
    pub closed spec fn spec_cols(&self) -> int {
        self.cols as int
    }

    /// The flat row-major buffer of element bit patterns.
    pub closed spec fn spec_data(&self) -> Seq<u64> {
        self.data@
    }

    /// The structural invariant of every live matrix: both dimensions are at
    /// least 1 and the buffer holds exactly `rows * cols` elements.
    pub open spec fn wf(&self) -> bool {
        &&& self.spec_rows() >= 1
        &&& self.spec_cols() >= 1
        &&& self.spec_data().len() == self.spec_rows() * self.spec_cols()
    }

    /// The bit pattern of element `(i, j)`.
    pub open spec fn entry(&self, i: int, j: int) -> u64 {
        self.spec_data()[i * self.spec_cols() + j]
    }

    /// Returns the number of rows in the matrix.
    pub fn rows(&self) -> (r: usize)
        ensures
            r as int == self.spec_rows(),
    {
        self.rows
    }

    /// Returns the number of columns in the matrix.
    pub fn cols(&self) -> (r: usize)
        ensures
            r as int == self.spec_cols(),
    {
        self.cols
    }

    /// Returns a view of the underlying flat buffer.
    pub fn as_vec(&self) -> (r: &Vec<u64>)
        ensures
            r@ == self.spec_data(),
    {
        &self.data
    }

    /// Creates a matrix with the given shape, every element +0.0; fails with
    /// `ZeroDimension` exactly when either dimension is 0.
    #[verifier::loop_isolation(false)]
    pub fn new(rows: usize, cols: usize) -> (r: Result<Matrix, MatrixError>)
        requires
            rows * cols <= usize::MAX,
        ensures
            match r {
                Ok(m) => {
                    &&& rows >= 1 && cols >= 1
                    &&& m.wf()
                    &&& m.spec_rows() == rows && m.spec_cols() == cols
                    &&& m.spec_data() == zero_data(rows * cols)
                },
                Err(e) => (rows == 0 || cols == 0) && e == MatrixError::ZeroDimension,
            },
    {
        if rows == 0 || cols == 0 {
            return Err(MatrixError::ZeroDimension);
        }
        let n = rows * cols;
        let mut data: Vec<u64> = Vec::new();
        let mut k: usize = 0;
        while k < n
            invariant
                k <= n,
                data@.len() == k,
                forall|q: int| 0 <= q < k ==> data@[q] == POS_ZERO,
            decreases n - k,
        {
            data.push(POS_ZERO);
            k = k + 1;
        }
        proof {
            assert(data@ =~= zero_data(rows * cols));
        }
        Ok(Matrix { data, rows, cols })
    }

    /// Creates a matrix that takes ownership of `data` as its buffer; fails
    /// with `ZeroDimension` when either dimension is 0, and otherwise with
    /// `DimensionMismatch` exactly when the buffer length is not
    /// `rows * cols`.
    pub fn from_data(rows: usize, cols: usize, data: Vec<u64>) -> (r: Result<Matrix, MatrixError>)
        ensures
            match r {
                Ok(m) => {
                    &&& rows >= 1 && cols >= 1
                    &&& data@.len() == rows * cols
                    &&& m.wf()
                    &&& m.spec_rows() == rows && m.spec_cols() == cols
                    &&& m.spec_data() == data@
                },
                Err(e) => if rows == 0 || cols == 0 {
                    e == MatrixError::ZeroDimension
                } else {
                    data@.len() != rows * cols && e == MatrixError::DimensionMismatch
                },
            },
    {
        if rows == 0 || cols == 0 {
            return Err(MatrixError::ZeroDimension);
        }
        let len = data.len();
        if len % cols != 0 || len / cols != rows {
            proof {
                if len == rows * cols {
                    lemma_fundamental_div_mod_converse(len as int, cols as int, rows as int, 0);
                }
            }
            return Err(MatrixError::DimensionMismatch);
        }
        proof {
            lemma_fundamental_div_mod(len as int, cols as int);
            vstd::arithmetic::mul::lemma_mul_is_commutative(rows as int, cols as int);
        }
        Ok(Matrix { data, rows, cols })
    }

    /// Creates the identity matrix of the given size: 1.0 on the diagonal,
    /// +0.0 elsewhere; fails with `ZeroDimension` exactly when `size` is 0.
    #[verifier::loop_isolation(false)]
    pub fn identity(size: usize) -> (r: Result<Matrix, MatrixError>)
        requires
            size * size <= usize::MAX,
        ensures
            match r {
                Ok(m) => {
                    &&& size >= 1
                    &&& m.wf()
                    &&& m.spec_rows() == size && m.spec_cols() == size
                    &&& m.spec_data() == ident_data(size as int)
                },
                Err(e) => size == 0 && e == MatrixError::ZeroDimension,
            },
    {
        if size == 0 {
            return Err(MatrixError::ZeroDimension);
        }
        let n = size * size;
        let mut data: Vec<u64> = Vec::new();
        let mut f: usize = 0;
        while f < n
            invariant
                f <= n,
                size >= 1,
                n == size * size,
                data@.len() == f,
                forall|q: int| 0 <= q < f ==> data@[q] == ident_data(size as int)[q],
            decreases n - f,
        {
            let v = if f / size == f % size {
                ONE_BITS
            } else {
                POS_ZERO
            };
            data.push(v);
            f = f + 1;
        }
        proof {
            assert(data@ =~= ident_data(size as int));
        }
        Ok(Matrix { data, rows: size, cols: size })
    }

    /// Returns the flat row-major offset of element `(row, col)`; fails with
    /// `IndexOutOfBounds` exactly when the index exceeds the shape.
    pub fn index(&self, row: usize, col: usize) -> (r: Result<usize, MatrixError>)
        requires
            self.wf(),
        ensures
            match r {
                Ok(k) => row < self.spec_rows() && col < self.spec_cols() && k
                    == row * self.spec_cols() + col,
                Err(e) => (row >= self.spec_rows() || col >= self.spec_cols()) && e
                    == MatrixError::IndexOutOfBounds,
            },
    {
        if row >= self.rows || col >= self.cols {
            return Err(MatrixError::IndexOutOfBounds);
        }
        proof {
            vstd::std_specs::vec::axiom_spec_len(&self.data);
            lemma_flat(row as int, col as int, self.spec_rows(), self.spec_cols());
        }
        Ok(row * self.cols + col)
    }

    /// Returns the value of element `(row, col)`; fails with
    /// `IndexOutOfBounds` exactly when the index exceeds the shape.
    pub fn get(&self, row: usize, col: usize) -> (r: Result<u64, MatrixError>)
        requires
            self.wf(),
        ensures
            match r {
                Ok(v) => row < self.spec_rows() && col < self.spec_cols() && v == self.entry(
                    row as int,
                    col as int,
                ),
                Err(e) => (row >= self.spec_rows() || col >= self.spec_cols()) && e
                    == MatrixError::IndexOutOfBounds,
            },
    {
        if row >= self.rows || col >= self.cols {
            return Err(MatrixError::IndexOutOfBounds);
        }
        proof {
            vstd::std_specs::vec::axiom_spec_len(&self.data);
            lemma_flat(row as int, col as int, self.spec_rows(), self.spec_cols());
        }
        Ok(self.data[row * self.cols + col])
    }

    /// Sets element `(row, col)` to `value`; fails with `IndexOutOfBounds`
    /// exactly when the index exceeds the shape, leaving the matrix
    /// unchanged.
    pub fn set(&mut self, row: usize, col: usize, value: u64) -> (r: Result<(), MatrixError>)
        requires
            old(self).wf(),
        ensures
            final(self).wf(),
            final(self).spec_rows() == old(self).spec_rows(),
            final(self).spec_cols() == old(self).spec_cols(),
            match r {
                Ok(()) => row < old(self).spec_rows() && col < old(self).spec_cols()
                    && final(self).spec_data() == old(self).spec_data().update(
                    row * old(self).spec_cols() + col,
                    value,
                ),
                Err(e) => {
                    &&& (row >= old(self).spec_rows() || col >= old(self).spec_cols())
                    &&& e == MatrixError::IndexOutOfBounds
                    &&& final(self).spec_data() == old(self).spec_data()
                },
            },
    {
        if row >= self.rows || col >= self.cols {
            return Err(MatrixError::IndexOutOfBounds);
        }
        proof {
            vstd::std_specs::vec::axiom_spec_len(&self.data);
            lemma_flat(row as int, col as int, self.spec_rows(), self.spec_cols());
        }
        self.data[row * self.cols + col] = value;
        Ok(())
    }

    /// Unchecked read of element `(row, col)`: the engine's internal fast
    /// path, with in-bounds indices a proof obligation of the caller.
    pub(crate) fn at_unchecked(&self, row: usize, col: usize) -> (r: u64)
        requires
            self.wf(),
            row < self.spec_rows(),
            col < self.spec_cols(),
        ensures
            r == self.entry(row as int, col as int),
    {
        proof {
            vstd::std_specs::vec::axiom_spec_len(&self.data);
            lemma_flat(row as int, col as int, self.spec_rows(), self.spec_cols());
        }
        self.data[row * self.cols + col]
    }

    /// Unchecked write of element `(row, col)`: the engine's internal fast
    /// path, with in-bounds indices a proof obligation of the caller.
    pub(crate) fn set_unchecked(&mut self, row: usize, col: usize, value: u64)
        requires
            old(self).wf(),
            row < old(self).spec_rows(),
            col < old(self).spec_cols(),
        ensures
            final(self).wf(),
            final(self).spec_rows() == old(self).spec_rows(),
            final(self).spec_cols() == old(self).spec_cols(),
            final(self).spec_data() == old(self).spec_data().update(
                row * old(self).spec_cols() + col,
                value,
            ),
    {
        proof {
            vstd::std_specs::vec::axiom_spec_len(&self.data);
            lemma_flat(row as int, col as int, self.spec_rows(), self.spec_cols());
        }
        self.data[row * self.cols + col] = value;
    }

    /// Returns a new matrix owning a copy of this one's buffer.
    #[verifier::loop_isolation(false)]
    pub(crate) fn duplicate(&self) -> (r: Matrix)
        requires
            self.wf(),
        ensures
            r.wf(),
            r.spec_rows() == self.spec_rows(),
            r.spec_cols() == self.spec_cols(),
            r.spec_data() == self.spec_data(),
    {
        let n = self.data.len();
        let mut data: Vec<u64> = Vec::new();
        let mut k: usize = 0;
        while k < n
            invariant
                k <= n,
                data@.len() == k,
                forall|q: int| 0 <= q < k ==> data@[q] == self.spec_data()[q],
            decreases n - k,
        {
            data.push(self.data[k]);
            k = k + 1;
        }
        proof {
            assert(data@ =~= self.spec_data());
        }
        Matrix { data, rows: self.rows, cols: self.cols }
    }

    /// Swaps rows `i` and `j` of the matrix, in full.
    #[verifier::loop_isolation(false)]
    pub(crate) fn swap_rows(&mut self, i: usize, j: usize)
        requires
            old(self).wf(),
            i < old(self).spec_rows(),
            j < old(self).spec_rows(),
        ensures
            final(self).wf(),
            final(self).spec_rows() == old(self).spec_rows(),
            final(self).spec_cols() == old(self).spec_cols(),
            final(self).spec_data() == swap_rows_data(
                old(self).spec_data(),
                old(self).spec_cols(),
                i as int,
                j as int,
            ),
    {
        let ghost d0 = self.spec_data();
        let ghost rows0 = self.spec_rows();
        let ghost cols0 = self.spec_cols();
        let cols = self.cols;
        let mut k: usize = 0;
        while k < cols
            invariant
                k <= cols,
                self.wf(),
                self.spec_rows() == rows0,
                self.spec_cols() == cols0,
                self.spec_data().len() == d0.len(),
                forall|f: int|
                    0 <= f < d0.len() ==> #[trigger] self.spec_data()[f] == (if f / cols0
                        == i && f % cols0 < k {
                        d0[j * cols0 + f % cols0]
                    } else if f / cols0 == j && f % cols0 < k {
                        d0[i * cols0 + f % cols0]
                    } else {
                        d0[f]
                    }),
            decreases cols - k,
        {
            proof {
                vstd::std_specs::vec::axiom_spec_len(&self.data);
                lemma_flat(i as int, k as int, rows0, cols0);
                lemma_flat(j as int, k as int, rows0, cols0);
            }
            let idx1 = i * cols + k;
            let idx2 = j * cols + k;
            let v1 = self.data[idx1];
            let v2 = self.data[idx2];
            self.data[idx1] = v2;
            self.data[idx2] = v1;
            k = k + 1;
            proof {
                assert forall|f: int| 0 <= f < d0.len() implies #[trigger] self.spec_data()[f]
                    == (if f / cols0 == i && f % cols0 < k {
                    d0[j * cols0 + f % cols0]
                } else if f / cols0 == j && f % cols0 < k {
                    d0[i * cols0 + f % cols0]
                } else {
                    d0[f]
                }) by {
                    lemma_flat_split(f, rows0, cols0);
                }
            }
        }
        proof {
            assert forall|f: int| 0 <= f < d0.len() implies self.spec_data()[f]
                == swap_rows_data(d0, cols0, i as int, j as int)[f] by {
                lemma_flat_split(f, rows0, cols0);
            }
            assert(self.spec_data() =~= swap_rows_data(d0, cols0, i as int, j as int));
        }
    }

    /// Returns the transpose: a `cols x rows` matrix whose element `(j, i)`
    /// is this matrix's element `(i, j)`.  Never fails.
    #[verifier::loop_isolation(false)]
    pub fn transpose(&self) -> (r: Matrix)
        requires
            self.wf(),
        ensures
            r.wf(),
            r.spec_rows() == self.spec_cols(),
            r.spec_cols() == self.spec_rows(),
            r.spec_data() == transpose_data(self.spec_data(), self.spec_rows(), self.spec_cols()),
            forall|i: int, j: int|
                0 <= i < self.spec_rows() && 0 <= j < self.spec_cols() ==> #[trigger] r.entry(j, i)
                    == self.entry(i, j),
    {
        let rows = self.rows;
        let cols = self.cols;
        proof {
            vstd::std_specs::vec::axiom_spec_len(&self.data);
            lemma_mul_is_commutative(cols as int, rows as int);
        }
        let n = cols * rows;
        let mut out: Vec<u64> = Vec::new();
        let mut f: usize = 0;
        while f < n
            invariant
                f <= n,
                out@.len() == f,
                forall|q: int|
                    0 <= q < f ==> #[trigger] out@[q] == transpose_data(
                        self.spec_data(),
                        rows as int,
                        cols as int,
                    )[q],
            decreases n - f,
        {
            proof {
                lemma_flat_split(f as int, cols as int, rows as int);
            }
            let v = self.at_unchecked(f % rows, f / rows);
            out.push(v);
            f = f + 1;
        }
        let r = Matrix { data: out, rows: cols, cols: rows };
        proof {
            assert(r.spec_data() =~= transpose_data(
                self.spec_data(),
                self.spec_rows(),
                self.spec_cols(),
            ));
            assert forall|i: int, j: int|
                0 <= i < self.spec_rows() && 0 <= j < self.spec_cols() implies #[trigger] r.entry(
                j,
                i,
            ) == self.entry(i, j) by {
                lemma_flat(j, i, cols as int, rows as int);
            }
        }
        r
    }

    /// Returns the elementwise sum; fails with `DimensionMismatch` exactly
    /// when the shapes differ.  When no entry of either operand is a NaN,
    /// the result also equals the elementwise sum taken in the other order:
    /// addition of matrices is commutative away from NaN payloads.
    #[verifier::loop_isolation(false)]
    pub fn add(&self, other: &Matrix) -> (r: Result<Matrix, MatrixError>)
        requires
            self.wf(),
            other.wf(),
        ensures
            match r {
                Ok(m) => {
                    &&& self.spec_rows() == other.spec_rows()
                    &&& self.spec_cols() == other.spec_cols()
                    &&& m.wf()
                    &&& m.spec_rows() == self.spec_rows()
                    &&& m.spec_cols() == self.spec_cols()
                    &&& m.spec_data() == add_data(self.spec_data(), other.spec_data())
                    &&& nan_free(self.spec_data()) && nan_free(other.spec_data())
                        ==> m.spec_data() == add_data(other.spec_data(), self.spec_data())
                },
                Err(e) => {
                    &&& (self.spec_rows() != other.spec_rows() || self.spec_cols()
                        != other.spec_cols())
                    &&& e == MatrixError::DimensionMismatch
                },
            },
    {
        if self.rows != other.rows || self.cols != other.cols {
            return Err(MatrixError::DimensionMismatch);
        }
        let n = self.data.len();
        let mut out: Vec<u64> = Vec::new();
        let mut k: usize = 0;
        while k < n
            invariant
                k <= n,
                out@.len() == k,
                forall|q: int|
                    0 <= q < k ==> #[trigger] out@[q] == f64_add(
                        self.spec_data()[q],
                        other.spec_data()[q],
                    ),
                forall|q: int|
                    0 <= q < k ==> (!is_nan_bits(self.spec_data()[q]) && !is_nan_bits(
                        other.spec_data()[q],
                    ) ==> #[trigger] out@[q] == f64_add(
                        other.spec_data()[q],
                        self.spec_data()[q],
                    )),
            decreases n - k,
        {
            let v = add_bits(self.data[k], other.data[k]);
            out.push(v);
            k = k + 1;
        }
        let m = Matrix { data: out, rows: self.rows, cols: self.cols };
        proof {
            assert(m.spec_data() =~= add_data(self.spec_data(), other.spec_data()));
            if nan_free(self.spec_data()) && nan_free(other.spec_data()) {
                assert(m.spec_data() =~= add_data(other.spec_data(), self.spec_data()));
            }
        }
        Ok(m)
    }

    /// Returns the matrix product, each element an `n`-term dot product
    /// accumulated in double precision in ascending index order; fails with
    /// `DimensionMismatch` exactly when the inner dimensions disagree.
    ///
    /// Multiplying by an identity matrix on either side reproduces the other
    /// operand exactly, provided that operand's entries are finite and none
    /// is -0.0 (an infinity times the identity's zeros makes a NaN, and a
    /// -0.0 entry is washed to +0.0 by the running sum); the last two
    /// `ensures` clauses state that law.
    #[verifier::loop_isolation(false)]
    pub fn mul(&self, other: &Matrix) -> (r: Result<Matrix, MatrixError>)
        requires
            self.wf(),
            other.wf(),
            self.spec_rows() * other.spec_cols() <= usize::MAX,
        ensures
            match r {
                Ok(m) => {
                    &&& self.spec_cols() == other.spec_rows()
                    &&& m.wf()
                    &&& m.spec_rows() == self.spec_rows()
                    &&& m.spec_cols() == other.spec_cols()
                    &&& m.spec_data() == mul_data(
                        self.spec_data(),
                        other.spec_data(),
                        self.spec_rows(),
                        self.spec_cols(),
                        other.spec_cols(),
                    )
                    &&& other.spec_rows() == other.spec_cols() && other.spec_data() == ident_data(
                        other.spec_rows(),
                    ) && regular_data(self.spec_data()) ==> m.spec_data() == self.spec_data()
                    &&& self.spec_rows() == self.spec_cols() && self.spec_data() == ident_data(
                        self.spec_rows(),
                    ) && regular_data(other.spec_data()) ==> m.spec_data() == other.spec_data()
                },
                Err(e) => self.spec_cols() != other.spec_rows() && e
                    == MatrixError::DimensionMismatch,
            },
    {
        if self.cols != other.rows {
            return Err(MatrixError::DimensionMismatch);
        }
        let m0 = self.rows;
        let n0 = self.cols;
        let p0 = other.cols;
        let ghost a = self.spec_data();
        let ghost b = other.spec_data();
        let ghost hr = other.spec_rows() == other.spec_cols() && b == ident_data(n0 as int)
            && regular_data(a);
        let ghost hl = self.spec_rows() == self.spec_cols() && a == ident_data(m0 as int)
            && regular_data(b);
        let mut out: Vec<u64> = Vec::new();
        let mut i: usize = 0;
        while i < m0
            invariant
                i <= m0,
                out@.len() == i * p0,
                forall|q: int|
                    0 <= q < out@.len() ==> #[trigger] out@[q] == dot_prefix(
                        a,
                        b,
                        n0 as int,
                        p0 as int,
                        q / p0 as int,
                        q % p0 as int,
                        n0 as int,
                    ),
                hr ==> (forall|q: int| 0 <= q < out@.len() ==> #[trigger] out@[q] == a[q]),
                hl ==> (forall|q: int| 0 <= q < out@.len() ==> #[trigger] out@[q] == b[q]),
            decreases m0 - i,
        {
            let mut j: usize = 0;
            while j < p0
                invariant
                    i < m0,
                    j <= p0,
                    out@.len() == i * p0 + j,
                    forall|q: int|
                        0 <= q < out@.len() ==> #[trigger] out@[q] == dot_prefix(
                            a,
                            b,
                            n0 as int,
                            p0 as int,
                            q / p0 as int,
                            q % p0 as int,
                            n0 as int,
                        ),
                    hr ==> (forall|q: int| 0 <= q < out@.len() ==> #[trigger] out@[q] == a[q]),
                    hl ==> (forall|q: int| 0 <= q < out@.len() ==> #[trigger] out@[q] == b[q]),
                decreases p0 - j,
            {
                let mut sum: u64 = POS_ZERO;
                let mut k: usize = 0;
                while k < n0
                    invariant
                        i < m0,
                        j < p0,
                        k <= n0,
                        sum == dot_prefix(a, b, n0 as int, p0 as int, i as int, j as int, k as int),
                        hr ==> sum == (if k > j {
                            a[i * n0 + j]
                        } else {
                            POS_ZERO
                        }),
                        hl ==> sum == (if k > i {
                            b[i * p0 + j]
                        } else {
                            POS_ZERO
                        }),
                    decreases n0 - k,
                {
                    let x = self.at_unchecked(i, k);
                    let y = other.at_unchecked(k, j);
                    proof {
                        lemma_special_bits();
                        lemma_flat(i as int, k as int, m0 as int, n0 as int);
                        lemma_flat(k as int, j as int, n0 as int, p0 as int);
                        if hr {
                            lemma_flat(k as int, j as int, n0 as int, n0 as int);
                            lemma_flat(i as int, j as int, m0 as int, n0 as int);
                        }
                        if hl {
                            lemma_flat(i as int, k as int, m0 as int, m0 as int);
                            lemma_flat(i as int, j as int, m0 as int, p0 as int);
                        }
                    }
                    let t = mul_bits(x, y);
                    sum = add_bits(sum, t);
                    k = k + 1;
                }
                proof {
                    lemma_flat(i as int, j as int, m0 as int, p0 as int);
                }
                out.push(sum);
                j = j + 1;
            }
            proof {
                assert((i as int + 1) * p0 as int == i as int * p0 as int + p0 as int)
                    by (nonlinear_arith);
            }
            i = i + 1;
        }
        let m = Matrix { data: out, rows: m0, cols: p0 };
        proof {
            assert(m.spec_data() =~= mul_data(a, b, m0 as int, n0 as int, p0 as int));
            if hr {
                assert(m.spec_data() =~= a);
            }
            if hl {
                assert(m.spec_data() =~= b);
            }
        }
        Ok(m)
    }

    /// Returns the elementwise difference; fails with `DimensionMismatch`
    /// exactly when the shapes differ.
    #[verifier::loop_isolation(false)]
    pub fn sub(&self, other: &Matrix) -> (r: Result<Matrix, MatrixError>)
        requires
            self.wf(),
            other.wf(),
        ensures
            match r {
                Ok(m) => {
                    &&& self.spec_rows() == other.spec_rows()
                    &&& self.spec_cols() == other.spec_cols()
                    &&& m.wf()
                    &&& m.spec_rows() == self.spec_rows()
                    &&& m.spec_cols() == self.spec_cols()
                    &&& m.spec_data() == sub_data(self.spec_data(), other.spec_data())
                },
                Err(e) => {
                    &&& (self.spec_rows() != other.spec_rows() || self.spec_cols()
                        != other.spec_cols())
                    &&& e == MatrixError::DimensionMismatch
                },
            },
    {
        if self.rows != other.rows || self.cols != other.cols {
            return Err(MatrixError::DimensionMismatch);
        }
        let n = self.data.len();
        let mut out: Vec<u64> = Vec::new();
        let mut k: usize = 0;
        while k < n
            invariant
                k <= n,
                out@.len() == k,
                forall|q: int|
                    0 <= q < k ==> #[trigger] out@[q] == f64_sub(
                        self.spec_data()[q],
                        other.spec_data()[q],
                    ),
            decreases n - k,
        {
            let v = sub_bits(self.data[k], other.data[k]);
            out.push(v);
            k = k + 1;
        }
        let m = Matrix { data: out, rows: self.rows, cols: self.cols };
        proof {
            assert(m.spec_data() =~= sub_data(self.spec_data(), other.spec_data()));
        }
        Ok(m)
    }

    /// Factors a working copy of `mat` into combined L/U form with partial
    /// pivoting, never touching `mat` itself: each step selects the row with
    /// the largest absolute value in the pivot column, records it in the
    /// pivot trace, swaps it up, and eliminates the rows below; fails with
    /// `Singular` exactly when some step's largest candidate is a zero.
    /// Matrices with fewer columns than rows are excluded up front: their
    /// later steps would read past the short rows.
    #[verifier::loop_isolation(false)]
    pub fn lu_decomposition(mat: &Matrix) -> (r: Result<(Matrix, Vec<usize>), MatrixError>)
        requires
            mat.wf(),
            mat.spec_cols() >= mat.spec_rows(),
        ensures
            match r {
                Ok(lup) => {
                    &&& lup.0.wf()
                    &&& lup.0.spec_rows() == mat.spec_rows()
                    &&& lup.0.spec_cols() == mat.spec_cols()
                    &&& lup.1@.len() == mat.spec_rows()
                    &&& forall|q: int|
                        0 <= q < lup.1@.len() ==> q <= (#[trigger] lup.1@[q]) as int
                            && (lup.1@[q] as int) < mat.spec_rows()
                    &&& lu_steps(mat.spec_data(), mat.spec_rows(), mat.spec_cols(), 0, Seq::empty())
                        == Some((lup.0.spec_data(), lup.1@.map_values(|u: usize| u as int)))
                },
                Err(e) => e == MatrixError::Singular && lu_steps(
                    mat.spec_data(),
                    mat.spec_rows(),
                    mat.spec_cols(),
                    0,
                    Seq::empty(),
                ) is None,
            },
    {
        let rows = mat.rows;
        let cols = mat.cols;
        let ghost d0 = mat.spec_data();
        let mut a = mat.duplicate();
        let mut pivots: Vec<usize> = Vec::new();
        proof {
            assert(pivots@.map_values(|u: usize| u as int) =~= Seq::<int>::empty());
        }
        let mut i: usize = 0;
        while i < rows
            invariant
                i <= rows,
                a.wf(),
                a.spec_rows() == rows,
                a.spec_cols() == cols,
                pivots@.len() == i,
                forall|q: int|
                    0 <= q < i ==> q <= (#[trigger] pivots@[q]) as int && (pivots@[q] as int)
                        < rows,
                lu_steps(d0, rows as int, cols as int, 0, Seq::empty()) == lu_steps(
                    a.spec_data(),
                    rows as int,
                    cols as int,
                    i as int,
                    pivots@.map_values(|u: usize| u as int),
                ),
            decreases rows - i,
        {
            let ghost dcur = a.spec_data();
            let ghost ps_old = pivots@.map_values(|u: usize| u as int);
            let mut m: u64 = POS_ZERO;
            let mut mi: usize = 0;
            let mut j: usize = i;
            while j < rows
                invariant
                    i <= j <= rows,
                    i < rows,
                    mi < rows,
                    m == POS_ZERO && mi == 0 || i <= mi,
                    a.spec_data() == dcur,
                    scan_pivot(dcur, rows as int, cols as int, i as int, j as int, m, mi as int)
                        == scan_pivot(
                        dcur,
                        rows as int,
                        cols as int,
                        i as int,
                        i as int,
                        POS_ZERO,
                        0,
                    ),
                decreases rows - j,
            {
                let ab = abs_bits(a.at_unchecked(j, i));
                if gt_bits(ab, m) {
                    m = ab;
                    mi = j;
                }
                j = j + 1;
            }
            if is_zero_bits(m) {
                return Err(MatrixError::Singular);
            }
            proof {
                assert(i <= mi);
            }
            pivots.push(mi);
            a.swap_rows(i, mi);
            let ghost dsw = a.spec_data();
            let mut jj: usize = i + 1;
            while jj < rows
                invariant
                    i < jj <= rows || jj == i + 1,
                    i < rows,
                    a.wf(),
                    a.spec_rows() == rows,
                    a.spec_cols() == cols,
                    elim_rows(a.spec_data(), rows as int, cols as int, i as int, jj as int)
                        == elim_rows(dsw, rows as int, cols as int, i as int, i as int + 1),
                decreases rows - jj,
            {
                let x = a.at_unchecked(jj, i);
                let y = a.at_unchecked(i, i);
                let factor = div_bits(x, y);
                a.set_unchecked(jj, i, factor);
                let ghost d1 = a.spec_data();
                let mut k: usize = i + 1;
                while k < cols
                    invariant
                        i < k <= cols || k == i + 1,
                        i < rows,
                        jj < rows,
                        a.wf(),
                        a.spec_rows() == rows,
                        a.spec_cols() == cols,
                        elim_row(a.spec_data(), cols as int, i as int, jj as int, factor, k as int)
                            == elim_row(d1, cols as int, i as int, jj as int, factor, i as int + 1),
                    decreases cols - k,
                {
                    let u = a.at_unchecked(jj, k);
                    let w = a.at_unchecked(i, k);
                    let v = sub_bits(u, mul_bits(factor, w));
                    a.set_unchecked(jj, k, v);
                    k = k + 1;
                }
                jj = jj + 1;
            }
            i = i + 1;
            proof {
                assert(pivots@.map_values(|u: usize| u as int) =~= ps_old.push(mi as int));
            }
        }
        Ok((a, pivots))
    }

    /// Solves the factored system `self` (a square combined L/U matrix) for
    /// the right-hand side `b`: replays the decomposition's row exchanges on
    /// `b`, then runs forward substitution against the unit lower factor and
    /// backward substitution against the upper factor on each column.  Never
    /// fails for a well-shaped factored system (a zero on the upper
    /// diagonal yields infinities or NaNs, not an error).
    #[verifier::loop_isolation(false)]
    pub fn back_substitution(&self, pivots: &Vec<usize>, b: Matrix) -> (r: Result<
        Matrix,
        MatrixError,
    >)
        requires
            self.wf(),
            b.wf(),
            self.spec_rows() == self.spec_cols(),
            b.spec_rows() == self.spec_rows(),
            pivots@.len() == self.spec_rows(),
            forall|q: int|
                0 <= q < pivots@.len() ==> ((#[trigger] pivots@[q]) as int) < self.spec_rows(),
        ensures
            match r {
                Ok(x) => {
                    &&& x.wf()
                    &&& x.spec_rows() == b.spec_rows()
                    &&& x.spec_cols() == b.spec_cols()
                    &&& x.spec_data() == back_subst_data(
                        self.spec_data(),
                        self.spec_rows(),
                        pivots@.map_values(|u: usize| u as int),
                        b.spec_data(),
                        b.spec_cols(),
                    )
                },
                Err(_) => false,
            },
    {
        let n = self.rows;
        let bcols = b.cols;
        let ghost b0 = b.spec_data();
        let ghost lud = self.spec_data();
        let ghost ps = pivots@.map_values(|u: usize| u as int);
        let mut x = b;
        let mut i: usize = 0;
        while i < n
            invariant
                i <= n,
                x.wf(),
                x.spec_rows() == n,
                x.spec_cols() == bcols,
                apply_pivots(x.spec_data(), bcols as int, ps, i as int) == apply_pivots(
                    b0,
                    bcols as int,
                    ps,
                    0,
                ),
            decreases n - i,
        {
            let p = pivots[i];
            x.swap_rows(i, p);
            i = i + 1;
        }
        let ghost xp = x.spec_data();
        let mut c: usize = 0;
        while c < bcols
            invariant
                c <= bcols,
                x.wf(),
                x.spec_rows() == n,
                x.spec_cols() == bcols,
                subst_cols(lud, n as int, x.spec_data(), bcols as int, c as int) == subst_cols(
                    lud,
                    n as int,
                    xp,
                    bcols as int,
                    0,
                ),
            decreases bcols - c,
        {
            let ghost xc = x.spec_data();
            let mut fi: usize = 0;
            while fi < n
                invariant
                    fi <= n,
                    c < bcols,
                    x.wf(),
                    x.spec_rows() == n,
                    x.spec_cols() == bcols,
                    fwd_col(lud, n as int, x.spec_data(), bcols as int, c as int, fi as int)
                        == fwd_col(lud, n as int, xc, bcols as int, c as int, 0),
                decreases n - fi,
            {
                let mut sum: u64 = POS_ZERO;
                let mut j: usize = 0;
                while j < fi
                    invariant
                        j <= fi,
                        fi < n,
                        c < bcols,
                        x.wf(),
                        x.spec_rows() == n,
                        x.spec_cols() == bcols,
                        sum == fsum(
                            lud,
                            n as int,
                            x.spec_data(),
                            bcols as int,
                            c as int,
                            fi as int,
                            j as int,
                        ),
                    decreases fi - j,
                {
                    let lij = self.at_unchecked(fi, j);
                    let xjc = x.at_unchecked(j, c);
                    sum = add_bits(sum, mul_bits(lij, xjc));
                    j = j + 1;
                }
                let xic = x.at_unchecked(fi, c);
                let v = sub_bits(xic, sum);
                x.set_unchecked(fi, c, v);
                fi = fi + 1;
            }
            let ghost xm = x.spec_data();
            let mut bi: usize = n;
            while bi > 0
                invariant
                    bi <= n,
                    c < bcols,
                    x.wf(),
                    x.spec_rows() == n,
                    x.spec_cols() == bcols,
                    bwd_col(lud, n as int, x.spec_data(), bcols as int, c as int, bi as int - 1)
                        == bwd_col(lud, n as int, xm, bcols as int, c as int, n as int - 1),
                decreases bi,
            {
                bi = bi - 1;
                let mut sum: u64 = POS_ZERO;
                let mut j: usize = bi + 1;
                while j < n
                    invariant
                        bi < j <= n || j == bi + 1,
                        bi < n,
                        c < bcols,
                        x.wf(),
                        x.spec_rows() == n,
                        x.spec_cols() == bcols,
                        sum == bsum(
                            lud,
                            n as int,
                            x.spec_data(),
                            bcols as int,
                            c as int,
                            bi as int,
                            j as int,
                        ),
                    decreases n - j,
                {
                    let uij = self.at_unchecked(bi, j);
                    let xjc = x.at_unchecked(j, c);
                    sum = add_bits(sum, mul_bits(uij, xjc));
                    j = j + 1;
                }
                let xic = x.at_unchecked(bi, c);
                let uii = self.at_unchecked(bi, bi);
                let v = div_bits(sub_bits(xic, sum), uii);
                x.set_unchecked(bi, c, v);
            }
            c = c + 1;
        }
        Ok(x)
    }

    /// The determinant of a square matrix: the product of the factored
    /// matrix's diagonal, negated once for every elimination step whose
    /// recorded pivot row differs from the step index.  Fails with
    /// `NotSquare` on a non-square matrix and propagates `Singular` when
    /// the decomposition finds no non-zero pivot (a singular matrix fails
    /// rather than reporting zero).
    #[verifier::loop_isolation(false)]
    pub fn determinant(&self) -> (r: Result<u64, MatrixError>)
        requires
            self.wf(),
        ensures
            match r {
                Ok(v) => {
                    &&& self.spec_rows() == self.spec_cols()
                    &&& lu_steps(
                        self.spec_data(),
                        self.spec_rows(),
                        self.spec_cols(),
                        0,
                        Seq::empty(),
                    ) matches Some(t) && v == det_fold(t.0, self.spec_rows(), t.1, 0, ONE_BITS)
                },
                Err(e) => if self.spec_rows() != self.spec_cols() {
                    e == MatrixError::NotSquare
                } else {
                    e == MatrixError::Singular && lu_steps(
                        self.spec_data(),
                        self.spec_rows(),
                        self.spec_cols(),
                        0,
                        Seq::empty(),
                    ) is None
                },
            },
    {
        if self.rows != self.cols {
            return Err(MatrixError::NotSquare);
        }
        let (lu, pivots) = match Self::lu_decomposition(self) {
            Ok(t) => t,
            Err(e) => {
                return Err(e);
            },
        };
        let ghost dd = lu.spec_data();
        let ghost ps = pivots@.map_values(|u: usize| u as int);
        let n = self.rows;
        let mut det: u64 = ONE_BITS;
        let mut i: usize = 0;
        while i < n
            invariant
                i <= n,
                det_fold(dd, n as int, ps, i as int, det) == det_fold(dd, n as int, ps, 0, ONE_BITS),
            decreases n - i,
        {
            let d = lu.at_unchecked(i, i);
            det = mul_bits(det, d);
            if pivots[i] != i {
                det = mul_bits(det, NEG_ONE_BITS);
            }
            i = i + 1;
        }
        Ok(det)
    }

    /// The inverse of a square matrix, computed by decomposing and solving
    /// against the identity of matching size.  Fails with `NotSquare` on a
    /// non-square matrix and propagates `Singular` from the decomposition.
    pub fn inverse(&self) -> (r: Result<Matrix, MatrixError>)
        requires
            self.wf(),
        ensures
            match r {
                Ok(m) => {
                    &&& self.spec_rows() == self.spec_cols()
                    &&& m.wf()
                    &&& m.spec_rows() == self.spec_rows()
                    &&& m.spec_cols() == self.spec_rows()
                    &&& lu_steps(
                        self.spec_data(),
                        self.spec_rows(),
                        self.spec_cols(),
                        0,
                        Seq::empty(),
                    ) matches Some(t) && m.spec_data() == back_subst_data(
                        t.0,
                        self.spec_rows(),
                        t.1,
                        ident_data(self.spec_rows()),
                        self.spec_rows(),
                    )
                },
                Err(e) => if self.spec_rows() != self.spec_cols() {
                    e == MatrixError::NotSquare
                } else {
                    e == MatrixError::Singular && lu_steps(
                        self.spec_data(),
                        self.spec_rows(),
                        self.spec_cols(),
                        0,
                        Seq::empty(),
                    ) is None
                },
            },
    {
        if self.rows != self.cols {
            return Err(MatrixError::NotSquare);
        }
        let (lu, pivots) = match Self::lu_decomposition(self) {
            Ok(t) => t,
            Err(e) => {
                return Err(e);
            },
        };
        proof {
            vstd::std_specs::vec::axiom_spec_len(&self.data);
        }
        let ident = match Matrix::identity(self.rows) {
            Ok(m) => m,
            Err(_) => unreached(),
        };
        let inv = match lu.back_substitution(&pivots, ident) {
            Ok(x) => x,
            Err(_) => unreached(),
        };
        Ok(inv)
    }

    /// Solves the linear system `self * x == b` for a single right-hand-side
    /// column `b`, by decomposing and substituting.  Fails with `NotSquare`
    /// on a non-square matrix, with `DimensionMismatch` when `b` is not a
    /// single column of matching row count, and propagates `Singular` from
    /// the decomposition.  The caller's `b` is never mutated.
    pub fn solve(&self, b: &Matrix) -> (r: Result<Matrix, MatrixError>)
        requires
            self.wf(),
            b.wf(),
        ensures
            match r {
                Ok(x) => {
                    &&& self.spec_rows() == self.spec_cols()
                    &&& b.spec_rows() == self.spec_rows() && b.spec_cols() == 1
                    &&& x.wf()
                    &&& x.spec_rows() == self.spec_rows()
                    &&& x.spec_cols() == 1
                    &&& lu_steps(
                        self.spec_data(),
                        self.spec_rows(),
                        self.spec_cols(),
                        0,
                        Seq::empty(),
                    ) matches Some(t) && x.spec_data() == back_subst_data(
                        t.0,
                        self.spec_rows(),
                        t.1,
                        b.spec_data(),
                        1,
                    )
                },
                Err(e) => if self.spec_rows() != self.spec_cols() {
                    e == MatrixError::NotSquare
                } else if b.spec_rows() != self.spec_rows() || b.spec_cols() != 1 {
                    e == MatrixError::DimensionMismatch
                } else {
                    e == MatrixError::Singular && lu_steps(
                        self.spec_data(),
                        self.spec_rows(),
                        self.spec_cols(),
                        0,
                        Seq::empty(),
                    ) is None
                },
            },
    {
        if self.rows != self.cols {
            return Err(MatrixError::NotSquare);
        }
        if b.rows != self.rows || b.cols != 1 {
            return Err(MatrixError::DimensionMismatch);
        }
        let (lu, pivots) = match Self::lu_decomposition(self) {
            Ok(t) => t,
            Err(e) => {
                return Err(e);
            },
        };
        let rhs = b.duplicate();
        let x = match lu.back_substitution(&pivots, rhs) {
            Ok(x) => x,
            Err(_) => unreached(),
        };
        Ok(x)
    }
}

impl PartialEq for Matrix {
    /// Two matrices are equal exactly when their shapes agree and every
    /// element pair compares bit-for-bit equal.
    #[verifier::loop_isolation(false)]
    fn eq(&self, other: &Matrix) -> (r: bool) {
        if self.rows != other.rows || self.cols != other.cols {
            return false;
        }
        if self.data.len() != other.data.len() {
            return false;
        }
        let n = self.data.len();
        let mut k: usize = 0;
        while k < n
            invariant
                k <= n,
                forall|q: int| 0 <= q < k ==> self.spec_data()[q] == other.spec_data()[q],
            decreases n - k,
        {
            if self.data[k] != other.data[k] {
                return false;
            }
            k = k + 1;
        }
        proof {
            assert(self.spec_data() =~= other.spec_data());
        }
        true
    }
}

impl vstd::std_specs::cmp::PartialEqSpecImpl for Matrix {
    open spec fn obeys_eq_spec() -> bool {
        true
    }

    open spec fn eq_spec(&self, other: &Matrix) -> bool {
        &&& self.spec_rows() == other.spec_rows()
        &&& self.spec_cols() == other.spec_cols()
        &&& self.spec_data() == other.spec_data()
    }
}

} // verus!
