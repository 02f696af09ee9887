//! A fixed-capacity dense matrix of `i128` cells, stored row-major and
//! populated one value at a time, with row and column extraction and checked
//! multiplication.

use vstd::prelude::*;
use vstd::arithmetic::div_mod::lemma_fundamental_div_mod;
use vstd::arithmetic::div_mod::lemma_fundamental_div_mod_converse;
use vstd::arithmetic::div_mod::lemma_div_nonincreasing;
use vstd::arithmetic::div_mod::lemma_div_pos_is_pos;
use vstd::arithmetic::div_mod::lemma_mod_bound;
use vstd::arithmetic::mul::lemma_mul_inequality;
use vstd::arithmetic::mul::lemma_mul_is_commutative;

use crate::errors::CapacityExhaustedError;
use crate::errors::IncompatibleMatrixError;
use crate::errors::MatrixError;
use crate::errors::capacity_message_string;
use crate::errors::mismatch_message;
use crate::errors::mismatch_message_string;
use vstd::string::*;

verus! {

/// The dot product of two sequences of cells, as an unbounded integer,
/// accumulated left to right.
pub open spec fn dot(a: Seq<i128>, b: Seq<i128>) -> int
    recommends
        a.len() == b.len(),
    decreases a.len(),
{
    if a.len() == 0 || b.len() == 0 {
        0
    } else {
        dot(a.drop_last(), b.drop_last()) + a.last() * b.last()
    }
}

/// Step `k` of the left-to-right accumulation of `dot(a, b)` stays within
/// the cell range: both the product and the running sum fit in `i128`.
pub open spec fn prefix_fits(a: Seq<i128>, b: Seq<i128>, k: int) -> bool {
    &&& i128::MIN <= a[k] * b[k] <= i128::MAX
    &&& i128::MIN <= dot(a.take(k + 1), b.take(k + 1)) <= i128::MAX
}

/// The whole left-to-right accumulation of `dot(a, b)` stays within the
/// cell range.
pub open spec fn dot_fits(a: Seq<i128>, b: Seq<i128>) -> bool {
    forall|k: int| 0 <= k < a.len() ==> #[trigger] prefix_fits(a, b, k)
}

/// Every cell of the product of `a` and `b` can be accumulated without
/// leaving the cell range.
pub open spec fn mul_fits(a: Matrix, b: Matrix) -> bool {
    forall|r: int, c: int|
        0 <= r < a.rows && 0 <= c < b.cols ==> #[trigger] dot_fits(a.spec_row(r), b.spec_col(c))
}

/// The value of cell `(r, c)` of the product of `a` and `b`: the dot
/// product of row `r` of `a` with column `c` of `b`.
pub open spec fn product_entry(a: Matrix, b: Matrix, r: int, c: int) -> int {
    dot(a.spec_row(r), b.spec_col(c))
}

/// Law: in a matrix whose row `i` is fully populated, that row is exactly
/// the contiguous slice `[i * cols, i * cols + cols)` of the cell buffer;
/// in particular every row of a fully populated matrix holds `cols` cells.
pub proof fn lemma_row_slice(m: Matrix, i: int)
    requires
        m.wf(),
        0 <= i < m.rows,
        (i + 1) * m.cols <= m.cells@.len(),
    ensures
        m.spec_row(i).len() == m.cols,
        m.spec_row(i) == m.cells@.subrange(i * m.cols, i * m.cols + m.cols),
{
    let c = m.cols as int;
    assert(0 <= i * c && i * c + c == (i + 1) * c) by (nonlinear_arith)
        requires
            0 <= i,
            0 <= c,
    ;
    assert(m.spec_row(i) =~= m.cells@.subrange(i * c, i * c + c));
}

/// Law: a fully populated matrix's row `i` holds exactly `cols` cells.
pub proof fn lemma_row_len_full(m: Matrix, i: int)
    requires
        m.wf(),
        m.is_populated(),
        0 <= i < m.rows,
    ensures
        m.spec_row(i).len() == m.cols,
        m.spec_row(i) == m.cells@.subrange(i * m.cols, i * m.cols + m.cols),
{
    assert((i + 1) * (m.cols as int) <= (m.rows as int) * (m.cols as int)) by (nonlinear_arith)
        requires
            i < m.rows as int,
            0 <= m.cols as int,
    ;
    lemma_row_slice(m, i);
}

/// Law: a row index at or beyond `rows` yields the empty sequence, a
/// defined boundary behavior rather than an error.
pub proof fn lemma_row_out_of_range(m: Matrix, i: int)
    requires
        m.rows <= i,
    ensures
        m.spec_row(i) == Seq::<i128>::empty(),
{
}

/// Law: a column index at or beyond `cols` yields the empty sequence, a
/// defined boundary behavior rather than an error.
pub proof fn lemma_col_out_of_range(m: Matrix, i: int)
    requires
        m.cols <= i,
    ensures
        m.spec_col(i) == Seq::<i128>::empty(),
{
}

/// Law: a fully populated matrix's column `i` holds exactly `rows` cells,
/// the `k`-th being the cell at linear index `i + k * cols`.
pub proof fn lemma_col_len_full(m: Matrix, i: int)
    requires
        m.wf(),
        m.is_populated(),
        0 <= i < m.cols,
    ensures
        m.spec_col(i).len() == m.rows,
        forall|k: int| 0 <= k < m.rows ==> m.spec_col(i)[k] == m.cells@[i + k * m.cols],
{
    let c = m.cols as int;
    let rw = m.rows as int;
    let n = m.cells@.len() as int;
    if rw == 0 {
        assert(rw * c == 0) by (nonlinear_arith)
            requires
                rw == 0,
        ;
        assert(n == 0);
    } else {
        assert(c <= rw * c && (rw - 1) * c + (c - 1 - i) == rw * c - i - 1) by (nonlinear_arith)
            requires
                1 <= rw,
                0 <= i < c,
        ;
        lemma_fundamental_div_mod_converse(n - i - 1, c, rw - 1, c - 1 - i);
    }
}

/// Extending both prefixes by one cell adds one product to the dot product.
proof fn lemma_dot_take_succ(a: Seq<i128>, b: Seq<i128>, k: int)
    requires
        0 <= k < a.len(),
        a.len() <= b.len(),
    ensures
        dot(a.take(k + 1), b.take(k + 1)) == dot(a.take(k), b.take(k)) + a[k] * b[k],
{
    let a1 = a.take(k + 1);
    let b1 = b.take(k + 1);
    assert(a1.drop_last() =~= a.take(k));
    assert(b1.drop_last() =~= b.take(k));
    assert(a1.last() == a[k]);
    assert(b1.last() == b[k]);
}

/// Row-major position: with `0 <= rr < r` and `0 <= cc < ncols`, the linear
/// index `rr * ncols + cc` lies below `r * ncols`.
proof fn lemma_row_major_index(rr: int, cc: int, r: int, ncols: int)
    by (nonlinear_arith)
    requires
        0 <= rr < r,
        0 <= cc < ncols,
    ensures
        0 <= rr * ncols + cc < r * ncols,
{
}

/// For a buffer of `n` cells and a column offset `0 <= i < cols` with
/// `i < n`, the column holds `(n - i - 1) / cols + 1` cells and its last one
/// lies at a linear index of at most `n - 1`.
proof fn lemma_col_last_index(n: int, i: int, cols: int)
    requires
        0 <= i < cols,
        i < n,
    ensures
        0 <= (n - i - 1) / cols,
        i + ((n - i - 1) / cols) * cols <= n - 1,
{
    let x = n - i - 1;
    lemma_fundamental_div_mod(x, cols);
    lemma_mod_bound(x, cols);
    lemma_div_pos_is_pos(x, cols);
    lemma_mul_is_commutative(cols, x / cols);
}

/// A row-major matrix of `i128` values with dimensions fixed at construction.
///
/// A matrix starts empty and accepts exactly `rows * cols` values through
/// [`Matrix::add_value`]; until then it is partially populated, a valid but
/// restricted state.
pub struct Matrix {
    /// The cells accepted so far, in row-major order: the cell at row `r`,
    /// column `c` lives at linear index `r * cols + c`.
    pub cells: Vec<i128>,
    /// The number of rows, fixed at construction.
    pub rows: usize,
    /// The number of columns, fixed at construction.
    pub cols: usize,
    /// The maximum number of cells ever accepted: `rows * cols`.
    pub capacity: usize,
}

impl Matrix {
    /// Well-formedness: the capacity is the product of the dimensions and the
    /// cell count never exceeds it. Constructors establish it and every
    /// method preserves it.
    pub open spec fn wf(&self) -> bool {
        &&& self.capacity == self.rows * self.cols
        &&& self.cells@.len() <= self.capacity
    }

    /// A matrix is fully populated once its cell count reaches its capacity.
    pub open spec fn is_populated(&self) -> bool {
        self.cells@.len() == self.rows * self.cols
    }

    /// The `i`-th row as a sequence: the populated prefix of the linear
    /// range `[i * cols, i * cols + cols)`, and the empty sequence when
    /// `i >= rows`.
    pub open spec fn spec_row(&self, i: int) -> Seq<i128> {
        if 0 <= i < self.rows {
            let start = i * self.cols;
            let len = if self.cells@.len() < start {
                0
            } else if self.cells@.len() - start < self.cols {
                self.cells@.len() - start
            } else {
                self.cols as int
            };
            Seq::new(len as nat, |k: int| self.cells@[start + k])
        } else {
            Seq::empty()
        }
    }

    /// The `i`-th column as a sequence: every `cols`-th populated cell
    /// starting at linear offset `i`, and the empty sequence when
    /// `i >= cols`.
    pub open spec fn spec_col(&self, i: int) -> Seq<i128> {
        if 0 <= i < self.cols && i < self.cells@.len() {
            let count = (self.cells@.len() - i - 1) / (self.cols as int) + 1;
            Seq::new(count as nat, |k: int| self.cells@[i + k * self.cols])
        } else {
            Seq::empty()
        }
    }

    /// Creates an empty matrix with the given column and row counts.
    pub fn new(cols: usize, rows: usize) -> (m: Matrix)
        requires
            rows * cols <= usize::MAX,
        ensures
            m.wf(),
            m.rows == rows,
            m.cols == cols,
            m.capacity == rows * cols,
            m.cells@.len() == 0,
    {
        Matrix { cols, rows, cells: Vec::new(), capacity: rows * cols }
    }

    /// Appends `v` as the next cell in row-major order, returning the number
    /// of free slots that remain; once the matrix is fully populated every
    /// further value is rejected with `CapacityExhaustedError`.
    pub fn add_value(&mut self, v: i128) -> (r: Result<usize, CapacityExhaustedError>)
        requires
            old(self).wf(),
        ensures
            final(self).wf(),
            final(self).rows == old(self).rows,
            final(self).cols == old(self).cols,
            final(self).capacity == old(self).capacity,
            old(self).cells@.len() < old(self).capacity ==> final(self).cells@ == old(
                self,
            ).cells@.push(v),
            old(self).cells@.len() == old(self).capacity ==> final(self).cells@ == old(
                self,
            ).cells@,
            (match r {
                Ok(remaining) => old(self).cells@.len() < old(self).capacity && remaining
                    == old(self).capacity - (old(self).cells@.len() + 1),
                Err(e) => old(self).cells@.len() == old(self).capacity && e.error@
                    == crate::errors::capacity_message(old(self).capacity as int),
            }),
    {
        if self.cells.len() < self.capacity {
            self.cells.push(v);
            Ok(self.capacity - self.cells.len())
        } else {
            Err(CapacityExhaustedError::new(capacity_message_string(self.capacity)))
        }
    }

    /// Returns the `i`-th row: the populated prefix of the linear range
    /// `[i * cols, i * cols + cols)`, or an empty vector when `i >= rows`.
    #[verifier::loop_isolation(false)]
    pub fn row(&self, i: usize) -> (r: Vec<i128>)
        requires
            self.wf(),
        ensures
            r@ == self.spec_row(i as int),
    {
        let mut row_cells: Vec<i128> = Vec::new();
        if i >= self.rows {
            proof {
                assert(row_cells@ =~= self.spec_row(i as int));
            }
            return row_cells;
        }
        proof {
            assert((i as int) * (self.cols as int) + (self.cols as int) <= (self.rows as int) * (
            self.cols as int)) by (nonlinear_arith)
                requires
                    0 <= (i as int) < (self.rows as int),
                    0 <= (self.cols as int),
            ;
        }
        let range_start: usize = i * self.cols;
        let range_end: usize = range_start + self.cols;
        let mut idx: usize = range_start;
        while idx < range_end && idx < self.cells.len()
            invariant
                range_start <= idx <= range_end,
                idx == range_start + row_cells@.len(),
                idx <= self.cells@.len() || idx == range_start,
                forall|k: int|
                    0 <= k < row_cells@.len() ==> row_cells@[k] == self.cells@[range_start + k],
            decreases range_end - idx,
        {
            row_cells.push(self.cells[idx]);
            idx = idx + 1;
        }
        proof {
            assert(row_cells@ =~= self.spec_row(i as int));
        }
        row_cells
    }

    /// Returns the `i`-th column: every `cols`-th populated cell starting at
    /// linear offset `i`, or an empty vector when `i >= cols`.
    #[verifier::loop_isolation(false)]
    pub fn col(&self, i: usize) -> (r: Vec<i128>)
        requires
            self.wf(),
        ensures
            r@ == self.spec_col(i as int),
    {
        let mut col_cells: Vec<i128> = Vec::new();
        if i >= self.cols {
            proof {
                assert(col_cells@ =~= self.spec_col(i as int));
            }
            return col_cells;
        }
        let n = self.cells.len();
        if i >= n {
            proof {
                assert(col_cells@ =~= self.spec_col(i as int));
            }
            return col_cells;
        }
        proof {
            lemma_col_last_index(n as int, i as int, self.cols as int);
            lemma_div_nonincreasing((n - i - 1) as int, self.cols as int);
        }
        let count: usize = (n - i - 1) / self.cols + 1;
        let mut k: usize = 0;
        let mut idx: usize = i;
        while k < count
            invariant
                k <= count,
                k < count ==> idx == i + k * self.cols,
                col_cells@.len() == k,
                forall|j: int|
                    0 <= j < col_cells@.len() ==> col_cells@[j] == self.cells@[i + j * self.cols],
            decreases count - k,
        {
            proof {
                lemma_mul_inequality(k as int, (count - 1) as int, self.cols as int);
            }
            col_cells.push(self.cells[idx]);
            k = k + 1;
            if k < count {
                proof {
                    assert((k as int) * (self.cols as int) == (k - 1) as int * (self.cols as int)
                        + (self.cols as int)) by (nonlinear_arith);
                    lemma_mul_inequality(k as int, (count - 1) as int, self.cols as int);
                }
                idx = idx + self.cols;
            }
        }
        proof {
            assert(col_cells@ =~= self.spec_col(i as int));
        }
        col_cells
    }

    /// Multiplies `self` by `rhs`, consuming both operands.
    ///
    /// The product is defined exactly when `self.cols == rhs.rows`, both
    /// operands are fully populated, and every cell of the product can be
    /// accumulated left to right without leaving the `i128` range. Cell
    /// `(r, c)` of the result is the dot product of row `r` of `self` with
    /// column `c` of `rhs`; the result is fully populated, with `self.rows`
    /// rows and `rhs.cols` columns. The dimension check precedes the
    /// population check, and the left operand's population is checked before
    /// the right one's.
    #[verifier::loop_isolation(false)]
    pub fn multiply(self, rhs: Matrix) -> (r: Result<Matrix, IncompatibleMatrixError>)
        requires
            self.wf(),
            rhs.wf(),
            self.rows * rhs.cols <= usize::MAX,
        ensures
            (match r {
                Ok(m) => {
                    &&& self.cols == rhs.rows
                    &&& self.is_populated()
                    &&& rhs.is_populated()
                    &&& mul_fits(self, rhs)
                    &&& m.wf()
                    &&& m.is_populated()
                    &&& m.rows == self.rows
                    &&& m.cols == rhs.cols
                    &&& forall|rr: int, cc: int|
                        0 <= rr < self.rows && 0 <= cc < rhs.cols ==> m.cells@[rr * (
                        rhs.cols as int) + cc] == #[trigger] product_entry(self, rhs, rr, cc)
                },
                Err(e) => match e.error {
                    MatrixError::RowToColMismatch => {
                        &&& self.cols != rhs.rows
                        &&& e.error_str@ == mismatch_message(self.cols as int, rhs.rows as int)
                    },
                    MatrixError::NotPopulated => {
                        &&& self.cols == rhs.rows
                        &&& !(self.is_populated() && rhs.is_populated())
                        &&& e.error_str@ == (if !self.is_populated() {
                            "Lhs matrix is not fully populated."@
                        } else {
                            "Rhs matrix is not fully populated."@
                        })
                    },
                    MatrixError::Overflow => {
                        &&& self.cols == rhs.rows
                        &&& self.is_populated()
                        &&& rhs.is_populated()
                        &&& !mul_fits(self, rhs)
                        &&& e.error_str@ == "Multiplication overflowed."@
                    },
                },
            }),
    {
        if self.cols != rhs.rows {
            return Err(
                IncompatibleMatrixError::new(
                    mismatch_message_string(self.cols, rhs.rows),
                    MatrixError::RowToColMismatch,
                ),
            );
        }
        if self.cells.len() != self.capacity {
            return Err(
                IncompatibleMatrixError::new(
                    String::from_str("Lhs matrix is not fully populated."),
                    MatrixError::NotPopulated,
                ),
            );
        } else if rhs.cells.len() != rhs.capacity {
            return Err(
                IncompatibleMatrixError::new(
                    String::from_str("Rhs matrix is not fully populated."),
                    MatrixError::NotPopulated,
                ),
            );
        }
        let out_rows = self.rows;
        let out_cols = rhs.cols;
        let mut cells: Vec<i128> = Vec::new();
        let mut ri: usize = 0;
        while ri < out_rows
            invariant
                ri <= out_rows,
                cells@.len() == (ri as int) * (out_cols as int),
                forall|rr: int, cc: int|
                    0 <= rr < ri && 0 <= cc < out_cols ==> cells@[rr * (out_cols as int) + cc]
                        == #[trigger] product_entry(self, rhs, rr, cc),
                forall|rr: int, cc: int|
                    0 <= rr < ri && 0 <= cc < out_cols ==> #[trigger] dot_fits(
                        self.spec_row(rr),
                        rhs.spec_col(cc),
                    ),
            decreases out_rows - ri,
        {
            let lhs_row = self.row(ri);
            proof {
                lemma_row_len_full(self, ri as int);
            }
            let mut ci: usize = 0;
            while ci < out_cols
                invariant
                    ci <= out_cols,
                    cells@.len() == (ri as int) * (out_cols as int) + ci,
                    forall|rr: int, cc: int|
                        0 <= rr < ri && 0 <= cc < out_cols ==> cells@[rr * (out_cols as int) + cc]
                            == #[trigger] product_entry(self, rhs, rr, cc),
                    forall|cc: int|
                        0 <= cc < ci ==> cells@[(ri as int) * (out_cols as int) + cc]
                            == #[trigger] product_entry(self, rhs, ri as int, cc),
                    forall|rr: int, cc: int|
                        0 <= rr < ri && 0 <= cc < out_cols ==> #[trigger] dot_fits(
                            self.spec_row(rr),
                            rhs.spec_col(cc),
                        ),
                    forall|cc: int|
                        0 <= cc < ci ==> #[trigger] dot_fits(
                            self.spec_row(ri as int),
                            rhs.spec_col(cc),
                        ),
                decreases out_cols - ci,
            {
                let rhs_col = rhs.col(ci);
                proof {
                    lemma_col_len_full(rhs, ci as int);
                    assert(lhs_row@.take(0) =~= Seq::<i128>::empty());
                    assert(rhs_col@.take(0) =~= Seq::<i128>::empty());
                }
                let mut acc: i128 = 0;
                let mut k: usize = 0;
                while k < lhs_row.len()
                    invariant
                        k <= lhs_row@.len(),
                        acc as int == dot(lhs_row@.take(k as int), rhs_col@.take(k as int)),
                        forall|j: int|
                            0 <= j < k ==> #[trigger] prefix_fits(lhs_row@, rhs_col@, j),
                    decreases lhs_row@.len() - k,
                {
                    let x = lhs_row[k];
                    let y = rhs_col[k];
                    let prod = match x.checked_mul(y) {
                        Some(p) => p,
                        None => {
                            proof {
                                assert(!prefix_fits(lhs_row@, rhs_col@, k as int));
                                assert(!dot_fits(self.spec_row(ri as int), rhs.spec_col(ci as int)));
                                assert(!mul_fits(self, rhs));
                            }
                            return Err(
                                IncompatibleMatrixError::new(
                                    String::from_str("Multiplication overflowed."),
                                    MatrixError::Overflow,
                                ),
                            );
                        },
                    };
                    let total = match acc.checked_add(prod) {
                        Some(t) => t,
                        None => {
                            proof {
                                lemma_dot_take_succ(lhs_row@, rhs_col@, k as int);
                                assert(!prefix_fits(lhs_row@, rhs_col@, k as int));
                                assert(!dot_fits(self.spec_row(ri as int), rhs.spec_col(ci as int)));
                                assert(!mul_fits(self, rhs));
                            }
                            return Err(
                                IncompatibleMatrixError::new(
                                    String::from_str("Multiplication overflowed."),
                                    MatrixError::Overflow,
                                ),
                            );
                        },
                    };
                    proof {
                        lemma_dot_take_succ(lhs_row@, rhs_col@, k as int);
                        assert(prefix_fits(lhs_row@, rhs_col@, k as int));
                    }
                    acc = total;
                    k = k + 1;
                }
                proof {
                    assert(lhs_row@.take(lhs_row@.len() as int) =~= lhs_row@);
                    assert(rhs_col@.take(rhs_col@.len() as int) =~= rhs_col@);
                    assert(dot_fits(lhs_row@, rhs_col@));
                }
                cells.push(acc);
                ci = ci + 1;
                proof {
                    assert forall|rr: int, cc: int|
                        0 <= rr < ri && 0 <= cc < out_cols implies cells@[rr * (out_cols as int)
                        + cc] == product_entry(self, rhs, rr, cc) by {
                        lemma_row_major_index(rr, cc, ri as int, out_cols as int);
                    }
                }
            }
            proof {
                assert(((ri + 1) as int) * (out_cols as int) == (ri as int) * (out_cols as int) + (
                out_cols as int)) by (nonlinear_arith);
            }
            ri = ri + 1;
        }
        let result = Matrix {
            cells,
            rows: out_rows,
            cols: out_cols,
            capacity: out_rows * out_cols,
        };
        Ok(result)
    }
}

} // verus!
