//! The matrix algebra kernel: submatrix extraction and the recursive
//! minor / cofactor / determinant / inverse family.
//!
//! Determinants are defined by cofactor expansion along the first row.
//! Because a determinant of an `n` x `n` matrix of grid-aligned entries is
//! a multiple of `1 / SCALE^n`, the kernel reports determinants, minors and
//! cofactors in units of `1 / DET_SCALE` (`SCALE` to the fourth power), on
//! which they are exact for matrices up to 4 x 4 — the sizes this domain
//! uses and the kernel accepts.

use crate::fixed::{div_round_away, round_away, DET_SCALE, DIV_LIMIT, SCALE};
use crate::matrix::{lemma_flat_index, Matrix, MatrixError};
use vstd::arithmetic::div_mod::lemma_fundamental_div_mod_converse;
use vstd::prelude::*;

verus! {

/// Magnitude bound (in units) on entries accepted by the determinant
/// family: determinants of bounded matrices then fit the machine integers.
pub const DET_ENTRY_LIMIT: i128 = 1_000_000_000;

/// Largest matrix size accepted by the determinant family. Cofactor
/// expansion is exponential and the exact determinant scale covers four
/// rows, so the kernel caps the size at the domain's 4 x 4.
pub const DET_SIZE_LIMIT: usize = 4;

/// Magnitude bound on every value the determinant family reports.
pub const DET_VALUE_LIMIT: i128 = 24_000_000_000_000_000_000_000_000_000_000_000_000;

/// The sequence with the element at index `i` removed.
pub open spec fn seq_drop<A>(s: Seq<A>, i: int) -> Seq<A> {
    Seq::new(
        (s.len() - 1) as nat,
        |j: int|
            if j < i {
                s[j]
            } else {
                s[j + 1]
            },
    )
}

/// The grid with row `row` and column `col` removed.
pub open spec fn sub_grid(g: Seq<Seq<int>>, row: int, col: int) -> Seq<Seq<int>> {
    Seq::new((g.len() - 1) as nat, |r: int| seq_drop(seq_drop(g, row)[r], col))
}

/// The checkerboard sign rule: +1 when `k` is even, -1 when odd.
pub open spec fn sign_of(k: int) -> int {
    if k % 2 == 0 {
        1
    } else {
        -1
    }
}

/// A source index before deleting the index `cut`: indices below `cut`
/// keep their place, the rest shift up by one.
pub open spec fn skip(i: int, cut: int) -> int {
    if i < cut {
        i
    } else {
        i + 1
    }
}

/// The determinant of the leading `n` x `n` part of a grid, in entry
/// units: 1 for the empty grid, otherwise the cofactor expansion along the
/// first row.
pub open spec fn det_grid(g: Seq<Seq<int>>, n: nat) -> int
    decreases n, 1int, 0int,
{
    if n == 0 {
        1
    } else {
        det_expand(g, n, n)
    }
}

/// The partial cofactor expansion of `det_grid` over the first `c` columns
/// of the first row.
pub open spec fn det_expand(g: Seq<Seq<int>>, n: nat, c: nat) -> int
    decreases n, 0int, c,
{
    if c == 0 || n == 0 {
        0
    } else {
        det_expand(g, n, (c - 1) as nat) + sign_of(c - 1) * g[0][c - 1] * det_grid(
            sub_grid(g, 0, c - 1),
            (n - 1) as nat,
        )
    }
}

/// The cofactor of an `n` x `n` grid at `(r, c)`, in entry units: the
/// determinant of the grid with row `r` and column `c` removed, negated
/// when `r + c` is odd.
pub open spec fn cof_grid(g: Seq<Seq<int>>, n: nat, r: int, c: int) -> int {
    sign_of(r + c) * det_grid(sub_grid(g, r, c), (n - 1) as nat)
}

/// Magnitude bound on `det_grid` over grids of entries bounded by
/// `DET_ENTRY_LIMIT`: `n! * DET_ENTRY_LIMIT^n`.
pub open spec fn det_bound(n: nat) -> int
    decreases n,
{
    if n == 0 {
        1
    } else {
        (n as int) * (DET_ENTRY_LIMIT as int) * det_bound((n - 1) as nat)
    }
}

/// Powers of `SCALE`.
pub open spec fn pow_scale(k: nat) -> int
    decreases k,
{
    if k == 0 {
        1
    } else {
        (SCALE as int) * pow_scale((k - 1) as nat)
    }
}

/// The concrete values of `det_bound` for the sizes the kernel accepts.
pub proof fn lemma_det_bound_values()
    ensures
        det_bound(0) == 1,
        det_bound(1) == 1_000_000_000,
        det_bound(2) == 2_000_000_000_000_000_000,
        det_bound(3) == 6_000_000_000_000_000_000_000_000_000,
        det_bound(4) == DET_VALUE_LIMIT,
{
    assert(det_bound(0) == 1);
    assert(det_bound(1) == 1 * DET_ENTRY_LIMIT * det_bound(0));
    assert(det_bound(2) == 2 * DET_ENTRY_LIMIT * det_bound(1));
    assert(det_bound(3) == 3 * DET_ENTRY_LIMIT * det_bound(2));
    assert(det_bound(4) == 4 * DET_ENTRY_LIMIT * det_bound(3));
    assert(1 * DET_ENTRY_LIMIT * 1 == 1_000_000_000) by (nonlinear_arith)
        requires
            DET_ENTRY_LIMIT == 1_000_000_000,
    ;
    assert(2 * DET_ENTRY_LIMIT * 1_000_000_000 == 2_000_000_000_000_000_000) by (nonlinear_arith)
        requires
            DET_ENTRY_LIMIT == 1_000_000_000,
    ;
    assert(3 * DET_ENTRY_LIMIT * 2_000_000_000_000_000_000
        == 6_000_000_000_000_000_000_000_000_000) by (nonlinear_arith)
        requires
            DET_ENTRY_LIMIT == 1_000_000_000,
    ;
    assert(4 * DET_ENTRY_LIMIT * 6_000_000_000_000_000_000_000_000_000
        == 24_000_000_000_000_000_000_000_000_000_000_000_000) by (nonlinear_arith)
        requires
            DET_ENTRY_LIMIT == 1_000_000_000,
    ;
}

/// The concrete values of `pow_scale` for the sizes the kernel accepts.
pub proof fn lemma_pow_scale_values()
    ensures
        pow_scale(0) == 1,
        pow_scale(1) == 100_000,
        pow_scale(2) == 10_000_000_000,
        pow_scale(3) == 1_000_000_000_000_000,
        pow_scale(4) == DET_SCALE,
{
    assert(pow_scale(0) == 1);
    assert(pow_scale(1) == SCALE * pow_scale(0));
    assert(pow_scale(2) == SCALE * pow_scale(1));
    assert(pow_scale(3) == SCALE * pow_scale(2));
    assert(pow_scale(4) == SCALE * pow_scale(3));
    assert(SCALE * 100_000 == 10_000_000_000) by (nonlinear_arith)
        requires
            SCALE == 100_000,
    ;
    assert(SCALE * 10_000_000_000 == 1_000_000_000_000_000) by (nonlinear_arith)
        requires
            SCALE == 100_000,
    ;
    assert(SCALE * 1_000_000_000_000_000 == 100_000_000_000_000_000_000) by (nonlinear_arith)
        requires
            SCALE == 100_000,
    ;
}

impl Matrix {
    /// The determinant in entry units (exact for the accepted sizes).
    pub open spec fn det_units(self) -> int {
        det_grid(self.grid(), self.width as nat)
    }

    /// The determinant as a fixed-point value in `1 / DET_SCALE` units.
    pub open spec fn det_value(self) -> int {
        self.det_units() * pow_scale((4 - self.width) as nat)
    }

    /// The minor at `(r, c)` — the determinant of the submatrix — as a
    /// fixed-point value in `1 / DET_SCALE` units.
    pub open spec fn minor_value(self, r: int, c: int) -> int {
        det_grid(sub_grid(self.grid(), r, c), (self.width - 1) as nat) * pow_scale(
            (5 - self.width) as nat,
        )
    }

    /// The cofactor at `(r, c)`: the minor with the checkerboard sign, as
    /// a fixed-point value in `1 / DET_SCALE` units.
    pub open spec fn cof_value(self, r: int, c: int) -> int {
        sign_of(r + c) * self.minor_value(r, c)
    }

    /// An entry of the inverse before transposition: the cofactor divided
    /// by the determinant, rounded to the fixed-point grid.
    pub open spec fn inv_entry(self, r: int, c: int) -> int {
        round_away(
            cof_grid(self.grid(), self.width as nat, r, c) * SCALE * SCALE,
            self.det_units(),
        )
    }

    /// The matrix with the given row and column deleted; the result is one
    /// row and one column smaller.
    pub fn submatrix(&self, row: usize, col: usize) -> (r: Result<Matrix, MatrixError>)
        requires
            self.wf(),
        ensures
            match r {
                Ok(m) => {
                    &&& row < self.width
                    &&& col < self.height
                    &&& m.width + 1 == self.width
                    &&& m.height + 1 == self.height
                    &&& m.wf()
                    &&& m.grid() == sub_grid(self.grid(), row as int, col as int)
                    &&& forall|b: int|
                        self.entries_within(b) ==> #[trigger] m.entries_within(b)
                },
                Err(e) => {
                    &&& e == MatrixError::IndexOutOfRange
                    &&& (row >= self.width || col >= self.height)
                },
            },
    {
        if row >= self.width || col >= self.height {
            return Err(MatrixError::IndexOutOfRange);
        }
        let w: usize = self.width;
        let h: usize = self.height;
        let sw: usize = w - 1;
        let sh: usize = h - 1;
        let n: usize = self.data.len();
        proof {
            assert(sw * sh <= w * h) by (nonlinear_arith)
                requires
                    0 <= sw < w,
                    0 <= sh < h,
            ;
        }
        let sn: usize = sw * sh;
        let mut data: Vec<i128> = Vec::new();
        let mut t: usize = 0;
        while t < sn
            invariant
                t <= sn,
                row < w,
                col < h,
                self.wf(),
                w == self.width,
                h == self.height,
                sw == w - 1,
                sh == h - 1,
                n == self.data@.len(),
                sn == sw * sh,
                data@.len() == t,
                forall|k: int|
                    0 <= k < t ==> self.data@.contains(#[trigger] data@[k]),
                forall|k: int|
                    0 <= k < t ==> #[trigger] data@[k] as int == self.ent(
                        skip(k / (sh as int), row as int),
                        skip(k % (sh as int), col as int),
                    ),
            decreases sn - t,
        {
            proof {
                crate::matrix::lemma_flat_split(t as int, sw as int, sh as int);
            }
            let r2: usize = t / sh;
            let c2: usize = t % sh;
            let sr: usize = if r2 < row {
                r2
            } else {
                r2 + 1
            };
            let sc: usize = if c2 < col {
                c2
            } else {
                c2 + 1
            };
            proof {
                lemma_flat_index(sr as int, sc as int, w as int, h as int);
            }
            let v: i128 = self.data[sc + sr * h];
            data.push(v);
            proof {
                assert(self.data@.contains(v));
            }
            t = t + 1;
        }
        let m = Matrix { width: sw, height: sh, data };
        proof {
            assert(m.wf());
            let g = self.grid();
            let sg = sub_grid(g, row as int, col as int);
            assert(m.grid().len() == sg.len());
            assert forall|r2: int| 0 <= r2 < sw implies m.grid()[r2] =~= sg[r2] by {
                assert(seq_drop(g, row as int)[r2] == g[skip(r2, row as int)]);
                assert forall|c2: int| 0 <= c2 < sh implies m.grid()[r2][c2] == sg[r2][c2] by {
                    lemma_flat_index(r2, c2, sw as int, sh as int);
                    assert(m.ent(r2, c2) == m.data@[c2 + r2 * sh] as int);
                    assert(sg[r2][c2] == g[skip(r2, row as int)][skip(c2, col as int)]);
                    assert(g[skip(r2, row as int)][skip(c2, col as int)] == self.ent(
                        skip(r2, row as int),
                        skip(c2, col as int),
                    ));
                }
            }
            assert(m.grid() =~= sg);
            assert forall|b: int| self.entries_within(b) implies #[trigger] m.entries_within(
                b,
            ) by {
                assert forall|k: int| 0 <= k < m.data@.len() implies -b
                    <= #[trigger] m.data@[k] as int <= b by {
                    assert(self.data@.contains(m.data@[k]));
                    let j = choose|j: int|
                        0 <= j < self.data@.len() && self.data@[j] == m.data@[k];
                    assert(-b <= self.data@[j] as int <= b);
                }
            }
        }
        Ok(m)
    }

    /// The determinant in entry units, by cofactor expansion along the
    /// first row.
    fn det_units_exec(&self) -> (r: i128)
        requires
            self.wf(),
            self.width == self.height,
            self.width <= DET_SIZE_LIMIT,
            self.entries_within(DET_ENTRY_LIMIT as int),
        ensures
            r as int == self.det_units(),
            -det_bound(self.width as nat) <= r as int <= det_bound(self.width as nat),
        decreases self.width, 1int,
    {
        let w: usize = self.width;
        if w == 0 {
            proof {
                assert(det_bound(0) == 1);
                assert(det_grid(self.grid(), 0) == 1);
            }
            return 1;
        }
        let ghost bsub = det_bound((w - 1) as nat);
        let ghost cap = (DET_ENTRY_LIMIT as int) * bsub;
        proof {
            lemma_det_bound_values();
            assert(1 <= bsub <= 6_000_000_000_000_000_000_000_000_000);
            assert(1 <= cap <= 6_000_000_000_000_000_000_000_000_000_000_000_000)
                by (nonlinear_arith)
                requires
                    cap == (DET_ENTRY_LIMIT as int) * bsub,
                    DET_ENTRY_LIMIT == 1_000_000_000,
                    1 <= bsub <= 6_000_000_000_000_000_000_000_000_000,
            ;
        }
        let mut acc: i128 = 0;
        let mut c: usize = 0;
        while c < w
            invariant
                c <= w,
                1 <= w,
                self.wf(),
                w == self.width,
                w == self.height,
                w <= DET_SIZE_LIMIT,
                self.entries_within(DET_ENTRY_LIMIT as int),
                bsub == det_bound((w - 1) as nat),
                1 <= bsub <= 6_000_000_000_000_000_000_000_000_000,
                cap == (DET_ENTRY_LIMIT as int) * bsub,
                1 <= cap <= 6_000_000_000_000_000_000_000_000_000_000_000_000,
                acc as int == det_expand(self.grid(), w as nat, c as nat),
                -(c as int) * cap <= acc as int <= (c as int) * cap,
            decreases w - c,
        {
            proof {
                lemma_flat_index(0, c as int, w as int, w as int);
                assert(c + 0 * (self.height as int) == c);
            }
            let a: i128 = self.data[c];
            let cof: i128 = self.cof_units(0, c);
            proof {
                assert(a as int == self.ent(0, c as int));
                assert(a as int == self.grid()[0][c as int]);
                let ghost dsub = det_grid(
                    sub_grid(self.grid(), 0, c as int),
                    (w - 1) as nat,
                );
                assert(cof as int == sign_of(c as int) * dsub);
                assert(sign_of(c as int) * (a as int) * dsub == (a as int) * (sign_of(c as int)
                    * dsub)) by (nonlinear_arith);
                assert(-cap <= (a as int) * (cof as int) <= cap) by (nonlinear_arith)
                    requires
                        cap == (DET_ENTRY_LIMIT as int) * bsub,
                        -DET_ENTRY_LIMIT <= a as int <= DET_ENTRY_LIMIT,
                        -bsub <= cof as int <= bsub,
                        bsub >= 0,
                ;
                assert(-(c as int) * cap >= -3 * 6_000_000_000_000_000_000_000_000_000_000_000_000
                    && (c as int) * cap <= 3 * 6_000_000_000_000_000_000_000_000_000_000_000_000)
                    by (nonlinear_arith)
                    requires
                        0 <= c <= 3,
                        0 <= cap <= 6_000_000_000_000_000_000_000_000_000_000_000_000,
                ;
                assert(((c + 1) as int) * cap == (c as int) * cap + cap) by (nonlinear_arith);
                assert(-((c + 1) as int) * cap == -(c as int) * cap - cap) by (nonlinear_arith);
            }
            acc = acc + a * cof;
            c = c + 1;
        }
        proof {
            assert(det_bound(w as nat) == (w as int) * (DET_ENTRY_LIMIT as int) * det_bound(
                (w - 1) as nat,
            ));
            assert((w as int) * cap == (w as int) * (DET_ENTRY_LIMIT as int) * bsub)
                by (nonlinear_arith)
                requires
                    cap == (DET_ENTRY_LIMIT as int) * bsub,
            ;
            assert(-(w as int) * cap == -((w as int) * cap)) by (nonlinear_arith);
        }
        acc
    }

    /// The cofactor in entry units: the determinant of the submatrix at
    /// `(row, col)` with the checkerboard sign.
    fn cof_units(&self, row: usize, col: usize) -> (r: i128)
        requires
            self.wf(),
            self.width == self.height,
            1 <= self.width <= DET_SIZE_LIMIT,
            row < self.width,
            col < self.height,
            self.entries_within(DET_ENTRY_LIMIT as int),
        ensures
            r as int == cof_grid(self.grid(), self.width as nat, row as int, col as int),
            -det_bound((self.width - 1) as nat) <= r as int <= det_bound(
                (self.width - 1) as nat,
            ),
        decreases self.width, 0int,
    {
        let sub: Matrix = match self.submatrix(row, col) {
            Ok(m) => m,
            Err(_) => {
                proof {
                    assert(false);
                }
                Matrix { width: 0, height: 0, data: Vec::new() }
            },
        };
        proof {
            assert(sub.entries_within(DET_ENTRY_LIMIT as int));
            lemma_det_bound_values();
        }
        let d: i128 = sub.det_units_exec();
        if (row + col) % 2 != 0 {
            proof {
                assert(sign_of((row + col) as int) == -1);
            }
            -d
        } else {
            proof {
                assert(sign_of((row + col) as int) == 1);
            }
            d
        }
    }

    /// The determinant as a fixed-point value in `1 / DET_SCALE` units;
    /// the matrix must be square.
    pub fn determinant(&self) -> (r: Result<i128, MatrixError>)
        requires
            self.wf(),
            self.width <= DET_SIZE_LIMIT,
            self.height <= DET_SIZE_LIMIT,
            self.entries_within(DET_ENTRY_LIMIT as int),
        ensures
            match r {
                Ok(v) => {
                    &&& self.width == self.height
                    &&& v as int == self.det_value()
                    &&& -DET_VALUE_LIMIT <= v <= DET_VALUE_LIMIT
                },
                Err(e) => {
                    &&& e == MatrixError::NonSquareMatrix
                    &&& self.width != self.height
                },
            },
    {
        if self.width != self.height {
            return Err(MatrixError::NonSquareMatrix);
        }
        let d: i128 = self.det_units_exec();
        Ok(scale_det(d, self.width))
    }

    /// The minor at `(row, col)`: the determinant of the submatrix, as a
    /// fixed-point value in `1 / DET_SCALE` units.
    pub fn minor(&self, row: usize, col: usize) -> (r: Result<i128, MatrixError>)
        requires
            self.wf(),
            self.width <= DET_SIZE_LIMIT,
            self.height <= DET_SIZE_LIMIT,
            self.entries_within(DET_ENTRY_LIMIT as int),
        ensures
            match r {
                Ok(v) => {
                    &&& row < self.width
                    &&& col < self.height
                    &&& self.width == self.height
                    &&& v as int == self.minor_value(row as int, col as int)
                    &&& -DET_VALUE_LIMIT <= v <= DET_VALUE_LIMIT
                },
                Err(e) => if row >= self.width || col >= self.height {
                    e == MatrixError::IndexOutOfRange
                } else {
                    &&& e == MatrixError::NonSquareMatrix
                    &&& self.width != self.height
                },
            },
    {
        if row >= self.width || col >= self.height {
            return Err(MatrixError::IndexOutOfRange);
        }
        if self.width != self.height {
            return Err(MatrixError::NonSquareMatrix);
        }
        let sub: Matrix = match self.submatrix(row, col) {
            Ok(m) => m,
            Err(_) => {
                proof {
                    assert(false);
                }
                Matrix { width: 0, height: 0, data: Vec::new() }
            },
        };
        proof {
            assert(sub.entries_within(DET_ENTRY_LIMIT as int));
        }
        let d: i128 = sub.det_units_exec();
        Ok(scale_det(d, self.width - 1))
    }

    /// The cofactor at `(row, col)`: the minor, negated when `row + col`
    /// is odd, as a fixed-point value in `1 / DET_SCALE` units.
    pub fn cofactor(&self, row: usize, col: usize) -> (r: Result<i128, MatrixError>)
        requires
            self.wf(),
            self.width <= DET_SIZE_LIMIT,
            self.height <= DET_SIZE_LIMIT,
            self.entries_within(DET_ENTRY_LIMIT as int),
        ensures
            match r {
                Ok(v) => {
                    &&& row < self.width
                    &&& col < self.height
                    &&& self.width == self.height
                    &&& v as int == self.cof_value(row as int, col as int)
                    &&& -DET_VALUE_LIMIT <= v <= DET_VALUE_LIMIT
                },
                Err(e) => if row >= self.width || col >= self.height {
                    e == MatrixError::IndexOutOfRange
                } else {
                    &&& e == MatrixError::NonSquareMatrix
                    &&& self.width != self.height
                },
            },
    {
        match self.minor(row, col) {
            Ok(v) => if (row + col) % 2 != 0 {
                proof {
                    assert(sign_of((row + col) as int) == -1);
                }
                Ok(-v)
            } else {
                proof {
                    assert(sign_of((row + col) as int) == 1);
                }
                Ok(v)
            },
            Err(e) => Err(e),
        }
    }

    /// Whether the matrix is invertible: its determinant is not exactly
    /// zero. (This test is exact, unlike the tolerance-based equality.)
    pub fn is_invertible(&self) -> (r: Result<bool, MatrixError>)
        requires
            self.wf(),
            self.width <= DET_SIZE_LIMIT,
            self.height <= DET_SIZE_LIMIT,
            self.entries_within(DET_ENTRY_LIMIT as int),
        ensures
            match r {
                Ok(b) => {
                    &&& self.width == self.height
                    &&& b == (self.det_value() != 0)
                },
                Err(e) => {
                    &&& e == MatrixError::NonSquareMatrix
                    &&& self.width != self.height
                },
            },
    {
        match self.determinant() {
            Ok(v) => Ok(v != 0),
            Err(e) => Err(e),
        }
    }

    /// The inverse: the adjugate over the determinant, every entry rounded
    /// to the fixed-point grid. The cofactor of `(row, col)` lands at
    /// `(col, row)`. A singular matrix (determinant exactly zero) is
    /// reported, never approximated.
    pub fn inverse(&self) -> (r: Result<Matrix, MatrixError>)
        requires
            self.wf(),
            self.width <= DET_SIZE_LIMIT,
            self.height <= DET_SIZE_LIMIT,
            self.entries_within(DET_ENTRY_LIMIT as int),
        ensures
            match r {
                Ok(m) => {
                    &&& self.width == self.height
                    &&& self.det_value() != 0
                    &&& m.width == self.width
                    &&& m.height == self.height
                    &&& m.wf()
                    &&& forall|row: int, col: int|
                        0 <= row < self.width && 0 <= col < self.width
                            ==> #[trigger] m.ent(col, row) == self.inv_entry(row, col)
                },
                Err(e) => if self.width != self.height {
                    e == MatrixError::NonSquareMatrix
                } else {
                    &&& e == MatrixError::SingularMatrix
                    &&& self.det_value() == 0
                },
            },
    {
        if self.width != self.height {
            return Err(MatrixError::NonSquareMatrix);
        }
        let w: usize = self.width;
        let det: i128 = self.det_units_exec();
        proof {
            lemma_det_bound_values();
            lemma_pow_scale_values();
            assert(1 <= pow_scale((4 - w) as nat) <= DET_SCALE);
            assert(-DET_VALUE_LIMIT <= det as int <= DET_VALUE_LIMIT);
        }
        if det == 0 {
            proof {
                assert(self.det_value() == 0 * pow_scale((4 - w) as nat));
                assert(0 * pow_scale((4 - w) as nat) == 0) by (nonlinear_arith);
            }
            return Err(MatrixError::SingularMatrix);
        }
        proof {
            assert(self.det_value() != 0) by (nonlinear_arith)
                requires
                    self.det_value() == self.det_units() * pow_scale((4 - w) as nat),
                    self.det_units() != 0,
                    pow_scale((4 - w) as nat) >= 1,
            ;
        }
        let n: usize = self.data.len();
        let ghost g = self.grid();
        let mut data: Vec<i128> = Vec::new();
        let mut t: usize = 0;
        while t < n
            invariant
                t <= n,
                self.wf(),
                w == self.width,
                w == self.height,
                w <= DET_SIZE_LIMIT,
                self.entries_within(DET_ENTRY_LIMIT as int),
                g == self.grid(),
                n == self.data@.len(),
                det as int == self.det_units(),
                det != 0,
                -DET_VALUE_LIMIT <= det as int <= DET_VALUE_LIMIT,
                data@.len() == t,
                forall|k: int|
                    0 <= k < t ==> #[trigger] data@[k] as int == self.inv_entry(
                        k % (w as int),
                        k / (w as int),
                    ),
            decreases n - t,
        {
            proof {
                crate::matrix::lemma_flat_split(t as int, w as int, w as int);
            }
            let i: usize = t / w;
            let j: usize = t % w;
            let cof: i128 = self.cof_units(j, i);
            proof {
                lemma_det_bound_values();
                assert(-6_000_000_000_000_000_000_000_000_000 <= cof as int
                    <= 6_000_000_000_000_000_000_000_000_000);
                assert(-600_000_000_000_000_000_000_000_000_000_000 <= (cof as int) * (
                SCALE as int) <= 600_000_000_000_000_000_000_000_000_000_000)
                    by (nonlinear_arith)
                    requires
                        -6_000_000_000_000_000_000_000_000_000 <= cof as int
                            <= 6_000_000_000_000_000_000_000_000_000,
                        SCALE == 100_000,
                ;
                assert(-60_000_000_000_000_000_000_000_000_000_000_000_000 <= (cof as int) * (
                SCALE as int) * (SCALE as int)
                    <= 60_000_000_000_000_000_000_000_000_000_000_000_000) by (nonlinear_arith)
                    requires
                        -600_000_000_000_000_000_000_000_000_000_000 <= (cof as int) * (
                        SCALE as int) <= 600_000_000_000_000_000_000_000_000_000_000,
                        SCALE == 100_000,
                ;
            }
            let num: i128 = cof * SCALE * SCALE;
            data.push(div_round_away(num, det));
            t = t + 1;
        }
        let m = Matrix { width: w, height: w, data };
        proof {
            assert(m.wf());
            assert forall|row: int, col: int|
                0 <= row < w && 0 <= col < w implies #[trigger] m.ent(col, row)
                == self.inv_entry(row, col) by {
                lemma_flat_index(col, row, w as int, w as int);
            }
        }
        Ok(m)
    }
}

/// Rescales an exact determinant of a `size` x `size` matrix from entry
/// units to the fixed-point determinant grid (`1 / DET_SCALE` units).
fn scale_det(units: i128, size: usize) -> (r: i128)
    requires
        size <= 4,
        -det_bound(size as nat) <= units as int <= det_bound(size as nat),
    ensures
        r as int == units * pow_scale((4 - size) as nat),
        -DET_VALUE_LIMIT <= r <= DET_VALUE_LIMIT,
{
    proof {
        lemma_det_bound_values();
        lemma_pow_scale_values();
    }
    if size == 4 {
        proof {
            assert((units as int) * 1 == units as int) by (nonlinear_arith);
        }
        units
    } else if size == 3 {
        proof {
            assert(-600_000_000_000_000_000_000_000_000_000_000 <= (units as int) * (SCALE as int)
                <= 600_000_000_000_000_000_000_000_000_000_000) by (nonlinear_arith)
                requires
                    -6_000_000_000_000_000_000_000_000_000 <= units as int
                        <= 6_000_000_000_000_000_000_000_000_000,
                    SCALE == 100_000,
            ;
        }
        units * SCALE
    } else if size == 2 {
        proof {
            assert(-20_000_000_000_000_000_000_000_000_000 <= (units as int) * 10_000_000_000
                <= 20_000_000_000_000_000_000_000_000_000) by (nonlinear_arith)
                requires
                    -2_000_000_000_000_000_000 <= units as int <= 2_000_000_000_000_000_000,
            ;
        }
        units * 10_000_000_000
    } else if size == 1 {
        proof {
            assert(-1_000_000_000_000_000_000_000_000 <= (units as int) * 1_000_000_000_000_000
                <= 1_000_000_000_000_000_000_000_000) by (nonlinear_arith)
                requires
                    -1_000_000_000 <= units as int <= 1_000_000_000,
            ;
        }
        units * 1_000_000_000_000_000
    } else {
        proof {
            assert(-DET_SCALE <= (units as int) * (DET_SCALE as int) <= DET_SCALE)
                by (nonlinear_arith)
                requires
                    -1 <= units as int <= 1,
                    DET_SCALE == 100_000_000_000_000_000_000,
            ;
        }
        units * DET_SCALE
    }
}

} // verus!
