//! Dense, row-major matrices of fixed-point numbers.
//!
//! A matrix is `width` rows by `height` columns; the entry at row `r`,
//! column `c` sits at flat offset `c + r * height` (the row stride is
//! `height`). All failure conditions are reported as `MatrixError` values,
//! never by panicking.

use crate::fixed::{div_round_away, within_tolerance, round_away, DIV_LIMIT, SCALE, TOLERANCE};
use crate::tuple::Tuple;
use vstd::arithmetic::div_mod::{
    lemma_fundamental_div_mod, lemma_fundamental_div_mod_converse, lemma_mod_bound,
};
use vstd::math::abs;
use vstd::prelude::*;

verus! {

/// Magnitude bound (in units) on entries accepted by `add` and `sub`.
pub const ADD_LIMIT: i128 = 10_000_000_000_000_000_000_000_000_000_000_000_000;

/// Magnitude bound (in units) on the operands of a scalar multiplication.
pub const SCALAR_LIMIT: i128 = 10_000_000_000_000_000;

/// Magnitude bound (in units) on entries accepted by matrix multiplication.
pub const MUL_LIMIT: i128 = 1_000_000_000_000_000_000;

/// Bound on the shared (inner) dimension of a matrix multiplication.
pub const MUL_INNER_LIMIT: usize = 100;

/// Everything that can go wrong in a matrix operation. Each condition is
/// detected eagerly and reported to the caller; nothing is retried or
/// silently corrected.
#[derive(Clone, Copy, Debug, PartialEq, Eq, Structural)]
pub enum MatrixError {
    /// Operand shapes incompatible for `add`, `sub`, `mul` or construction.
    DimensionMismatch,
    /// Determinant, minor, cofactor or inverse of a non-square matrix.
    NonSquareMatrix,
    /// Inverse of a matrix whose determinant is exactly zero.
    SingularMatrix,
    /// Read or write outside `[0, width) x [0, height)`.
    IndexOutOfRange,
}

/// A dense matrix: `width` rows by `height` columns of fixed-point entries
/// in row-major order.
#[derive(Clone, Debug)]
pub struct Matrix {
    pub width: usize,
    pub height: usize,
    pub data: Vec<i128>,
}

/// The data of a transpose: entry `(r, c)` of the result is entry `(c, r)`
/// of the source, laid out with the source's own dimensions.
pub open spec fn transpose_data(d: Seq<i128>, w: int, h: int) -> Seq<i128> {
    Seq::new((w * h) as nat, |i: int| d[i / w + (i % w) * h])
}

/// Magnitude bound on a product of two multiplication entries:
/// `MUL_LIMIT * MUL_LIMIT`.
pub const MUL_TERM_LIMIT: i128 = 1_000_000_000_000_000_000_000_000_000_000_000_000;

/// The first `k` terms of the dot product of row `i` of `ga` with column
/// `j` of `gb`, in squared units.
pub open spec fn dot_prefix(ga: Seq<Seq<int>>, gb: Seq<Seq<int>>, i: int, j: int, k: nat) -> int
    decreases k,
{
    if k == 0 {
        0
    } else {
        dot_prefix(ga, gb, i, j, (k - 1) as nat) + ga[i][k - 1] * gb[k - 1][j]
    }
}

/// An entry of the rounded matrix product: the dot product along the shared
/// dimension `n`, rounded to the fixed-point grid (nearest, ties away from
/// zero).
pub open spec fn mul_entry(ga: Seq<Seq<int>>, gb: Seq<Seq<int>>, i: int, j: int, n: nat) -> int {
    round_away(dot_prefix(ga, gb, i, j, n), SCALE as int)
}

/// A grid shape: `rows` rows, each of `cols` entries.
pub open spec fn grid_wf(g: Seq<Seq<int>>, rows: nat, cols: nat) -> bool {
    &&& g.len() == rows
    &&& forall|r: int| 0 <= r < rows ==> (#[trigger] g[r]).len() == cols
}

/// The `n` x `n` identity grid: 1.0 on the diagonal, 0.0 elsewhere.
pub open spec fn identity_grid(n: nat) -> Seq<Seq<int>> {
    Seq::new(
        n,
        |r: int|
            Seq::new(
                n,
                |c: int|
                    if r == c {
                        SCALE as int
                    } else {
                        0
                    },
            ),
    )
}

/// Every entry of a grid has magnitude at most `b`.
pub open spec fn grid_within(g: Seq<Seq<int>>, b: int) -> bool {
    forall|r: int, c: int|
        0 <= r < g.len() && 0 <= c < g[r].len() ==> -b <= #[trigger] g[r][c] <= b
}

/// The grid of the rounded product of two grids: `rows` by `cols`, summed
/// along the shared dimension `n`.
pub open spec fn mul_grid(
    ga: Seq<Seq<int>>,
    gb: Seq<Seq<int>>,
    rows: nat,
    n: nat,
    cols: nat,
) -> Seq<Seq<int>> {
    Seq::new(rows, |i: int| Seq::new(cols, |j: int| mul_entry(ga, gb, i, j, n)))
}

/// A tuple seen as a four-row, one-column grid.
pub open spec fn tuple_grid(t: Tuple) -> Seq<Seq<int>> {
    Seq::new(
        4,
        |r: int|
            Seq::new(
                1,
                |c: int|
                    if r == 0 {
                        t.x as int
                    } else if r == 1 {
                        t.y as int
                    } else if r == 2 {
                        t.z as int
                    } else {
                        t.w as int
                    },
            ),
    )
}

/// The flat offset of cell `(r, c)` in a `w` by `h` matrix is in range, and
/// division recovers the cell from the offset.
pub proof fn lemma_flat_index(r: int, c: int, w: int, h: int)
    requires
        0 <= r < w,
        0 <= c < h,
    ensures
        0 <= c + r * h < w * h,
        (c + r * h) / h == r,
        (c + r * h) % h == c,
{
    assert(0 <= r * h && c + r * h < w * h) by (nonlinear_arith)
        requires
            0 <= r < w,
            0 <= c < h,
    ;
    lemma_fundamental_div_mod_converse(c + r * h, h, r, c);
}

/// A flat offset into a `w` by `h` matrix names the cell at row
/// `i / h`, column `i % h`.
pub proof fn lemma_flat_split(i: int, w: int, h: int)
    requires
        0 <= i < w * h,
        0 <= w,
        0 <= h,
    ensures
        0 < h,
        0 <= i % h < h,
        0 <= i / h < w,
        i == (i % h) + (i / h) * h,
{
    assert(0 < h) by (nonlinear_arith)
        requires
            0 <= i < w * h,
            0 <= h,
    ;
    lemma_fundamental_div_mod(i, h);
    lemma_mod_bound(i, h);
    assert(i == h * (i / h) + (i % h));
    assert(h * (i / h) == (i / h) * h) by (nonlinear_arith);
    assert(i / h < w) by (nonlinear_arith)
        requires
            i == h * (i / h) + (i % h),
            0 <= i % h < h,
            i < w * h,
    ;
    assert(0 <= i / h) by (nonlinear_arith)
        requires
            i == h * (i / h) + (i % h),
            0 <= i % h < h,
            0 <= i,
    ;
}

impl Matrix {
    /// The matrix is well formed: its data holds exactly one entry per cell.
    pub open spec fn wf(self) -> bool {
        self.data@.len() == self.width * self.height
    }

    /// The entry at row `r`, column `c`, as a mathematical integer.
    pub open spec fn ent(self, r: int, c: int) -> int {
        self.data@[c + r * self.height] as int
    }

    /// Every entry has magnitude at most `bound` units.
    pub open spec fn entries_within(self, bound: int) -> bool {
        forall|i: int|
            0 <= i < self.data@.len() ==> -bound <= #[trigger] self.data@[i] as int <= bound
    }

    /// The matrix as a sequence of rows of mathematical integers.
    pub open spec fn grid(self) -> Seq<Seq<int>> {
        Seq::new(
            self.width as nat,
            |r: int| Seq::new(self.height as nat, |c: int| self.ent(r, c)),
        )
    }

    /// Two matrices agree approximately: same dimensions, and every pair of
    /// entries within the absolute tolerance.
    pub open spec fn approx_eq(self, other: Matrix) -> bool {
        &&& self.width == other.width
        &&& self.height == other.height
        &&& self.data@.len() == other.data@.len()
        &&& forall|i: int|
            0 <= i < self.data@.len() ==> abs(
                #[trigger] self.data@[i] as int - other.data@[i] as int,
            ) <= TOLERANCE
    }

    /// Builds a matrix from explicit row-major data; the data must hold
    /// exactly `width * height` entries.
    pub fn new(width: usize, height: usize, data: Vec<i128>) -> (r: Result<Matrix, MatrixError>)
        ensures
            match r {
                Ok(m) => {
                    &&& m.width == width
                    &&& m.height == height
                    &&& m.data@ == data@
                    &&& data@.len() == width * height
                    &&& m.wf()
                },
                Err(e) => {
                    &&& e == MatrixError::DimensionMismatch
                    &&& data@.len() != width * height
                },
            },
    {
        proof {
            assert(width * height <= 0xffff_ffff_ffff_ffff * 0xffff_ffff_ffff_ffff)
                by (nonlinear_arith)
                requires
                    width <= 0xffff_ffff_ffff_ffff,
                    height <= 0xffff_ffff_ffff_ffff,
            ;
        }
        if (width as u128) * (height as u128) == data.len() as u128 {
            Ok(Matrix { width, height, data })
        } else {
            Err(MatrixError::DimensionMismatch)
        }
    }

    /// An all-zero matrix of the given dimensions.
    pub fn size(width: usize, height: usize) -> (r: Matrix)
        requires
            width * height <= usize::MAX,
        ensures
            r.width == width,
            r.height == height,
            r.wf(),
            forall|i: int| 0 <= i < r.data@.len() ==> r.data@[i] == 0i128,
    {
        let n: usize = width * height;
        let mut data: Vec<i128> = Vec::new();
        let mut k: usize = 0;
        while k < n
            invariant
                k <= n,
                data@.len() == k,
                forall|i: int| 0 <= i < k ==> data@[i] == 0i128,
            decreases n - k,
        {
            data.push(0);
            k = k + 1;
        }
        Matrix { width, height, data }
    }

    /// Reads the entry at `(row, col)`; out-of-range indices are reported.
    pub fn get(&self, row: usize, col: usize) -> (r: Result<i128, MatrixError>)
        requires
            self.wf(),
        ensures
            match r {
                Ok(v) => {
                    &&& row < self.width
                    &&& col < self.height
                    &&& v as int == self.ent(row as int, col as int)
                },
                Err(e) => {
                    &&& e == MatrixError::IndexOutOfRange
                    &&& (row >= self.width || col >= self.height)
                },
            },
    {
        if row < self.width && col < self.height {
            let n: usize = self.data.len();
            proof {
                assert(col + row * self.height < self.width * self.height) by (nonlinear_arith)
                    requires
                        row < self.width,
                        col < self.height,
                ;
            }
            Ok(self.data[col + row * self.height])
        } else {
            Err(MatrixError::IndexOutOfRange)
        }
    }

    /// Writes the entry at `(row, col)`; out-of-range indices are reported
    /// and leave the matrix unchanged.
    pub fn set(&mut self, row: usize, col: usize, value: i128) -> (r: Result<(), MatrixError>)
        requires
            old(self).wf(),
        ensures
            final(self).width == old(self).width,
            final(self).height == old(self).height,
            final(self).wf(),
            match r {
                Ok(u) => {
                    &&& row < old(self).width
                    &&& col < old(self).height
                    &&& final(self).data@ == old(self).data@.update(
                        col + row * old(self).height,
                        value,
                    )
                },
                Err(e) => {
                    &&& e == MatrixError::IndexOutOfRange
                    &&& (row >= old(self).width || col >= old(self).height)
                    &&& final(self).data@ == old(self).data@
                },
            },
    {
        if row < self.width && col < self.height {
            let n: usize = self.data.len();
            proof {
                assert(col + row * self.height < self.width * self.height) by (nonlinear_arith)
                    requires
                        row < self.width,
                        col < self.height,
                ;
            }
            let idx: usize = col + row * self.height;
            self.data[idx] = value;
            Ok(())
        } else {
            Err(MatrixError::IndexOutOfRange)
        }
    }

    /// An identity-patterned matrix of the same dimensions as `self`:
    /// 1.0 where the row and column indices agree, 0.0 elsewhere.
    pub fn identity(&self) -> (r: Matrix)
        requires
            self.wf(),
        ensures
            r.width == self.width,
            r.height == self.height,
            r.wf(),
            forall|x: int, y: int|
                0 <= x < r.width && 0 <= y < r.height ==> r.ent(x, y) == if x == y {
                    SCALE as int
                } else {
                    0
                },
    {
        let n: usize = self.data.len();
        Matrix::identity_sized(self.width, self.height)
    }

    /// The square identity matrix of the given size.
    pub fn identity_matrix(size: usize) -> (r: Matrix)
        requires
            size * size <= usize::MAX,
        ensures
            r.width == size,
            r.height == size,
            r.wf(),
            forall|x: int, y: int|
                0 <= x < size && 0 <= y < size ==> r.ent(x, y) == if x == y {
                    SCALE as int
                } else {
                    0
                },
    {
        Matrix::identity_sized(size, size)
    }

    /// Shared body of the two identity constructors.
    fn identity_sized(width: usize, height: usize) -> (r: Matrix)
        requires
            width * height <= usize::MAX,
        ensures
            r.width == width,
            r.height == height,
            r.wf(),
            forall|x: int, y: int|
                0 <= x < width && 0 <= y < height ==> r.ent(x, y) == if x == y {
                    SCALE as int
                } else {
                    0
                },
    {
        let n: usize = width * height;
        let mut data: Vec<i128> = Vec::new();
        let mut k: usize = 0;
        while k < n
            invariant
                k <= n,
                n == width * height,
                data@.len() == k,
                forall|i: int|
                    0 <= i < k ==> #[trigger] data@[i] == if i / (height as int) == i % (
                    height as int) {
                        SCALE
                    } else {
                        0i128
                    },
            decreases n - k,
        {
            proof {
                lemma_flat_split(k as int, width as int, height as int);
            }
            let row: usize = k / height;
            let col: usize = k % height;
            if row == col {
                data.push(SCALE);
            } else {
                data.push(0);
            }
            k = k + 1;
        }
        let r = Matrix { width, height, data };
        proof {
            assert forall|x: int, y: int| 0 <= x < width && 0 <= y < height implies r.ent(x, y)
                == if x == y {
                SCALE as int
            } else {
                0
            } by {
                lemma_flat_index(x, y, width as int, height as int);
            }
        }
        r
    }

    /// The transpose: entry `(r, c)` of the result is entry `(c, r)` of
    /// `self`; the dimension fields are kept as they are.
    pub fn transpose(&self) -> (r: Matrix)
        requires
            self.wf(),
        ensures
            r.width == self.width,
            r.height == self.height,
            r.wf(),
            r.data@ == transpose_data(self.data@, self.width as int, self.height as int),
    {
        let w: usize = self.width;
        let h: usize = self.height;
        let n: usize = self.data.len();
        let mut data: Vec<i128> = Vec::new();
        let mut y: usize = 0;
        while y < h
            invariant
                y <= h,
                self.wf(),
                w == self.width,
                h == self.height,
                n == self.data@.len(),
                data@.len() == y * w,
                forall|k: int|
                    0 <= k < data@.len() ==> #[trigger] data@[k] == self.data@[k / (w as int) + (k
                        % (w as int)) * h],
            decreases h - y,
        {
            let mut x: usize = 0;
            while x < w
                invariant
                    x <= w,
                    y < h,
                    self.wf(),
                    w == self.width,
                    h == self.height,
                    n == self.data@.len(),
                    data@.len() == y * w + x,
                    forall|k: int|
                        0 <= k < data@.len() ==> #[trigger] data@[k] == self.data@[k / (w as int)
                            + (k % (w as int)) * h],
                decreases w - x,
            {
                proof {
                    lemma_flat_index(x as int, y as int, w as int, h as int);
                    lemma_fundamental_div_mod_converse(
                        y * w + x,
                        w as int,
                        y as int,
                        x as int,
                    );
                }
                data.push(self.data[y + x * h]);
                x = x + 1;
            }
            y = y + 1;
            proof {
                assert((y - 1) * w + w == y * w) by (nonlinear_arith);
            }
        }
        let r = Matrix { width: w, height: h, data };
        proof {
            assert(h * w == w * h) by (nonlinear_arith);
            assert(r.data@ =~= transpose_data(self.data@, w as int, h as int));
        }
        r
    }

    /// Entrywise sum; the operands must have equal dimensions.
    pub fn add(&self, other: &Matrix) -> (r: Result<Matrix, MatrixError>)
        requires
            self.wf(),
            other.wf(),
            self.entries_within(ADD_LIMIT as int),
            other.entries_within(ADD_LIMIT as int),
        ensures
            match r {
                Ok(m) => {
                    &&& self.width == other.width
                    &&& self.height == other.height
                    &&& m.width == self.width
                    &&& m.height == self.height
                    &&& m.wf()
                    &&& forall|i: int|
                        0 <= i < m.data@.len() ==> #[trigger] m.data@[i] as int == self.data@[i]
                            + other.data@[i]
                },
                Err(e) => {
                    &&& e == MatrixError::DimensionMismatch
                    &&& (self.width != other.width || self.height != other.height)
                },
            },
    {
        if self.width != other.width || self.height != other.height {
            return Err(MatrixError::DimensionMismatch);
        }
        let n: usize = self.data.len();
        let mut data: Vec<i128> = Vec::new();
        let mut i: usize = 0;
        while i < n
            invariant
                i <= n,
                self.wf(),
                other.wf(),
                self.width == other.width,
                self.height == other.height,
                self.entries_within(ADD_LIMIT as int),
                other.entries_within(ADD_LIMIT as int),
                n == self.data@.len(),
                n == other.data@.len(),
                data@.len() == i,
                forall|j: int|
                    0 <= j < i ==> #[trigger] data@[j] as int == self.data@[j] + other.data@[j],
            decreases n - i,
        {
            data.push(self.data[i] + other.data[i]);
            i = i + 1;
        }
        Ok(Matrix { width: self.width, height: self.height, data })
    }

    /// Entrywise difference; the operands must have equal dimensions.
    pub fn sub(&self, other: &Matrix) -> (r: Result<Matrix, MatrixError>)
        requires
            self.wf(),
            other.wf(),
            self.entries_within(ADD_LIMIT as int),
            other.entries_within(ADD_LIMIT as int),
        ensures
            match r {
                Ok(m) => {
                    &&& self.width == other.width
                    &&& self.height == other.height
                    &&& m.width == self.width
                    &&& m.height == self.height
                    &&& m.wf()
                    &&& forall|i: int|
                        0 <= i < m.data@.len() ==> #[trigger] m.data@[i] as int == self.data@[i]
                            - other.data@[i]
                },
                Err(e) => {
                    &&& e == MatrixError::DimensionMismatch
                    &&& (self.width != other.width || self.height != other.height)
                },
            },
    {
        if self.width != other.width || self.height != other.height {
            return Err(MatrixError::DimensionMismatch);
        }
        let n: usize = self.data.len();
        let mut data: Vec<i128> = Vec::new();
        let mut i: usize = 0;
        while i < n
            invariant
                i <= n,
                self.wf(),
                other.wf(),
                self.width == other.width,
                self.height == other.height,
                self.entries_within(ADD_LIMIT as int),
                other.entries_within(ADD_LIMIT as int),
                n == self.data@.len(),
                n == other.data@.len(),
                data@.len() == i,
                forall|j: int|
                    0 <= j < i ==> #[trigger] data@[j] as int == self.data@[j] - other.data@[j],
            decreases n - i,
        {
            data.push(self.data[i] - other.data[i]);
            i = i + 1;
        }
        Ok(Matrix { width: self.width, height: self.height, data })
    }

    /// Entrywise multiplication by a scalar, rounded to the fixed-point
    /// grid (nearest, ties away from zero).
    pub fn mul_scalar(&self, k: i128) -> (r: Matrix)
        requires
            self.wf(),
            self.entries_within(SCALAR_LIMIT as int),
            -SCALAR_LIMIT <= k <= SCALAR_LIMIT,
        ensures
            r.width == self.width,
            r.height == self.height,
            r.wf(),
            forall|i: int|
                0 <= i < r.data@.len() ==> #[trigger] r.data@[i] as int == round_away(
                    self.data@[i] * k,
                    SCALE as int,
                ),
    {
        let n: usize = self.data.len();
        let mut data: Vec<i128> = Vec::new();
        let mut i: usize = 0;
        while i < n
            invariant
                i <= n,
                self.wf(),
                self.entries_within(SCALAR_LIMIT as int),
                -SCALAR_LIMIT <= k <= SCALAR_LIMIT,
                n == self.data@.len(),
                data@.len() == i,
                forall|j: int|
                    0 <= j < i ==> #[trigger] data@[j] as int == round_away(
                        self.data@[j] * k,
                        SCALE as int,
                    ),
            decreases n - i,
        {
            proof {
                assert(-DIV_LIMIT <= self.data@[i as int] * k <= DIV_LIMIT) by (nonlinear_arith)
                    requires
                        -SCALAR_LIMIT <= self.data@[i as int] <= SCALAR_LIMIT,
                        -SCALAR_LIMIT <= k <= SCALAR_LIMIT,
                        SCALAR_LIMIT == 10_000_000_000_000_000,
                        DIV_LIMIT
                            == 100_000_000_000_000_000_000_000_000_000_000_000_000,
                ;
            }
            data.push(div_round_away(self.data[i] * k, SCALE));
            i = i + 1;
        }
        Matrix { width: self.width, height: self.height, data }
    }

    /// Matrix product. The shared dimension is `self.height == other.width`;
    /// the result is `self.width` by `other.height`, and every entry is the
    /// dot product along the shared dimension rounded to the fixed-point
    /// grid.
    pub fn mul(&self, other: &Matrix) -> (r: Result<Matrix, MatrixError>)
        requires
            self.wf(),
            other.wf(),
            self.entries_within(MUL_LIMIT as int),
            other.entries_within(MUL_LIMIT as int),
            self.height <= MUL_INNER_LIMIT,
            self.width * other.height <= usize::MAX,
        ensures
            match r {
                Ok(m) => {
                    &&& self.height == other.width
                    &&& m.width == self.width
                    &&& m.height == other.height
                    &&& m.wf()
                    &&& forall|i: int, j: int|
                        0 <= i < m.width && 0 <= j < m.height ==> #[trigger] m.ent(i, j)
                            == mul_entry(
                            self.grid(),
                            other.grid(),
                            i,
                            j,
                            self.height as nat,
                        )
                },
                Err(e) => {
                    &&& e == MatrixError::DimensionMismatch
                    &&& self.height != other.width
                },
            },
    {
        if self.height != other.width {
            return Err(MatrixError::DimensionMismatch);
        }
        let w: usize = self.width;
        let h: usize = other.height;
        let inner: usize = self.height;
        let n: usize = w * h;
        let sn: usize = self.data.len();
        let on: usize = other.data.len();
        let ghost ga = self.grid();
        let ghost gb = other.grid();
        let mut data: Vec<i128> = Vec::new();
        let mut i: usize = 0;
        while i < w
            invariant
                i <= w,
                self.wf(),
                other.wf(),
                self.entries_within(MUL_LIMIT as int),
                other.entries_within(MUL_LIMIT as int),
                w == self.width,
                h == other.height,
                inner == self.height,
                inner == other.width,
                inner <= MUL_INNER_LIMIT,
                sn == self.data@.len(),
                on == other.data@.len(),
                ga == self.grid(),
                gb == other.grid(),
                data@.len() == i * h,
                forall|k2: int|
                    0 <= k2 < data@.len() ==> #[trigger] data@[k2] as int == mul_entry(
                        ga,
                        gb,
                        k2 / (h as int),
                        k2 % (h as int),
                        inner as nat,
                    ),
            decreases w - i,
        {
            let mut j: usize = 0;
            while j < h
                invariant
                    j <= h,
                    i < w,
                    self.wf(),
                    other.wf(),
                    self.entries_within(MUL_LIMIT as int),
                    other.entries_within(MUL_LIMIT as int),
                    w == self.width,
                    h == other.height,
                    inner == self.height,
                    inner == other.width,
                    inner <= MUL_INNER_LIMIT,
                    sn == self.data@.len(),
                    on == other.data@.len(),
                    ga == self.grid(),
                    gb == other.grid(),
                    data@.len() == i * h + j,
                    forall|k2: int|
                        0 <= k2 < data@.len() ==> #[trigger] data@[k2] as int == mul_entry(
                            ga,
                            gb,
                            k2 / (h as int),
                            k2 % (h as int),
                            inner as nat,
                        ),
                decreases h - j,
            {
                let mut sum: i128 = 0;
                let mut k: usize = 0;
                while k < inner
                    invariant
                        k <= inner,
                        i < w,
                        j < h,
                        self.wf(),
                        other.wf(),
                        self.entries_within(MUL_LIMIT as int),
                        other.entries_within(MUL_LIMIT as int),
                        w == self.width,
                        h == other.height,
                        inner == self.height,
                        inner == other.width,
                        inner <= MUL_INNER_LIMIT,
                        sn == self.data@.len(),
                        on == other.data@.len(),
                        ga == self.grid(),
                        gb == other.grid(),
                        sum as int == dot_prefix(ga, gb, i as int, j as int, k as nat),
                        -(k as int) * MUL_TERM_LIMIT <= sum as int <= (k as int) * MUL_TERM_LIMIT,
                    decreases inner - k,
                {
                    proof {
                        lemma_flat_index(i as int, k as int, w as int, inner as int);
                        lemma_flat_index(k as int, j as int, inner as int, h as int);
                    }
                    let a: i128 = self.data[k + i * inner];
                    let b: i128 = other.data[j + k * h];
                    proof {
                        assert(a as int == ga[i as int][k as int]);
                        assert(b as int == gb[k as int][j as int]);
                        assert(-MUL_TERM_LIMIT <= a as int * b as int <= MUL_TERM_LIMIT)
                            by (nonlinear_arith)
                            requires
                                -MUL_LIMIT <= a as int <= MUL_LIMIT,
                                -MUL_LIMIT <= b as int <= MUL_LIMIT,
                                MUL_LIMIT == 1_000_000_000_000_000_000,
                                MUL_TERM_LIMIT
                                    == 1_000_000_000_000_000_000_000_000_000_000_000_000,
                        ;
                        assert((k + 1) * MUL_TERM_LIMIT == k * MUL_TERM_LIMIT + MUL_TERM_LIMIT)
                            by (nonlinear_arith);
                    }
                    sum = sum + a * b;
                    k = k + 1;
                }
                proof {
                    assert(inner * MUL_TERM_LIMIT <= 100 * MUL_TERM_LIMIT) by (nonlinear_arith)
                        requires
                            0 <= inner <= 100,
                    ;
                    lemma_fundamental_div_mod_converse(
                        i * h + j,
                        h as int,
                        i as int,
                        j as int,
                    );
                }
                data.push(div_round_away(sum, SCALE));
                j = j + 1;
            }
            i = i + 1;
            proof {
                assert((i - 1) * h + h == i * h) by (nonlinear_arith);
            }
        }
        let m = Matrix { width: w, height: h, data };
        proof {
            assert forall|i2: int, j2: int| 0 <= i2 < m.width && 0 <= j2 < m.height implies #[trigger] m.ent(
                i2,
                j2,
            ) == mul_entry(ga, gb, i2, j2, inner as nat) by {
                lemma_flat_index(i2, j2, w as int, h as int);
            }
        }
        Ok(m)
    }

    /// Applies a transform to a homogeneous tuple: the matrix must have
    /// four columns, and its first four rows are read back as the result.
    pub fn mul_tuple(&self, other: &Tuple) -> (r: Result<Tuple, MatrixError>)
        requires
            self.wf(),
            self.entries_within(MUL_LIMIT as int),
            other.comps_within(MUL_LIMIT as int),
        ensures
            match r {
                Ok(t) => {
                    &&& self.height == 4
                    &&& self.width >= 4
                    &&& t.x as int == mul_entry(self.grid(), tuple_grid(*other), 0, 0, 4)
                    &&& t.y as int == mul_entry(self.grid(), tuple_grid(*other), 1, 0, 4)
                    &&& t.z as int == mul_entry(self.grid(), tuple_grid(*other), 2, 0, 4)
                    &&& t.w as int == mul_entry(self.grid(), tuple_grid(*other), 3, 0, 4)
                },
                Err(e) => if self.height != 4 {
                    e == MatrixError::DimensionMismatch
                } else {
                    e == MatrixError::IndexOutOfRange && self.width < 4
                },
            },
    {
        if self.height != 4 {
            return Err(MatrixError::DimensionMismatch);
        }
        if self.width < 4 {
            return Err(MatrixError::IndexOutOfRange);
        }
        let mut td: Vec<i128> = Vec::new();
        td.push(other.x);
        td.push(other.y);
        td.push(other.z);
        td.push(other.w);
        let tm = Matrix { width: 4, height: 1, data: td };
        proof {
            assert(tm.data@.len() == 4);
            assert(tm.width * tm.height == 4) by (nonlinear_arith)
                requires
                    tm.width == 4usize,
                    tm.height == 1usize,
            ;
            assert(tm.wf());
            assert(tm.entries_within(MUL_LIMIT as int));
            assert(tm.grid().len() == tuple_grid(*other).len());
            assert forall|r2: int| 0 <= r2 < 4 implies tm.grid()[r2] =~= tuple_grid(*other)[r2] by {
                assert(0 + r2 * 1 == r2) by (nonlinear_arith);
                assert(tm.ent(r2, 0) == tm.data@[r2] as int);
            }
            assert(tm.grid() =~= tuple_grid(*other));
        }
        match self.mul(&tm) {
            Ok(p) => {
                proof {
                    assert(p.ent(0, 0) == p.data@[0] as int);
                    assert(p.ent(1, 0) == p.data@[1] as int);
                    assert(p.ent(2, 0) == p.data@[2] as int);
                    assert(p.ent(3, 0) == p.data@[3] as int);
                }
                Ok(
                    Tuple {
                        x: p.data[0],
                        y: p.data[1],
                        z: p.data[2],
                        w: p.data[3],
                    },
                )
            },
            Err(_) => {
                proof {
                    assert(false);
                }
                Err(MatrixError::DimensionMismatch)
            },
        }
    }
}

impl PartialEq for Matrix {
    /// Approximate equality: equal dimensions and every pair of entries
    /// within the absolute tolerance.
    fn eq(&self, other: &Matrix) -> (r: bool) {
        if self.width != other.width || self.height != other.height || self.data.len()
            != other.data.len() {
            return false;
        }
        let n: usize = self.data.len();
        let mut i: usize = 0;
        while i < n
            invariant
                i <= n,
                n == self.data@.len(),
                n == other.data@.len(),
                forall|j: int|
                    0 <= j < i ==> abs(#[trigger] self.data@[j] as int - other.data@[j] as int)
                        <= TOLERANCE,
            decreases n - i,
        {
            if !within_tolerance(self.data[i], other.data[i]) {
                return false;
            }
            i = i + 1;
        }
        true
    }
}

impl vstd::std_specs::cmp::PartialEqSpecImpl for Matrix {
    open spec fn obeys_eq_spec() -> bool {
        true
    }

    open spec fn eq_spec(&self, other: &Matrix) -> bool {
        self.approx_eq(*other)
    }
}

} // verus!
