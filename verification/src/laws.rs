//! The library's general laws, stated once for all inputs and proved
//! against the same specification functions that the executable
//! operations' contracts use.

use crate::fixed::{
    lemma_round_away_error, lemma_round_away_exact, round_away, SCALE, TOLERANCE,
};
use crate::kernel::{det_expand, det_grid, pow_scale, seq_drop, sign_of, sub_grid};
use crate::matrix::{
    dot_prefix, grid_wf, grid_within, identity_grid, lemma_flat_index, lemma_flat_split,
    mul_entry, mul_grid, transpose_data, Matrix,
};
use vstd::prelude::*;

verus! {

/// Transposing twice gives the original matrix back, for every square
/// matrix: `transpose(transpose(A)) == A`.
pub proof fn lemma_transpose_involutive(d: Seq<i128>, n: int)
    requires
        0 <= n,
        d.len() == n * n,
    ensures
        transpose_data(transpose_data(d, n, n), n, n) == d,
{
    let t1 = transpose_data(d, n, n);
    let t2 = transpose_data(t1, n, n);
    assert forall|i: int| 0 <= i < n * n implies t2[i] == d[i] by {
        lemma_flat_split(i, n, n);
        let q = i / n;
        let r = i % n;
        lemma_flat_index(r, q, n, n);
        assert(t2[i] == t1[q + r * n]);
        assert(t1[q + r * n] == d[(q + r * n) / n + ((q + r * n) % n) * n]);
        assert(t1[q + r * n] == d[r + q * n]);
    }
    assert(t2 =~= d);
}

/// The partial dot product of a row of the identity grid with a column of
/// `g`: zero until the diagonal term enters, then exactly `SCALE * g[i][j]`.
proof fn lemma_dot_identity_left(g: Seq<Seq<int>>, n: nat, i: int, j: int, k: nat)
    requires
        0 <= i < n,
        k <= n,
    ensures
        dot_prefix(identity_grid(n), g, i, j, k) == if i < k {
            (SCALE as int) * g[i][j]
        } else {
            0
        },
    decreases k,
{
    if k > 0 {
        lemma_dot_identity_left(g, n, i, j, (k - 1) as nat);
        assert(identity_grid(n)[i][k - 1] == if i == k - 1 {
            SCALE as int
        } else {
            0
        });
        if i == k - 1 {
            assert((SCALE as int) * g[k - 1][j] == (SCALE as int) * g[i][j]);
        } else {
            assert(0 * g[k - 1][j] == 0) by (nonlinear_arith);
        }
    }
}

/// The partial dot product of a row of `g` with a column of the identity
/// grid: zero until the diagonal term enters, then `g[i][j] * SCALE`.
proof fn lemma_dot_identity_right(g: Seq<Seq<int>>, n: nat, i: int, j: int, k: nat)
    requires
        0 <= j < n,
        k <= n,
    ensures
        dot_prefix(g, identity_grid(n), i, j, k) == if j < k {
            g[i][j] * (SCALE as int)
        } else {
            0
        },
    decreases k,
{
    if k > 0 {
        lemma_dot_identity_right(g, n, i, j, (k - 1) as nat);
        assert(identity_grid(n)[k - 1][j] == if k - 1 == j {
            SCALE as int
        } else {
            0
        });
        if k - 1 == j {
        } else {
            assert(g[i][k - 1] * 0 == 0) by (nonlinear_arith);
        }
    }
}

/// Multiplying by the identity on the left returns every entry unchanged:
/// `identityOf(n) * A == A`.
pub proof fn lemma_identity_mul_left(g: Seq<Seq<int>>, n: nat, cols: nat, i: int, j: int)
    requires
        grid_wf(g, n, cols),
        0 <= i < n,
        0 <= j < cols,
    ensures
        mul_entry(identity_grid(n), g, i, j, n) == g[i][j],
{
    lemma_dot_identity_left(g, n, i, j, n);
    assert((SCALE as int) * g[i][j] == g[i][j] * (SCALE as int)) by (nonlinear_arith);
    lemma_round_away_exact(g[i][j], SCALE as int);
}

/// Multiplying by the identity on the right returns every entry unchanged:
/// `A * identityOf(n) == A`.
pub proof fn lemma_identity_mul_right(g: Seq<Seq<int>>, rows: nat, n: nat, i: int, j: int)
    requires
        grid_wf(g, rows, n),
        0 <= i < rows,
        0 <= j < n,
    ensures
        mul_entry(g, identity_grid(n), i, j, n) == g[i][j],
{
    lemma_dot_identity_right(g, n, i, j, n);
    lemma_round_away_exact(g[i][j], SCALE as int);
}

/// A square, well-formed matrix whose entries follow the identity pattern
/// has exactly the identity grid; this ties the `identity` constructors'
/// contracts to the identity laws above.
pub proof fn lemma_identity_pattern_grid(m: Matrix)
    requires
        m.wf(),
        m.width == m.height,
        forall|x: int, y: int|
            0 <= x < m.width && 0 <= y < m.height ==> m.ent(x, y) == if x == y {
                SCALE as int
            } else {
                0
            },
    ensures
        m.grid() == identity_grid(m.width as nat),
{
    let n = m.width as nat;
    assert forall|r: int| 0 <= r < n implies m.grid()[r] =~= identity_grid(n)[r] by {
        assert forall|c: int| 0 <= c < n implies m.grid()[r][c] == identity_grid(n)[r][c] by {
            assert(m.grid()[r][c] == m.ent(r, c));
        }
    }
    assert(m.grid() =~= identity_grid(n));
}

/// The determinant of a 2 x 2 matrix `[[a, b], [c, d]]` is `a*d - b*c`.
pub proof fn lemma_det_two_by_two(g: Seq<Seq<int>>)
    requires
        grid_wf(g, 2, 2),
    ensures
        det_grid(g, 2) == g[0][0] * g[1][1] - g[0][1] * g[1][0],
{
    let s0 = sub_grid(g, 0, 0);
    let s1 = sub_grid(g, 0, 1);
    assert(seq_drop(g, 0)[0] == g[1]);
    assert(s0[0][0] == g[1][1]);
    assert(s1[0][0] == g[1][0]);
    assert(det_grid(s0, 1) == det_expand(s0, 1, 1));
    assert(det_expand(s0, 1, 0) == 0);
    assert(det_expand(s0, 1, 1) == det_expand(s0, 1, 0) + sign_of(0) * s0[0][0] * det_grid(
        sub_grid(s0, 0, 0),
        0,
    ));
    assert(det_grid(sub_grid(s0, 0, 0), 0) == 1);
    assert(1 * g[1][1] * 1 == g[1][1]) by (nonlinear_arith);
    assert(det_grid(s0, 1) == g[1][1]);
    assert(det_grid(s1, 1) == det_expand(s1, 1, 1));
    assert(det_expand(s1, 1, 0) == 0);
    assert(det_expand(s1, 1, 1) == det_expand(s1, 1, 0) + sign_of(0) * s1[0][0] * det_grid(
        sub_grid(s1, 0, 0),
        0,
    ));
    assert(det_grid(sub_grid(s1, 0, 0), 0) == 1);
    assert(1 * g[1][0] * 1 == g[1][0]) by (nonlinear_arith);
    assert(det_grid(s1, 1) == g[1][0]);
    assert(det_grid(g, 2) == det_expand(g, 2, 2));
    assert(det_expand(g, 2, 2) == det_expand(g, 2, 1) + sign_of(1) * g[0][1] * det_grid(s1, 1));
    assert(det_expand(g, 2, 1) == det_expand(g, 2, 0) + sign_of(0) * g[0][0] * det_grid(s0, 1));
    assert(det_expand(g, 2, 0) == 0);
    assert(sign_of(0) == 1 && sign_of(1) == -1);
    assert(1 * g[0][0] * g[1][1] == g[0][0] * g[1][1]) by (nonlinear_arith);
    assert((-1) * g[0][1] * g[1][0] == -(g[0][1] * g[1][0])) by (nonlinear_arith);
}

/// A matrix meeting the product contract of `mul` has exactly the grid of
/// the rounded product; this ties `mul`'s contract to the laws below.
pub proof fn lemma_product_grid(m: Matrix, a: Matrix, b: Matrix)
    requires
        m.wf(),
        m.width == a.width,
        m.height == b.height,
        forall|i: int, j: int|
            0 <= i < m.width && 0 <= j < m.height ==> #[trigger] m.ent(i, j) == mul_entry(
                a.grid(),
                b.grid(),
                i,
                j,
                a.height as nat,
            ),
    ensures
        m.grid() == mul_grid(
            a.grid(),
            b.grid(),
            a.width as nat,
            a.height as nat,
            b.height as nat,
        ),
{
    let p = mul_grid(a.grid(), b.grid(), a.width as nat, a.height as nat, b.height as nat);
    assert forall|r: int| 0 <= r < m.width implies m.grid()[r] =~= p[r] by {
        assert forall|c: int| 0 <= c < m.height implies m.grid()[r][c] == p[r][c] by {
            assert(m.grid()[r][c] == m.ent(r, c));
        }
    }
    assert(m.grid() =~= p);
}

/// The sum over the first `j` columns of the exact (unrounded) product of
/// row `i` of `ga * gb` with column `l` of `gc`, in cubed units: the
/// left-associated triple product before any rounding.
spec fn dsum(
    ga: Seq<Seq<int>>,
    gb: Seq<Seq<int>>,
    gc: Seq<Seq<int>>,
    i: int,
    l: int,
    j: nat,
    n1: nat,
) -> int
    decreases j,
{
    if j == 0 {
        0
    } else {
        dsum(ga, gb, gc, i, l, (j - 1) as nat, n1) + dot_prefix(ga, gb, i, j - 1, n1) * gc[j
            - 1][l]
    }
}

/// The same triple product summed the other way: the first `k` terms of
/// row `i` of `ga` against the exact product `gb * gc`.
spec fn dsum_r(
    ga: Seq<Seq<int>>,
    gb: Seq<Seq<int>>,
    gc: Seq<Seq<int>>,
    i: int,
    l: int,
    k: nat,
    n2: nat,
) -> int
    decreases k,
{
    if k == 0 {
        0
    } else {
        dsum_r(ga, gb, gc, i, l, (k - 1) as nat, n2) + ga[i][k - 1] * dot_prefix(
            gb,
            gc,
            k - 1,
            l,
            n2,
        )
    }
}

/// With an empty shared dimension every term of `dsum` is zero.
proof fn lemma_dsum_zero(
    ga: Seq<Seq<int>>,
    gb: Seq<Seq<int>>,
    gc: Seq<Seq<int>>,
    i: int,
    l: int,
    j: nat,
)
    ensures
        dsum(ga, gb, gc, i, l, j, 0) == 0,
    decreases j,
{
    if j > 0 {
        lemma_dsum_zero(ga, gb, gc, i, l, (j - 1) as nat);
        assert(dot_prefix(ga, gb, i, j - 1, 0) == 0);
        assert(0 * gc[j - 1][l] == 0) by (nonlinear_arith);
    }
}

/// Peeling the last term of the shared dimension out of `dsum`.
proof fn lemma_dsum_peel(
    ga: Seq<Seq<int>>,
    gb: Seq<Seq<int>>,
    gc: Seq<Seq<int>>,
    i: int,
    l: int,
    j: nat,
    n1: nat,
)
    requires
        n1 >= 1,
    ensures
        dsum(ga, gb, gc, i, l, j, n1) == dsum(ga, gb, gc, i, l, j, (n1 - 1) as nat) + ga[i][n1
            - 1] * dot_prefix(gb, gc, n1 - 1, l, j),
    decreases j,
{
    let a = ga[i][n1 - 1];
    if j == 0 {
        assert(dot_prefix(gb, gc, n1 - 1, l, 0) == 0);
        assert(a * 0 == 0) by (nonlinear_arith);
    } else {
        lemma_dsum_peel(ga, gb, gc, i, l, (j - 1) as nat, n1);
        let b = gb[n1 - 1][j - 1];
        let c = gc[j - 1][l];
        let dp_old = dot_prefix(ga, gb, i, j - 1, (n1 - 1) as nat);
        assert(dot_prefix(ga, gb, i, j - 1, n1) == dp_old + a * b);
        assert((dp_old + a * b) * c == dp_old * c + a * (b * c)) by (nonlinear_arith);
        let f_old = dot_prefix(gb, gc, n1 - 1, l, (j - 1) as nat);
        assert(dot_prefix(gb, gc, n1 - 1, l, j) == f_old + b * c);
        assert(a * (f_old + b * c) == a * f_old + a * (b * c)) by (nonlinear_arith);
    }
}

/// The exact triple product does not depend on the association: summing
/// `(ga * gb) * gc` equals summing `ga * (gb * gc)`.
proof fn lemma_dsum_exchange(
    ga: Seq<Seq<int>>,
    gb: Seq<Seq<int>>,
    gc: Seq<Seq<int>>,
    i: int,
    l: int,
    n1: nat,
    n2: nat,
)
    ensures
        dsum(ga, gb, gc, i, l, n2, n1) == dsum_r(ga, gb, gc, i, l, n1, n2),
    decreases n1,
{
    if n1 == 0 {
        lemma_dsum_zero(ga, gb, gc, i, l, n2);
    } else {
        lemma_dsum_exchange(ga, gb, gc, i, l, (n1 - 1) as nat, n2);
        lemma_dsum_peel(ga, gb, gc, i, l, n2, n1);
    }
}

/// The rounded left product differs from the exact triple product by at
/// most half a grid step per column: the scaled dot product of the rounded
/// `ga * gb` with `gc` stays within `j * SCALE * lc / 2` of `dsum`.
proof fn lemma_left_rounding_error(
    ga: Seq<Seq<int>>,
    gb: Seq<Seq<int>>,
    gc: Seq<Seq<int>>,
    ra: nat,
    n1: nat,
    n2: nat,
    cc: nat,
    lc: int,
    i: int,
    l: int,
    j: nat,
)
    requires
        grid_wf(gc, n2, cc),
        grid_within(gc, lc),
        0 <= lc,
        0 <= i < ra,
        0 <= l < cc,
        j <= n2,
    ensures
        -(j as int) * ((SCALE as int) * lc) <= 2 * ((SCALE as int) * dot_prefix(
            mul_grid(ga, gb, ra, n1, n2),
            gc,
            i,
            l,
            j,
        ) - dsum(ga, gb, gc, i, l, j, n1)) <= (j as int) * ((SCALE as int) * lc),
    decreases j,
{
    let ab = mul_grid(ga, gb, ra, n1, n2);
    let s = SCALE as int;
    let q = s * lc;
    if j == 0 {
        assert(0 * q == 0) by (nonlinear_arith);
    } else {
        lemma_left_rounding_error(ga, gb, gc, ra, n1, n2, cc, lc, i, l, (j - 1) as nat);
        let e = dot_prefix(ga, gb, i, j - 1, n1);
        let rounded = ab[i][j - 1];
        assert(rounded == round_away(e, s));
        lemma_round_away_error(e, s);
        let d2 = 2 * (rounded * s - e);
        assert(-s <= d2 <= s);
        let c = gc[j - 1][l];
        assert(-lc <= c <= lc);
        assert(s * dot_prefix(ab, gc, i, l, j) == s * dot_prefix(ab, gc, i, l, (j - 1) as nat)
            + (rounded * s) * c) by (nonlinear_arith)
            requires
                dot_prefix(ab, gc, i, l, j) == dot_prefix(ab, gc, i, l, (j - 1) as nat)
                    + ab[i][j - 1] * c,
                rounded == ab[i][j - 1],
        ;
        assert(2 * ((rounded * s) * c - e * c) == d2 * c) by (nonlinear_arith)
            requires
                d2 == 2 * (rounded * s - e),
        ;
        assert(-q <= d2 * c <= q) by (nonlinear_arith)
            requires
                -s <= d2 <= s,
                -lc <= c <= lc,
                q == s * lc,
                0 <= lc,
                0 < s,
        ;
        assert((j as int) * q == ((j - 1) as int) * q + q) by (nonlinear_arith);
        assert(-((j as int)) * q == -(((j - 1) as int)) * q - q) by (nonlinear_arith);
        assert(2 * (e * c) == 2 * (dsum(ga, gb, gc, i, l, j, n1) - dsum(
            ga,
            gb,
            gc,
            i,
            l,
            (j - 1) as nat,
            n1,
        ))) by (nonlinear_arith)
            requires
                dsum(ga, gb, gc, i, l, j, n1) == dsum(ga, gb, gc, i, l, (j - 1) as nat, n1) + e
                    * c,
        ;
    }
}

/// The rounded right product differs from the exact triple product by at
/// most half a grid step per row of `ga`.
proof fn lemma_right_rounding_error(
    ga: Seq<Seq<int>>,
    gb: Seq<Seq<int>>,
    gc: Seq<Seq<int>>,
    ra: nat,
    n1: nat,
    n2: nat,
    cc: nat,
    la: int,
    i: int,
    l: int,
    k: nat,
)
    requires
        grid_wf(ga, ra, n1),
        grid_within(ga, la),
        0 <= la,
        0 <= i < ra,
        0 <= l < cc,
        k <= n1,
    ensures
        -(k as int) * ((SCALE as int) * la) <= 2 * ((SCALE as int) * dot_prefix(
            ga,
            mul_grid(gb, gc, n1, n2, cc),
            i,
            l,
            k,
        ) - dsum_r(ga, gb, gc, i, l, k, n2)) <= (k as int) * ((SCALE as int) * la),
    decreases k,
{
    let bc = mul_grid(gb, gc, n1, n2, cc);
    let s = SCALE as int;
    let q = s * la;
    if k == 0 {
        assert(0 * q == 0) by (nonlinear_arith);
    } else {
        lemma_right_rounding_error(ga, gb, gc, ra, n1, n2, cc, la, i, l, (k - 1) as nat);
        let f = dot_prefix(gb, gc, k - 1, l, n2);
        let rounded = bc[k - 1][l];
        assert(rounded == round_away(f, s));
        lemma_round_away_error(f, s);
        let d2 = 2 * (rounded * s - f);
        assert(-s <= d2 <= s);
        let a = ga[i][k - 1];
        assert(-la <= a <= la);
        assert(s * dot_prefix(ga, bc, i, l, k) == s * dot_prefix(ga, bc, i, l, (k - 1) as nat)
            + a * (rounded * s)) by (nonlinear_arith)
            requires
                dot_prefix(ga, bc, i, l, k) == dot_prefix(ga, bc, i, l, (k - 1) as nat) + a
                    * bc[k - 1][l],
                rounded == bc[k - 1][l],
        ;
        assert(2 * (a * (rounded * s) - a * f) == a * d2) by (nonlinear_arith)
            requires
                d2 == 2 * (rounded * s - f),
        ;
        assert(-q <= a * d2 <= q) by (nonlinear_arith)
            requires
                -s <= d2 <= s,
                -la <= a <= la,
                q == s * la,
                0 <= la,
                0 < s,
        ;
        assert((k as int) * q == ((k - 1) as int) * q + q) by (nonlinear_arith);
        assert(-((k as int)) * q == -(((k - 1) as int)) * q - q) by (nonlinear_arith);
        assert(2 * (a * f) == 2 * (dsum_r(ga, gb, gc, i, l, k, n2) - dsum_r(
            ga,
            gb,
            gc,
            i,
            l,
            (k - 1) as nat,
            n2,
        ))) by (nonlinear_arith)
            requires
                dsum_r(ga, gb, gc, i, l, k, n2) == dsum_r(ga, gb, gc, i, l, (k - 1) as nat, n2)
                    + a * f,
        ;
    }
}

/// Matrix multiplication is associative within the equality tolerance:
/// every entry of `(A*B)*C` is within 0.001 of the same entry of
/// `A*(B*C)`, provided the entries of `A` and `C`, spread over the two
/// shared dimensions, stay below the stated budget (each rounded multiply
/// can move an entry by half a grid step per summed term).
pub proof fn lemma_mul_associative(
    ga: Seq<Seq<int>>,
    gb: Seq<Seq<int>>,
    gc: Seq<Seq<int>>,
    ra: nat,
    n1: nat,
    n2: nat,
    cc: nat,
    la: int,
    lc: int,
    i: int,
    l: int,
)
    requires
        grid_wf(ga, ra, n1),
        grid_wf(gb, n1, n2),
        grid_wf(gc, n2, cc),
        grid_within(ga, la),
        grid_within(gc, lc),
        0 <= la,
        0 <= lc,
        (n1 as int) * la + (n2 as int) * lc <= 19_800_000,
        0 <= i < ra,
        0 <= l < cc,
    ensures
        -TOLERANCE <= mul_entry(mul_grid(ga, gb, ra, n1, n2), gc, i, l, n2) - mul_entry(
            ga,
            mul_grid(gb, gc, n1, n2, cc),
            i,
            l,
            n1,
        ) <= TOLERANCE,
{
    let s = SCALE as int;
    let t = dsum(ga, gb, gc, i, l, n2, n1);
    lemma_dsum_exchange(ga, gb, gc, i, l, n1, n2);
    let left_dot = dot_prefix(mul_grid(ga, gb, ra, n1, n2), gc, i, l, n2);
    let right_dot = dot_prefix(ga, mul_grid(gb, gc, n1, n2, cc), i, l, n1);
    let lhs = mul_entry(mul_grid(ga, gb, ra, n1, n2), gc, i, l, n2);
    let rhs = mul_entry(ga, mul_grid(gb, gc, n1, n2, cc), i, l, n1);
    lemma_left_rounding_error(ga, gb, gc, ra, n1, n2, cc, lc, i, l, n2);
    lemma_right_rounding_error(ga, gb, gc, ra, n1, n2, cc, la, i, l, n1);
    lemma_round_away_error(left_dot, s);
    lemma_round_away_error(right_dot, s);
    // Scale the final rounding errors by SCALE to land on the cubed grid.
    assert(-(s * s) <= 2 * (lhs * s - left_dot) * s <= s * s) by (nonlinear_arith)
        requires
            -s <= 2 * (lhs * s - left_dot) <= s,
            0 < s,
    ;
    assert(2 * (lhs * s - left_dot) * s == 2 * (lhs * (s * s)) - 2 * (left_dot * s))
        by (nonlinear_arith);
    assert(-(s * s) <= 2 * (rhs * s - right_dot) * s <= s * s) by (nonlinear_arith)
        requires
            -s <= 2 * (rhs * s - right_dot) <= s,
            0 < s,
    ;
    assert(2 * (rhs * s - right_dot) * s == 2 * (rhs * (s * s)) - 2 * (right_dot * s))
        by (nonlinear_arith);
    // Combine: both rounded results are within the budget of the exact
    // triple product `t`.
    let ebudget = (n2 as int) * (s * lc) + s * s;
    let ebudget_r = (n1 as int) * (s * la) + s * s;
    assert(s * left_dot == left_dot * s) by (nonlinear_arith);
    assert(s * right_dot == right_dot * s) by (nonlinear_arith);
    assert(-((n2 as int)) * (s * lc) == -((n2 as int) * (s * lc))) by (nonlinear_arith);
    assert(-((n1 as int)) * (s * la) == -((n1 as int) * (s * la))) by (nonlinear_arith);
    assert(-ebudget <= 2 * (lhs * (s * s)) - 2 * t <= ebudget);
    assert(-ebudget_r <= 2 * (rhs * (s * s)) - 2 * t <= ebudget_r);
    // The combined budget stays under the tolerance once both shared
    // dimensions are folded in.
    assert(ebudget + ebudget_r <= 2 * TOLERANCE * (s * s)) by (nonlinear_arith)
        requires
            ebudget == (n2 as int) * (s * lc) + s * s,
            ebudget_r == (n1 as int) * (s * la) + s * s,
            (n1 as int) * la + (n2 as int) * lc <= 19_800_000,
            0 <= la,
            0 <= lc,
            0 <= n1 as int,
            0 <= n2 as int,
            s == 100_000,
            TOLERANCE == 100,
    ;
    assert(-TOLERANCE <= lhs - rhs <= TOLERANCE) by (nonlinear_arith)
        requires
            -(2 * TOLERANCE * (s * s)) <= 2 * (lhs * (s * s)) - 2 * (rhs * (s * s)) <= 2
                * TOLERANCE * (s * s),
            0 < s,
            0 < TOLERANCE,
    ;
}

/// The round trip `submatrix` then `determinant` equals `minor`: any
/// matrix meeting `submatrix`'s contract at `(row, col)` has the source's
/// minor there as its determinant.
pub proof fn lemma_minor_round_trip(m: Matrix, sub: Matrix, row: int, col: int)
    requires
        m.wf(),
        m.width == m.height,
        1 <= m.width <= 4,
        0 <= row < m.width,
        0 <= col < m.height,
        sub.wf(),
        sub.width + 1 == m.width,
        sub.height + 1 == m.height,
        sub.grid() == sub_grid(m.grid(), row, col),
    ensures
        sub.det_value() == m.minor_value(row, col),
{
    assert(sub.det_units() == det_grid(sub_grid(m.grid(), row, col), (m.width - 1) as nat));
    assert((4 - sub.width) as nat == (5 - m.width) as nat);
}


} // verus!
