use vstd::prelude::*;

use crate::params::{CrsParams, spec_num_sym_entries};
use crate::size::spec_div_ceil;

verus! {

/// `n` copies of `zero`.
fn fill<T: Copy>(n: usize, zero: T) -> (r: Vec<T>)
    ensures
        r@ == Seq::new(n as nat, |p: int| zero),
{
    let mut v: Vec<T> = Vec::with_capacity(n);
    let mut p: usize = 0;
    while p < n
        invariant
            p <= n,
            v@ == Seq::new(p as nat, |i: int| zero),
        decreases n - p,
    {
        v.push(zero);
        p = p + 1;
        assert(v@ =~= Seq::new(p as nat, |i: int| zero));
    }
    v
}

/// The coefficients on the decomposed `t` of the constraint for row `l` of
/// `A z = sum_i c_i t_i`: the part `k` of `t_i` sits at `k r K + i K + l` (for `K`
/// rows), and gets `scaled[k r + i]` (which is `-c_i b1^k`); all else is zero.
pub fn fold_t_coefficients<T: Copy>(
    scaled: &Vec<T>,
    zero: T,
    r: usize,
    kk: usize,
    t1: usize,
    l: usize,
    size_t: usize,
) -> (c: Vec<T>)
    requires
        l < kk,
        scaled@.len() == t1 * r,
        t1 * r * kk <= size_t,
    ensures
        c@.len() == size_t,
        forall|p: int|
            0 <= p < size_t ==> #[trigger] c@[p] == if p < t1 * r * kk && p % (kk as int) == l {
                scaled@[p / (kk as int)]
            } else {
                zero
            },
{
    proof {
        assert(t1 * r <= t1 * r * kk) by (nonlinear_arith)
            requires
                kk >= 1,
        ;
    }
    let bound = t1 * r * kk;
    let mut c: Vec<T> = Vec::with_capacity(size_t);
    let mut p: usize = 0;
    while p < size_t
        invariant
            l < kk,
            bound == t1 * r * kk,
            bound <= size_t,
            scaled@.len() == t1 * r,
            p <= size_t,
            c@.len() == p,
            forall|q: int|
                0 <= q < p ==> #[trigger] c@[q] == if q < t1 * r * kk && q % (kk as int) == l {
                    scaled@[q / (kk as int)]
                } else {
                    zero
                },
        decreases size_t - p,
    {
        if p < bound && p % kk == l {
            proof {
                assert(p / kk < t1 * r) by (nonlinear_arith)
                    requires
                        p < t1 * r * kk,
                        kk > 0,
                ;
            }
            c.push(scaled[p / kk]);
        } else {
            c.push(zero);
        }
        p = p + 1;
    }
    c
}

/// The position `(k r + i) K + l` of part `k` of entry `l` of `t_i` holds `scaled[k r + i]`.
pub proof fn lemma_fold_t_position(r: int, kk: int, t1: int, k: int, i: int, l: int)
    requires
        0 <= k < t1,
        0 <= i < r,
        0 <= l < kk,
    ensures
        k * r * kk + i * kk + l < t1 * r * kk,
        (k * r * kk + i * kk + l) % kk == l,
        (k * r * kk + i * kk + l) / kk == k * r + i,
{
    assert(k * r * kk + i * kk + l == (k * r + i) * kk + l) by (nonlinear_arith);
    assert((k * r + i) * kk + l < t1 * r * kk) by (nonlinear_arith)
        requires
            0 <= k < t1,
            0 <= i < r,
            0 <= l < kk,
    ;
    vstd::arithmetic::div_mod::lemma_fundamental_div_mod_converse(
        (k * r + i) * kk + l,
        kk,
        k * r + i,
        l,
    );
}

/// Which of the four values entry `(i, j)` of the matrix of the constraint
/// `<z, z> = sum g_ij c_i c_j` takes, for `z = z_0 + b z_1` spread over the witness
/// vectors `0 .. nu` (`z_0`) and `nu .. 2 nu` (`z_1`): `1` for `-1` on `(i, i)`,
/// `2` for `-b` on `(i, i + nu)` and `(i + nu, i)`, `3` for `-b^2` on
/// `(i + nu, i + nu)`, `0` for zero, with `i < nu`.
pub open spec fn zz_kind(nu: int, i: int, j: int) -> int {
    if i == j && 0 <= i < nu {
        1
    } else if (0 <= i < nu && j == i + nu) || (0 <= j < nu && i == j + nu) {
        2
    } else if i == j && nu <= i < 2 * nu {
        3
    } else {
        0
    }
}

/// The `r_next x r_next` matrix of the constraint on `<z, z>`, from the ring
/// elements `-1`, `-b`, `-b^2` and zero.
pub fn zz_constraint_matrix<T: Copy>(r_next: usize, nu: usize, zero: T, neg_one: T, neg_b: T, neg_b_sq: T) -> (m: Vec<
    Vec<T>,
>)
    requires
        2 * nu <= r_next,
    ensures
        m@.len() == r_next,
        forall|i: int| 0 <= i < r_next ==> (#[trigger] m@[i])@.len() == r_next,
        forall|i: int, j: int|
            0 <= i < r_next && 0 <= j < r_next ==> #[trigger] m@[i]@[j] == if zz_kind(nu as int, i, j) == 1 {
                neg_one
            } else if zz_kind(nu as int, i, j) == 2 {
                neg_b
            } else if zz_kind(nu as int, i, j) == 3 {
                neg_b_sq
            } else {
                zero
            },
{
    let mut m: Vec<Vec<T>> = Vec::with_capacity(r_next);
    let mut i: usize = 0;
    while i < r_next
        invariant
            2 * nu <= r_next,
            i <= r_next,
            m@.len() == i,
            forall|ii: int| 0 <= ii < i ==> (#[trigger] m@[ii])@.len() == r_next,
            forall|ii: int, j: int|
                0 <= ii < i && 0 <= j < r_next ==> #[trigger] m@[ii]@[j] == if zz_kind(nu as int, ii, j) == 1 {
                    neg_one
                } else if zz_kind(nu as int, ii, j) == 2 {
                    neg_b
                } else if zz_kind(nu as int, ii, j) == 3 {
                    neg_b_sq
                } else {
                    zero
                },
        decreases r_next - i,
    {
        let mut row: Vec<T> = Vec::with_capacity(r_next);
        let mut j: usize = 0;
        while j < r_next
            invariant
                2 * nu <= r_next,
                i < r_next,
                j <= r_next,
                row@.len() == j,
                forall|jj: int|
                    0 <= jj < j ==> #[trigger] row@[jj] == if zz_kind(nu as int, i as int, jj) == 1 {
                        neg_one
                    } else if zz_kind(nu as int, i as int, jj) == 2 {
                        neg_b
                    } else if zz_kind(nu as int, i as int, jj) == 3 {
                        neg_b_sq
                    } else {
                        zero
                    },
            decreases r_next - j,
        {
            let v = if i == j && i < nu {
                neg_one
            } else if (i < nu && j == i + nu) || (j < nu && i == j + nu) {
                neg_b
            } else if i == j && nu <= i && i < 2 * nu {
                neg_b_sq
            } else {
                zero
            };
            row.push(v);
            j = j + 1;
        }
        m.push(row);
        i = i + 1;
    }
    m
}

/// The matrix of the constraint on `<z, z>` is symmetric.
pub proof fn lemma_zz_kind_symmetric(nu: int, i: int, j: int)
    ensures
        zz_kind(nu, i, j) == zz_kind(nu, j, i),
{
}

/// Position of the diagonal entry `(i, i)` in the row-major flattening of the upper
/// triangle of a symmetric `r x r` matrix: `sum_{i' < i} (r - i')`.
pub open spec fn diag_pos(r: int, i: int) -> int
    decreases i,
{
    if i <= 0 {
        0
    } else {
        diag_pos(r, i - 1) + r - (i - 1)
    }
}

/// Number of entries of the upper triangle of an `r x r` matrix.
pub open spec fn tri(r: int) -> int {
    r * (r + 1) / 2
}

proof fn lemma_diag_pos_closed(r: int, i: int)
    requires
        0 <= i,
    ensures
        2 * diag_pos(r, i) == 2 * i * r - i * (i - 1),
    decreases i,
{
    if i > 0 {
        lemma_diag_pos_closed(r, i - 1);
        let a = diag_pos(r, i - 1);
        assert(diag_pos(r, i) == a + r - (i - 1));
        assert(2 * (a + r - (i - 1)) == 2 * i * r - i * (i - 1)) by (nonlinear_arith)
            requires
                2 * a == 2 * (i - 1) * r - (i - 1) * (i - 2),
        ;
    } else {
        assert(2 * i * r - i * (i - 1) == 0) by (nonlinear_arith)
            requires
                i == 0,
        ;
    }
}

/// Diagonal positions increase strictly and stay below the number of entries of the
/// triangle, so different diagonal entries of different parts never collide.
pub proof fn lemma_diag_pos_bounds(r: int, i: int, j: int)
    requires
        0 <= i < j <= r,
    ensures
        diag_pos(r, i) < diag_pos(r, j),
        diag_pos(r, r) == tri(r),
        0 <= diag_pos(r, i),
    decreases j - i,
{
    if j == i + 1 {
        assert(diag_pos(r, j) == diag_pos(r, i) + r - i);
    } else {
        lemma_diag_pos_bounds(r, i, j - 1);
        assert(diag_pos(r, j) == diag_pos(r, j - 1) + r - (j - 1));
    }
    lemma_diag_pos_closed(r, r);
    assert(2 * r * r - r * (r - 1) == r * (r + 1)) by (nonlinear_arith);
    assert(r * (r + 1) / 2 * 2 == r * (r + 1)) by {
        lemma_product_of_consecutive_even(r);
    }
    lemma_diag_pos_nonneg(r, i);
}

proof fn lemma_diag_pos_nonneg(r: int, i: int)
    requires
        0 <= i <= r,
    ensures
        0 <= diag_pos(r, i),
    decreases i,
{
    if i > 0 {
        lemma_diag_pos_nonneg(r, i - 1);
    }
}

/// `r (r + 1)` is even.
pub proof fn lemma_product_of_consecutive_even(r: int)
    ensures
        (r * (r + 1)) % 2 == 0,
        r * (r + 1) / 2 * 2 == r * (r + 1),
{
    let q = r / 2;
    assert(r == 2 * q || r == 2 * q + 1);
    if r == 2 * q {
        assert(r * (r + 1) == 2 * (q * (r + 1))) by (nonlinear_arith)
            requires
                r == 2 * q,
        ;
        vstd::arithmetic::div_mod::lemma_fundamental_div_mod_converse(r * (r + 1), 2, q * (r + 1), 0);
    } else {
        assert(r * (r + 1) == 2 * (r * (q + 1))) by (nonlinear_arith)
            requires
                r == 2 * q + 1,
        ;
        vstd::arithmetic::div_mod::lemma_fundamental_div_mod_converse(r * (r + 1), 2, r * (q + 1), 0);
    }
}

/// The indicator of the diagonal entries `h_ii` in the `t1` parts of the decomposed
/// `h`: part `k` of `h_ii` sits at `k * tri(r) + diag_pos(r, i)` and gets
/// `b1_pows[k]` (`b1^k`); all other entries are zero.
pub fn h_diagonal_indicator<T: Copy>(b1_pows: &Vec<T>, zero: T, r: usize, t1: usize, size_h: usize) -> (v: Vec<T>)
    requires
        b1_pows@.len() >= t1,
        r * (r + 1) <= usize::MAX,
        t1 * tri(r as int) <= size_h,
    ensures
        v@.len() == size_h,
        forall|k: int, i: int|
            0 <= k < t1 && 0 <= i < r ==> #[trigger] v@[k * tri(r as int) + diag_pos(r as int, i)]
                == b1_pows@[k],
        forall|p: int|
            0 <= p < size_h && (forall|k: int, i: int|
                0 <= k < t1 && 0 <= i < r ==> p != #[trigger] (k * tri(r as int) + diag_pos(r as int, i)))
                ==> #[trigger] v@[p] == zero,
{
    proof {
        assert(r + 1 <= usize::MAX) by (nonlinear_arith)
            requires
                r * (r + 1) <= usize::MAX,
                r >= 0,
        ;
    }
    let h_num = (r * (r + 1)) / 2;
    let ghost h = tri(r as int);
    let mut indic = fill(size_h, zero);
    let mut k: usize = 0;
    proof {
        if r > 0 {
            lemma_diag_pos_bounds(r as int, 0, r as int);
        } else {
            assert(h == 0);
        }
    }
    while k < t1
        invariant
            h_num == h,
            h == tri(r as int),
            h >= 0,
            t1 * h <= size_h,
            b1_pows@.len() >= t1,
            k <= t1,
            indic@.len() == size_h,
            forall|kk: int, i: int|
                0 <= kk < k && 0 <= i < r ==> #[trigger] indic@[kk * h + diag_pos(r as int, i)] == b1_pows@[kk],
            forall|p: int|
                0 <= p < size_h && (forall|kk: int, i: int|
                    0 <= kk < k && 0 <= i < r ==> p != #[trigger] (kk * h + diag_pos(r as int, i)))
                    ==> #[trigger] indic@[p] == zero,
        decreases t1 - k,
    {
        let ghost before = indic@;
        let mut idx: usize = 0;
        let mut i: usize = 0;
        proof {
            assert((k + 1) * h <= t1 * h) by (nonlinear_arith)
                requires
                    k < t1,
                    h >= 0,
            ;
            assert((k + 1) * h == k * h + h) by (nonlinear_arith);
        }
        while i < r
            invariant
                h_num == h,
                h == tri(r as int),
                (k + 1) * h <= size_h,
                (k + 1) * h == k * h + h,
                k < t1,
                b1_pows@.len() >= t1,
                i <= r,
                idx == diag_pos(r as int, i as int),
                indic@.len() == size_h,
                forall|ii: int| 0 <= ii < i ==> #[trigger] indic@[k * h + diag_pos(r as int, ii)] == b1_pows@[k as int],
                forall|p: int|
                    0 <= p < size_h && (forall|ii: int|
                        0 <= ii < i ==> p != #[trigger] (k * h + diag_pos(r as int, ii))) ==> #[trigger] indic@[p]
                        == before[p],
            decreases r - i,
        {
            proof {
                lemma_diag_pos_bounds(r as int, i as int, r as int);
                assert(k * h + idx < (k + 1) * h);
                lemma_diag_pos_bounds(r as int, i as int, i as int + 1);
                if i + 1 < r {
                    lemma_diag_pos_bounds(r as int, i as int + 1, r as int);
                }
                assert(diag_pos(r as int, i as int + 1) == idx + r - i);
                assert(idx + r - i <= h);
                assert(h <= r * (r + 1));
            }
            indic.set(k * h_num + idx, b1_pows[k]);
            proof {
                assert forall|ii: int| 0 <= ii < i implies #[trigger] indic@[k * h + diag_pos(r as int, ii)]
                    == b1_pows@[k as int] by {
                    lemma_diag_pos_bounds(r as int, ii, i as int);
                }
            }
            idx = idx + (r - i);
            i = i + 1;
        }
        proof {
            assert forall|kk: int, ii: int| 0 <= kk < k + 1 && 0 <= ii < r implies #[trigger] indic@[kk * h
                + diag_pos(r as int, ii)] == b1_pows@[kk] by {
                if kk < k {
                    lemma_diag_pos_bounds(r as int, ii, r as int);
                    assert(kk * h + h <= k * h) by (nonlinear_arith)
                        requires
                            kk < k,
                            h >= 0,
                    ;
                    assert forall|i2: int| 0 <= i2 < r implies (kk * h + diag_pos(r as int, ii)) != #[trigger] (k
                        * h + diag_pos(r as int, i2)) by {
                        lemma_diag_pos_bounds(r as int, 0, r as int);
                        if i2 > 0 {
                            lemma_diag_pos_bounds(r as int, 0, i2);
                        }
                    }
                }
            }
            assert forall|p: int|
                0 <= p < size_h && (forall|kk: int, ii: int|
                    0 <= kk < k + 1 && 0 <= ii < r ==> p != #[trigger] (kk * h + diag_pos(r as int, ii)))
                    implies #[trigger] indic@[p] == zero by {
                assert forall|ii: int| 0 <= ii < r implies p != #[trigger] (k * h + diag_pos(r as int, ii)) by {
                    assert(p != k * h + diag_pos(r as int, ii));
                }
            }
        }
        k = k + 1;
    }
    indic
}

/// The number of rows and columns of a matrix.
#[derive(Clone, Copy, Debug, PartialEq, Eq, Structural)]
pub struct MatrixShape {
    pub rows: usize,
    pub cols: usize,
}

/// Shapes of the commitment matrices of the reference string.
#[derive(Clone, Copy, Debug, PartialEq, Eq, Structural)]
pub struct CommitmentShapes {
    pub a: MatrixShape,
    pub b: MatrixShape,
    pub c: MatrixShape,
    pub d: MatrixShape,
}

impl CrsParams {
    /// Shapes of the commitment matrices: `A` is `k x n`, `B` is `k1 x t1 r k`,
    /// `C` is `k2 x t2 r(r+1)/2` and `D` is `k1 x t1 r(r+1)/2`.
    pub fn commitment_shapes(&self) -> (s: CommitmentShapes)
        requires
            self.r * (self.r + 1) <= usize::MAX,
            self.r * self.t1 <= usize::MAX,
            self.spec_size_t() <= usize::MAX,
            self.spec_size_g() <= usize::MAX,
            self.spec_size_h() <= usize::MAX,
        ensures
            s.a.rows == self.k && s.a.cols == self.n,
            s.b.rows == self.k1 && s.b.cols == self.t1 * self.r * self.k,
            s.c.rows == self.k2 && s.c.cols == self.t2 * tri(self.r as int),
            s.d.rows == self.k1 && s.d.cols == self.t1 * tri(self.r as int),
            // each row of B, C, D has exactly as many entries as the decomposed t, g, h
            s.b.cols == self.spec_size_t(),
            s.c.cols == self.spec_size_g(),
            s.d.cols == self.spec_size_h(),
    {
        proof {
            lemma_product_of_consecutive_even(self.r as int);
            assert(spec_num_sym_entries(self.r as int) == tri(self.r as int));
            assert(self.t1 * self.r * self.k == self.r * self.t1 * self.k) by (nonlinear_arith);
            assert(self.t1 * self.r == self.r * self.t1) by (nonlinear_arith);
            assert(self.t2 * tri(self.r as int) == tri(self.r as int) * self.t2) by (nonlinear_arith);
            assert(self.t1 * tri(self.r as int) == tri(self.r as int) * self.t1) by (nonlinear_arith);
            assert(self.r + 1 <= usize::MAX) by (nonlinear_arith)
                requires
                    self.r * (self.r + 1) <= usize::MAX,
                    self.r >= 0,
            ;
        }
        let sym = (self.r * (self.r + 1)) / 2;
        CommitmentShapes {
            a: MatrixShape { rows: self.k, cols: self.n },
            b: MatrixShape { rows: self.k1, cols: self.t1 * self.r * self.k },
            c: MatrixShape { rows: self.k2, cols: self.t2 * sym },
            d: MatrixShape { rows: self.k1, cols: self.t1 * sym },
        }
    }
}

} // verus!
