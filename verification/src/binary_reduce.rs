use vstd::prelude::*;

use crate::embedding::{bit, embed_zq_linear_rq_linear, embedded_block};
use crate::r1cs_params::NUM_PR_WITNESSES;
use crate::size::spec_div_ceil;

verus! {

/// Index of the witness `a` among the 8 witness vectors; `b`, `c`, `w` follow.
pub const A_IDX: usize = 0;
/// Index of `ã = sigma_{-1}(a)`; `b̃`, `c̃`, `w̃` follow.
pub const A_TILDE_IDX: usize = 4;

/// `sum_{p < len} x[p] * y[p]`.
pub open spec fn dot(x: Seq<int>, y: Seq<int>, len: nat) -> int
    decreases len,
{
    if len == 0 {
        0
    } else {
        dot(x, y, (len - 1) as nat) + x[len - 1] * y[len - 1]
    }
}

/// `sum_{w < nw} <phis[w], s[w]>` over vectors of length `n`.
pub open spec fn linear_form(phis: Seq<Seq<int>>, s: Seq<Seq<int>>, nw: nat, n: nat) -> int
    decreases nw,
{
    if nw == 0 {
        0
    } else {
        linear_form(phis, s, (nw - 1) as nat, n) + dot(phis[nw - 1], s[nw - 1], n)
    }
}

/// The entries of rows of small integers.
pub open spec fn int_rows(v: Seq<Vec<i8>>) -> Seq<Seq<int>> {
    v.map_values(|row: Vec<i8>| row@.map_values(|c: i8| c as int))
}

/// The position that `sigma_{-1}` sends position `i` to in a vector of length `n`.
pub open spec fn sigma_partner(n: int, i: int) -> int {
    if i == 0 {
        0
    } else {
        n - i
    }
}

/// The sign of the entry of `ã` in the constraint for position `i`.
pub open spec fn sigma_sign(i: int) -> int {
    if i == 0 {
        -1
    } else {
        1
    }
}

/// `sigma_{-1}(x)` on the entries of `x`: `x_0` stays, `x_i` goes to `-x` at `n - i`.
pub open spec fn sigma_neg(x: Seq<int>, n: int) -> Seq<int> {
    Seq::new(
        n as nat,
        |p: int|
            if p == 0 {
                x[0]
            } else {
                -x[n - p]
            },
    )
}

/// The coefficients of the linear constraint for position `i` between the witness
/// `idx` and its image `tilde`: `<e_0, a> - <e_0, ã> = 0` for `i = 0`,
/// `<e_i, a> + <e_{n-i}, ã> = 0` otherwise.
pub open spec fn sigma_phi_spec(n: int, i: int, idx: int, tilde: int) -> Seq<Seq<int>> {
    Seq::new(
        NUM_PR_WITNESSES as nat,
        |w: int|
            Seq::new(
                n as nat,
                |p: int|
                    if w == idx && p == i {
                        1
                    } else if w == tilde && p == sigma_partner(n, i) {
                        sigma_sign(i)
                    } else {
                        0
                    },
            ),
    )
}

/// A vector with a single nonzero entry `x[q]` pairs to `x[q] * y[q]`.
pub proof fn lemma_sparse_dot(x: Seq<int>, y: Seq<int>, len: nat, q: int)
    requires
        len <= x.len(),
        forall|p: int| 0 <= p < len && p != q ==> x[p] == 0,
    ensures
        dot(x, y, len) == if 0 <= q < len {
            x[q] * y[q]
        } else {
            0
        },
    decreases len,
{
    if len > 0 {
        lemma_sparse_dot(x, y, (len - 1) as nat, q);
        if len - 1 != q {
            assert(x[len - 1] * y[len - 1] == 0) by (nonlinear_arith)
                requires
                    x[len - 1] == 0,
            ;
        }
    }
}

/// The constraint for position `i` evaluates to `a_i + sign * ã_{sigma(i)}`.
pub proof fn lemma_sigma_phi_value(n: int, i: int, idx: int, tilde: int, s: Seq<Seq<int>>, nw: nat)
    requires
        0 <= i < n,
        0 <= idx < NUM_PR_WITNESSES,
        0 <= tilde < NUM_PR_WITNESSES,
        idx != tilde,
        nw <= NUM_PR_WITNESSES,
    ensures
        linear_form(sigma_phi_spec(n, i, idx, tilde), s, nw, n as nat) == (if idx < nw {
            s[idx][i]
        } else {
            0
        }) + (if tilde < nw {
            sigma_sign(i) * s[tilde][sigma_partner(n, i)]
        } else {
            0
        }),
    decreases nw,
{
    if nw > 0 {
        let w = nw - 1;
        lemma_sigma_phi_value(n, i, idx, tilde, s, w as nat);
        let phis = sigma_phi_spec(n, i, idx, tilde);
        let row = phis[w];
        if w == idx {
            lemma_sparse_dot(row, s[w], n as nat, i);
            assert(row[i] == 1);
            assert(1 * s[w][i] == s[w][i]);
        } else if w == tilde {
            let q = sigma_partner(n, i);
            lemma_sparse_dot(row, s[w], n as nat, q);
        } else {
            lemma_sparse_dot(row, s[w], n as nat, -1);
        }
    }
}

/// The `3 n` constraints for `(a, ã)`, `(b, b̃)`, `(c, c̃)` all hold exactly when each
/// of `ã`, `b̃`, `c̃` is `sigma_{-1}` of `a`, `b`, `c`.
pub proof fn lemma_sigma_constraints(n: int, s: Seq<Seq<int>>)
    requires
        n >= 1,
        s.len() == NUM_PR_WITNESSES,
        forall|w: int| 0 <= w < NUM_PR_WITNESSES ==> (#[trigger] s[w]).len() == n,
    ensures
        (forall|i: int, m: int|
            0 <= i < n && 0 <= m < 3 ==> #[trigger] linear_form(
                sigma_phi_spec(n, i, m, m + 4),
                s,
                NUM_PR_WITNESSES as nat,
                n as nat,
            ) == 0) <==> (forall|m: int| 0 <= m < 3 ==> #[trigger] s[m + 4] == sigma_neg(s[m], n)),
{
    assert forall|i: int, m: int| 0 <= i < n && 0 <= m < 3 implies #[trigger] linear_form(
        sigma_phi_spec(n, i, m, m + 4),
        s,
        NUM_PR_WITNESSES as nat,
        n as nat,
    ) == s[m][i] + sigma_sign(i) * s[m + 4][sigma_partner(n, i)] by {
        lemma_sigma_phi_value(n, i, m, m + 4, s, NUM_PR_WITNESSES as nat);
    }
    if forall|i: int, m: int|
        0 <= i < n && 0 <= m < 3 ==> #[trigger] linear_form(
            sigma_phi_spec(n, i, m, m + 4),
            s,
            NUM_PR_WITNESSES as nat,
            n as nat,
        ) == 0 {
        assert forall|m: int| 0 <= m < 3 implies #[trigger] s[m + 4] == sigma_neg(s[m], n) by {
            assert forall|p: int| 0 <= p < n implies s[m + 4][p] == sigma_neg(s[m], n)[p] by {
                let i = if p == 0 {
                    0
                } else {
                    n - p
                };
                assert(sigma_partner(n, i) == p);
                assert(linear_form(sigma_phi_spec(n, i, m, m + 4), s, NUM_PR_WITNESSES as nat, n as nat)
                    == 0);
                if p == 0 {
                    assert(sigma_sign(i) * s[m + 4][p] == -s[m + 4][p]);
                } else {
                    assert(sigma_sign(i) * s[m + 4][p] == s[m + 4][p]);
                    assert(n - p == i);
                }
            }
            assert(s[m + 4] =~= sigma_neg(s[m], n));
        }
    }
    if forall|m: int| 0 <= m < 3 ==> #[trigger] s[m + 4] == sigma_neg(s[m], n) {
        assert forall|i: int, m: int| 0 <= i < n && 0 <= m < 3 implies #[trigger] linear_form(
            sigma_phi_spec(n, i, m, m + 4),
            s,
            NUM_PR_WITNESSES as nat,
            n as nat,
        ) == 0 by {
            assert(s[m + 4] == sigma_neg(s[m], n));
            let q = sigma_partner(n, i);
            assert(s[m + 4][q] == sigma_neg(s[m], n)[q]);
            if i != 0 {
                assert(n - q == i);
                assert(sigma_sign(i) * s[m + 4][q] == s[m + 4][q]);
            } else {
                assert(sigma_sign(i) * s[m + 4][q] == -s[m + 4][q]);
            }
        }
    }
}

/// A vector of `n` copies of `c`.
fn constant_row(n: usize, c: i8) -> (r: Vec<i8>)
    ensures
        r@.len() == n,
        forall|p: int| 0 <= p < n ==> r@[p] == c,
{
    let mut v: Vec<i8> = Vec::with_capacity(n);
    let mut p: usize = 0;
    while p < n
        invariant
            p <= n,
            v@.len() == p,
            forall|q: int| 0 <= q < p ==> v@[q] == c,
        decreases n - p,
    {
        v.push(c);
        p = p + 1;
    }
    v
}

/// The coefficients of the constraint for position `i` of the witness `idx` and its
/// image `tilde_idx` under `sigma_{-1}`, one row of `n_pr` entries per witness vector.
pub fn sigma_inverse_phis(n_pr: usize, i: usize, idx: usize, tilde_idx: usize) -> (r: Vec<Vec<i8>>)
    requires
        i < n_pr,
        idx < NUM_PR_WITNESSES,
        tilde_idx < NUM_PR_WITNESSES,
        idx != tilde_idx,
    ensures
        int_rows(r@) == sigma_phi_spec(n_pr as int, i as int, idx as int, tilde_idx as int),
        forall|w: int| 0 <= w < r@.len() ==> (#[trigger] r@[w])@.len() == n_pr,
{
    let partner = if i == 0 { 0 } else { n_pr - i };
    let sign: i8 = if i == 0 { -1 } else { 1 };
    let mut phis: Vec<Vec<i8>> = Vec::with_capacity(NUM_PR_WITNESSES);
    let mut w: usize = 0;
    while w < NUM_PR_WITNESSES
        invariant
            i < n_pr,
            idx != tilde_idx,
            partner == sigma_partner(n_pr as int, i as int),
            sign == sigma_sign(i as int),
            w <= NUM_PR_WITNESSES,
            phis@.len() == w,
            forall|ww: int| 0 <= ww < w ==> (#[trigger] phis@[ww])@.len() == n_pr,
            forall|ww: int|
                0 <= ww < w ==> (#[trigger] phis@[ww])@.map_values(|c: i8| c as int) == sigma_phi_spec(
                    n_pr as int,
                    i as int,
                    idx as int,
                    tilde_idx as int,
                )[ww],
        decreases NUM_PR_WITNESSES - w,
    {
        let mut row = constant_row(n_pr, 0);
        let ghost zeros = row@;
        if w == idx {
            row.set(i, 1);
        } else if w == tilde_idx {
            row.set(partner, sign);
        }
        assert(row@ == if w == idx {
            zeros.update(i as int, 1)
        } else if w == tilde_idx {
            zeros.update(partner as int, sign)
        } else {
            zeros
        });
        let ghost spec_row = sigma_phi_spec(n_pr as int, i as int, idx as int, tilde_idx as int)[w as int];
        assert forall|p: int| 0 <= p < n_pr implies (#[trigger] row@[p]) as int == spec_row[p] by {
            assert(zeros[p] == 0);
            assert(spec_row[p] == (if w == idx && p == i {
                1
            } else if w == tilde_idx && p == sigma_partner(n_pr as int, i as int) {
                sigma_sign(i as int)
            } else {
                0
            }));
        }
        assert(row@.map_values(|c: i8| c as int) =~= sigma_phi_spec(
            n_pr as int,
            i as int,
            idx as int,
            tilde_idx as int,
        )[w as int]);
        phis.push(row);
        w = w + 1;
    }
    assert(int_rows(phis@) =~= sigma_phi_spec(n_pr as int, i as int, idx as int, tilde_idx as int));
    phis
}

/// The `3 n_pr` linear constraints `ã = sigma_{-1}(a)`, `b̃ = sigma_{-1}(b)`,
/// `c̃ = sigma_{-1}(c)`: for each position `i`, those of `a`, `b`, `c` in turn.
pub fn sigma_inverse_constraints(n_pr: usize) -> (r: Vec<Vec<Vec<i8>>>)
    requires
        3 * n_pr <= usize::MAX,
    ensures
        r@.len() == 3 * n_pr,
        forall|i: int, m: int|
            0 <= i < n_pr && 0 <= m < 3 ==> int_rows((#[trigger] r@[3 * i + m])@) == sigma_phi_spec(
                n_pr as int,
                i,
                m,
                m + 4,
            ),
{
    let mut out: Vec<Vec<Vec<i8>>> = Vec::with_capacity(3 * n_pr);
    let mut i: usize = 0;
    while i < n_pr
        invariant
            3 * n_pr <= usize::MAX,
            i <= n_pr,
            out@.len() == 3 * i,
            forall|ii: int, m: int|
                0 <= ii < i && 0 <= m < 3 ==> int_rows((#[trigger] out@[3 * ii + m])@) == sigma_phi_spec(
                    n_pr as int,
                    ii,
                    m,
                    m + 4,
                ),
        decreases n_pr - i,
    {
        let mut m: usize = 0;
        while m < 3
            invariant
                i < n_pr,
                m <= 3,
                out@.len() == 3 * i + m,
                forall|ii: int, mm: int|
                    0 <= ii < i && 0 <= mm < 3 ==> int_rows((#[trigger] out@[3 * ii + mm])@)
                        == sigma_phi_spec(n_pr as int, ii, mm, mm + 4),
                forall|mm: int|
                    0 <= mm < m ==> int_rows((#[trigger] out@[3 * i + mm])@) == sigma_phi_spec(
                        n_pr as int,
                        i as int,
                        mm,
                        mm + 4,
                    ),
            decreases 3 - m,
        {
            let phis = sigma_inverse_phis(n_pr, i, A_IDX + m, A_TILDE_IDX + m);
            out.push(phis);
            m = m + 1;
        }
        i = i + 1;
    }
    out
}

/// A quadratic constraint on constant coefficients with small integer coefficients:
/// `sum_{i,j} a[i][j] <s_i, s_j> + sum_i <phi[i], s_i> = 0`, with `a` symmetric.
pub struct SmallQuadConstraint {
    pub a: Vec<Vec<i8>>,
    pub phi: Vec<Vec<i8>>,
}

/// The weight of `a`, `b`, `c` in `a + b - 2c`.
pub open spec fn combination_weight(m: int) -> int {
    if m == 2 {
        -2
    } else {
        1
    }
}

/// Entry `(i, j)` of the matrix of `<a, ã> = 0`-style binary constraints between the
/// witness `idx` and its image `tilde`.
pub open spec fn binary_a_entry(idx: int, tilde: int, i: int, j: int) -> int {
    if (i == idx && j == tilde) || (i == tilde && j == idx) {
        1
    } else {
        0
    }
}

/// Entry `(i, j)` of the matrix of the constraint `<a + b - 2c, ã + b̃ - 2c̃ - 1> = 0`,
/// doubled so that the matrix is symmetric: the product of the weights (`1`, `1`,
/// `-2`) of the two witness vectors for an entry between `a, b, c` and `ã, b̃, c̃`.
pub open spec fn combined_a_entry(i: int, j: int) -> int {
    let u = if i < j { i } else { j };
    let v = if i < j { j } else { i };
    if 0 <= u < 3 && A_TILDE_IDX <= v < A_TILDE_IDX + 3 {
        if u == 2 && v - A_TILDE_IDX == 2 {
            4
        } else if u == 2 || v - A_TILDE_IDX == 2 {
            -2
        } else {
            1
        }
    } else {
        0
    }
}

/// The matrix of a constraint as a table of integers.
pub open spec fn matrix_spec(f: spec_fn(int, int) -> int) -> Seq<Seq<int>> {
    Seq::new(NUM_PR_WITNESSES as nat, |i: int| Seq::new(NUM_PR_WITNESSES as nat, |j: int| f(i, j)))
}

/// Rows of `n` copies of `f(w)` for each witness vector `w`.
pub open spec fn phi_spec(n: int, f: spec_fn(int) -> int) -> Seq<Seq<int>> {
    Seq::new(NUM_PR_WITNESSES as nat, |w: int| Seq::new(n as nat, |p: int| f(w)))
}

fn binary_a_coeff(idx: usize, tilde: usize, i: usize, j: usize) -> (r: i8)
    ensures
        r == binary_a_entry(idx as int, tilde as int, i as int, j as int),
{
    if (i == idx && j == tilde) || (i == tilde && j == idx) {
        1
    } else {
        0
    }
}

fn combined_a_coeff(i: usize, j: usize) -> (r: i8)
    ensures
        r == combined_a_entry(i as int, j as int),
{
    let u = if i < j { i } else { j };
    let v = if i < j { j } else { i };
    if u < 3 && A_TILDE_IDX <= v && v < A_TILDE_IDX + 3 {
        let cu = u == 2;
        let cv = v - A_TILDE_IDX == 2;
        if cu && cv {
            4
        } else if cu || cv {
            -2
        } else {
            1
        }
    } else {
        0
    }
}

/// Builds the `8 x 8` matrix of a binary constraint (`combined == false`, between
/// `idx` and `tilde`) or of the combined constraint (`combined == true`).
fn build_matrix(idx: usize, tilde: usize, combined: bool) -> (r: Vec<Vec<i8>>)
    ensures
        r@.len() == NUM_PR_WITNESSES,
        forall|i: int| 0 <= i < NUM_PR_WITNESSES ==> (#[trigger] r@[i])@.len() == NUM_PR_WITNESSES,
        forall|i: int, j: int|
            0 <= i < NUM_PR_WITNESSES && 0 <= j < NUM_PR_WITNESSES ==> (#[trigger] r@[i]@[j]) as int == if combined {
                combined_a_entry(i, j)
            } else {
                binary_a_entry(idx as int, tilde as int, i, j)
            },
{
    let mut rows: Vec<Vec<i8>> = Vec::with_capacity(NUM_PR_WITNESSES);
    let mut i: usize = 0;
    while i < NUM_PR_WITNESSES
        invariant
            i <= NUM_PR_WITNESSES,
            rows@.len() == i,
            forall|ii: int| 0 <= ii < i ==> (#[trigger] rows@[ii])@.len() == NUM_PR_WITNESSES,
            forall|ii: int, j: int|
                0 <= ii < i && 0 <= j < NUM_PR_WITNESSES ==> (#[trigger] rows@[ii]@[j]) as int == if combined {
                    combined_a_entry(ii, j)
                } else {
                    binary_a_entry(idx as int, tilde as int, ii, j)
                },
        decreases NUM_PR_WITNESSES - i,
    {
        let mut row: Vec<i8> = Vec::with_capacity(NUM_PR_WITNESSES);
        let mut j: usize = 0;
        while j < NUM_PR_WITNESSES
            invariant
                i < NUM_PR_WITNESSES,
                j <= NUM_PR_WITNESSES,
                row@.len() == j,
                forall|jj: int|
                    0 <= jj < j ==> (#[trigger] row@[jj]) as int == if combined {
                        combined_a_entry(i as int, jj)
                    } else {
                        binary_a_entry(idx as int, tilde as int, i as int, jj)
                    },
            decreases NUM_PR_WITNESSES - j,
        {
            let c = if combined {
                combined_a_coeff(i, j)
            } else {
                binary_a_coeff(idx, tilde, i, j)
            };
            row.push(c);
            j = j + 1;
        }
        rows.push(row);
        i = i + 1;
    }
    rows
}

/// Rows of `n_pr` copies of `coeff(w)`, where `coeff` gives `c_w` for `w < 3`
/// (or only for `w == idx` when `combined` is false) and `0` elsewhere.
fn build_phi(n_pr: usize, idx: usize, combined: bool) -> (r: Vec<Vec<i8>>)
    ensures
        r@.len() == NUM_PR_WITNESSES,
        forall|w: int| 0 <= w < NUM_PR_WITNESSES ==> (#[trigger] r@[w])@.len() == n_pr,
        forall|w: int, p: int|
            0 <= w < NUM_PR_WITNESSES && 0 <= p < n_pr ==> (#[trigger] r@[w]@[p]) as int == if combined {
                if 0 <= w < 3 {
                    -2 * combination_weight(w)
                } else {
                    0
                }
            } else {
                if w == idx {
                    -2
                } else {
                    0
                }
            },
{
    let mut rows: Vec<Vec<i8>> = Vec::with_capacity(NUM_PR_WITNESSES);
    let mut w: usize = 0;
    while w < NUM_PR_WITNESSES
        invariant
            w <= NUM_PR_WITNESSES,
            rows@.len() == w,
            forall|ww: int| 0 <= ww < w ==> (#[trigger] rows@[ww])@.len() == n_pr,
            forall|ww: int, p: int|
                0 <= ww < w && 0 <= p < n_pr ==> (#[trigger] rows@[ww]@[p]) as int == if combined {
                    if 0 <= ww < 3 {
                        -2 * combination_weight(ww)
                    } else {
                        0
                    }
                } else {
                    if ww == idx {
                        -2
                    } else {
                        0
                    }
                },
        decreases NUM_PR_WITNESSES - w,
    {
        let c: i8 = if combined {
            if w < 2 {
                -2
            } else if w == 2 {
                4
            } else {
                0
            }
        } else {
            if w == idx {
                -2
            } else {
                0
            }
        };
        rows.push(constant_row(n_pr, c));
        w = w + 1;
    }
    rows
}

/// The constraint `<x, x̃ - 1> = 0` written as `<x, x̃> + <x̃, x> - <2, x> = 0`, for the
/// witness `idx` and its image `tilde`: it holds on `{0, 1}`-vectors.
pub fn binary_constraint(n_pr: usize, idx: usize, tilde: usize) -> (r: SmallQuadConstraint)
    requires
        idx < NUM_PR_WITNESSES,
        tilde < NUM_PR_WITNESSES,
        idx != tilde,
    ensures
        int_rows(r.a@) == matrix_spec(|i: int, j: int| binary_a_entry(idx as int, tilde as int, i, j)),
        int_rows(r.phi@) == phi_spec(n_pr as int, |w: int| if w == idx { -2 } else { 0 }),
{
    let a = build_matrix(idx, tilde, false);
    let phi = build_phi(n_pr, idx, false);
    assert(int_rows(a@) =~= matrix_spec(|i: int, j: int| binary_a_entry(idx as int, tilde as int, i, j))) by {
        assert forall|i: int| 0 <= i < NUM_PR_WITNESSES implies int_rows(a@)[i] =~= matrix_spec(
            |i: int, j: int| binary_a_entry(idx as int, tilde as int, i, j),
        )[i] by {
            assert forall|j: int| 0 <= j < NUM_PR_WITNESSES implies #[trigger] int_rows(a@)[i][j] == matrix_spec(
                |i: int, j: int| binary_a_entry(idx as int, tilde as int, i, j),
            )[i][j] by {
                assert(a@[i]@[j] as int == binary_a_entry(idx as int, tilde as int, i, j));
            }
        }
    }
    assert(int_rows(phi@) =~= phi_spec(n_pr as int, |w: int| if w == idx { -2 } else { 0 })) by {
        assert forall|w: int| 0 <= w < NUM_PR_WITNESSES implies int_rows(phi@)[w] =~= phi_spec(
            n_pr as int,
            |w: int| if w == idx { -2 } else { 0 },
        )[w] by {
            assert forall|p: int| 0 <= p < n_pr implies #[trigger] int_rows(phi@)[w][p] == phi_spec(
                n_pr as int,
                |w: int| if w == idx { -2 } else { 0 },
            )[w][p] by {
                assert(phi@[w]@[p] as int == (if w == idx { -2int } else { 0 }));
            }
        }
    }
    SmallQuadConstraint { a, phi }
}

/// The constraint `<a + b - 2c, ã + b̃ - 2c̃ - 1> = 0`, doubled so that its matrix is
/// symmetric.
pub fn combined_binary_constraint(n_pr: usize) -> (r: SmallQuadConstraint)
    ensures
        int_rows(r.a@) == matrix_spec(|i: int, j: int| combined_a_entry(i, j)),
        int_rows(r.phi@) == phi_spec(n_pr as int, |w: int| if 0 <= w < 3 { -2 * combination_weight(w) } else { 0 }),
{
    let a = build_matrix(0, 0, true);
    let phi = build_phi(n_pr, 0, true);
    assert(int_rows(a@) =~= matrix_spec(|i: int, j: int| combined_a_entry(i, j))) by {
        assert forall|i: int| 0 <= i < NUM_PR_WITNESSES implies int_rows(a@)[i] =~= matrix_spec(
            |i: int, j: int| combined_a_entry(i, j),
        )[i] by {
            assert forall|j: int| 0 <= j < NUM_PR_WITNESSES implies #[trigger] int_rows(a@)[i][j] == matrix_spec(
                |i: int, j: int| combined_a_entry(i, j),
            )[i][j] by {
                assert(a@[i]@[j] as int == combined_a_entry(i, j));
            }
        }
    }
    assert(int_rows(phi@) =~= phi_spec(n_pr as int, |w: int| if 0 <= w < 3 { -2 * combination_weight(w) } else { 0 })) by {
        assert forall|w: int| 0 <= w < NUM_PR_WITNESSES implies int_rows(phi@)[w] =~= phi_spec(
            n_pr as int,
            |w: int| if 0 <= w < 3 { -2 * combination_weight(w) } else { 0 },
        )[w] by {
            assert forall|p: int| 0 <= p < n_pr implies #[trigger] int_rows(phi@)[w][p] == phi_spec(
                n_pr as int,
                |w: int| if 0 <= w < 3 { -2 * combination_weight(w) } else { 0 },
            )[w][p] by {
                assert(phi@[w]@[p] as int == (if 0 <= w < 3 { -2 * combination_weight(w) } else { 0 }));
            }
        }
    }
    SmallQuadConstraint { a, phi }
}

/// The consecutive pieces of length `n` of `s`; the last one may be shorter.
pub open spec fn chunks_spec<T>(s: Seq<T>, n: int) -> Seq<Seq<T>> {
    Seq::new(
        spec_div_ceil(s.len() as int, n) as nat,
        |j: int|
            s.subrange(
                j * n,
                if (j + 1) * n <= s.len() {
                    (j + 1) * n
                } else {
                    s.len() as int
                },
            ),
    )
}

/// Cuts a row of a commitment matrix into pieces of `n_pr` ring elements, one per
/// witness vector, and adds `padding` vectors of `n_pr` zeros for the witness
/// vectors that the row does not touch.
pub fn chunk_row<T: Copy>(row: &Vec<T>, n_pr: usize, padding: usize, zero: T) -> (r: Vec<Vec<T>>)
    requires
        n_pr > 0,
        spec_div_ceil(row@.len() as int, n_pr as int) + padding <= usize::MAX,
    ensures
        r@.len() == spec_div_ceil(row@.len() as int, n_pr as int) + padding,
        forall|j: int|
            0 <= j < spec_div_ceil(row@.len() as int, n_pr as int) ==> (#[trigger] r@[j])@ == chunks_spec(
                row@,
                n_pr as int,
            )[j],
        forall|j: int|
            spec_div_ceil(row@.len() as int, n_pr as int) <= j < r@.len() ==> (#[trigger] r@[j])@ == Seq::new(
                n_pr as nat,
                |p: int| zero,
            ),
{
    let len = row.len();
    let nc = crate::size::div_ceil(len, n_pr);
    let mut out: Vec<Vec<T>> = Vec::with_capacity(nc + padding);
    let mut j: usize = 0;
    proof {
        crate::size::lemma_div_ceil_bounds(len as int, n_pr as int);
    }
    while j < nc
        invariant
            len == row@.len(),
            n_pr > 0,
            nc == spec_div_ceil(len as int, n_pr as int),
            nc * n_pr < len + n_pr,
            nc * n_pr >= len,
            j <= nc,
            out@.len() == j,
            forall|jj: int| 0 <= jj < j ==> (#[trigger] out@[jj])@ == chunks_spec(row@, n_pr as int)[jj],
        decreases nc - j,
    {
        proof {
            assert(j * n_pr < len) by (nonlinear_arith)
                requires
                    j < nc,
                    nc * n_pr < len + n_pr,
                    n_pr > 0,
            ;
        }
        let start = j * n_pr;
        let end = if len - start >= n_pr { start + n_pr } else { len };
        proof {
            assert((j + 1) * n_pr == start + n_pr) by (nonlinear_arith)
                requires
                    start == j * n_pr,
            ;
        }
        let mut piece: Vec<T> = Vec::with_capacity(end - start);
        let mut p = start;
        while p < end
            invariant
                start <= p <= end,
                end <= len,
                len == row@.len(),
                piece@ == row@.subrange(start as int, p as int),
            decreases end - p,
        {
            piece.push(row[p]);
            p = p + 1;
            assert(piece@ =~= row@.subrange(start as int, p as int));
        }
        out.push(piece);
        j = j + 1;
    }
    let mut q: usize = 0;
    while q < padding
        invariant
            nc + padding <= usize::MAX,
            nc == spec_div_ceil(len as int, n_pr as int),
            len == row@.len(),
            q <= padding,
            out@.len() == nc + q,
            forall|jj: int| 0 <= jj < nc ==> (#[trigger] out@[jj])@ == chunks_spec(row@, n_pr as int)[jj],
            forall|jj: int| nc <= jj < nc + q ==> (#[trigger] out@[jj])@ == Seq::new(n_pr as nat, |p: int| zero),
        decreases padding - q,
    {
        let mut zeros: Vec<T> = Vec::with_capacity(n_pr);
        let mut p: usize = 0;
        while p < n_pr
            invariant
                p <= n_pr,
                zeros@ == Seq::new(p as nat, |i: int| zero),
            decreases n_pr - p,
        {
            zeros.push(zero);
            p = p + 1;
            assert(zeros@ =~= Seq::new(p as nat, |i: int| zero));
        }
        out.push(zeros);
        q = q + 1;
    }
    out
}

/// The rows of an embedding, negated when `negate` holds.
fn embed_row(alpha: &Vec<bool>, k: usize, d: usize, negate: bool) -> (r: Vec<Vec<i8>>)
    requires
        d >= 1,
        k % d == 0,
        alpha@.len() >= k,
    ensures
        r@.len() == k / d,
        forall|j: int, p: int|
            0 <= j < k / d && 0 <= p < d ==> (#[trigger] r@[j]@[p]) as int == (if negate {
                -embedded_block(alpha@, j, d as int)[p]
            } else {
                embedded_block(alpha@, j, d as int)[p]
            }),
        forall|j: int| 0 <= j < k / d ==> (#[trigger] r@[j])@.len() == d,
{
    let e = embed_zq_linear_rq_linear(alpha, k, d);
    let nb = e.len();
    let mut out: Vec<Vec<i8>> = Vec::with_capacity(nb);
    let mut j: usize = 0;
    while j < nb
        invariant
            nb == e@.len(),
            nb == k / d,
            alpha@.len() >= k,
            d >= 1,
            forall|jj: int|
                0 <= jj < k / d ==> (#[trigger] e@[jj])@.map_values(|c: i8| c as int) == embedded_block(
                    alpha@,
                    jj,
                    d as int,
                ),
            forall|jj: int, pp: int| 0 <= jj < k / d && 0 <= pp < d ==> -1 <= #[trigger] e@[jj]@[pp] <= 1,
            j <= nb,
            out@.len() == j,
            forall|jj: int, p: int|
                0 <= jj < j && 0 <= p < d ==> (#[trigger] out@[jj]@[p]) as int == (if negate {
                    -embedded_block(alpha@, jj, d as int)[p]
                } else {
                    embedded_block(alpha@, jj, d as int)[p]
                }),
            forall|jj: int| 0 <= jj < j ==> (#[trigger] out@[jj])@.len() == d,
        decreases nb - j,
    {
        let ghost blk = embedded_block(alpha@, j as int, d as int);
        assert(e@[j as int]@.map_values(|c: i8| c as int) == blk);
        assert(e@[j as int]@.len() == d);
        let mut row: Vec<i8> = Vec::with_capacity(d);
        let mut p: usize = 0;
        while p < d
            invariant
                e@[j as int]@.len() == d,
                e@[j as int]@.map_values(|c: i8| c as int) == blk,
                forall|pp: int| 0 <= pp < d ==> -1 <= #[trigger] e@[j as int]@[pp] <= 1,
                j < nb,
                nb == e@.len(),
                p <= d,
                row@.len() == p,
                forall|pp: int| 0 <= pp < p ==> (#[trigger] row@[pp]) as int == (if negate {
                    -blk[pp]
                } else {
                    blk[pp]
                }),
            decreases d - p,
        {
            let c = e[j][p];
            assert(c as int == blk[p as int]);
            assert(-1 <= c <= 1);
            let v: i8 = if negate { -c } else { c };
            row.push(v);
            p = p + 1;
        }
        out.push(row);
        j = j + 1;
    }
    out
}

/// `-x`, entrywise.
pub open spec fn neg_seq(x: Seq<int>) -> Seq<int> {
    Seq::new(x.len(), |p: int| -x[p])
}

/// The `nb` polynomials that `alpha` is embedded as (see `embedded_block`), negated when `negate` holds.
pub open spec fn embedded_polys(alpha: Seq<bool>, d: int, nb: nat, negate: bool) -> Seq<Seq<int>> {
    Seq::new(
        nb,
        |j: int|
            if negate {
                neg_seq(embedded_block(alpha, j, d))
            } else {
                embedded_block(alpha, j, d)
            },
    )
}

/// `nb` zero polynomials of `d` coefficients.
pub open spec fn zero_polys(d: int, nb: nat) -> Seq<Seq<int>> {
    Seq::new(nb, |j: int| Seq::new(d as nat, |p: int| 0))
}

/// The coefficients of the constraint `<alpha, a> + <beta, b> + <gamma, c> - <delta, w> = g`,
/// per witness vector, per ring element, per coefficient.
pub open spec fn linear_check_spec(
    alpha: Seq<bool>,
    beta: Seq<bool>,
    gamma: Seq<bool>,
    delta: Seq<bool>,
    d: int,
    nb: nat,
) -> Seq<Seq<Seq<int>>> {
    seq![
        embedded_polys(alpha, d, nb, false),
        embedded_polys(beta, d, nb, false),
        embedded_polys(gamma, d, nb, false),
        embedded_polys(delta, d, nb, true),
        zero_polys(d, nb),
        zero_polys(d, nb),
        zero_polys(d, nb),
        zero_polys(d, nb),
    ]
}

/// The integer coefficients of polynomials given per witness vector.
pub open spec fn int_polys(v: Seq<Vec<Vec<i8>>>) -> Seq<Seq<Seq<int>>> {
    v.map_values(|w: Vec<Vec<i8>>| int_rows(w@))
}

/// Collects the entrywise description of the linear-check polynomials into `linear_check_spec`.
proof fn lemma_linear_check_polys(
    out: Seq<Vec<Vec<i8>>>,
    alpha: Seq<bool>,
    beta: Seq<bool>,
    gamma: Seq<bool>,
    delta: Seq<bool>,
    d: int,
    nb: int,
)
    requires
        d >= 1,
        nb >= 0,
        out.len() == NUM_PR_WITNESSES,
        forall|w: int| 0 <= w < NUM_PR_WITNESSES ==> (#[trigger] out[w])@.len() == nb,
        forall|w: int, j: int| 0 <= w < NUM_PR_WITNESSES && 0 <= j < nb ==> (#[trigger] out[w]@[j])@.len() == d,
        forall|j: int, p: int| 0 <= j < nb && 0 <= p < d ==> (#[trigger] out[0]@[j]@[p]) as int == embedded_block(alpha, j, d)[p],
        forall|j: int, p: int| 0 <= j < nb && 0 <= p < d ==> (#[trigger] out[1]@[j]@[p]) as int == embedded_block(beta, j, d)[p],
        forall|j: int, p: int| 0 <= j < nb && 0 <= p < d ==> (#[trigger] out[2]@[j]@[p]) as int == embedded_block(gamma, j, d)[p],
        forall|j: int, p: int| 0 <= j < nb && 0 <= p < d ==> (#[trigger] out[3]@[j]@[p]) as int == -embedded_block(delta, j, d)[p],
        forall|w: int, j: int, p: int|
            4 <= w < NUM_PR_WITNESSES && 0 <= j < nb && 0 <= p < d ==> (#[trigger] out[w]@[j]@[p]) == 0,
    ensures
        int_polys(out) == linear_check_spec(alpha, beta, gamma, delta, d, nb as nat),
{
    let spec = linear_check_spec(alpha, beta, gamma, delta, d, nb as nat);
    let got = int_polys(out);
    assert forall|w: int, j: int, p: int|
        0 <= w < NUM_PR_WITNESSES && 0 <= j < nb && 0 <= p < d implies #[trigger] got[w][j][p] == spec[w][j][p] by {
        assert(got[w][j][p] == out[w]@[j]@[p] as int);
        if w == 0 {
            assert(out[0]@[j]@[p] as int == embedded_block(alpha, j, d)[p]);
        } else if w == 1 {
            assert(out[1]@[j]@[p] as int == embedded_block(beta, j, d)[p]);
        } else if w == 2 {
            assert(out[2]@[j]@[p] as int == embedded_block(gamma, j, d)[p]);
        } else if w == 3 {
            assert(out[3]@[j]@[p] as int == -embedded_block(delta, j, d)[p]);
        } else {
            assert(out[w]@[j]@[p] == 0);
        }
    }
    assert forall|w: int, j: int| 0 <= w < NUM_PR_WITNESSES && 0 <= j < nb implies #[trigger] got[w][j] =~= spec[w][j] by {
        assert forall|p: int| 0 <= p < d implies got[w][j][p] == spec[w][j][p] by {}
    }
    assert forall|w: int| 0 <= w < NUM_PR_WITNESSES implies #[trigger] got[w] =~= spec[w] by {
        assert forall|j: int| 0 <= j < nb implies got[w][j] =~= spec[w][j] by {}
    }
    assert(got =~= spec);
}

/// The coefficients, per witness vector, of the constant-coefficient constraint
/// `<alpha, a> + <beta, b> + <gamma, c> - <delta, w> = g` on the witness vectors `a`,
/// `b`, `c`, `w` (the other four get zeros): each binary vector is embedded so that
/// constant coefficients of products give the inner products. Only the first `k`
/// entries of each binary vector are read.
pub fn linear_check_phis(
    alpha: &Vec<bool>,
    beta: &Vec<bool>,
    gamma: &Vec<bool>,
    delta: &Vec<bool>,
    k: usize,
    d: usize,
) -> (r: Vec<Vec<Vec<i8>>>)
    requires
        d >= 1,
        k % d == 0,
        alpha@.len() >= k,
        beta@.len() >= k,
        gamma@.len() >= k,
        delta@.len() >= k,
    ensures
        r@.len() == NUM_PR_WITNESSES,
        forall|w: int| 0 <= w < NUM_PR_WITNESSES ==> (#[trigger] r@[w])@.len() == k / d,
        forall|w: int, j: int|
            0 <= w < NUM_PR_WITNESSES && 0 <= j < k / d ==> (#[trigger] r@[w]@[j])@.len() == d,
        forall|j: int, p: int| 0 <= j < k / d && 0 <= p < d ==> (#[trigger] r@[0]@[j]@[p]) as int == embedded_block(alpha@, j, d as int)[p],
        forall|j: int, p: int| 0 <= j < k / d && 0 <= p < d ==> (#[trigger] r@[1]@[j]@[p]) as int == embedded_block(beta@, j, d as int)[p],
        forall|j: int, p: int| 0 <= j < k / d && 0 <= p < d ==> (#[trigger] r@[2]@[j]@[p]) as int == embedded_block(gamma@, j, d as int)[p],
        forall|j: int, p: int| 0 <= j < k / d && 0 <= p < d ==> (#[trigger] r@[3]@[j]@[p]) as int == -embedded_block(delta@, j, d as int)[p],
        forall|w: int, j: int, p: int|
            4 <= w < NUM_PR_WITNESSES && 0 <= j < k / d && 0 <= p < d ==> (#[trigger] r@[w]@[j]@[p]) == 0,
        int_polys(r@) == linear_check_spec(alpha@, beta@, gamma@, delta@, d as int, (k / d) as nat),
{
    let mut out: Vec<Vec<Vec<i8>>> = Vec::with_capacity(NUM_PR_WITNESSES);
    out.push(embed_row(alpha, k, d, false));
    out.push(embed_row(beta, k, d, false));
    out.push(embed_row(gamma, k, d, false));
    out.push(embed_row(delta, k, d, true));
    let nb = k / d;
    let mut w: usize = 4;
    while w < NUM_PR_WITNESSES
        invariant
            4 <= w <= NUM_PR_WITNESSES,
            out@.len() == w,
            nb == k / d,
            d >= 1,
            forall|ww: int| 0 <= ww < w ==> (#[trigger] out@[ww])@.len() == k / d,
            forall|ww: int, j: int| 0 <= ww < w && 0 <= j < k / d ==> (#[trigger] out@[ww]@[j])@.len() == d,
            forall|j: int, p: int| 0 <= j < k / d && 0 <= p < d ==> (#[trigger] out@[0]@[j]@[p]) as int == embedded_block(alpha@, j, d as int)[p],
            forall|j: int, p: int| 0 <= j < k / d && 0 <= p < d ==> (#[trigger] out@[1]@[j]@[p]) as int == embedded_block(beta@, j, d as int)[p],
            forall|j: int, p: int| 0 <= j < k / d && 0 <= p < d ==> (#[trigger] out@[2]@[j]@[p]) as int == embedded_block(gamma@, j, d as int)[p],
            forall|j: int, p: int| 0 <= j < k / d && 0 <= p < d ==> (#[trigger] out@[3]@[j]@[p]) as int == -embedded_block(delta@, j, d as int)[p],
            forall|ww: int, j: int, p: int|
                4 <= ww < w && 0 <= j < k / d && 0 <= p < d ==> (#[trigger] out@[ww]@[j]@[p]) == 0,
        decreases NUM_PR_WITNESSES - w,
    {
        let mut polys: Vec<Vec<i8>> = Vec::with_capacity(nb);
        let mut j: usize = 0;
        while j < nb
            invariant
                j <= nb,
                d >= 1,
                polys@.len() == j,
                forall|jj: int| 0 <= jj < j ==> (#[trigger] polys@[jj])@.len() == d,
                forall|jj: int, p: int| 0 <= jj < j && 0 <= p < d ==> (#[trigger] polys@[jj]@[p]) == 0,
            decreases nb - j,
        {
            polys.push(constant_row(d, 0));
            j = j + 1;
        }
        let ghost prev = out@;
        out.push(polys);
        assert(forall|ww: int| 0 <= ww < w ==> out@[ww] == prev[ww]);
        assert(out@[0] == prev[0] && out@[1] == prev[1] && out@[2] == prev[2] && out@[3] == prev[3]);
        w = w + 1;
    }
    proof {
        lemma_linear_check_polys(out@, alpha@, beta@, gamma@, delta@, d as int, (k / d) as int);
    }
    out
}

} // verus!
