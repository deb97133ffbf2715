use vstd::prelude::*;

use crate::binary_reduce::{
    A_TILDE_IDX, binary_a_entry, combined_a_entry, combination_weight, dot, linear_form, matrix_spec, phi_spec,
};
use crate::binary_reduce::{embedded_polys, linear_check_spec, neg_seq, zero_polys};
use crate::embedding::{
    bit_dot, block, embedded_block, embedded_dot, lemma_embedded_dot, negacyclic_constant_term, wrap_sum,
};
use crate::r1cs_params::NUM_PR_WITNESSES;

verus! {

proof fn lemma_scale(c: int, k: int, x: int)
    requires
        c == k,
    ensures
        c * x == k * x,
        k == 0 ==> c * x == 0,
        k == 1 ==> c * x == x,
{
    assert(c * x == k * x && (k == 0 ==> c * x == 0) && (k == 1 ==> c * x == x)) by (nonlinear_arith)
        requires
            c == k,
    ;
}

/// `sum_{j < m} f(j)`.
pub open spec fn sum_to(f: spec_fn(int) -> int, m: nat) -> int
    decreases m,
{
    if m == 0 {
        0
    } else {
        sum_to(f, (m - 1) as nat) + f(m - 1)
    }
}

/// `sum_{i,j} a[i][j] <s_i, s_j>` over the 8 witness vectors of length `n`.
pub open spec fn quadratic_part(a: Seq<Seq<int>>, s: Seq<Seq<int>>, n: nat) -> int {
    sum_to(
        |i: int| sum_to(|j: int| a[i][j] * dot(s[i], s[j], n), NUM_PR_WITNESSES as nat),
        NUM_PR_WITNESSES as nat,
    )
}

/// The value `sum_{i,j} a[i][j] <s_i, s_j> + sum_i <phi[i], s_i>` of a quadratic
/// constraint at the witness vectors `s` (over the integers).
pub open spec fn quad_value(a: Seq<Seq<int>>, phi: Seq<Seq<int>>, s: Seq<Seq<int>>, n: nat) -> int {
    quadratic_part(a, s, n) + linear_form(phi, s, NUM_PR_WITNESSES as nat, n)
}

/// `sum_{p < n} x[p]`.
pub open spec fn total(x: Seq<int>, n: nat) -> int
    decreases n,
{
    if n == 0 {
        0
    } else {
        total(x, (n - 1) as nat) + x[n - 1]
    }
}

/// `x - 1`, entrywise.
pub open spec fn minus_one(x: Seq<int>, n: nat) -> Seq<int> {
    Seq::new(n, |p: int| x[p] - 1)
}

/// `w0 x0 + w1 x1 + w2 x2`, entrywise.
pub open spec fn lin3(w0: int, x0: Seq<int>, w1: int, x1: Seq<int>, w2: int, x2: Seq<int>, n: nat) -> Seq<int> {
    Seq::new(n, |p: int| w0 * x0[p] + w1 * x1[p] + w2 * x2[p])
}

proof fn lemma_dot_symmetric(x: Seq<int>, y: Seq<int>, n: nat)
    ensures
        dot(x, y, n) == dot(y, x, n),
    decreases n,
{
    if n > 0 {
        lemma_dot_symmetric(x, y, (n - 1) as nat);
        assert(x[n - 1] * y[n - 1] == y[n - 1] * x[n - 1]) by (nonlinear_arith);
    }
}

proof fn lemma_dot_constant(c: int, x: Seq<int>, y: Seq<int>, n: nat)
    requires
        n <= x.len(),
        forall|p: int| 0 <= p < n ==> x[p] == c,
    ensures
        dot(x, y, n) == c * total(y, n),
    decreases n,
{
    if n > 0 {
        lemma_dot_constant(c, x, y, (n - 1) as nat);
        assert(c * total(y, (n - 1) as nat) + c * y[n - 1] == c * (total(y, (n - 1) as nat) + y[n - 1]))
            by (nonlinear_arith);
    }
}

proof fn lemma_dot_minus_one(x: Seq<int>, y: Seq<int>, n: nat)
    requires
        n <= y.len(),
    ensures
        dot(x, minus_one(y, y.len()), n) == dot(x, y, n) - total(x, n),
    decreases n,
{
    if n > 0 {
        lemma_dot_minus_one(x, y, (n - 1) as nat);
        assert(minus_one(y, y.len())[n - 1] == y[n - 1] - 1);
        assert(x[n - 1] * (y[n - 1] - 1) == x[n - 1] * y[n - 1] - x[n - 1]) by (nonlinear_arith);
    }
}

proof fn lemma_dot_lin3_left(
    w0: int,
    x0: Seq<int>,
    w1: int,
    x1: Seq<int>,
    w2: int,
    x2: Seq<int>,
    y: Seq<int>,
    n: nat,
    m: nat,
)
    requires
        m <= n,
    ensures
        dot(lin3(w0, x0, w1, x1, w2, x2, n), y, m) == w0 * dot(x0, y, m) + w1 * dot(x1, y, m) + w2 * dot(
            x2,
            y,
            m,
        ),
    decreases m,
{
    if m > 0 {
        lemma_dot_lin3_left(w0, x0, w1, x1, w2, x2, y, n, (m - 1) as nat);
        let p = m - 1;
        let (a0, a1, a2) = (dot(x0, y, p as nat), dot(x1, y, p as nat), dot(x2, y, p as nat));
        let (e0, e1, e2, yy) = (x0[p], x1[p], x2[p], y[p]);
        let (u, v, t) = (w0 * e0, w1 * e1, w2 * e2);
        vstd::arithmetic::mul::lemma_mul_is_distributive_add_other_way(yy, u + v, t);
        vstd::arithmetic::mul::lemma_mul_is_distributive_add_other_way(yy, u, v);
        vstd::arithmetic::mul::lemma_mul_is_associative(w0, e0, yy);
        vstd::arithmetic::mul::lemma_mul_is_associative(w1, e1, yy);
        vstd::arithmetic::mul::lemma_mul_is_associative(w2, e2, yy);
        assert((w0 * e0 + w1 * e1 + w2 * e2) * yy == w0 * (e0 * yy) + w1 * (e1 * yy) + w2 * (e2 * yy));
        assert(w0 * (a0 + e0 * yy) == w0 * a0 + w0 * (e0 * yy)) by (nonlinear_arith);
        assert(w1 * (a1 + e1 * yy) == w1 * a1 + w1 * (e1 * yy)) by (nonlinear_arith);
        assert(w2 * (a2 + e2 * yy) == w2 * a2 + w2 * (e2 * yy)) by (nonlinear_arith);
        assert(lin3(w0, x0, w1, x1, w2, x2, n)[p] == w0 * e0 + w1 * e1 + w2 * e2);
    }
}

proof fn lemma_total_lin3(w0: int, x0: Seq<int>, w1: int, x1: Seq<int>, w2: int, x2: Seq<int>, n: nat, m: nat)
    requires
        m <= n,
    ensures
        total(lin3(w0, x0, w1, x1, w2, x2, n), m) == w0 * total(x0, m) + w1 * total(x1, m) + w2 * total(x2, m),
    decreases m,
{
    if m > 0 {
        lemma_total_lin3(w0, x0, w1, x1, w2, x2, n, (m - 1) as nat);
        let p = m - 1;
        let (a0, a1, a2) = (total(x0, p as nat), total(x1, p as nat), total(x2, p as nat));
        let (e0, e1, e2) = (x0[p], x1[p], x2[p]);
        assert(w0 * (a0 + e0) == w0 * a0 + w0 * e0) by (nonlinear_arith);
        assert(w1 * (a1 + e1) == w1 * a1 + w1 * e1) by (nonlinear_arith);
        assert(w2 * (a2 + e2) == w2 * a2 + w2 * e2) by (nonlinear_arith);
        assert(lin3(w0, x0, w1, x1, w2, x2, n)[p] == w0 * e0 + w1 * e1 + w2 * e2);
    }
}

proof fn lemma_sum_to_8(f: spec_fn(int) -> int)
    ensures
        sum_to(f, 8) == f(0) + f(1) + f(2) + f(3) + f(4) + f(5) + f(6) + f(7),
{
    reveal_with_fuel(sum_to, 9);
}

proof fn lemma_linear_form_8(phis: Seq<Seq<int>>, s: Seq<Seq<int>>, n: nat)
    ensures
        linear_form(phis, s, 8, n) == dot(phis[0], s[0], n) + dot(phis[1], s[1], n) + dot(phis[2], s[2], n) + dot(
            phis[3],
            s[3],
            n,
        ) + dot(phis[4], s[4], n) + dot(phis[5], s[5], n) + dot(phis[6], s[6], n) + dot(phis[7], s[7], n),
{
    reveal_with_fuel(linear_form, 9);
}

proof fn lemma_dot_zero(x: Seq<int>, y: Seq<int>, n: nat)
    requires
        n <= x.len(),
        forall|p: int| 0 <= p < n ==> x[p] == 0,
    ensures
        dot(x, y, n) == 0,
    decreases n,
{
    if n > 0 {
        lemma_dot_zero(x, y, (n - 1) as nat);
    }
}

/// Over any witness, the binary constraint between `x = s[idx]` and `x̃ = s[tilde]`
/// evaluates to `2 <x, x̃ - 1>`, that is `<x, x̃> + <x̃, x> - <2, x>`.
pub proof fn lemma_binary_constraint_value(idx: int, tilde: int, s: Seq<Seq<int>>, n: nat)
    requires
        0 <= idx < NUM_PR_WITNESSES,
        0 <= tilde < NUM_PR_WITNESSES,
        idx != tilde,
        s.len() == NUM_PR_WITNESSES,
        forall|w: int| 0 <= w < NUM_PR_WITNESSES ==> (#[trigger] s[w]).len() == n,
    ensures
        quad_value(
            matrix_spec(|i: int, j: int| binary_a_entry(idx, tilde, i, j)),
            phi_spec(n as int, |w: int| if w == idx { -2 } else { 0 }),
            s,
            n,
        ) == 2 * dot(s[idx], minus_one(s[tilde], n), n),
{
    let a = matrix_spec(|i: int, j: int| binary_a_entry(idx, tilde, i, j));
    let phi = phi_spec(n as int, |w: int| if w == idx { -2 } else { 0 });
    let row = |i: int| sum_to(|j: int| a[i][j] * dot(s[i], s[j], n), NUM_PR_WITNESSES as nat);
    assert forall|i: int| 0 <= i < 8 implies #[trigger] row(i) == (if i == idx {
        dot(s[idx], s[tilde], n)
    } else if i == tilde {
        dot(s[tilde], s[idx], n)
    } else {
        0
    }) by {
        lemma_sum_to_8(|j: int| a[i][j] * dot(s[i], s[j], n));
    }
    lemma_sum_to_8(row);
    lemma_dot_symmetric(s[idx], s[tilde], n);
    assert(quadratic_part(a, s, n) == 2 * dot(s[idx], s[tilde], n));
    lemma_linear_form_8(phi, s, n);
    assert forall|w: int| 0 <= w < 8 implies #[trigger] dot(phi[w], s[w], n) == (if w == idx {
        -2 * total(s[idx], n)
    } else {
        0
    }) by {
        if w == idx {
            lemma_dot_constant(-2, phi[w], s[w], n);
        } else {
            lemma_dot_zero(phi[w], s[w], n);
        }
    }
    assert(linear_form(phi, s, 8, n) == -2 * total(s[idx], n));
    lemma_dot_minus_one(s[idx], s[tilde], n);
    assert(minus_one(s[tilde], s[tilde].len()) == minus_one(s[tilde], n));
}

/// `k * x`, written out for the coefficients `0`, `1`, `-2`, `4` of the constraint matrices.
spec fn scaled(k: int, x: int) -> int {
    if k == 0 {
        0
    } else if k == 1 {
        x
    } else if k == -2 {
        -2 * x
    } else if k == 4 {
        4 * x
    } else {
        k * x
    }
}

proof fn lemma_scaled(k: int, x: int)
    ensures
        k * x == scaled(k, x),
{
    if k == 0 {
        lemma_scale(k, 0, x);
    } else if k == 1 {
        lemma_scale(k, 1, x);
    } else if k == -2 {
        lemma_scale(k, -2, x);
    } else if k == 4 {
        lemma_scale(k, 4, x);
    }
}

/// Row `i` of the quadratic part of the combined constraint, entry by entry.
proof fn lemma_combined_row(s: Seq<Seq<int>>, n: nat, i: int)
    requires
        0 <= i < 8,
    ensures
        ({
            let a = matrix_spec(|i: int, j: int| combined_a_entry(i, j));
            let dd = |i: int, j: int| dot(s[i], s[j], n);
            sum_to(|j: int| a[i][j] * dot(s[i], s[j], n), NUM_PR_WITNESSES as nat) == scaled(
                combined_a_entry(i, 0),
                dd(i, 0),
            ) + scaled(combined_a_entry(i, 1), dd(i, 1)) + scaled(combined_a_entry(i, 2), dd(i, 2)) + scaled(
                combined_a_entry(i, 3),
                dd(i, 3),
            ) + scaled(combined_a_entry(i, 4), dd(i, 4)) + scaled(combined_a_entry(i, 5), dd(i, 5)) + scaled(
                combined_a_entry(i, 6),
                dd(i, 6),
            ) + scaled(combined_a_entry(i, 7), dd(i, 7))
        }),
{
    let a = matrix_spec(|i: int, j: int| combined_a_entry(i, j));
    let f = |j: int| a[i][j] * dot(s[i], s[j], n);
    lemma_sum_to_8(f);
    assert forall|j: int| 0 <= j < 8 implies #[trigger] f(j) == scaled(combined_a_entry(i, j), dot(s[i], s[j], n)) by {
        assert(a[i][j] == combined_a_entry(i, j));
        lemma_scaled(combined_a_entry(i, j), dot(s[i], s[j], n));
    }
}

/// Over any witness, the combined constraint evaluates to
/// `2 <a + b - 2c, ã + b̃ - 2c̃ - 1>` for `a, b, c, ã, b̃, c̃ = s[0], s[1], s[2], s[4], s[5], s[6]`.
pub proof fn lemma_combined_constraint_value(s: Seq<Seq<int>>, n: nat)
    requires
        s.len() == NUM_PR_WITNESSES,
        forall|w: int| 0 <= w < NUM_PR_WITNESSES ==> (#[trigger] s[w]).len() == n,
    ensures
        quad_value(
            matrix_spec(|i: int, j: int| combined_a_entry(i, j)),
            phi_spec(n as int, |w: int| if 0 <= w < 3 { -2 * combination_weight(w) } else { 0 }),
            s,
            n,
        ) == 2 * dot(
            lin3(1, s[0], 1, s[1], -2, s[2], n),
            minus_one(lin3(1, s[4], 1, s[5], -2, s[6], n), n),
            n,
        ),
{
    let a = matrix_spec(|i: int, j: int| combined_a_entry(i, j));
    let phi = phi_spec(n as int, |w: int| if 0 <= w < 3 { -2 * combination_weight(w) } else { 0 });
    let x = lin3(1, s[0], 1, s[1], -2, s[2], n);
    let y = lin3(1, s[4], 1, s[5], -2, s[6], n);
    let dd = |i: int, j: int| dot(s[i], s[j], n);
    // the eight rows of the quadratic part
    let row = |i: int| sum_to(|j: int| a[i][j] * dot(s[i], s[j], n), NUM_PR_WITNESSES as nat);
    assert forall|i: int| 0 <= i < 8 implies #[trigger] row(i) == scaled(combined_a_entry(i, 0), dd(i, 0))
        + scaled(combined_a_entry(i, 1), dd(i, 1)) + scaled(combined_a_entry(i, 2), dd(i, 2)) + scaled(
        combined_a_entry(i, 3),
        dd(i, 3),
    ) + scaled(combined_a_entry(i, 4), dd(i, 4)) + scaled(combined_a_entry(i, 5), dd(i, 5)) + scaled(
        combined_a_entry(i, 6),
        dd(i, 6),
    ) + scaled(combined_a_entry(i, 7), dd(i, 7)) by {
        lemma_combined_row(s, n, i);
    }
    assert(row(0) == dd(0, 4) + dd(0, 5) - 2 * dd(0, 6));
    assert(row(1) == dd(1, 4) + dd(1, 5) - 2 * dd(1, 6));
    assert(row(2) == -2 * dd(2, 4) - 2 * dd(2, 5) + 4 * dd(2, 6));
    assert(row(3) == 0);
    assert(row(4) == dd(4, 0) + dd(4, 1) - 2 * dd(4, 2));
    assert(row(5) == dd(5, 0) + dd(5, 1) - 2 * dd(5, 2));
    assert(row(6) == -2 * dd(6, 0) - 2 * dd(6, 1) + 4 * dd(6, 2));
    assert(row(7) == 0);
    lemma_sum_to_8(row);
    // symmetry of the inner product pairs up rows u and u + 4
    lemma_dot_symmetric(s[0], s[4], n);
    lemma_dot_symmetric(s[0], s[5], n);
    lemma_dot_symmetric(s[0], s[6], n);
    lemma_dot_symmetric(s[1], s[4], n);
    lemma_dot_symmetric(s[1], s[5], n);
    lemma_dot_symmetric(s[1], s[6], n);
    lemma_dot_symmetric(s[2], s[4], n);
    lemma_dot_symmetric(s[2], s[5], n);
    lemma_dot_symmetric(s[2], s[6], n);
    let q = dd(0, 4) + dd(0, 5) - 2 * dd(0, 6) + dd(1, 4) + dd(1, 5) - 2 * dd(1, 6) - 2 * (dd(2, 4) + dd(2, 5) - 2
        * dd(2, 6));
    assert(quadratic_part(a, s, n) == 2 * q);
    // the linear part
    lemma_linear_form_8(phi, s, n);
    assert(dot(phi[0], s[0], n) == -2 * total(s[0], n)) by {
        lemma_dot_constant(-2, phi[0], s[0], n);
    }
    assert(dot(phi[1], s[1], n) == -2 * total(s[1], n)) by {
        lemma_dot_constant(-2, phi[1], s[1], n);
    }
    assert(dot(phi[2], s[2], n) == 4 * total(s[2], n)) by {
        assert(combination_weight(2) == -2);
        assert(forall|p: int| 0 <= p < n ==> phi[2][p] == 4);
        lemma_dot_constant(4, phi[2], s[2], n);
    }
    assert forall|w: int| 3 <= w < 8 implies #[trigger] dot(phi[w], s[w], n) == 0 by {
        lemma_dot_zero(phi[w], s[w], n);
    }
    lemma_total_lin3(1, s[0], 1, s[1], -2, s[2], n, n);
    assert(total(x, n) == total(s[0], n) + total(s[1], n) - 2 * total(s[2], n));
    assert(linear_form(phi, s, 8, n) == -2 * total(x, n));
    // the right-hand side
    lemma_dot_minus_one(x, y, n);
    assert(minus_one(y, y.len()) == minus_one(y, n));
    lemma_dot_lin3_left(1, s[0], 1, s[1], -2, s[2], y, n, n);
    lemma_dot_symmetric(s[0], y, n);
    lemma_dot_symmetric(s[1], y, n);
    lemma_dot_symmetric(s[2], y, n);
    lemma_dot_lin3_left(1, s[4], 1, s[5], -2, s[6], s[0], n, n);
    lemma_dot_lin3_left(1, s[4], 1, s[5], -2, s[6], s[1], n, n);
    lemma_dot_lin3_left(1, s[4], 1, s[5], -2, s[6], s[2], n, n);
    assert(dot(x, y, n) == q);
}

/// `sum_{j < nb}` of the constant coefficients of `polys[j]` times block `j` of `x`.
pub open spec fn poly_constant_terms(polys: Seq<Seq<int>>, x: Seq<int>, d: int, nb: nat) -> int
    decreases nb,
{
    if nb == 0 {
        0
    } else {
        poly_constant_terms(polys, x, d, (nb - 1) as nat) + negacyclic_constant_term(
            polys[nb - 1],
            block(x, nb - 1, d),
        )
    }
}

/// The constant coefficient of `sum_w <phis[w], xs[w]>` over the first `nw` witness
/// vectors, each of `nb` ring elements of `d` coefficients.
pub open spec fn constraint_constant_term(phis: Seq<Seq<Seq<int>>>, xs: Seq<Seq<int>>, d: int, nb: nat, nw: nat) -> int
    decreases nw,
{
    if nw == 0 {
        0
    } else {
        constraint_constant_term(phis, xs, d, nb, (nw - 1) as nat) + poly_constant_terms(
            phis[nw - 1],
            xs[nw - 1],
            d,
            nb,
        )
    }
}

proof fn lemma_wrap_sum_neg(x: Seq<int>, y: Seq<int>, l: int)
    requires
        l <= x.len() + 1,
    ensures
        wrap_sum(neg_seq(x), y, l) == -wrap_sum(x, y, l),
    decreases l,
{
    if l > 1 {
        lemma_wrap_sum_neg(x, y, l - 1);
        let q = x.len() - (l - 1);
        assert(neg_seq(x).len() == x.len());
        if 0 <= q < x.len() {
            assert(neg_seq(x)[q] == -x[q]);
        }
        assert(neg_seq(x)[q] * y[l - 1] == -(x[q] * y[l - 1])) by (nonlinear_arith)
            requires
                neg_seq(x)[q] == -x[q],
        ;
    }
}

proof fn lemma_wrap_sum_zero(x: Seq<int>, y: Seq<int>, l: int)
    requires
        forall|p: int| 0 <= p < x.len() ==> x[p] == 0,
        l <= x.len() + 1,
    ensures
        wrap_sum(x, y, l) == 0,
    decreases l,
{
    if l > 1 {
        lemma_wrap_sum_zero(x, y, l - 1);
        let q = x.len() - (l - 1);
        assert(x[q] == 0);
        assert(x[q] * y[l - 1] == 0);
    }
}

proof fn lemma_poly_constant_terms_embedded(alpha: Seq<bool>, x: Seq<int>, d: int, nb: nat, negate: bool)
    requires
        d >= 1,
    ensures
        poly_constant_terms(embedded_polys(alpha, d, nb, negate), x, d, nb) == if negate {
            -embedded_dot(alpha, x, d, nb)
        } else {
            embedded_dot(alpha, x, d, nb)
        },
    decreases nb,
{
    if nb > 0 {
        let j = nb - 1;
        lemma_poly_constant_terms_embedded(alpha, x, d, j as nat, negate);
        let polys = embedded_polys(alpha, d, nb, negate);
        let e = embedded_block(alpha, j, d);
        let y = block(x, j, d);
        assert forall|m: nat| m <= j implies #[trigger] poly_constant_terms(polys, x, d, m)
            == poly_constant_terms(embedded_polys(alpha, d, j as nat, negate), x, d, m) by {
            lemma_prefix_polys(alpha, d, nb, j as nat, negate, x, m);
        }
        assert(polys[j] == if negate { neg_seq(e) } else { e });
        assert(poly_constant_terms(polys, x, d, nb) == poly_constant_terms(polys, x, d, j as nat)
            + negacyclic_constant_term(polys[j], y));
        assert(embedded_dot(alpha, x, d, nb) == embedded_dot(alpha, x, d, j as nat) + negacyclic_constant_term(e, y));
        if negate {
            lemma_wrap_sum_neg(e, y, e.len() as int);
            assert(neg_seq(e).len() == e.len());
            assert(neg_seq(e)[0] == -e[0]) by {
                assert(e.len() == d);
            }
            assert(neg_seq(e)[0] * y[0] == -(e[0] * y[0])) by (nonlinear_arith)
                requires
                    neg_seq(e)[0] == -e[0],
            ;
        }
    }
}

proof fn lemma_prefix_polys(alpha: Seq<bool>, d: int, nb: nat, j: nat, negate: bool, x: Seq<int>, m: nat)
    requires
        m <= j,
        j <= nb,
    ensures
        poly_constant_terms(embedded_polys(alpha, d, nb, negate), x, d, m) == poly_constant_terms(
            embedded_polys(alpha, d, j, negate),
            x,
            d,
            m,
        ),
    decreases m,
{
    if m > 0 {
        lemma_prefix_polys(alpha, d, nb, j, negate, x, (m - 1) as nat);
        assert(embedded_polys(alpha, d, nb, negate)[m - 1] == embedded_polys(alpha, d, j, negate)[m - 1]);
    }
}

proof fn lemma_poly_constant_terms_zero(x: Seq<int>, d: int, nb: nat)
    requires
        d >= 1,
    ensures
        poly_constant_terms(zero_polys(d, nb), x, d, nb) == 0,
    decreases nb,
{
    if nb > 0 {
        let j = nb - 1;
        lemma_poly_constant_terms_zero(x, d, j as nat);
        assert forall|m: nat| m <= j implies #[trigger] poly_constant_terms(zero_polys(d, nb), x, d, m)
            == poly_constant_terms(zero_polys(d, j as nat), x, d, m) by {
            lemma_prefix_zero(d, nb, j as nat, x, m);
        }
        let z = zero_polys(d, nb)[j];
        assert(z.len() == d);
        assert forall|p: int| 0 <= p < z.len() implies z[p] == 0 by {}
        lemma_wrap_sum_zero(z, block(x, j, d), z.len() as int);
        assert(z[0] == 0);
        assert(z[0] * block(x, j, d)[0] == 0);
        assert(poly_constant_terms(zero_polys(d, nb), x, d, nb) == poly_constant_terms(zero_polys(d, nb), x, d, j as nat)
            + negacyclic_constant_term(z, block(x, j, d)));
    }
}

proof fn lemma_prefix_zero(d: int, nb: nat, j: nat, x: Seq<int>, m: nat)
    requires
        m <= j,
        j <= nb,
    ensures
        poly_constant_terms(zero_polys(d, nb), x, d, m) == poly_constant_terms(zero_polys(d, j), x, d, m),
    decreases m,
{
    if m > 0 {
        lemma_prefix_zero(d, nb, j, x, (m - 1) as nat);
        assert(zero_polys(d, nb)[m - 1] == zero_polys(d, j)[m - 1]);
    }
}

/// On constant coefficients, the constraint whose coefficients `linear_check_phis`
/// builds evaluates at witness vectors `a, b, c, w` (and any others) to
/// `<alpha, a> + <beta, b> + <gamma, c> - <delta, w>`.
pub proof fn lemma_linear_check_value(
    alpha: Seq<bool>,
    beta: Seq<bool>,
    gamma: Seq<bool>,
    delta: Seq<bool>,
    xs: Seq<Seq<int>>,
    d: int,
    nb: nat,
)
    requires
        d >= 1,
        alpha.len() == nb * d,
        beta.len() == nb * d,
        gamma.len() == nb * d,
        delta.len() == nb * d,
        xs.len() == NUM_PR_WITNESSES,
        forall|w: int| 0 <= w < 4 ==> (#[trigger] xs[w]).len() == nb * d,
    ensures
        constraint_constant_term(linear_check_spec(alpha, beta, gamma, delta, d, nb), xs, d, nb, NUM_PR_WITNESSES as nat)
            == bit_dot(alpha, xs[0], 0, (nb * d) as nat) + bit_dot(beta, xs[1], 0, (nb * d) as nat) + bit_dot(
            gamma,
            xs[2],
            0,
            (nb * d) as nat,
        ) - bit_dot(delta, xs[3], 0, (nb * d) as nat),
{
    let phis = linear_check_spec(alpha, beta, gamma, delta, d, nb);
    reveal_with_fuel(constraint_constant_term, 9);
    lemma_poly_constant_terms_embedded(alpha, xs[0], d, nb, false);
    lemma_poly_constant_terms_embedded(beta, xs[1], d, nb, false);
    lemma_poly_constant_terms_embedded(gamma, xs[2], d, nb, false);
    lemma_poly_constant_terms_embedded(delta, xs[3], d, nb, true);
    lemma_poly_constant_terms_zero(xs[4], d, nb);
    lemma_poly_constant_terms_zero(xs[5], d, nb);
    lemma_poly_constant_terms_zero(xs[6], d, nb);
    lemma_poly_constant_terms_zero(xs[7], d, nb);
    lemma_embedded_dot(alpha, xs[0], d, nb);
    lemma_embedded_dot(beta, xs[1], d, nb);
    lemma_embedded_dot(gamma, xs[2], d, nb);
    lemma_embedded_dot(delta, xs[3], d, nb);
    assert(phis[0] == embedded_polys(alpha, d, nb, false));
    assert(phis[1] == embedded_polys(beta, d, nb, false));
    assert(phis[2] == embedded_polys(gamma, d, nb, false));
    assert(phis[3] == embedded_polys(delta, d, nb, true));
    assert(phis[4] == zero_polys(d, nb));
    assert(phis[5] == zero_polys(d, nb));
    assert(phis[6] == zero_polys(d, nb));
    assert(phis[7] == zero_polys(d, nb));
}

} // verus!
