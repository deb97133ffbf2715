use vstd::prelude::*;

verus! {

/// `F_2` embedded in the integers: `1` for `true`, `0` for `false`.
pub open spec fn bit(b: bool) -> int {
    if b {
        1
    } else {
        0
    }
}

/// `sum_{m < len} bit(alpha[start + m]) * a[start + m]`.
pub open spec fn bit_dot(alpha: Seq<bool>, a: Seq<int>, start: int, len: nat) -> int
    decreases len,
{
    if len == 0 {
        0
    } else {
        bit_dot(alpha, a, start, (len - 1) as nat) + bit(alpha[start + len - 1]) * a[start + len - 1]
    }
}

/// `sum_{1 <= m < l} x[d - m] * y[m]` for `d = x.len()`: the part of the constant
/// coefficient of `x * y` in `Z[X] / (X^d + 1)` that wraps around.
pub open spec fn wrap_sum(x: Seq<int>, y: Seq<int>, l: int) -> int
    decreases l,
{
    if l <= 1 {
        0
    } else {
        wrap_sum(x, y, l - 1) + x[x.len() - (l - 1)] * y[l - 1]
    }
}

/// The constant coefficient of the product of the polynomials with coefficients `x`
/// and `y` (both of length `d`) in `Z[X] / (X^d + 1)`: `x_0 y_0 - sum_{m >= 1} x_{d-m} y_m`.
pub open spec fn negacyclic_constant_term(x: Seq<int>, y: Seq<int>) -> int {
    x[0] * y[0] - wrap_sum(x, y, x.len() as int)
}

/// The coefficients of the ring element that block `j` of `alpha` (entries
/// `j d .. j d + d`) is embedded as: `alpha_{jd}` at `X^0` and `-alpha_{jd + m}` at `X^{d - m}`.
pub open spec fn embedded_block(alpha: Seq<bool>, j: int, d: int) -> Seq<int> {
    Seq::new(
        d as nat,
        |p: int|
            if p == 0 {
                bit(alpha[j * d])
            } else {
                -bit(alpha[j * d + d - p])
            },
    )
}

/// Block `j` of length `d` of `a`.
pub open spec fn block(a: Seq<int>, j: int, d: int) -> Seq<int> {
    a.subrange(j * d, j * d + d)
}

/// Sum over the first `nblocks` blocks of the constant coefficients of
/// (embedded block of `alpha`) times (block of `a`).
pub open spec fn embedded_dot(alpha: Seq<bool>, a: Seq<int>, d: int, nblocks: nat) -> int
    decreases nblocks,
{
    if nblocks == 0 {
        0
    } else {
        embedded_dot(alpha, a, d, (nblocks - 1) as nat) + negacyclic_constant_term(
            embedded_block(alpha, nblocks - 1, d),
            block(a, nblocks - 1, d),
        )
    }
}

proof fn lemma_wrap_sum_block(alpha: Seq<bool>, a: Seq<int>, j: int, d: int, l: int)
    requires
        d >= 1,
        j >= 0,
        j * d + d <= alpha.len(),
        j * d + d <= a.len(),
        1 <= l <= d,
    ensures
        wrap_sum(embedded_block(alpha, j, d), block(a, j, d), l) == -(bit_dot(alpha, a, j * d, l as nat)
            - bit(alpha[j * d]) * a[j * d]),
    decreases l,
{
    assert(0 <= j * d) by (nonlinear_arith)
        requires
            j >= 0,
            d >= 1,
    ;
    if l == 1 {
        assert(bit_dot(alpha, a, j * d, 0) == 0);
        assert(bit_dot(alpha, a, j * d, 1) == bit(alpha[j * d]) * a[j * d]);
    } else {
        lemma_wrap_sum_block(alpha, a, j, d, l - 1);
        let x = embedded_block(alpha, j, d);
        let y = block(a, j, d);
        assert(x.len() == d);
        assert(x[d - (l - 1)] == -bit(alpha[j * d + l - 1]));
        assert(y[l - 1] == a[j * d + l - 1]);
        assert(bit_dot(alpha, a, j * d, l as nat) == bit_dot(alpha, a, j * d, (l - 1) as nat) + bit(
            alpha[j * d + l - 1],
        ) * a[j * d + l - 1]);
        assert(wrap_sum(x, y, l) == wrap_sum(x, y, l - 1) + x[x.len() - (l - 1)] * y[l - 1]);
        assert(x[d - (l - 1)] * y[l - 1] == -(bit(alpha[j * d + l - 1]) * a[j * d + l - 1])) by (nonlinear_arith)
            requires
                x[d - (l - 1)] == -bit(alpha[j * d + l - 1]),
                y[l - 1] == a[j * d + l - 1],
        ;
    }
}

/// The embedding of a block of a binary vector turns the inner product with a block
/// of `a` into the constant coefficient of a product in `Z[X] / (X^d + 1)`.
pub proof fn lemma_embedded_block_constant_term(alpha: Seq<bool>, a: Seq<int>, j: int, d: int)
    requires
        d >= 1,
        j >= 0,
        j * d + d <= alpha.len(),
        j * d + d <= a.len(),
    ensures
        negacyclic_constant_term(embedded_block(alpha, j, d), block(a, j, d)) == bit_dot(
            alpha,
            a,
            j * d,
            d as nat,
        ),
{
    assert(0 <= j * d) by (nonlinear_arith)
        requires
            j >= 0,
            d >= 1,
    ;
    lemma_wrap_sum_block(alpha, a, j, d, d);
    let x = embedded_block(alpha, j, d);
    let y = block(a, j, d);
    assert(x[0] == bit(alpha[j * d]));
    assert(y[0] == a[j * d]);
}

/// `bit_dot` over `l1 + l2` entries splits into `l1` and then `l2` entries.
pub proof fn lemma_bit_dot_split(alpha: Seq<bool>, a: Seq<int>, start: int, l1: nat, l2: nat)
    ensures
        bit_dot(alpha, a, start, l1 + l2) == bit_dot(alpha, a, start, l1) + bit_dot(
            alpha,
            a,
            start + l1,
            l2,
        ),
    decreases l2,
{
    if l2 > 0 {
        lemma_bit_dot_split(alpha, a, start, l1, (l2 - 1) as nat);
        assert((l1 + l2 - 1) as nat == l1 + (l2 - 1) as nat);
    }
}

/// Summed over all blocks, the constant coefficients of the embedded products give
/// the inner product of `alpha` with `a` over the integers (and so modulo any `q`).
pub proof fn lemma_embedded_dot(alpha: Seq<bool>, a: Seq<int>, d: int, nblocks: nat)
    requires
        d >= 1,
        nblocks * d <= alpha.len(),
        nblocks * d <= a.len(),
    ensures
        embedded_dot(alpha, a, d, nblocks) == bit_dot(alpha, a, 0, (nblocks * d) as nat),
    decreases nblocks,
{
    if nblocks == 0 {
        assert(nblocks * d == 0) by (nonlinear_arith)
            requires
                nblocks == 0,
        ;
    }
    if nblocks > 0 {
        let j = nblocks - 1;
        assert(j * d + d == nblocks * d) by (nonlinear_arith)
            requires
                j == nblocks - 1,
        ;
        assert(j * d >= 0) by (nonlinear_arith)
            requires
                j >= 0,
                d >= 1,
        ;
        assert(j * d <= nblocks * d) by (nonlinear_arith)
            requires
                j == nblocks - 1,
                d >= 1,
        ;
        lemma_embedded_dot(alpha, a, d, j as nat);
        lemma_embedded_block_constant_term(alpha, a, j, d);
        lemma_bit_dot_split(alpha, a, 0, (j * d) as nat, d as nat);
        assert(((j * d) as nat + d as nat) as nat == (nblocks * d) as nat);
        assert(0 + (j * d) as nat == j * d);
        assert(embedded_dot(alpha, a, d, nblocks) == embedded_dot(alpha, a, d, j as nat)
            + negacyclic_constant_term(embedded_block(alpha, j, d), block(a, j, d)));
        assert(embedded_dot(alpha, a, d, j as nat) == bit_dot(alpha, a, 0, (j * d) as nat));
        assert(negacyclic_constant_term(embedded_block(alpha, j, d), block(a, j, d)) == bit_dot(alpha, a, j * d, d as nat));
        assert(bit_dot(alpha, a, 0, ((j * d) as nat + d as nat) as nat) == bit_dot(alpha, a, 0, (j * d) as nat) + bit_dot(alpha, a, j * d, d as nat));
    }
}

/// Embeds the first `k = (k / d) * d` entries of the binary vector `alpha` as `k / d` elements of
/// `Z_q[X] / (X^d + 1)` (given by their `d` coefficients, each in `{-1, 0, 1}`) such
/// that the constant coefficient of the product with `a` (cut into blocks of `d`
/// entries) is the inner product of the first `k` entries of `alpha` with `a`; entries
/// of `alpha` from `k` on are not read.
pub fn embed_zq_linear_rq_linear(alpha: &Vec<bool>, k: usize, d: usize) -> (r: Vec<Vec<i8>>)
    requires
        d >= 1,
        k % d == 0,
        alpha@.len() >= k,
    ensures
        r@.len() == k / d,
        forall|j: int|
            0 <= j < k / d ==> (#[trigger] r@[j])@.map_values(|c: i8| c as int) == embedded_block(
                alpha@,
                j,
                d as int,
            ),
        forall|j: int, p: int| 0 <= j < k / d && 0 <= p < d ==> -1 <= #[trigger] r@[j]@[p] <= 1,
{
    let nblocks = k / d;
    proof {
        assert(nblocks * d == k) by (nonlinear_arith)
            requires
                k % d == 0,
                nblocks == k / d,
                d >= 1,
        ;
    }
    let mut out: Vec<Vec<i8>> = Vec::with_capacity(nblocks);
    let mut j: usize = 0;
    while j < nblocks
        invariant
            nblocks == k / d,
            nblocks * d == k,
            alpha@.len() >= k,
            d >= 1,
            j <= nblocks,
            out@.len() == j,
            forall|jj: int|
                0 <= jj < j ==> (#[trigger] out@[jj])@.map_values(|c: i8| c as int) == embedded_block(
                    alpha@,
                    jj,
                    d as int,
                ),
            forall|jj: int, pp: int| 0 <= jj < j && 0 <= pp < d ==> -1 <= #[trigger] out@[jj]@[pp] <= 1,
        decreases nblocks - j,
    {
        proof {
            assert(j * d + d <= k) by (nonlinear_arith)
                requires
                    j < nblocks,
                    nblocks * d == k,
                    d >= 1,
            ;
        }
        let base = j * d;
        let mut coeffs: Vec<i8> = Vec::with_capacity(d);
        let mut p: usize = 0;
        while p < d
            invariant
                base == j * d,
                base + d <= k,
                alpha@.len() >= k,
                d >= 1,
                p <= d,
                coeffs@.len() == p,
                forall|pp: int|
                    0 <= pp < p ==> (#[trigger] coeffs@[pp]) as int == embedded_block(alpha@, j as int, d as int)[pp],
                forall|pp: int| 0 <= pp < p ==> -1 <= #[trigger] coeffs@[pp] <= 1,
            decreases d - p,
        {
            let c: i8 = if p == 0 {
                if alpha[base] { 1 } else { 0 }
            } else {
                if alpha[base + d - p] { -1 } else { 0 }
            };
            coeffs.push(c);
            p = p + 1;
        }
        assert(coeffs@.map_values(|c: i8| c as int) =~= embedded_block(alpha@, j as int, d as int));
        out.push(coeffs);
        j = j + 1;
    }
    out
}

} // verus!
