use vstd::prelude::*;

use crate::size::{FoldedSize, SizeDims, div_ceil, spec_div_ceil, lemma_div_ceil_bounds, lemma_div_ceil_least};

verus! {

/// Number of ring elements of the decomposed `z` (two parts of length `n`).
pub open spec fn spec_size_z(n: int) -> int {
    2 * n
}

/// Number of entries of a symmetric `r x r` matrix: `ceil(r * (r + 1) / 2)`.
pub open spec fn spec_num_sym_entries(r: int) -> int {
    spec_div_ceil(r * (r + 1), 2)
}

/// Absolute value.
pub open spec fn abs(x: int) -> int {
    if x < 0 {
        -x
    } else {
        x
    }
}

/// Numerator of `| s / mu - z / (2 * nu) |` over the denominator `2 * mu * nu`.
pub open spec fn gap_num(s: int, z: int, mu: int, nu: int) -> int {
    abs(s * (2 * nu) - z * mu)
}

/// Denominator of the gap: `2 * mu * nu`.
pub open spec fn gap_den(mu: int, nu: int) -> int {
    2 * mu * nu
}

/// The splitting `(mu1, nu1)` balances `s / mu` against `z / (2 * nu)` strictly better
/// than `(mu2, nu2)`: its gap is smaller, compared exactly as fractions.
pub open spec fn better_split(s: int, z: int, mu1: int, nu1: int, mu2: int, nu2: int) -> bool {
    gap_num(s, z, mu1, nu1) * gap_den(mu2, nu2) < gap_num(s, z, mu2, nu2) * gap_den(mu1, nu1)
}

/// `(mu1, nu1)` comes before `(mu2, nu2)` when `mu` runs in the outer loop and `nu` in the inner one.
pub open spec fn split_before(mu1: int, nu1: int, mu2: int, nu2: int) -> bool {
    mu1 < mu2 || (mu1 == mu2 && nu1 < nu2)
}

/// A candidate splitting: `1 <= mu < s` and `1 <= nu < z`.
pub open spec fn split_candidate(s: int, z: int, mu: int, nu: int) -> bool {
    1 <= mu < s && 1 <= nu < z
}

/// `(mu, nu)` is the first candidate, in loop order, whose gap no candidate beats:
/// no candidate is strictly better, and it is strictly better than every earlier one.
pub open spec fn is_best_split(s: int, z: int, mu: int, nu: int) -> bool {
    &&& split_candidate(s, z, mu, nu)
    &&& forall|mu2: int, nu2: int|
        #![trigger better_split(s, z, mu2, nu2, mu, nu)]
        split_candidate(s, z, mu2, nu2) ==> !better_split(s, z, mu2, nu2, mu, nu)
    &&& forall|mu2: int, nu2: int|
        #![trigger better_split(s, z, mu, nu, mu2, nu2)]
        split_candidate(s, z, mu2, nu2) && split_before(mu2, nu2, mu, nu) ==> better_split(
            s,
            z,
            mu,
            nu,
            mu2,
            nu2,
        )
}

/// There is at most one best splitting.
pub proof fn lemma_best_split_unique(s: int, z: int, mu1: int, nu1: int, mu2: int, nu2: int)
    requires
        is_best_split(s, z, mu1, nu1),
        is_best_split(s, z, mu2, nu2),
    ensures
        mu1 == mu2,
        nu1 == nu2,
{
    if split_before(mu1, nu1, mu2, nu2) {
        assert(better_split(s, z, mu2, nu2, mu1, nu1));
        assert(!better_split(s, z, mu2, nu2, mu1, nu1));
    } else if split_before(mu2, nu2, mu1, nu1) {
        assert(better_split(s, z, mu1, nu1, mu2, nu2));
        assert(!better_split(s, z, mu1, nu1, mu2, nu2));
    }
}

/// The gap of a splitting is `| s / mu - z / (2 nu) |`, kept as the fraction
/// `| 2 nu s - mu z | / (2 mu nu)`: its numerator times `2 mu nu` is the gap times
/// `(2 mu nu)^2` in exact arithmetic, and its denominator is `2 mu nu`.
pub proof fn lemma_gap_fraction(s: int, z: int, mu: int, nu: int)
    ensures
        gap_den(mu, nu) == 2 * mu * nu,
        gap_num(s, z, mu, nu) == abs(2 * nu * s - mu * z),
        mu >= 1 && nu >= 1 ==> gap_den(mu, nu) > 0,
{
    assert(s * (2 * nu) == 2 * nu * s && z * mu == mu * z) by (nonlinear_arith);
    if mu >= 1 && nu >= 1 {
        lemma_gap_den_pos(mu, nu);
    }
}

/// The best splitting balances the two lengths per vector at least as well as every
/// candidate: `| s / mu - z / (2 nu) | <= | s / mu' - z / (2 nu') |` for all
/// `1 <= mu' < s`, `1 <= nu' < z`, compared as exact fractions (cross-multiplied by
/// the positive denominators `2 mu nu` and `2 mu' nu'`); candidates that come before
/// it in loop order (`mu` outer, `nu` inner) are strictly worse.
pub proof fn lemma_best_split_minimizes_gap(s: int, z: int, mu: int, nu: int)
    requires
        is_best_split(s, z, mu, nu),
    ensures
        1 <= mu < s,
        1 <= nu < z,
        forall|mu2: int, nu2: int|
            #![trigger split_candidate(s, z, mu2, nu2)]
            split_candidate(s, z, mu2, nu2) ==> abs(2 * nu * s - mu * z) * (2 * mu2 * nu2) <= abs(
                2 * nu2 * s - mu2 * z,
            ) * (2 * mu * nu),
        forall|mu2: int, nu2: int|
            #![trigger split_candidate(s, z, mu2, nu2)]
            split_candidate(s, z, mu2, nu2) && (mu2 < mu || (mu2 == mu && nu2 < nu)) ==> abs(2 * nu * s - mu * z) * (2
                * mu2 * nu2) < abs(2 * nu2 * s - mu2 * z) * (2 * mu * nu),
{
    lemma_gap_fraction(s, z, mu, nu);
    assert forall|mu2: int, nu2: int|
        #![trigger split_candidate(s, z, mu2, nu2)]
        split_candidate(s, z, mu2, nu2) implies abs(2 * nu * s - mu * z) * (2 * mu2 * nu2) <= abs(
            2 * nu2 * s - mu2 * z,
        ) * (2 * mu * nu) by {
        lemma_gap_fraction(s, z, mu2, nu2);
        assert(split_candidate(s, z, mu2, nu2));
        assert(!better_split(s, z, mu2, nu2, mu, nu));
    }
    assert forall|mu2: int, nu2: int|
        #![trigger split_candidate(s, z, mu2, nu2)]
        split_candidate(s, z, mu2, nu2) && (mu2 < mu || (mu2 == mu && nu2 < nu)) implies abs(2 * nu * s - mu * z) * (2
            * mu2 * nu2) < abs(2 * nu2 * s - mu2 * z) * (2 * mu * nu) by {
        lemma_gap_fraction(s, z, mu2, nu2);
        assert(split_candidate(s, z, mu2, nu2));
        assert(split_before(mu2, nu2, mu, nu));
        assert(better_split(s, z, mu, nu, mu2, nu2));
    }
}

proof fn lemma_gap_den_pos(mu: int, nu: int)
    requires
        mu >= 1,
        nu >= 1,
    ensures
        gap_den(mu, nu) > 0,
{
    assert(2 * mu * nu > 0) by (nonlinear_arith)
        requires
            mu >= 1,
            nu >= 1,
    ;
}

/// `a / b < c / d` and `c / d <= e / f` give `a / b < e / f` (positive denominators).
proof fn lemma_frac_lt_le(a: int, b: int, c: int, d: int, e: int, f: int)
    requires
        b > 0,
        d > 0,
        f > 0,
        a * d < c * b,
        c * f <= e * d,
    ensures
        a * f < e * b,
{
    assert(a * d * f < c * b * f) by (nonlinear_arith)
        requires
            a * d < c * b,
            f > 0,
    ;
    assert(c * f * b <= e * d * b) by (nonlinear_arith)
        requires
            c * f <= e * d,
            b > 0,
    ;
    assert(a * f * d < e * b * d) by (nonlinear_arith)
        requires
            a * d * f < c * b * f,
            c * f * b <= e * d * b,
    ;
    assert(a * f < e * b) by (nonlinear_arith)
        requires
            a * f * d < e * b * d,
            d > 0,
    ;
}

/// Computes whether `(mu1, nu1)` is a strictly better splitting than `(mu2, nu2)`.
fn better_split_exec(s: usize, z: usize, mu1: usize, nu1: usize, mu2: usize, nu2: usize) -> (r: bool)
    requires
        8 * (s * z) <= usize::MAX,
        split_candidate(s as int, z as int, mu1 as int, nu1 as int),
        split_candidate(s as int, z as int, mu2 as int, nu2 as int),
    ensures
        r == better_split(s as int, z as int, mu1 as int, nu1 as int, mu2 as int, nu2 as int),
{
    proof {
        assert(s * z <= 0x4000_0000_0000_0000) by (nonlinear_arith)
            requires
                8 * (s * z) <= usize::MAX,
                usize::MAX <= 0xffff_ffff_ffff_ffff,
        ;
        assert(s * nu1 <= s * z && s * nu2 <= s * z && z * mu1 <= s * z && z * mu2 <= s * z
            && mu1 * nu1 <= s * z && mu2 * nu2 <= s * z) by (nonlinear_arith)
            requires
                1 <= mu1 < s,
                1 <= nu1 < z,
                1 <= mu2 < s,
                1 <= nu2 < z,
        ;
    }
    proof {
        assert(s * (2 * nu1) <= 0x8000_0000_0000_0000 && s * (2 * nu2) <= 0x8000_0000_0000_0000) by (nonlinear_arith)
            requires
                s * nu1 <= s * z,
                s * nu2 <= s * z,
                s * z <= 0x4000_0000_0000_0000,
        ;
    }
    let s128 = s as u128;
    let z128 = z as u128;
    let a1: u128 = s128 * (2 * nu1 as u128);
    let b1: u128 = z128 * (mu1 as u128);
    let a2: u128 = s128 * (2 * nu2 as u128);
    let b2: u128 = z128 * (mu2 as u128);
    let num1: u128 = if a1 >= b1 { a1 - b1 } else { b1 - a1 };
    let num2: u128 = if a2 >= b2 { a2 - b2 } else { b2 - a2 };
    proof {
        assert(2 * mu1 * nu1 <= 0x8000_0000_0000_0000 && 2 * mu2 * nu2 <= 0x8000_0000_0000_0000
            && 2 * mu1 <= 0x8000_0000_0000_0000 && 2 * mu2 <= 0x8000_0000_0000_0000) by (nonlinear_arith)
            requires
                mu1 * nu1 <= s * z,
                mu2 * nu2 <= s * z,
                s * z <= 0x4000_0000_0000_0000,
                1 <= nu1,
                1 <= nu2,
        ;
    }
    let den1: u128 = 2 * (mu1 as u128) * (nu1 as u128);
    let den2: u128 = 2 * (mu2 as u128) * (nu2 as u128);
    proof {
        assert(a1 == s * (2 * nu1)) by (nonlinear_arith)
            requires
                a1 == s * (2 * nu1),
        ;
        assert(num1 <= 0x8000_0000_0000_0000 && num2 <= 0x8000_0000_0000_0000) by (nonlinear_arith)
            requires
                a1 == s * (2 * nu1),
                a2 == s * (2 * nu2),
                b1 == z * mu1,
                b2 == z * mu2,
                s * nu1 <= s * z,
                s * nu2 <= s * z,
                z * mu1 <= s * z,
                z * mu2 <= s * z,
                s * z <= 0x4000_0000_0000_0000,
                num1 <= a1 || num1 <= b1,
                num2 <= a2 || num2 <= b2,
        ;
        assert(den1 <= 0x8000_0000_0000_0000 && den2 <= 0x8000_0000_0000_0000) by (nonlinear_arith)
            requires
                den1 == 2 * mu1 * nu1,
                den2 == 2 * mu2 * nu2,
                mu1 * nu1 <= s * z,
                mu2 * nu2 <= s * z,
                s * z <= 0x4000_0000_0000_0000,
        ;
        assert(num1 * den2 <= 0x4000_0000_0000_0000_0000_0000_0000_0000) by (nonlinear_arith)
            requires
                num1 <= 0x8000_0000_0000_0000,
                den2 <= 0x8000_0000_0000_0000,
        ;
        assert(num2 * den1 <= 0x4000_0000_0000_0000_0000_0000_0000_0000) by (nonlinear_arith)
            requires
                num2 <= 0x8000_0000_0000_0000,
                den1 <= 0x8000_0000_0000_0000,
        ;
        assert(num1 == gap_num(s as int, z as int, mu1 as int, nu1 as int));
        assert(num2 == gap_num(s as int, z as int, mu2 as int, nu2 as int));
    }
    num1 * den2 < num2 * den1
}

/// Chooses the number `2 * nu` of witness vectors for the decomposed `z` (of `z`
/// ring elements) and the number `mu` for `t`, `g`, `h` together (of `s` ring
/// elements) so that the two lengths per vector `z / (2 * nu)` and `s / mu` are as
/// close as possible; returns `(nu, mu)`.
pub fn find_splitting(s: usize, z: usize) -> (r: (usize, usize))
    requires
        s >= 2,
        z >= 2,
        8 * (s * z) <= usize::MAX,
    ensures
        is_best_split(s as int, z as int, r.1 as int, r.0 as int),
        1 <= r.1 < s,
        1 <= r.0 < z,
        forall|mu2: int, nu2: int|
            #![trigger split_candidate(s as int, z as int, mu2, nu2)]
            split_candidate(s as int, z as int, mu2, nu2) ==> abs(2 * r.0 * s - r.1 * z) * (2 * mu2 * nu2) <= abs(
                2 * nu2 * s - mu2 * z,
            ) * (2 * r.1 * r.0),
{
    let mut best_mu: usize = 1;
    let mut best_nu: usize = 1;
    let mut mu: usize = 1;
    while mu < s
        invariant
            s >= 2,
            z >= 2,
            8 * (s * z) <= usize::MAX,
            1 <= mu <= s,
            split_candidate(s as int, z as int, best_mu as int, best_nu as int),
            (best_mu == 1 && best_nu == 1) || best_mu < mu,
            forall|mu2: int, nu2: int|
                #![trigger better_split(s as int, z as int, mu2, nu2, best_mu as int, best_nu as int)]
                split_candidate(s as int, z as int, mu2, nu2) && mu2 < mu ==> !better_split(
                    s as int,
                    z as int,
                    mu2,
                    nu2,
                    best_mu as int,
                    best_nu as int,
                ),
            forall|mu2: int, nu2: int|
                #![trigger better_split(s as int, z as int, best_mu as int, best_nu as int, mu2, nu2)]
                split_candidate(s as int, z as int, mu2, nu2) && split_before(
                    mu2,
                    nu2,
                    best_mu as int,
                    best_nu as int,
                ) ==> better_split(s as int, z as int, best_mu as int, best_nu as int, mu2, nu2),
        decreases s - mu,
    {
        let mut nu: usize = 1;
        while nu < z
            invariant
                s >= 2,
                z >= 2,
                8 * (s * z) <= usize::MAX,
                1 <= mu < s,
                1 <= nu <= z,
                split_candidate(s as int, z as int, best_mu as int, best_nu as int),
                (best_mu == 1 && best_nu == 1) || split_before(
                    best_mu as int,
                    best_nu as int,
                    mu as int,
                    nu as int,
                ),
                forall|mu2: int, nu2: int|
                    #![trigger better_split(s as int, z as int, mu2, nu2, best_mu as int, best_nu as int)]
                    split_candidate(s as int, z as int, mu2, nu2) && split_before(
                        mu2,
                        nu2,
                        mu as int,
                        nu as int,
                    ) ==> !better_split(s as int, z as int, mu2, nu2, best_mu as int, best_nu as int),
                forall|mu2: int, nu2: int|
                    #![trigger better_split(s as int, z as int, best_mu as int, best_nu as int, mu2, nu2)]
                    split_candidate(s as int, z as int, mu2, nu2) && split_before(
                        mu2,
                        nu2,
                        best_mu as int,
                        best_nu as int,
                    ) ==> better_split(s as int, z as int, best_mu as int, best_nu as int, mu2, nu2),
            decreases z - nu,
        {
            let ghost old_mu = best_mu;
            let ghost old_nu = best_nu;
            if better_split_exec(s, z, mu, nu, best_mu, best_nu) {
                best_mu = mu;
                best_nu = nu;
                proof {
                    let si = s as int;
                    let zi = z as int;
                    assert forall|mu2: int, nu2: int|
                        split_candidate(si, zi, mu2, nu2) && split_before(
                            mu2,
                            nu2,
                            mu as int,
                            nu as int,
                        ) implies #[trigger] better_split(si, zi, mu as int, nu as int, mu2, nu2) by {
                        assert(!better_split(si, zi, mu2, nu2, old_mu as int, old_nu as int));
                        lemma_gap_den_pos(mu as int, nu as int);
                        lemma_gap_den_pos(old_mu as int, old_nu as int);
                        lemma_gap_den_pos(mu2, nu2);
                        lemma_frac_lt_le(
                            gap_num(si, zi, mu as int, nu as int),
                            gap_den(mu as int, nu as int),
                            gap_num(si, zi, old_mu as int, old_nu as int),
                            gap_den(old_mu as int, old_nu as int),
                            gap_num(si, zi, mu2, nu2),
                            gap_den(mu2, nu2),
                        );
                    }
                    assert forall|mu2: int, nu2: int|
                        split_candidate(si, zi, mu2, nu2) && split_before(
                            mu2,
                            nu2,
                            mu as int,
                            nu as int + 1,
                        ) implies !#[trigger] better_split(si, zi, mu2, nu2, mu as int, nu as int) by {
                        if mu2 == mu && nu2 == nu {
                        } else {
                            assert(better_split(si, zi, mu as int, nu as int, mu2, nu2));
                            if better_split(si, zi, mu2, nu2, mu as int, nu as int) {
                                lemma_gap_den_pos(mu as int, nu as int);
                                lemma_gap_den_pos(mu2, nu2);
                                lemma_frac_lt_le(
                                    gap_num(si, zi, mu as int, nu as int),
                                    gap_den(mu as int, nu as int),
                                    gap_num(si, zi, mu2, nu2),
                                    gap_den(mu2, nu2),
                                    gap_num(si, zi, mu as int, nu as int),
                                    gap_den(mu as int, nu as int),
                                );
                            }
                        }
                    }
                }
            }
            nu = nu + 1;
        }
        mu = mu + 1;
    }
    proof {
        lemma_best_split_minimizes_gap(s as int, z as int, best_mu as int, best_nu as int);
    }
    (best_nu, best_mu)
}

/// The integer parameters of the common reference string of one round of the
/// protocol (its matrices and its floating-point norm bound are held elsewhere).
#[derive(Clone, Copy, Debug, PartialEq, Eq, Structural)]
pub struct CrsParams {
    pub sec_param: usize,
    /// Number of witness vectors
    pub r: usize,
    /// Number of entries in a witness vector
    pub n: usize,
    /// Dimension of the polynomial ring
    pub d: usize,
    /// Size of the first-level commitment
    pub k: usize,
    /// Size of the second-level commitment for elements decomposed in basis `b1`
    pub k1: usize,
    /// Size of the second-level commitment for elements decomposed in basis `b2`
    pub k2: usize,
    /// Length of decompositions in basis `b1`
    pub t1: usize,
    /// Length of decompositions in basis `b2`
    pub t2: usize,
    /// Number of aggregated constraints when reducing constant constraints
    pub num_aggregs: usize,
    /// Number of quadratic-linear constraints
    pub num_constraints: usize,
    /// Number of quadratic-linear constraints on constant coefficients
    pub num_constant_constraints: usize,
    /// Decomposition basis for z-vectors
    pub b: u128,
    /// Decomposition basis for first-level commitments (t-vectors)
    pub b1: u128,
    /// Decomposition basis for inner product terms (g)
    pub b2: u128,
}

impl CrsParams {
    /// Ring elements of the decomposed `t`: `t1` parts of the `r` commitments of length `k`.
    pub open spec fn spec_size_t(&self) -> int {
        self.r * self.t1 * self.k
    }

    /// Ring elements of the decomposed `g`: `t2` parts of a symmetric `r x r` matrix.
    pub open spec fn spec_size_g(&self) -> int {
        spec_num_sym_entries(self.r as int) * self.t2
    }

    /// Ring elements of the decomposed `h`: `t1` parts of a symmetric `r x r` matrix.
    pub open spec fn spec_size_h(&self) -> int {
        spec_num_sym_entries(self.r as int) * self.t1
    }

    /// Ring elements of `t`, `g` and `h` together.
    pub open spec fn spec_size_t_g_h(&self) -> int {
        self.spec_size_t() + self.spec_size_g() + self.spec_size_h()
    }

    /// Number of quadratic constraints of the folded instance: `k` for the commitment
    /// `A z`, one each for `<z, z>`, for the `phi` terms and for the aggregated
    /// constant, `k1` for `u_1` and `k2` for `u_2`.
    pub open spec fn spec_next_num_constraints(&self) -> int {
        self.k + 3 + self.k1 + self.k2
    }

    /// The sizes of the next round can be computed in machine integers: the
    /// products the computation forms fit, and the search over the `(s - 1) * (z - 1)`
    /// splittings stays below a machine bound; there is at least one splitting.
    pub open spec fn next_size_in_range(&self) -> bool {
        &&& self.n >= 1
        &&& self.r * (self.r + 1) <= usize::MAX
        &&& self.r * self.t1 <= usize::MAX
        &&& self.spec_size_t() <= usize::MAX
        &&& self.spec_size_g() <= usize::MAX
        &&& self.spec_size_h() <= usize::MAX
        &&& self.spec_size_t_g_h() >= 2
        &&& 8 * (self.spec_size_t_g_h() * spec_size_z(self.n as int)) <= usize::MAX
        &&& self.spec_next_num_constraints() <= usize::MAX
    }

    /// Sizes for the next round of the protocol: how the decomposed `z`, `t`, `g`,
    /// `h` of this round become the witness vectors of the next one.
    pub fn next_size(&self) -> (fs: FoldedSize)
        requires
            self.next_size_in_range(),
        ensures
            fs.size_z == spec_size_z(self.n as int),
            fs.size_t == self.spec_size_t(),
            fs.size_g == self.spec_size_g(),
            fs.size_h == self.spec_size_h(),
            is_best_split(self.spec_size_t_g_h(), spec_size_z(self.n as int), fs.mu as int, fs.nu as int),
            fs.size.witness_len == if spec_div_ceil(fs.size_z as int, 2 * fs.nu) >= spec_div_ceil(
                fs.size_t_g_h(),
                fs.mu as int,
            ) {
                spec_div_ceil(fs.size_z as int, 2 * fs.nu)
            } else {
                spec_div_ceil(fs.size_t_g_h(), fs.mu as int)
            },
            fs.size.num_witnesses == 2 * fs.nu + fs.mu,
            fs.size.num_constraints == self.spec_next_num_constraints(),
            fs.size.num_constraints == self.k + 3 + self.k1 + self.k2,
            fs.size_z == 2 * self.n,
            fs.size_t == self.r * self.t1 * self.k,
            fs.size.num_witnesses == 2 * fs.nu + fs.mu,
            2 * fs.nu * fs.size.witness_len >= fs.size_z,
            fs.mu * fs.size.witness_len >= fs.size_t + fs.size_g + fs.size_h,
            fs.size.num_constant_constraints == 0,
            fs.size.witness_len > 0,
            fs.fits_layout(),
            2 * fs.nu >= spec_div_ceil(fs.size_z as int, fs.size.witness_len as int),
            fs.mu >= spec_div_ceil(fs.size_t_g_h(), fs.size.witness_len as int),
    {
        let size_zi = self.n;
        let z_decomp_len: usize = 2;
        proof {
            assert(self.n <= 2 * self.n);
            assert(spec_size_z(self.n as int) <= usize::MAX) by (nonlinear_arith)
                requires
                    8 * (self.spec_size_t_g_h() * spec_size_z(self.n as int)) <= usize::MAX,
                    self.spec_size_t_g_h() >= 2,
                    spec_size_z(self.n as int) >= 0,
            ;
            assert(self.r * self.t1 * self.k == (self.r * self.t1) * self.k);
            assert(self.r + 1 <= usize::MAX) by (nonlinear_arith)
                requires
                    self.r * (self.r + 1) <= usize::MAX,
                    self.r >= 0,
            ;
            assert(self.spec_size_t_g_h() <= usize::MAX) by (nonlinear_arith)
                requires
                    8 * (self.spec_size_t_g_h() * spec_size_z(self.n as int)) <= usize::MAX,
                    spec_size_z(self.n as int) >= 2,
                    self.spec_size_t_g_h() >= 2,
            ;
        }
        let size_z = z_decomp_len * size_zi;
        let size_t = self.r * self.t1 * self.k;
        let sym = div_ceil(self.r * (self.r + 1), 2);
        let size_g = sym * self.t2;
        let size_h = sym * self.t1;
        let size_t_g_h = size_t + size_g + size_h;
        let (best_nu, best_mu) = find_splitting(size_t_g_h, size_z);
        let ghost s = size_t_g_h as int;
        let ghost z = size_z as int;
        proof {
            assert(2 * best_nu <= usize::MAX) by (nonlinear_arith)
                requires
                    best_nu < z,
                    8 * (s * z) <= usize::MAX,
                    s >= 2,
            ;
        }
        let a = div_ceil(size_z, z_decomp_len * best_nu);
        let b = div_ceil(size_t_g_h, best_mu);
        let n_next = if a >= b { a } else { b };
        proof {
            lemma_div_ceil_bounds(z, 2 * best_nu);
            lemma_div_ceil_bounds(s, best_mu as int);
            // n_next is positive: z >= 2 needs at least one row.
            assert(a >= 1) by (nonlinear_arith)
                requires
                    a * (2 * best_nu) >= z,
                    z >= 2,
            ;
            // each of z and s fits in the vectors given to it
            assert(2 * best_nu * n_next >= z) by (nonlinear_arith)
                requires
                    a * (2 * best_nu) >= z,
                    n_next >= a,
                    best_nu >= 1,
            ;
            assert(best_mu * n_next >= s) by (nonlinear_arith)
                requires
                    b * best_mu >= s,
                    n_next >= b,
                    best_mu >= 1,
            ;
            lemma_div_ceil_least(z, n_next as int, 2 * best_nu);
            lemma_div_ceil_least(s, n_next as int, best_mu as int);
            // the layout length stays below 8 * s * z
            assert((2 * best_nu) * a < z + 2 * best_nu);
            assert(b * best_mu < s + best_mu);
            assert(best_mu * b == b * best_mu) by (nonlinear_arith);
            assert(a <= z && b <= s);
            assert(n_next <= a + b);
            assert((2 * best_nu + best_mu) * n_next <= (2 * best_nu + best_mu) * (a + b)) by (nonlinear_arith)
                requires
                    n_next <= a + b,
                    0 <= n_next,
                    best_nu >= 1,
            ;
            assert((2 * best_nu + best_mu) * (a + b) == (2 * best_nu) * a + (2 * best_nu) * b
                + best_mu * a + best_mu * b) by (nonlinear_arith);
            assert((2 * best_nu) * b <= 2 * z * s) by (nonlinear_arith)
                requires
                    best_nu < z,
                    0 <= b <= s,
            ;
            assert(best_mu * a <= s * z) by (nonlinear_arith)
                requires
                    best_mu < s,
                    0 <= a <= z,
            ;
            assert(3 * z + 2 * s <= 5 * (s * z)) by (nonlinear_arith)
                requires
                    s >= 2,
                    z >= 2,
            ;
            assert((2 * best_nu + best_mu) * n_next <= 8 * (s * z)) by (nonlinear_arith)
                requires
                    (2 * best_nu + best_mu) * n_next <= (2 * best_nu + best_mu) * (a + b),
                    (2 * best_nu + best_mu) * (a + b) == (2 * best_nu) * a + (2 * best_nu) * b
                        + best_mu * a + best_mu * b,
                    (2 * best_nu) * a < z + 2 * best_nu,
                    best_mu * b < s + best_mu,
                    (2 * best_nu) * b <= 2 * z * s,
                    best_mu * a <= s * z,
                    3 * z + 2 * s <= 5 * (s * z),
                    best_nu < z,
                    best_mu < s,
            ;
            assert(size_z / 2 == self.n);
            assert(best_nu * n_next >= self.n) by (nonlinear_arith)
                requires
                    2 * best_nu * n_next >= 2 * self.n,
            ;
            assert(2 * best_nu * n_next + s <= (2 * best_nu + best_mu) * n_next) by (nonlinear_arith)
                requires
                    best_mu * n_next >= s,
            ;
        }
        let r_next = z_decomp_len * best_nu + best_mu;
        let num_quad_constraints = self.k + 1 + 1 + 1 + self.k1 + self.k2;
        FoldedSize {
            size: SizeDims {
                num_witnesses: r_next,
                witness_len: n_next,
                num_constraints: num_quad_constraints,
                num_constant_constraints: 0,
            },
            size_z,
            size_t,
            size_g,
            size_h,
            nu: best_nu,
            mu: best_mu,
        }
    }
}

/// Number of aggregated constant-coefficient constraints for a modulus of
/// `log_q_bits` bits: `ceil(128 / log q)`, so that their soundness errors multiply
/// to `2^-128`.
pub fn num_aggregs(log_q_bits: usize) -> (r: usize)
    requires
        log_q_bits > 0,
    ensures
        r == spec_div_ceil(128, log_q_bits as int),
{
    div_ceil(128, log_q_bits)
}

/// Bound on the infinity norm of the amortized opening `z = sum_i c_i s_i`:
/// `r * ||c_i||_inf * floor(beta)`, which the main decomposition basis is chosen from.
pub fn z_linf_norm_bound(r: usize, challenge_linf_norm: u128, beta_floor: u128) -> (b: u128)
    requires
        r * challenge_linf_norm * beta_floor <= u128::MAX,
    ensures
        b == r * challenge_linf_norm * beta_floor,
{
    proof {
        assert(r * challenge_linf_norm <= u128::MAX || beta_floor == 0) by (nonlinear_arith)
            requires
                r * challenge_linf_norm * beta_floor <= u128::MAX,
        ;
    }
    if beta_floor == 0 {
        proof {
            assert(r * challenge_linf_norm * beta_floor == 0) by (nonlinear_arith)
                requires
                    beta_floor == 0,
            ;
        }
        0
    } else {
        (r as u128) * challenge_linf_norm * beta_floor
    }
}

/// Size in bits of a proof that stops after this round: the outer commitments
/// `u_1`, `u_2` (`(k1 + k2) d log q`), the 256 coordinates of the JL projection of
/// `jl_coeff_bits` bits each, the aggregated constants (`num_aggregs d log q`) and
/// four 128-bit challenges.
pub open spec fn spec_proof_size(p: CrsParams, log_q: int, jl_coeff_bits: int) -> int {
    (p.k1 + p.k2) * p.d * log_q + 256 * jl_coeff_bits + p.num_aggregs * p.d * log_q + 4 * 128
}

/// Size in bits of the last prover message if this round were the last: `z`
/// (`n d` coefficients of `z_coeff_bits` bits), `t` (`r k d log q`), and `g`, `h`
/// (`r (r + 1) / 2` ring elements each, of `g_coeff_bits` and `log q` bits per coefficient).
pub open spec fn spec_last_prover_message_size(p: CrsParams, log_q: int, z_coeff_bits: int, g_coeff_bits: int) -> int {
    let tmp = (p.r * (p.r + 1)) / 2 * p.d;
    p.n * p.d * z_coeff_bits + p.r * p.k * p.d * log_q + tmp * g_coeff_bits + tmp * log_q
}

/// The folded instance has one quadratic constraint per row of the commitment `A`
/// (`k` of them), three more, and one per row of each outer commitment: with `k1`
/// and `k2` fixed, one more row of `A` gives exactly one more constraint.
pub proof fn lemma_next_num_constraints_rows(p: CrsParams, q: CrsParams)
    requires
        q.k == p.k + 1,
        q.k1 == p.k1,
        q.k2 == p.k2,
    ensures
        p.spec_next_num_constraints() == p.k + 3 + p.k1 + p.k2,
        q.spec_next_num_constraints() == p.spec_next_num_constraints() + 1,
{
}

/// The proof size counts the outer commitments `(k1 + k2) d log q`, the JL
/// projection `256 jl_coeff_bits`, the aggregated constants `num_aggregs d log q`
/// and four 128-bit challenges: between two parameter sets over the same ring, the
/// sizes differ by `(k1 + k2)` and `num_aggregs` each weighted by `d log q`, and
/// `k1 + k2` enters nowhere else.
pub proof fn lemma_proof_size_terms(p: CrsParams, q: CrsParams, log_q: int, jl_coeff_bits: int)
    requires
        p.d == q.d,
    ensures
        spec_proof_size(p, log_q, jl_coeff_bits) == (p.k1 + p.k2) * p.d * log_q + 256 * jl_coeff_bits
            + p.num_aggregs * p.d * log_q + 4 * 128,
        spec_proof_size(q, log_q, jl_coeff_bits) - spec_proof_size(p, log_q, jl_coeff_bits) == ((q.k1 + q.k2) - (
        p.k1 + p.k2)) * p.d * log_q + (q.num_aggregs - p.num_aggregs) * p.d * log_q,
        q.num_aggregs == p.num_aggregs + 1 && q.k1 + q.k2 == p.k1 + p.k2 ==> spec_proof_size(q, log_q, jl_coeff_bits)
            == spec_proof_size(p, log_q, jl_coeff_bits) + p.d * log_q,
{
    let (a, b, c, e, dl) = (p.k1 + p.k2, q.k1 + q.k2, p.num_aggregs as int, q.num_aggregs as int, p.d * log_q);
    assert(b * p.d * log_q - a * p.d * log_q + e * p.d * log_q - c * p.d * log_q == (b - a) * p.d * log_q + (e - c)
        * p.d * log_q) by (nonlinear_arith);
    assert(e == c + 1 ==> e * p.d * log_q == c * p.d * log_q + p.d * log_q) by (nonlinear_arith);
}

impl CrsParams {
    /// See `spec_proof_size`; the numbers of bits per JL coordinate (computed from the
    /// norm bound) is `jl_coeff_bits`.
    pub fn proof_size(&self, log_q: usize, jl_coeff_bits: usize) -> (r: usize)
        requires
            spec_proof_size(*self, log_q as int, jl_coeff_bits as int) <= usize::MAX,
            self.k1 + self.k2 <= usize::MAX,
            (self.k1 + self.k2) * self.d <= usize::MAX,
            self.num_aggregs * self.d <= usize::MAX,
        ensures
            r == spec_proof_size(*self, log_q as int, jl_coeff_bits as int),
            r == (self.k1 + self.k2) * self.d * log_q + 256 * jl_coeff_bits + self.num_aggregs * self.d * log_q + 4
                * 128,
    {
        proof {
            let a = (self.k1 + self.k2) * self.d * log_q;
            let b = 256 * jl_coeff_bits;
            let c = self.num_aggregs * self.d * log_q;
            assert(a >= 0 && b >= 0 && c >= 0) by (nonlinear_arith)
                requires
                    a == (self.k1 + self.k2) * self.d * log_q,
                    b == 256 * jl_coeff_bits,
                    c == self.num_aggregs * self.d * log_q,
            ;
        }
        (self.k1 + self.k2) * self.d * log_q + 256 * jl_coeff_bits + self.num_aggregs * self.d * log_q + 4
            * 128
    }

    /// See `spec_last_prover_message_size`.
    pub fn last_prover_message_size(&self, log_q: usize, z_coeff_bits: usize, g_coeff_bits: usize) -> (m: usize)
        requires
            spec_last_prover_message_size(*self, log_q as int, z_coeff_bits as int, g_coeff_bits as int)
                <= usize::MAX,
            self.r * (self.r + 1) <= usize::MAX,
            (self.r * (self.r + 1)) / 2 * self.d <= usize::MAX,
            self.n * self.d <= usize::MAX,
            self.r * self.k <= usize::MAX,
            self.r * self.k * self.d <= usize::MAX,
        ensures
            m == spec_last_prover_message_size(*self, log_q as int, z_coeff_bits as int, g_coeff_bits as int),
            m == self.n * self.d * z_coeff_bits + self.r * self.k * self.d * log_q + (self.r * (self.r + 1)) / 2
                * self.d * g_coeff_bits + (self.r * (self.r + 1)) / 2 * self.d * log_q,
    {
        proof {
            assert(self.r + 1 <= usize::MAX) by (nonlinear_arith)
                requires
                    self.r * (self.r + 1) <= usize::MAX,
                    self.r >= 0,
            ;
            let tmp = (self.r * (self.r + 1)) / 2 * self.d;
            let a = self.n * self.d * z_coeff_bits;
            let b = self.r * self.k * self.d * log_q;
            let c = tmp * g_coeff_bits;
            let e = tmp * log_q;
            assert(tmp >= 0) by (nonlinear_arith)
                requires
                    tmp == (self.r * (self.r + 1)) / 2 * self.d,
            ;
            assert(a >= 0 && b >= 0 && c >= 0 && e >= 0) by (nonlinear_arith)
                requires
                    a == self.n * self.d * z_coeff_bits,
                    b == self.r * self.k * self.d * log_q,
                    c == tmp * g_coeff_bits,
                    e == tmp * log_q,
                    tmp >= 0,
            ;
        }
        let tmp = (self.r * (self.r + 1)) / 2 * self.d;
        self.n * self.d * z_coeff_bits + self.r * self.k * self.d * log_q + tmp * g_coeff_bits + tmp * log_q
    }
}

/// There is a next round of the protocol exactly when sending this round's last
/// prover message in the clear would cost more than a proof that recurses once more.
pub fn has_next_round(last_prover_message_size: usize, proof_size: usize) -> (r: bool)
    ensures
        r == (last_prover_message_size > proof_size),
{
    last_prover_message_size > proof_size
}

impl CrsParams {
    /// Whether `next_size` may be called on these parameters (see `next_size_in_range`).
    pub fn can_compute_next_size(&self) -> (ok: bool)
        ensures
            ok == self.next_size_in_range(),
    {
        let max = usize::MAX as u128;
        let r = self.r as u128;
        let t1 = self.t1 as u128;
        let t2 = self.t2 as u128;
        let k = self.k as u128;
        if self.n < 1 {
            return false;
        }
        proof {
            assert(r * (r + 1) <= 0xffff_ffff_ffff_ffff * 0x1_0000_0000_0000_0000) by (nonlinear_arith)
                requires
                    r <= 0xffff_ffff_ffff_ffff,
            ;
            assert(r * t1 <= 0xffff_ffff_ffff_ffff * 0xffff_ffff_ffff_ffff) by (nonlinear_arith)
                requires
                    r <= 0xffff_ffff_ffff_ffff,
                    t1 <= 0xffff_ffff_ffff_ffff,
            ;
        }
        let rr = r * (r + 1);
        if rr > max {
            return false;
        }
        let rt1 = r * t1;
        if rt1 > max {
            return false;
        }
        proof {
            assert(rt1 * k <= 0xffff_ffff_ffff_ffff * 0xffff_ffff_ffff_ffff) by (nonlinear_arith)
                requires
                    rt1 <= 0xffff_ffff_ffff_ffff,
                    k <= 0xffff_ffff_ffff_ffff,
            ;
        }
        let size_t = rt1 * k;
        if size_t > max {
            return false;
        }
        let sym = (rr / 2) + (rr % 2);
        proof {
            assert(sym == spec_div_ceil(r * (r + 1), 2));
            assert(sym * t2 <= 0xffff_ffff_ffff_ffff * 0xffff_ffff_ffff_ffff) by (nonlinear_arith)
                requires
                    sym <= 0xffff_ffff_ffff_ffff,
                    t2 <= 0xffff_ffff_ffff_ffff,
            ;
            assert(sym * t1 <= 0xffff_ffff_ffff_ffff * 0xffff_ffff_ffff_ffff) by (nonlinear_arith)
                requires
                    sym <= 0xffff_ffff_ffff_ffff,
                    t1 <= 0xffff_ffff_ffff_ffff,
            ;
            assert(self.spec_size_t() == size_t) by (nonlinear_arith)
                requires
                    size_t == rt1 * k,
                    rt1 == r * t1,
                    self.spec_size_t() == self.r * self.t1 * self.k,
                    r == self.r,
                    t1 == self.t1,
                    k == self.k,
            ;
        }
        let size_g = sym * t2;
        let size_h = sym * t1;
        if size_g > max || size_h > max {
            return false;
        }
        let s = size_t + size_g + size_h;
        if s < 2 {
            return false;
        }
        let z = 2 * (self.n as u128);
        if s > max || z > max {
            proof {
                assert(8 * (s * z) > usize::MAX) by (nonlinear_arith)
                    requires
                        s > max || z > max,
                        s >= 2,
                        z >= 2,
                        max == usize::MAX,
                ;
            }
            return false;
        }
        proof {
            assert(s * z <= 0xffff_ffff_ffff_ffff * 0xffff_ffff_ffff_ffff) by (nonlinear_arith)
                requires
                    s <= 0xffff_ffff_ffff_ffff,
                    z <= 0xffff_ffff_ffff_ffff,
            ;
        }
        let sz = s * z;
        if sz > max / 8 {
            return false;
        }
        let nq = (self.k as u128) + 3 + (self.k1 as u128) + (self.k2 as u128);
        nq <= max
    }
}

} // verus!
