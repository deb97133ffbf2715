use vstd::prelude::*;

verus! {

/// `ceil(a / b)` for `b > 0`.
pub open spec fn spec_div_ceil(a: int, b: int) -> int {
    if a % b == 0 {
        a / b
    } else {
        a / b + 1
    }
}

/// Rounding-up division, as `usize::div_ceil`.
pub fn div_ceil(a: usize, b: usize) -> (r: usize)
    requires
        b > 0,
    ensures
        r == spec_div_ceil(a as int, b as int),
{
    let q = a / b;
    if a % b == 0 {
        q
    } else {
        proof {
            assert(q * b <= a) by (nonlinear_arith)
                requires
                    q == a / b,
                    b > 0,
            ;
            assert(q < a) by (nonlinear_arith)
                requires
                    q * b <= a,
                    b > 0,
                    a % b != 0,
                    q == a / b,
            ;
        }
        q + 1
    }
}

/// `spec_div_ceil(a, b)` is the least `c` with `c * b >= a`.
pub proof fn lemma_div_ceil_bounds(a: int, b: int)
    requires
        a >= 0,
        b > 0,
    ensures
        spec_div_ceil(a, b) * b >= a,
        spec_div_ceil(a, b) * b < a + b,
        spec_div_ceil(a, b) >= 0,
        spec_div_ceil(a, b) <= a,
{
    let q = a / b;
    let r = a % b;
    assert(a == q * b + r && 0 <= r < b && q >= 0) by (nonlinear_arith)
        requires
            q == a / b,
            r == a % b,
            b > 0,
            a >= 0,
    ;
    if r == 0 {
        assert(q <= a) by (nonlinear_arith)
            requires
                a == q * b,
                b > 0,
                q >= 0,
        ;
    } else {
        assert((q + 1) * b == q * b + b) by (nonlinear_arith);
        assert(q + 1 <= a) by (nonlinear_arith)
            requires
                a == q * b + r,
                0 < r < b,
                q >= 0,
        ;
    }
}

/// Every `c` with `c * b >= a` is at least `spec_div_ceil(a, b)`.
pub proof fn lemma_div_ceil_least(a: int, b: int, c: int)
    requires
        a >= 0,
        b > 0,
        c * b >= a,
    ensures
        c >= spec_div_ceil(a, b),
{
    lemma_div_ceil_bounds(a, b);
    let e = spec_div_ceil(a, b);
    if c < e {
        assert(c * b <= (e - 1) * b) by (nonlinear_arith)
            requires
                c <= e - 1,
                b > 0,
        ;
        assert((e - 1) * b == e * b - b) by (nonlinear_arith);
    }
}

/// Integer dimensions of an instance of the principal relation: the number of
/// witness vectors, their length, and the numbers of quadratic constraints and of
/// constraints on constant coefficients.
#[derive(Clone, Copy, Debug, PartialEq, Eq, Structural)]
pub struct SizeDims {
    pub num_witnesses: usize,
    pub witness_len: usize,
    pub num_constraints: usize,
    pub num_constant_constraints: usize,
}

/// The size of the instance obtained by folding one round of the protocol: the
/// next instance's dimensions, the number of ring elements of the decomposed `z`,
/// `t`, `g` and `h` witnesses, and the number of witness vectors given to `z`
/// (`2 * nu`) and to `t`, `g`, `h` together (`mu`).
#[derive(Clone, Copy, Debug, PartialEq, Eq, Structural)]
pub struct FoldedSize {
    pub size: SizeDims,
    pub size_z: usize,
    pub size_t: usize,
    pub size_g: usize,
    pub size_h: usize,
    pub nu: usize,
    pub mu: usize,
}

impl FoldedSize {
    /// Number of ring elements of the decomposed `t`, `g` and `h` witnesses together.
    pub open spec fn size_t_g_h(&self) -> int {
        self.size_t + self.size_g + self.size_h
    }

    /// Number of witness vectors that the decomposed `z` occupies.
    pub fn num_witnesses_z(&self) -> (r: usize)
        requires
            self.size.witness_len > 0,
        ensures
            r == spec_div_ceil(self.size_z as int, self.size.witness_len as int),
    {
        div_ceil(self.size_z, self.size.witness_len)
    }

    /// Number of witness vectors that the decomposed `t`, `g` and `h` occupy together.
    pub fn num_witnesses_t_g_h(&self) -> (r: usize)
        requires
            self.size.witness_len > 0,
            self.size_t_g_h() <= usize::MAX,
        ensures
            r == spec_div_ceil(self.size_t_g_h(), self.size.witness_len as int),
    {
        div_ceil(self.size_t + self.size_g + self.size_h, self.size.witness_len)
    }
}

} // verus!
