use vstd::prelude::*;

use crate::modulus::{digits_value, modulus_as_u128};
use crate::size::{SizeDims, div_ceil, spec_div_ceil};

verus! {

/// Bits of security the reductions of R1CS to the principal relation aim for.
pub const SECURITY_PARAMETER: usize = 128;

/// Number of witness vectors of the principal relation that an R1CS instance is
/// reduced to: `a`, `b`, `c`, `w` and their images `ã`, `b̃`, `c̃`, `w̃`.
pub const NUM_PR_WITNESSES: usize = 8;

/// Why the dimensions of an R1CS instance or the ring's modulus cannot be used.
#[derive(Clone, Copy, Debug, PartialEq, Eq, Structural)]
pub enum ParamError {
    /// The number of constraints is not a multiple of the ring dimension `d`.
    ConstraintsNotMultipleOfDimension,
    /// The number of variables is not a multiple of the ring dimension `d`.
    VariablesNotMultipleOfDimension,
    /// `n + 3k` is not below the modulus `q`, which soundness needs.
    ModulusBelowWitnessLength,
    /// `6k` is not below the modulus `q`, which soundness needs.
    ModulusBelowSixConstraints,
    /// `n + 3k` is not below `15 q / 128`, which composing with the core protocol needs.
    ModulusBelowCompositionBound,
}

/// The first check that fails for `k` constraints, `n` variables, ring dimension
/// `d` and modulus `q`, in the order in which they are made; `None` when all pass.
pub open spec fn r1cs_param_error(k: int, n: int, d: int, q: int) -> Option<ParamError> {
    if k % d != 0 {
        Some(ParamError::ConstraintsNotMultipleOfDimension)
    } else if n % d != 0 {
        Some(ParamError::VariablesNotMultipleOfDimension)
    } else if n + 3 * k >= q {
        Some(ParamError::ModulusBelowWitnessLength)
    } else if 6 * k >= q {
        Some(ParamError::ModulusBelowSixConstraints)
    } else if SECURITY_PARAMETER * (n + 3 * k) >= 15 * q {
        Some(ParamError::ModulusBelowCompositionBound)
    } else {
        None
    }
}

/// `x < q` for the modulus `q` given as `modulus_as_u128` gives it.
fn lt_modulus(x: u128, q: Option<u128>, ghost_q: Ghost<nat>) -> (r: bool)
    requires
        q == (if ghost_q@ <= u128::MAX { Some(ghost_q@ as u128) } else { None::<u128> }),
    ensures
        r == (x < ghost_q@),
{
    match q {
        Some(v) => x < v,
        None => true,
    }
}

/// Checks the dimensions of an R1CS instance with `num_constraints` constraints and
/// `num_variables` variables against the ring dimension `d` and the ring's modulus,
/// given by its little-endian `u64` digits.
pub fn check_r1cs_params(
    num_constraints: usize,
    num_variables: usize,
    d: usize,
    modulus_digits: &Vec<u64>,
) -> (r: Result<(), ParamError>)
    requires
        d > 0,
        SECURITY_PARAMETER * (num_variables + 3 * num_constraints) <= usize::MAX,
        6 * num_constraints <= usize::MAX,
    ensures
        r == (match r1cs_param_error(
            num_constraints as int,
            num_variables as int,
            d as int,
            digits_value(modulus_digits@) as int,
        ) {
            Some(e) => Err::<(), ParamError>(e),
            None => Ok(()),
        }),
{
    let k = num_constraints;
    let n = num_variables;
    if k % d != 0 {
        return Err(ParamError::ConstraintsNotMultipleOfDimension);
    }
    if n % d != 0 {
        return Err(ParamError::VariablesNotMultipleOfDimension);
    }
    let ghost qv = digits_value(modulus_digits@);
    let q = modulus_as_u128(modulus_digits);
    let len = n + 3 * k;
    if !lt_modulus(len as u128, q, Ghost(qv)) {
        return Err(ParamError::ModulusBelowWitnessLength);
    }
    if !lt_modulus((6 * k) as u128, q, Ghost(qv)) {
        return Err(ParamError::ModulusBelowSixConstraints);
    }
    let scaled = SECURITY_PARAMETER * len;
    let composable = match q {
        Some(v) => {
            if v <= u128::MAX / 15 {
                (scaled as u128) < 15 * v
            } else {
                proof {
                    assert(15 * v > u128::MAX - 15);
                    assert(scaled <= 0xffff_ffff_ffff_ffff);
                }
                true
            }
        },
        None => true,
    };
    if !composable {
        return Err(ParamError::ModulusBelowCompositionBound);
    }
    Ok(())
}

/// Size of the commitment of the binary R1CS reduction and shape of its matrix `A`:
/// `ceil(h / d)` rows, for the MSIS rank `h`, and `ceil((3k + n) / d)` columns.
pub fn binary_r1cs_commitment_shape(h: usize, num_constraints: usize, num_variables: usize, d: usize) -> (r: (
    usize,
    usize,
))
    requires
        d > 0,
        3 * num_constraints + num_variables <= usize::MAX,
    ensures
        r.0 == spec_div_ceil(h as int, d as int),
        r.1 == spec_div_ceil(3 * num_constraints + num_variables, d as int),
{
    (div_ceil(h, d), div_ceil(3 * num_constraints + num_variables, d))
}

/// Dimensions of the (plain) R1CS reduction's reference string.
#[derive(Clone, Copy, Debug, PartialEq, Eq, Structural)]
pub struct R1CSDims {
    /// Rank of the commitment to `a || b || c || w`
    pub m: usize,
    /// Rank of the commitment to the `d` vectors
    pub m_d: usize,
    /// Number of repetitions: soundness `2 p^-l` with `p ~ 2^18`
    pub l: usize,
    /// Rows and columns of the matrix `A`
    pub a_rows: usize,
    pub a_cols: usize,
    /// Rows and columns of the matrix `B`
    pub b_rows: usize,
    pub b_cols: usize,
}

/// Dimensions of the R1CS reduction's reference string for `num_constraints`
/// constraints, `num_variables` variables and ring dimension `d`.
pub fn r1cs_dims(num_constraints: usize, num_variables: usize, d: usize) -> (r: R1CSDims)
    requires
        d > 0,
        3 * num_constraints + num_variables <= usize::MAX,
        8 * num_constraints <= usize::MAX,
    ensures
        r.m == 10,
        r.m_d == 10,
        r.l == spec_div_ceil(SECURITY_PARAMETER - 1, 18),
        r.l == 8,
        r.a_rows == spec_div_ceil(10, d as int),
        r.a_cols == spec_div_ceil(3 * num_constraints + num_variables, d as int),
        r.b_rows == spec_div_ceil(10, d as int),
        r.b_cols == r.l * num_constraints,
{
    let m: usize = 10;
    let m_d: usize = 10;
    let l = div_ceil(SECURITY_PARAMETER - 1, 18);
    let rows = div_ceil(m, d);
    R1CSDims {
        m,
        m_d,
        l,
        a_rows: rows,
        a_cols: div_ceil(3 * num_constraints + num_variables, d),
        b_rows: rows,
        b_cols: l * num_constraints,
    }
}

/// Dimensions of the principal relation that an R1CS instance with `num_variables`
/// variables is reduced to, with a commitment of `commitment_output_size` ring
/// elements: 8 witness vectors of `ceil(n / d)` ring elements, `m + 3 ceil(n / d)`
/// quadratic constraints and `4 + 1 + 128` constraints on constant coefficients.
pub fn principal_relation_size(num_variables: usize, commitment_output_size: usize, d: usize) -> (r: SizeDims)
    requires
        d > 0,
        commitment_output_size + 3 * spec_div_ceil(num_variables as int, d as int) <= usize::MAX,
    ensures
        r.num_witnesses == NUM_PR_WITNESSES,
        r.witness_len == spec_div_ceil(num_variables as int, d as int),
        r.num_constraints == commitment_output_size + 3 * r.witness_len,
        r.num_constant_constraints == 4 + 1 + SECURITY_PARAMETER,
{
    let n_pr = div_ceil(num_variables, d);
    SizeDims {
        num_witnesses: NUM_PR_WITNESSES,
        witness_len: n_pr,
        num_constraints: commitment_output_size + 3 * n_pr,
        num_constant_constraints: 4 + 1 + SECURITY_PARAMETER,
    }
}

/// Maps each element of `F_2` (given as a `bool`) to the ring's `zero` or `one`.
#[allow(non_snake_case)]
pub fn Z2_to_R_vec<T: Copy>(vec: &Vec<bool>, zero: T, one: T) -> (r: Vec<T>)
    ensures
        r@ == vec@.map_values(|x: bool| if x { one } else { zero }),
{
    let mut out: Vec<T> = Vec::with_capacity(vec.len());
    let mut i: usize = 0;
    while i < vec.len()
        invariant
            i <= vec@.len(),
            out@ == vec@.subrange(0, i as int).map_values(|x: bool| if x { one } else { zero }),
        decreases vec@.len() - i,
    {
        out.push(if vec[i] { one } else { zero });
        i = i + 1;
        assert(out@ =~= vec@.subrange(0, i as int).map_values(|x: bool| if x { one } else { zero }));
    }
    assert(vec@.subrange(0, i as int) =~= vec@);
    out
}

} // verus!
