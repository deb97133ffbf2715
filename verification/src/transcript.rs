use vstd::prelude::*;

use crate::params::{CrsParams, num_aggregs};
use crate::size::spec_div_ceil;

verus! {

/// One message of the Fiat-Shamir transcript: what is absorbed from the prover or
/// squeezed as the verifier's challenge, and its dimensions.
#[derive(Clone, Copy, Debug, PartialEq, Eq, Structural)]
pub enum IoOp {
    /// A vector of `len` ring elements from the prover.
    AbsorbVector { len: usize },
    /// `count` matrices of `rows x cols` ring elements with weighted ternary entries.
    SqueezeTernaryMatrices { rows: usize, cols: usize, count: usize },
    /// A vector of `len` base-ring elements from the prover, in canonical form.
    AbsorbCanonicalBaseVector { len: usize },
    /// `count` vectors of `len` base-ring elements.
    SqueezeBaseVectors { len: usize, count: usize },
    /// A list of `len` ring elements from the prover.
    AbsorbVec { len: usize },
    /// A vector of `len` ring elements.
    SqueezeRingVector { len: usize },
    /// `len` challenges from the LaBRADOR challenge set.
    SqueezeChallengeVec { len: usize },
    /// `count` vectors of `len` ring elements from the prover.
    AbsorbVectors { len: usize, count: usize },
    /// A symmetric `size x size` matrix of ring elements from the prover.
    AbsorbSymmetricMatrix { size: usize },
    /// A `rows x cols` matrix over `F_2`.
    SqueezeBinaryMatrix { rows: usize, cols: usize },
}

/// A message of the transcript with the label that separates it from the others.
pub struct IoStep {
    pub op: IoOp,
    pub label: &'static str,
}

/// Number of JL projections of the witness.
pub const NUM_PROJECTIONS: usize = 256;

/// The messages of one round of the core protocol, in order, for a reference
/// string with parameters `p` and `na` aggregated constraints.
pub open spec fn labrador_io_spec(p: CrsParams, na: usize) -> Seq<IoOp> {
    seq![
        IoOp::AbsorbVector { len: p.k1 },
        IoOp::SqueezeTernaryMatrices { rows: NUM_PROJECTIONS, cols: p.n, count: p.r },
        IoOp::AbsorbCanonicalBaseVector { len: NUM_PROJECTIONS },
        IoOp::SqueezeBaseVectors { len: p.num_constant_constraints, count: na },
        IoOp::SqueezeBaseVectors { len: NUM_PROJECTIONS, count: na },
        IoOp::AbsorbVec { len: na },
        IoOp::SqueezeRingVector { len: p.num_constraints },
        IoOp::SqueezeRingVector { len: na },
        IoOp::AbsorbVector { len: p.k2 },
        IoOp::SqueezeChallengeVec { len: p.r },
        IoOp::AbsorbVector { len: p.n },
        IoOp::AbsorbVectors { len: p.k, count: p.r },
        IoOp::AbsorbSymmetricMatrix { size: p.r },
        IoOp::AbsorbSymmetricMatrix { size: p.r },
    ]
}

/// The labels of the messages of one round, in order.
pub open spec fn labrador_io_labels() -> Seq<Seq<char>> {
    seq![
        "prover message 1"@,
        "verifier message 1"@,
        "prover message 2"@,
        "verifier message 2 (psi)"@,
        "verifier message 2 (omega)"@,
        "prover message 3"@,
        "verifier message 3 (alpha)"@,
        "verifier message 3 (beta)"@,
        "prover message 4"@,
        "verifier message 4"@,
        "prover message 5 (z)"@,
        "prover message 5 (t)"@,
        "prover message 5 (G)"@,
        "prover message 5 (H)"@,
    ]
}

fn push_step(v: &mut Vec<IoStep>, op: IoOp, label: &'static str)
    ensures
        final(v)@.len() == old(v)@.len() + 1,
        forall|i: int| 0 <= i < old(v)@.len() ==> final(v)@[i] == old(v)@[i],
        final(v)@[old(v)@.len() as int].op == op,
        final(v)@[old(v)@.len() as int].label@ == label@,
{
    v.push(IoStep { op, label });
}

/// The transcript of one round of the core protocol for a reference string with
/// parameters `p` over a modulus of `log_q_bits` bits: the prover's five messages
/// and the verifier's four challenges, with `ceil(128 / log q)` aggregated constraints.
pub fn labrador_io(p: &CrsParams, log_q_bits: usize) -> (r: Vec<IoStep>)
    requires
        log_q_bits > 0,
    ensures
        r@.map_values(|s: IoStep| s.op) == labrador_io_spec(*p, spec_div_ceil(128, log_q_bits as int) as usize),
        r@.map_values(|s: IoStep| s.label@) == labrador_io_labels(),
        ({
            let na = spec_div_ceil(128, log_q_bits as int) as usize;
            &&& r@.len() == 14
            &&& r@[0].op == (IoOp::AbsorbVector { len: p.k1 })
            &&& r@[1].op == (IoOp::SqueezeTernaryMatrices { rows: NUM_PROJECTIONS, cols: p.n, count: p.r })
            &&& r@[2].op == (IoOp::AbsorbCanonicalBaseVector { len: NUM_PROJECTIONS })
            &&& r@[3].op == (IoOp::SqueezeBaseVectors { len: p.num_constant_constraints, count: na })
            &&& r@[4].op == (IoOp::SqueezeBaseVectors { len: NUM_PROJECTIONS, count: na })
            &&& r@[5].op == (IoOp::AbsorbVec { len: na })
            &&& r@[6].op == (IoOp::SqueezeRingVector { len: p.num_constraints })
            &&& r@[7].op == (IoOp::SqueezeRingVector { len: na })
            &&& r@[8].op == (IoOp::AbsorbVector { len: p.k2 })
            &&& r@[9].op == (IoOp::SqueezeChallengeVec { len: p.r })
            &&& r@[10].op == (IoOp::AbsorbVector { len: p.n })
            &&& r@[11].op == (IoOp::AbsorbVectors { len: p.k, count: p.r })
            &&& r@[12].op == (IoOp::AbsorbSymmetricMatrix { size: p.r })
            &&& r@[13].op == (IoOp::AbsorbSymmetricMatrix { size: p.r })
        }),
{
    let na = num_aggregs(log_q_bits);
    let mut v: Vec<IoStep> = Vec::with_capacity(14);
    push_step(&mut v, IoOp::AbsorbVector { len: p.k1 }, "prover message 1");
    push_step(
        &mut v,
        IoOp::SqueezeTernaryMatrices { rows: NUM_PROJECTIONS, cols: p.n, count: p.r },
        "verifier message 1",
    );
    push_step(&mut v, IoOp::AbsorbCanonicalBaseVector { len: NUM_PROJECTIONS }, "prover message 2");
    push_step(
        &mut v,
        IoOp::SqueezeBaseVectors { len: p.num_constant_constraints, count: na },
        "verifier message 2 (psi)",
    );
    push_step(&mut v, IoOp::SqueezeBaseVectors { len: NUM_PROJECTIONS, count: na }, "verifier message 2 (omega)");
    push_step(&mut v, IoOp::AbsorbVec { len: na }, "prover message 3");
    push_step(&mut v, IoOp::SqueezeRingVector { len: p.num_constraints }, "verifier message 3 (alpha)");
    push_step(&mut v, IoOp::SqueezeRingVector { len: na }, "verifier message 3 (beta)");
    push_step(&mut v, IoOp::AbsorbVector { len: p.k2 }, "prover message 4");
    push_step(&mut v, IoOp::SqueezeChallengeVec { len: p.r }, "verifier message 4");
    push_step(&mut v, IoOp::AbsorbVector { len: p.n }, "prover message 5 (z)");
    push_step(&mut v, IoOp::AbsorbVectors { len: p.k, count: p.r }, "prover message 5 (t)");
    push_step(&mut v, IoOp::AbsorbSymmetricMatrix { size: p.r }, "prover message 5 (G)");
    push_step(&mut v, IoOp::AbsorbSymmetricMatrix { size: p.r }, "prover message 5 (H)");
    assert(v@.map_values(|s: IoStep| s.op) =~= labrador_io_spec(*p, na));
    assert(v@.map_values(|s: IoStep| s.label@) =~= labrador_io_labels());
    v
}

/// The messages of the binary R1CS reduction, for a commitment of `commitment_rows`
/// ring elements, `num_constraints` constraints and `security_parameter` repetitions:
/// the commitment `t`, three binary challenge matrices, and the `g` values.
pub open spec fn binary_r1cs_io_spec(commitment_rows: usize, num_constraints: usize, security_parameter: usize) -> Seq<
    IoOp,
> {
    seq![
        IoOp::AbsorbVector { len: commitment_rows },
        IoOp::SqueezeBinaryMatrix { rows: security_parameter, cols: num_constraints },
        IoOp::SqueezeBinaryMatrix { rows: security_parameter, cols: num_constraints },
        IoOp::SqueezeBinaryMatrix { rows: security_parameter, cols: num_constraints },
        IoOp::AbsorbCanonicalBaseVector { len: security_parameter },
    ]
}

/// The labels of the messages of the binary R1CS reduction, in order.
pub open spec fn binary_r1cs_io_labels() -> Seq<Seq<char>> {
    seq![
        "prover message 1 (t)"@,
        "verifier message 1 (alpha)"@,
        "verifier message 1 (beta)"@,
        "verifier message 1 (gamma)"@,
        "prover message 2 (g)"@,
    ]
}

/// In one round, every message that concerns the aggregated constant constraints
/// comes once per aggregation: `psi` squeezes one vector of `num_constant_constraints`
/// base-ring elements and `omega` one of `NUM_PROJECTIONS` (256) per aggregated
/// constraint, the prover answers with one ring element each, and `beta` has one
/// entry each; the JL matrices project the `n` entries of each of the `r` witnesses
/// to 256 coordinates, which the prover sends back.
pub proof fn lemma_labrador_io_aggregation(p: CrsParams, na: usize)
    ensures
        labrador_io_spec(p, na).len() == 14,
        labrador_io_spec(p, na)[3] matches IoOp::SqueezeBaseVectors { len, count } && len == p.num_constant_constraints
            && count == na,
        labrador_io_spec(p, na)[4] matches IoOp::SqueezeBaseVectors { len, count } && len == NUM_PROJECTIONS && count
            == na,
        labrador_io_spec(p, na)[5] matches IoOp::AbsorbVec { len } && len == na,
        labrador_io_spec(p, na)[7] matches IoOp::SqueezeRingVector { len } && len == na,
        labrador_io_spec(p, na)[1] matches IoOp::SqueezeTernaryMatrices { rows, cols, count } && rows
            == NUM_PROJECTIONS && cols == p.n && count == p.r,
        labrador_io_spec(p, na)[2] matches IoOp::AbsorbCanonicalBaseVector { len } && len == NUM_PROJECTIONS,
{
}

/// The three binary challenge matrices `alpha`, `beta`, `gamma` of the binary R1CS
/// reduction all have the same shape: one row per repetition (`security_parameter`)
/// and one column per R1CS constraint; the prover's `g` has one entry per repetition.
pub proof fn lemma_binary_r1cs_io_challenges(commitment_rows: usize, num_constraints: usize, security_parameter: usize)
    ensures
        ({
            let io = binary_r1cs_io_spec(commitment_rows, num_constraints, security_parameter);
            &&& io.len() == 5
            &&& io[1] == io[2] && io[2] == io[3]
            &&& io[1] matches IoOp::SqueezeBinaryMatrix { rows, cols } && rows == security_parameter && cols
                == num_constraints
            &&& io[4] matches IoOp::AbsorbCanonicalBaseVector { len } && len == security_parameter
        }),
{
}

/// The transcript of the binary R1CS reduction; see `binary_r1cs_io_spec`.
pub fn labrador_binaryr1cs_io(commitment_rows: usize, num_constraints: usize, security_parameter: usize) -> (r: Vec<
    IoStep,
>)
    ensures
        r@.map_values(|s: IoStep| s.op) == binary_r1cs_io_spec(commitment_rows, num_constraints, security_parameter),
        r@.map_values(|s: IoStep| s.label@) == binary_r1cs_io_labels(),
        r@.len() == 5,
        r@[0].op == (IoOp::AbsorbVector { len: commitment_rows }),
        r@[1].op == (IoOp::SqueezeBinaryMatrix { rows: security_parameter, cols: num_constraints }),
        r@[2].op == (IoOp::SqueezeBinaryMatrix { rows: security_parameter, cols: num_constraints }),
        r@[3].op == (IoOp::SqueezeBinaryMatrix { rows: security_parameter, cols: num_constraints }),
        r@[4].op == (IoOp::AbsorbCanonicalBaseVector { len: security_parameter }),
{
    let mut v: Vec<IoStep> = Vec::with_capacity(5);
    push_step(&mut v, IoOp::AbsorbVector { len: commitment_rows }, "prover message 1 (t)");
    push_step(
        &mut v,
        IoOp::SqueezeBinaryMatrix { rows: security_parameter, cols: num_constraints },
        "verifier message 1 (alpha)",
    );
    push_step(
        &mut v,
        IoOp::SqueezeBinaryMatrix { rows: security_parameter, cols: num_constraints },
        "verifier message 1 (beta)",
    );
    push_step(
        &mut v,
        IoOp::SqueezeBinaryMatrix { rows: security_parameter, cols: num_constraints },
        "verifier message 1 (gamma)",
    );
    push_step(&mut v, IoOp::AbsorbCanonicalBaseVector { len: security_parameter }, "prover message 2 (g)");
    assert(v@.map_values(|s: IoStep| s.op) =~= binary_r1cs_io_spec(commitment_rows, num_constraints, security_parameter));
    assert(v@.map_values(|s: IoStep| s.label@) =~= binary_r1cs_io_labels());
    v
}

} // verus!
