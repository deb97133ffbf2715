use labrador::transcript::{labrador_binaryr1cs_io, labrador_io, IoOp};
use labrador::binary_reduce::{
    binary_constraint, chunk_row, combined_binary_constraint, linear_check_phis, sigma_inverse_constraints,
    sigma_inverse_phis,
};
use labrador::embedding::embed_zq_linear_rq_linear;
use labrador::folding::{fold_t_coefficients, h_diagonal_indicator, zz_constraint_matrix};
use labrador::layout::Layouter;
use labrador::modulus::modulus_as_u128;
use labrador::params::{find_splitting, has_next_round, num_aggregs, z_linf_norm_bound, CrsParams};
use labrador::r1cs_params::{
    binary_r1cs_commitment_shape, check_r1cs_params, principal_relation_size, r1cs_dims, ParamError, Z2_to_R_vec,
};
use labrador::rounding::{ceil_to_even, floor_to_even, round_to_even};
use labrador::size::{div_ceil, FoldedSize, SizeDims};

fn small_params() -> CrsParams {
    CrsParams {
        sec_param: 128,
        r: 2,
        n: 4,
        d: 64,
        k: 1,
        k1: 1,
        k2: 1,
        t1: 1,
        t2: 1,
        num_aggregs: 2,
        num_constraints: 1,
        num_constant_constraints: 1,
        b: 4,
        b1: 8,
        b2: 16,
    }
}

fn small_folded_size() -> FoldedSize {
    FoldedSize {
        size: SizeDims { num_witnesses: 4, witness_len: 3, num_constraints: 0, num_constant_constraints: 0 },
        size_z: 4,
        size_t: 2,
        size_g: 1,
        size_h: 1,
        nu: 1,
        mu: 2,
    }
}

#[test]
fn div_ceil_rounds_up() {
    assert_eq!(div_ceil(7, 2), 4);
    assert_eq!(div_ceil(6, 2), 3);
    assert_eq!(div_ceil(0, 5), 0);
    assert_eq!(div_ceil(1, 64), 1);
}

#[test]
fn folded_size_witness_counts() {
    let fs = FoldedSize {
        size: SizeDims { num_witnesses: 7, witness_len: 3, num_constraints: 0, num_constant_constraints: 0 },
        size_z: 10,
        size_t: 4,
        size_g: 3,
        size_h: 3,
        nu: 2,
        mu: 4,
    };
    assert_eq!(fs.num_witnesses_z(), 4);
    assert_eq!(fs.num_witnesses_t_g_h(), 4);
}

#[test]
fn layouter_places_each_part_in_its_region() {
    let mut l = Layouter::new(small_folded_size(), 0i64);
    assert_eq!(l.vec, vec![0i64; 12]);
    l.set_z0(&[1, 2]);
    l.set_z1(&[3, 4]);
    l.set_t(&[5, 6]);
    l.set_g(&[7]);
    l.set_h(&[8]);
    assert_eq!(l.vec, vec![1, 2, 0, 3, 4, 0, 5, 6, 7, 8, 0, 0]);
    let parts = l.split();
    assert_eq!(parts, vec![vec![1, 2, 0], vec![3, 4, 0], vec![5, 6, 7], vec![8, 0, 0]]);
    let flat: Vec<i64> = parts.concat();
    assert_eq!(flat, l.vec);
}

#[test]
fn layouter_setters_leave_other_regions() {
    let mut l = Layouter::new(small_folded_size(), 0i64);
    l.set_g(&[7]);
    l.set_t(&[5, 6]);
    l.set_h(&[8]);
    l.set_z1(&[3, 4]);
    l.set_z0(&[1, 2]);
    assert_eq!(l.vec, vec![1, 2, 0, 3, 4, 0, 5, 6, 7, 8, 0, 0]);
}

#[test]
fn splitting_balances_both_parts() {
    // |6 / mu - 4 / (2 nu)| is zero only at mu = 3, nu = 1
    assert_eq!(find_splitting(6, 4), (1, 3));
    // ties go to the first pair in loop order
    assert_eq!(find_splitting(8, 8), (1, 2));
    assert_eq!(find_splitting(2, 2), (1, 1));
}

#[test]
fn next_size_of_small_crs() {
    let fs = small_params().next_size();
    assert_eq!(fs.size_z, 8);
    assert_eq!(fs.size_t, 2);
    assert_eq!(fs.size_g, 3);
    assert_eq!(fs.size_h, 3);
    assert_eq!((fs.nu, fs.mu), (1, 2));
    assert_eq!(fs.size.witness_len, 4);
    assert_eq!(fs.size.num_witnesses, 4);
    assert_eq!(fs.size.num_constraints, 6);
    assert_eq!(fs.size.num_constant_constraints, 0);
    assert!(2 * fs.nu >= fs.num_witnesses_z());
    assert!(fs.mu >= fs.num_witnesses_t_g_h());
    // the layout of the next witness takes every part
    let mut l = Layouter::new(fs, 0u32);
    l.set_z0(&[1, 1, 1, 1]);
    l.set_z1(&[2, 2, 2, 2]);
    l.set_t(&[3, 3]);
    l.set_g(&[4, 4, 4]);
    l.set_h(&[5, 5, 5]);
    assert_eq!(l.split().len(), 4);
}

#[test]
fn rounding_to_even() {
    assert_eq!(floor_to_even(5), 4);
    assert_eq!(floor_to_even(4), 4);
    assert_eq!(floor_to_even(0), 0);
    assert_eq!(round_to_even(3), 4);
    assert_eq!(round_to_even(2), 2);
    assert_eq!(ceil_to_even(3), 4);
    assert_eq!(ceil_to_even(4), 4);
}

#[test]
fn modulus_digits() {
    assert_eq!(modulus_as_u128(&vec![5]), Some(5));
    assert_eq!(modulus_as_u128(&vec![]), Some(0));
    assert_eq!(modulus_as_u128(&vec![1, 1]), Some((1u128 << 64) + 1));
    assert_eq!(modulus_as_u128(&vec![7, 0, 0]), Some(7));
    assert_eq!(modulus_as_u128(&vec![0, 0, 1]), None);
}

#[test]
fn r1cs_params_checks() {
    let q = vec![1u64, 1u64]; // 2^64 + 1
    assert_eq!(check_r1cs_params(256, 256, 64, &q), Ok(()));
    assert_eq!(check_r1cs_params(100, 256, 64, &q), Err(ParamError::ConstraintsNotMultipleOfDimension));
    assert_eq!(check_r1cs_params(256, 100, 64, &q), Err(ParamError::VariablesNotMultipleOfDimension));
    assert_eq!(check_r1cs_params(256, 256, 64, &vec![1000]), Err(ParamError::ModulusBelowWitnessLength));
    assert_eq!(check_r1cs_params(256, 256, 64, &vec![1100]), Err(ParamError::ModulusBelowSixConstraints));
    assert_eq!(check_r1cs_params(256, 256, 64, &vec![2000]), Err(ParamError::ModulusBelowCompositionBound));
    assert_eq!(check_r1cs_params(256, 256, 64, &vec![0, 0, 1]), Ok(()));
}

#[test]
fn r1cs_dimensions() {
    assert_eq!(binary_r1cs_commitment_shape(100, 256, 256, 64), (2, 16));
    let dims = r1cs_dims(256, 256, 64);
    assert_eq!((dims.m, dims.m_d, dims.l), (10, 10, 8));
    assert_eq!((dims.a_rows, dims.a_cols), (1, 16));
    assert_eq!((dims.b_rows, dims.b_cols), (1, 2048));
    let size = principal_relation_size(256, 2, 64);
    assert_eq!(size.num_witnesses, 8);
    assert_eq!(size.witness_len, 4);
    assert_eq!(size.num_constraints, 14);
    assert_eq!(size.num_constant_constraints, 133);
}

fn negacyclic_constant_term(x: &[i64], y: &[i64]) -> i64 {
    let d = x.len();
    let mut acc = x[0] * y[0];
    for m in 1..d {
        acc -= x[d - m] * y[m];
    }
    acc
}

#[test]
fn embedding_of_a_block() {
    let alpha = vec![true, false, true, true];
    assert_eq!(embed_zq_linear_rq_linear(&alpha, 4, 4), vec![vec![1, -1, -1, 0]]);
}

#[test]
fn embedding_turns_inner_products_into_constant_terms() {
    let alpha = vec![true, false, true, true, false, true, true, false];
    let a: Vec<i64> = vec![3, -5, 7, 11, 13, -17, 19, 23];
    let e = embed_zq_linear_rq_linear(&alpha, 8, 4);
    assert_eq!(e.len(), 2);
    let mut sum = 0;
    for (j, poly) in e.iter().enumerate() {
        let x: Vec<i64> = poly.iter().map(|c| *c as i64).collect();
        sum += negacyclic_constant_term(&x, &a[4 * j..4 * j + 4]);
    }
    let expected: i64 = alpha.iter().zip(a.iter()).map(|(b, v)| if *b { *v } else { 0 }).sum();
    assert_eq!(sum, expected);
}

#[test]
fn sigma_constraints() {
    let phis = sigma_inverse_phis(4, 1, 0, 4);
    assert_eq!(phis.len(), 8);
    assert_eq!(phis[0], vec![0, 1, 0, 0]);
    assert_eq!(phis[4], vec![0, 0, 0, 1]);
    assert_eq!(phis[1], vec![0, 0, 0, 0]);
    let phis0 = sigma_inverse_phis(4, 0, 2, 6);
    assert_eq!(phis0[2], vec![1, 0, 0, 0]);
    assert_eq!(phis0[6], vec![-1, 0, 0, 0]);
    let all = sigma_inverse_constraints(2);
    assert_eq!(all.len(), 6);
    assert_eq!(all[4], sigma_inverse_phis(2, 1, 1, 5));
}

#[test]
fn sigma_constraints_hold_on_sigma_images() {
    let n = 4;
    let a = vec![2i64, 3, 5, 7];
    let a_tilde = vec![2i64, -7, -5, -3];
    let mut s = vec![vec![0i64; n]; 8];
    s[0] = a.clone();
    s[4] = a_tilde;
    for i in 0..n {
        let phis = sigma_inverse_phis(n, i, 0, 4);
        let value: i64 = (0..8).map(|w| (0..n).map(|p| phis[w][p] as i64 * s[w][p]).sum::<i64>()).sum();
        assert_eq!(value, 0);
    }
    s[4][1] = 0;
    let phis = sigma_inverse_phis(n, 3, 0, 4);
    let value: i64 = (0..8).map(|w| (0..n).map(|p| phis[w][p] as i64 * s[w][p]).sum::<i64>()).sum();
    assert_eq!(value, 7);
}

#[test]
fn binary_constraints() {
    let c = binary_constraint(3, 0, 4);
    assert_eq!(c.a[0][4], 1);
    assert_eq!(c.a[4][0], 1);
    assert_eq!(c.a[0][0], 0);
    assert_eq!(c.phi[0], vec![-2, -2, -2]);
    assert_eq!(c.phi[4], vec![0, 0, 0]);
    let m = combined_binary_constraint(2);
    assert_eq!(m.a[0][4], 1);
    assert_eq!(m.a[0][6], -2);
    assert_eq!(m.a[6][0], -2);
    assert_eq!(m.a[2][6], 4);
    assert_eq!(m.a[3][7], 0);
    assert_eq!(m.phi[0], vec![-2, -2]);
    assert_eq!(m.phi[2], vec![4, 4]);
    assert_eq!(m.phi[5], vec![0, 0]);
}

#[test]
fn chunked_rows() {
    let row = vec![1, 2, 3, 4, 5];
    assert_eq!(chunk_row(&row, 2, 3, 0), vec![vec![1, 2], vec![3, 4], vec![5], vec![0, 0], vec![0, 0], vec![0, 0]]);
}

#[test]
fn linear_check_coefficients() {
    let alpha = vec![true, false];
    let beta = vec![false, true];
    let gamma = vec![false, false];
    let delta = vec![true, true];
    let phis = linear_check_phis(&alpha, &beta, &gamma, &delta, 2, 2);
    assert_eq!(phis.len(), 8);
    assert_eq!(phis[0], vec![vec![1, 0]]);
    assert_eq!(phis[1], vec![vec![0, -1]]);
    assert_eq!(phis[2], vec![vec![0, 0]]);
    assert_eq!(phis[3], vec![vec![-1, 1]]);
    assert_eq!(phis[7], vec![vec![0, 0]]);
}

#[test]
fn t_coefficients_of_commitment_rows() {
    let scaled = vec![10, 11, 12, 13, 14, 15];
    let c = fold_t_coefficients(&scaled, 0, 3, 2, 2, 1, 13);
    assert_eq!(c, vec![0, 10, 0, 11, 0, 12, 0, 13, 0, 14, 0, 15, 0]);
}

#[test]
fn zz_matrix() {
    let m = zz_constraint_matrix(5, 2, 0, 1, 2, 3);
    assert_eq!(
        m,
        vec![
            vec![1, 0, 2, 0, 0],
            vec![0, 1, 0, 2, 0],
            vec![2, 0, 3, 0, 0],
            vec![0, 2, 0, 3, 0],
            vec![0, 0, 0, 0, 0],
        ]
    );
}

#[test]
fn h_diagonal() {
    let v = h_diagonal_indicator(&vec![7, 9], 0, 3, 2, 13);
    assert_eq!(v, vec![7, 0, 0, 7, 0, 7, 9, 0, 0, 9, 0, 9, 0]);
}

#[test]
fn commitment_shapes_match_parts() {
    let p = small_params();
    let s = p.commitment_shapes();
    let fs = p.next_size();
    assert_eq!((s.a.rows, s.a.cols), (1, 4));
    assert_eq!((s.b.rows, s.b.cols), (1, 2));
    assert_eq!((s.c.rows, s.c.cols), (1, 3));
    assert_eq!((s.d.rows, s.d.cols), (1, 3));
    assert_eq!(s.b.cols, fs.size_t);
    assert_eq!(s.c.cols, fs.size_g);
    assert_eq!(s.d.cols, fs.size_h);
}

#[test]
fn protocol_sizes() {
    assert_eq!(num_aggregs(65), 2);
    assert_eq!(num_aggregs(64), 2);
    assert_eq!(num_aggregs(128), 1);
    assert_eq!(num_aggregs(129), 1);
    assert_eq!(z_linf_norm_bound(2, 15, 100), 3000);
    let p = small_params();
    assert_eq!(p.proof_size(65, 10), 19712);
    assert_eq!(p.last_prover_message_size(65, 8, 9), 24576);
    assert!(has_next_round(5, 3));
    assert!(!has_next_round(3, 3));
}

#[test]
fn z2_embedding_into_ring() {
    assert_eq!(Z2_to_R_vec(&vec![true, false, true], 0u64, 1u64), vec![1, 0, 1]);
    assert_eq!(Z2_to_R_vec(&vec![], 0u64, 1u64), Vec::<u64>::new());
}

#[test]
fn transcript_of_one_round() {
    let p = small_params();
    let io = labrador_io(&p, 65);
    assert_eq!(io.len(), 14);
    assert_eq!(io[0].op, IoOp::AbsorbVector { len: 1 });
    assert_eq!(io[0].label, "prover message 1");
    assert_eq!(io[1].op, IoOp::SqueezeTernaryMatrices { rows: 256, cols: 4, count: 2 });
    assert_eq!(io[3].op, IoOp::SqueezeBaseVectors { len: 1, count: 2 });
    assert_eq!(io[5].op, IoOp::AbsorbVec { len: 2 });
    assert_eq!(io[9].op, IoOp::SqueezeChallengeVec { len: 2 });
    assert_eq!(io[11].op, IoOp::AbsorbVectors { len: 1, count: 2 });
    assert_eq!(io[13].label, "prover message 5 (H)");
}

#[test]
fn transcript_of_binary_r1cs() {
    let io = labrador_binaryr1cs_io(2, 256, 128);
    assert_eq!(io.len(), 5);
    assert_eq!(io[0].op, IoOp::AbsorbVector { len: 2 });
    assert_eq!(io[2].op, IoOp::SqueezeBinaryMatrix { rows: 128, cols: 256 });
    assert_eq!(io[2].label, "verifier message 1 (beta)");
    assert_eq!(io[4].op, IoOp::AbsorbCanonicalBaseVector { len: 128 });
}

#[test]
fn layouter_any_call_order_gives_the_same_layout() {
    let mut l = Layouter::new(small_folded_size(), 0i64);
    l.set_h(&[8]);
    l.set_z1(&[3, 4]);
    l.set_z0(&[9, 9]);
    l.set_g(&[7]);
    l.set_z0(&[1, 2]);
    l.set_t(&[5, 6]);
    assert_eq!(l.vec, vec![1, 2, 0, 3, 4, 0, 5, 6, 7, 8, 0, 0]);
}

#[test]
fn embedding_reads_only_the_first_k_entries() {
    let alpha = vec![true, false, true, true, true, true, false, true];
    assert_eq!(embed_zq_linear_rq_linear(&alpha, 4, 4), vec![vec![1, -1, -1, 0]]);
    let short = vec![true, false];
    let phis = linear_check_phis(&alpha, &alpha, &short, &alpha, 2, 2);
    assert_eq!(phis[0], vec![vec![1, 0]]);
    assert_eq!(phis[2], vec![vec![1, 0]]);
    assert_eq!(phis[3], vec![vec![-1, 0]]);
}

#[test]
fn transcript_depends_only_on_the_parameters() {
    let p = small_params();
    let first = labrador_io(&p, 65);
    let second = labrador_io(&small_params(), 65);
    assert_eq!(first.len(), second.len());
    for (a, b) in first.iter().zip(second.iter()) {
        assert_eq!(a.op, b.op);
        assert_eq!(a.label, b.label);
    }
}
