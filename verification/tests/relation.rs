use folding_halo2::circuit::{check_plan, compute_field_residuals, configure, FoldedCircuit};
use halo2curves::bn256::Fr;
use halo2curves::ff::PrimeField;
use folding_halo2::encode::{encode_fixed_point, scale_inv, to_field_matrix};
use folding_halo2::field::{fe_zero, FieldElem};
use folding_halo2::FoldingError;

fn micro_matrix(values: &[Vec<f64>]) -> Vec<Vec<i64>> {
    const SCALE: f64 = 1_000_000.0;
    values
        .iter()
        .map(|row| row.iter().map(|v| (v * SCALE).floor() as i64).collect())
        .collect()
}

fn one() -> FieldElem {
    // The multiplier for the default scaling of 1.0.
    encode_fixed_point(1_000_000, &scale_inv())
}

fn commitments3(a: u64) -> [FieldElem; 3] {
    let inv = scale_inv();
    [
        encode_fixed_point(a as i64, &inv),
        encode_fixed_point(a as i64 + 1, &inv),
        encode_fixed_point(a as i64 + 2, &inv),
    ]
}

#[test]
fn matching_residual_bound_satisfies_the_gates() {
    let inv = scale_inv();
    let folded = to_field_matrix(&micro_matrix(&[vec![1.0, 2.0]]), &inv);
    let pq = to_field_matrix(&micro_matrix(&[vec![1.0, 1.999999]]), &inv);
    let epsilon = compute_field_residuals(&folded, &pq, &one());
    let commitments = commitments3(10);
    let instances: Vec<FieldElem> = commitments.to_vec();
    let circuit = FoldedCircuit {
        public_inputs: instances.clone(),
        folded_vectors: folded,
        pq_vectors: pq,
        epsilon_squared: epsilon,
        commitments,
    };
    let config = configure();
    let plan = circuit.synthesize(&config).unwrap();
    assert_eq!(plan.batches.len(), 1);
    assert_eq!(plan.batches[0].rows.len(), 2);
    assert!(check_plan(&plan, &instances));
}

#[test]
fn zero_residual_bound_fails_the_gates() {
    let inv = scale_inv();
    let folded = to_field_matrix(&micro_matrix(&[vec![1.0, 2.0]]), &inv);
    let pq = to_field_matrix(&micro_matrix(&[vec![1.0, 1.999999]]), &inv);
    let commitments = commitments3(10);
    let instances: Vec<FieldElem> = commitments.to_vec();
    let circuit = FoldedCircuit {
        public_inputs: instances.clone(),
        folded_vectors: folded,
        pq_vectors: pq,
        epsilon_squared: vec![fe_zero()],
        commitments,
    };
    let plan = circuit.synthesize(&configure()).unwrap();
    assert!(!check_plan(&plan, &instances));
}

#[test]
fn perturbed_entry_without_new_bound_fails_the_gates() {
    let inv = scale_inv();
    let folded = to_field_matrix(&micro_matrix(&[vec![0.25, 0.5], vec![1.5, -2.0]]), &inv);
    let pq = to_field_matrix(&micro_matrix(&[vec![0.25, 0.75], vec![1.0, -2.5]]), &inv);
    let epsilon = compute_field_residuals(&folded, &pq, &one());
    let commitments = commitments3(20);
    let instances: Vec<FieldElem> = commitments.to_vec();
    let circuit = FoldedCircuit {
        public_inputs: instances.clone(),
        folded_vectors: folded.clone(),
        pq_vectors: pq.clone(),
        epsilon_squared: epsilon.clone(),
        commitments,
    };
    let plan = circuit.synthesize(&configure()).unwrap();
    assert!(check_plan(&plan, &instances));

    // One folded entry moves by one fixed-point unit; the bound is stale.
    let mut perturbed = micro_matrix(&[vec![0.25, 0.5], vec![1.5, -2.0]]);
    perturbed[1][0] += 1;
    let circuit_bad = FoldedCircuit {
        public_inputs: instances.clone(),
        folded_vectors: to_field_matrix(&perturbed, &inv),
        pq_vectors: pq,
        epsilon_squared: epsilon,
        commitments,
    };
    let plan_bad = circuit_bad.synthesize(&configure()).unwrap();
    assert!(!check_plan(&plan_bad, &instances));
}

#[test]
fn empty_witness_synthesizes_blank() {
    let circuit = FoldedCircuit::blank(3);
    let plan = circuit.synthesize(&configure()).unwrap();
    assert_eq!(plan.batches.len(), 0);
    assert_eq!(plan.commitment_cells.len(), 3);

    // Whatever the instance values, the blank path synthesizes.
    let inv = scale_inv();
    let odd_instances = vec![
        encode_fixed_point(77, &inv),
        encode_fixed_point(-3, &inv),
        encode_fixed_point(123_456, &inv),
    ];
    let circuit2 = FoldedCircuit { public_inputs: odd_instances, ..FoldedCircuit::blank(3) };
    assert!(circuit2.synthesize(&configure()).is_ok());
}

#[test]
fn per_batch_length_mismatch_is_a_relation_error() {
    let inv = scale_inv();
    // The second batch's rows disagree in length; the first is valid.
    let folded = to_field_matrix(&micro_matrix(&[vec![1.0, 2.0], vec![3.0]]), &inv);
    let pq = to_field_matrix(&micro_matrix(&[vec![1.0, 2.0], vec![3.0, 4.0]]), &inv);
    let epsilon = compute_field_residuals(&folded, &pq, &one());
    let commitments = commitments3(30);
    let circuit = FoldedCircuit {
        public_inputs: commitments.to_vec(),
        folded_vectors: folded,
        pq_vectors: pq,
        epsilon_squared: epsilon,
        commitments,
    };
    assert_eq!(circuit.synthesize(&configure()), Err(FoldingError::RelationError));
}

#[test]
fn top_level_length_mismatch_is_a_relation_error() {
    let inv = scale_inv();
    let folded = to_field_matrix(&micro_matrix(&[vec![1.0], vec![2.0]]), &inv);
    let pq = to_field_matrix(&micro_matrix(&[vec![1.0]]), &inv);
    let commitments = commitments3(40);
    let circuit = FoldedCircuit {
        public_inputs: commitments.to_vec(),
        folded_vectors: folded,
        pq_vectors: pq,
        epsilon_squared: vec![fe_zero(), fe_zero()],
        commitments,
    };
    assert_eq!(circuit.synthesize(&configure()), Err(FoldingError::RelationError));
}

#[test]
fn commitment_binding_pins_the_instances() {
    let commitments = commitments3(50);
    let instances: Vec<FieldElem> = commitments.to_vec();
    let circuit = FoldedCircuit {
        public_inputs: instances.clone(),
        folded_vectors: vec![],
        pq_vectors: vec![],
        epsilon_squared: vec![],
        commitments,
    };
    let plan = circuit.synthesize(&configure()).unwrap();
    assert!(check_plan(&plan, &instances));

    let mut other = instances.clone();
    other[2] = fe_zero();
    assert!(!check_plan(&plan, &other));

    let short = vec![instances[0], instances[1]];
    assert!(!check_plan(&plan, &short));
}

#[test]
fn residuals_are_the_field_sums_of_squared_differences() {
    let inv = scale_inv();
    let folded = to_field_matrix(&micro_matrix(&[vec![1.0, 2.0]]), &inv);
    let pq = to_field_matrix(&micro_matrix(&[vec![1.0, 1.999999]]), &inv);
    let epsilon = compute_field_residuals(&folded, &pq, &one());
    assert_eq!(epsilon.len(), 1);
    // Recompute with the outside field arithmetic directly.
    let f1 = Fr::from_repr(folded[0][1].bytes.into()).unwrap();
    let q1 = Fr::from_repr(pq[0][1].bytes.into()).unwrap();
    let diff = f1 - q1;
    let expected: [u8; 32] = (diff * diff).to_repr().into();
    assert_eq!(epsilon[0].bytes, expected);
}
