use bsnark::{ConstraintSystem, Curve, Fp, PedersenHashCircuit, PedersenParams, Point,
    SynthesisError, SynthesisMode, lookup3, pedersen_hash};

fn sample_point(seed: u64) -> Point {
    Point { x: Fp::from(seed), y: Fp::from(seed.wrapping_mul(7).wrapping_add(13)), isnull: false }
}

fn sample_params() -> PedersenParams {
    // two segments of three windows, four distinct generator points each
    let mut tables = Vec::new();
    for s in 0..2u64 {
        let mut seg = Vec::new();
        for w in 0..3u64 {
            let mut window = Vec::new();
            for k in 0..4u64 {
                window.push(sample_point(1 + s * 100 + w * 10 + k));
            }
            seg.push(window);
        }
        tables.push(seg);
    }
    PedersenParams {
        personalization: vec![true, false, true, false, false, true],
        tables,
        curve: Curve { edwards_a: Fp::from(1), edwards_d: Fp::from(3) },
    }
}

fn points_equal(p: &Point, q: &Point) -> bool {
    p.isnull == q.isnull && p.x == q.x && p.y == q.y
}

const MSG: [bool; 8] = [true, false, true, true, false, false, true, false];

#[test]
fn pedersen_hash_is_deterministic() {
    let params = sample_params();
    let bits: Vec<bool> = MSG.to_vec();
    let h1 = pedersen_hash(&bits, &params).unwrap();
    let h2 = pedersen_hash(&bits, &params).unwrap();
    assert!(points_equal(&h1, &h2));
    assert!(!h1.isnull);
}

#[test]
fn pedersen_hash_changes_on_any_bit_flip() {
    let params = sample_params();
    let bits: Vec<bool> = MSG.to_vec();
    let base = pedersen_hash(&bits, &params).unwrap();
    for i in 0..bits.len() {
        let mut flipped = bits.clone();
        flipped[i] = !flipped[i];
        let h = pedersen_hash(&flipped, &params).unwrap();
        assert!(!points_equal(&base, &h), "flipping bit {} left the hash unchanged", i);
    }
}

#[test]
fn lookup3_selects_and_negates() {
    let params = sample_params();
    let table = &params.tables[0][0];
    let p00 = lookup3(table, false, false, false);
    assert!(points_equal(&p00, &table[0]));
    let p10 = lookup3(table, true, false, false);
    assert!(points_equal(&p10, &table[1]));
    let p01 = lookup3(table, false, true, false);
    assert!(points_equal(&p01, &table[2]));
    let p11 = lookup3(table, true, true, false);
    assert!(points_equal(&p11, &table[3]));
    // the third bit negates y: adding the original y back gives zero
    let neg = lookup3(table, false, false, true);
    let mut sum = neg.y;
    sum.add_assign(&table[0].y);
    assert!(sum.is_zero());
}

#[test]
fn pedersen_circuit_witness_exposes_hash() {
    let params = sample_params();
    let bits: Vec<bool> = MSG.to_vec();
    let expected = pedersen_hash(&bits, &sample_params()).unwrap();
    let mut cs = ConstraintSystem::new(SynthesisMode::Proving);
    let circuit = PedersenHashCircuit { bits: Some(bits), num_bits: 8, params };
    assert!(circuit.synthesize(&mut cs).is_ok());
    assert!(cs.is_satisfied());
    assert_eq!(cs.num_vars, 8 + 4);
    assert_eq!(cs.constraints.len(), 8 + 2);
    assert_eq!(cs.public_inputs.len(), 2);
    let px = cs.assignments[cs.public_inputs[0]];
    let py = cs.assignments[cs.public_inputs[1]];
    assert!(px == expected.x);
    assert!(py == expected.y);
}

#[test]
fn pedersen_circuit_setup_shape() {
    let params = sample_params();
    let mut cs = ConstraintSystem::new(SynthesisMode::Setup);
    let circuit = PedersenHashCircuit { bits: None, num_bits: 8, params };
    assert!(circuit.synthesize(&mut cs).is_ok());
    assert_eq!(cs.num_vars, 8 + 4);
    assert_eq!(cs.constraints.len(), 8 + 2);
    assert_eq!(cs.public_inputs.len(), 2);
    assert!(cs.assignments.is_empty());
}

#[test]
fn pedersen_circuit_missing_assignment() {
    let params = sample_params();
    let mut cs = ConstraintSystem::new(SynthesisMode::Proving);
    let circuit = PedersenHashCircuit { bits: None, num_bits: 8, params };
    assert_eq!(circuit.synthesize(&mut cs), Err(SynthesisError::AssignmentMissing));
}
