use bsnark::{ConstraintSystem, Fp, LinearCombination, ProdCircuit, SynthesisError,
    SynthesisMode, Variable};

#[test]
fn prod_circuit_setup_shape() {
    let mut cs = ConstraintSystem::new(SynthesisMode::Setup);
    let circuit = ProdCircuit { a: None, b: None };
    assert!(circuit.synthesize(&mut cs).is_ok());
    assert_eq!(cs.num_vars, 3);
    assert_eq!(cs.constraints.len(), 1);
    assert_eq!(cs.public_inputs, vec![2]);
    assert!(cs.assignments.is_empty());
}

#[test]
fn prod_circuit_witness_satisfies() {
    let mut cs = ConstraintSystem::new(SynthesisMode::Proving);
    let circuit = ProdCircuit { a: Some(Fp::from(6)), b: Some(Fp::from(7)) };
    assert!(circuit.synthesize(&mut cs).is_ok());
    assert!(cs.is_satisfied());
    // the public output, in allocation order, is 42 and not 41
    let public = cs.assignments[cs.public_inputs[0]];
    assert!(public == Fp::from(42));
    assert!(!(public == Fp::from(41)));
}

#[test]
fn prod_circuit_missing_assignment() {
    let mut cs = ConstraintSystem::new(SynthesisMode::Proving);
    let circuit = ProdCircuit { a: Some(Fp::from(6)), b: None };
    assert_eq!(circuit.synthesize(&mut cs), Err(SynthesisError::AssignmentMissing));
    assert_eq!(cs.constraints.len(), 0);
}

#[test]
fn tampered_public_value_violates() {
    // allocate a=6, b=7, c=41 by hand: enforcing a*b=c must fail
    let mut cs = ConstraintSystem::new(SynthesisMode::Proving);
    let va = cs.allocate_private(Some(Fp::from(6))).unwrap();
    let vb = cs.allocate_private(Some(Fp::from(7))).unwrap();
    let vc = cs.allocate_public(Some(Fp::from(41))).unwrap();
    let r = cs.enforce(
        LinearCombination::of_var(va),
        LinearCombination::of_var(vb),
        LinearCombination::of_var(vc),
    );
    assert_eq!(r, Err(SynthesisError::ConstraintViolated));
}

#[test]
fn enforce_records_in_setup_without_evaluation() {
    let mut cs = ConstraintSystem::new(SynthesisMode::Setup);
    let va = cs.allocate_private(None).unwrap();
    let vb = cs.allocate_private(None).unwrap();
    let vc = cs.allocate_public(None).unwrap();
    assert!(!va.is_public && !vb.is_public && vc.is_public);
    let r = cs.enforce(
        LinearCombination::of_var(va),
        LinearCombination::of_var(vb),
        LinearCombination::of_var(vc),
    );
    assert!(r.is_ok());
    assert_eq!(cs.constraints.len(), 1);
}

#[test]
fn eval_combination_with_constant() {
    let mut cs = ConstraintSystem::new(SynthesisMode::Proving);
    let v = cs.allocate_private(Some(Fp::from(10))).unwrap();
    let lc = LinearCombination { terms: vec![(v, Fp::from(3))], constant: Fp::from(4) };
    let r = lc.eval(&cs.assignments);
    assert!(r == Fp::from(34));
}

#[test]
fn eval_constant_only() {
    let cs = ConstraintSystem::new(SynthesisMode::Proving);
    let lc = LinearCombination::of_constant(Fp::from(9));
    assert!(lc.eval(&cs.assignments) == Fp::from(9));
}

#[test]
fn namespaces_are_organizational() {
    let mut cs = ConstraintSystem::new(SynthesisMode::Setup);
    cs.namespace("outer");
    cs.namespace("inner");
    let before_vars = cs.num_vars;
    cs.exit_namespace();
    cs.exit_namespace();
    cs.exit_namespace();
    assert_eq!(cs.num_vars, before_vars);
    assert!(cs.namespaces.is_empty());
    let _ = Variable { index: 0, is_public: false };
}
