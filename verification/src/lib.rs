use vstd::prelude::*;

mod circuits;
mod curve;
mod field;
mod fs;
mod int256;
mod r1cs;

pub use circuits::pedersen_hash_circuit::PedersenHashCircuit;
pub use circuits::pedersen_hash_circuit::PedersenParams;
pub use circuits::pedersen_hash_circuit::pedersen_hash;
pub use circuits::pedersen_hash_circuit::lookup3;
pub use circuits::prod_circuit::ProdCircuit;
pub use curve::Curve;
pub use curve::CurveGroup;
pub use curve::Point;
pub use field::Fp;
pub use fs::Fs;
pub use int256::Int256;
pub use r1cs::Constraint;
pub use r1cs::ConstraintSystem;
pub use r1cs::LinearCombination;
pub use r1cs::SynthesisError;
pub use r1cs::SynthesisMode;
pub use r1cs::Variable;

verus! {

} // verus!
