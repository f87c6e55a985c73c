pub mod pedersen_hash_circuit;
pub mod prod_circuit;
