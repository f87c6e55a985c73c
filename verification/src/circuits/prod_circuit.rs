use vstd::prelude::*;
use crate::field::Fp;
use crate::field::modulus;
use crate::int256::lemma_mul_congruence;
use crate::r1cs::ConstraintSystem;
use crate::r1cs::LinearCombination;
use crate::r1cs::SynthesisError;
use crate::r1cs::SynthesisMode;

verus! {

/// The minimal circuit: two private factors and their public product, tied
/// together by the single constraint a * b = c.
pub struct ProdCircuit {
    pub a: Option<Fp>,
    pub b: Option<Fp>,
}

impl ProdCircuit {
    /// Present witness values are reduced field elements.
    pub open spec fn wf(self) -> bool {
        &&& (self.a is Some ==> self.a.unwrap().reduced())
        &&& (self.b is Some ==> self.b.unwrap().reduced())
    }

    /// Writes the circuit into the system: private a, private b, public
    /// c = a * b, and the constraint a * b = c.  During witness synthesis a
    /// missing factor aborts with AssignmentMissing; with both factors
    /// present the recorded constraint is satisfied by construction.
    pub fn synthesize(self, cs: &mut ConstraintSystem) -> (r: Result<(), SynthesisError>)
        requires
            old(cs).wf(),
            old(cs).num_vars + 3 <= usize::MAX,
            self.wf(),
        ensures
            r is Ok <==> (old(cs).mode == SynthesisMode::Proving
                ==> (self.a is Some && self.b is Some)),
            r is Err ==> final(cs).mode == old(cs).mode && final(cs).wf()
                && final(cs).constraints == old(cs).constraints
                && final(cs).public_inputs == old(cs).public_inputs
                && r.unwrap_err() == SynthesisError::AssignmentMissing,
            r is Ok ==> final(cs).wf()
                && final(cs).mode == old(cs).mode
                && final(cs).num_vars == old(cs).num_vars + 3
                && final(cs).constraints@.len() == old(cs).constraints@.len() + 1
                && final(cs).public_inputs@
                    == old(cs).public_inputs@.push((old(cs).num_vars + 2) as usize)
                && (old(cs).mode == SynthesisMode::Proving ==> {
                    &&& final(cs).assignments@.len() == old(cs).assignments@.len() + 3
                    &&& final(cs).assignments@[old(cs).num_vars as int] == self.a.unwrap()
                    &&& final(cs).assignments@[old(cs).num_vars + 1] == self.b.unwrap()
                    &&& final(cs).assignments@[old(cs).num_vars + 2].as_nat()
                        == (self.a.unwrap().as_nat() * self.b.unwrap().as_nat()) % modulus()
                    &&& final(cs).constraints@.last().satisfied(final(cs).assignments@)
                }),
    {
        let va = match cs.allocate_private(self.a) {
            Ok(v) => v,
            Err(e) => {
                return Err(e);
            },
        };
        let vb = match cs.allocate_private(self.b) {
            Ok(v) => v,
            Err(e) => {
                return Err(e);
            },
        };
        let cval = match (self.a, self.b) {
            (Some(x), Some(y)) => {
                let mut p = x;
                p.mul_assign(&y);
                Some(p)
            },
            _ => None,
        };
        let vc = match cs.allocate_public(cval) {
            Ok(v) => v,
            Err(e) => {
                return Err(e);
            },
        };
        let la = LinearCombination::of_var(va);
        let lb = LinearCombination::of_var(vb);
        let lc = LinearCombination::of_var(vc);
        proof {
            assert(la.wf(cs.num_vars as nat));
            assert(lb.wf(cs.num_vars as nat));
            assert(lc.wf(cs.num_vars as nat));
            if cs.mode == SynthesisMode::Proving {
                let assign = cs.assignments@;
                let av = self.a.unwrap();
                let bv = self.b.unwrap();
                vstd::arithmetic::div_mod::lemma_small_mod(av.as_nat(), modulus());
                vstd::arithmetic::div_mod::lemma_small_mod(bv.as_nat(), modulus());
                assert(la.spec_eval(assign) == av.as_nat());
                assert(lb.spec_eval(assign) == bv.as_nat());
                assert(lc.spec_eval(assign)
                    == assign[vc.index as int].as_nat() % modulus());
                vstd::arithmetic::div_mod::lemma_small_mod(
                    assign[vc.index as int].as_nat(), modulus());
                lemma_mul_congruence(la.spec_eval(assign) as int, lb.spec_eval(assign) as int,
                    av.as_nat() as int, bv.as_nat() as int);
            }
        }
        match cs.enforce(la, lb, lc) {
            Ok(()) => Ok(()),
            Err(e) => {
                proof {
                    assert(false);
                }
                Err(e)
            },
        }
    }
}

} // verus!
