use vstd::prelude::*;
use vstd::arithmetic::div_mod::*;
use crate::field::Fp;
use crate::field::modulus;
use crate::int256::lemma_mul_congruence;

verus! {

/// What can go wrong while a circuit writes itself into a constraint system.
#[derive(Copy, Clone, Debug, PartialEq, Eq, Structural)]
pub enum SynthesisError {
    /// A variable needed a concrete value during witness synthesis and none
    /// was supplied.
    AssignmentMissing,
    /// Witness-mode enforcement found a constraint that the current
    /// assignment does not satisfy.
    ConstraintViolated,
}

/// Whether a constraint system is being populated for setup only or with a
/// concrete witness.
#[derive(Copy, Clone, Debug, PartialEq, Eq, Structural)]
pub enum SynthesisMode {
    Setup,
    Proving,
}

/// An opaque handle to a slot in a constraint system's witness vector,
/// tagged with whether the slot is exposed as a public input.
#[derive(Copy, Clone, Debug, PartialEq, Eq, Structural)]
pub struct Variable {
    pub index: usize,
    pub is_public: bool,
}

/// Raw sum of coefficient times assigned value over a list of terms.
pub open spec fn terms_sum(terms: Seq<(Variable, Fp)>, assign: Seq<Fp>) -> nat
    decreases terms.len(),
{
    if terms.len() == 0 {
        0
    } else {
        terms_sum(terms.drop_last(), assign)
            + terms.last().1.as_nat() * assign[terms.last().0.index as int].as_nat()
    }
}

/// Every element of the sequence is a reduced field element.
pub open spec fn all_reduced(s: Seq<Fp>) -> bool {
    forall|i: int| 0 <= i < s.len() ==> (#[trigger] s[i]).reduced()
}

/// A sum of variables with field coefficients plus a constant term.
pub struct LinearCombination {
    pub terms: Vec<(Variable, Fp)>,
    pub constant: Fp,
}

impl LinearCombination {
    /// Well-formed against a system of n variables: coefficients reduced,
    /// every variable index in range.
    pub open spec fn wf(self, n: nat) -> bool {
        &&& self.constant.reduced()
        &&& forall|i: int| 0 <= i < self.terms@.len()
            ==> (#[trigger] self.terms@[i]).1.reduced() && self.terms@[i].0.index < n
    }

    /// The value of the combination under an assignment: constant plus the
    /// weighted sum, as a canonical residue.
    pub open spec fn spec_eval(self, assign: Seq<Fp>) -> nat {
        (self.constant.as_nat() + terms_sum(self.terms@, assign)) % modulus()
    }

    /// A combination holding a single variable with coefficient one.
    pub fn of_var(v: Variable) -> (r: LinearCombination)
        ensures
            r.terms@.len() == 1,
            r.terms@[0].0 == v,
            r.terms@[0].1.as_nat() == 1,
            r.terms@[0].1.reduced(),
            r.constant.as_nat() == 0,
            forall|n: nat| v.index < n ==> #[trigger] r.wf(n),
            forall|assign: Seq<Fp>| v.index < assign.len()
                ==> #[trigger] r.spec_eval(assign) == assign[v.index as int].as_nat() % modulus(),
    {
        let r = LinearCombination { terms: vec![(v, Fp::one())], constant: Fp::zero() };
        proof {
            assert forall|assign: Seq<Fp>| v.index < assign.len()
                implies #[trigger] r.spec_eval(assign)
                    == assign[v.index as int].as_nat() % modulus() by {
                assert(r.terms@.drop_last() =~= Seq::<(Variable, Fp)>::empty());
                assert(terms_sum(r.terms@.drop_last(), assign) == 0);
                assert(terms_sum(r.terms@, assign)
                    == 1 * assign[v.index as int].as_nat());
            }
        }
        r
    }

    /// A combination holding only a constant.
    pub fn of_constant(c: Fp) -> (r: LinearCombination)
        requires
            c.reduced(),
        ensures
            r.terms@.len() == 0,
            r.constant == c,
            forall|n: nat| #[trigger] r.wf(n),
            forall|assign: Seq<Fp>| #[trigger] r.spec_eval(assign) == c.as_nat(),
    {
        let r = LinearCombination { terms: Vec::new(), constant: c };
        proof {
            assert forall|assign: Seq<Fp>|
                #[trigger] r.spec_eval(assign) == c.as_nat() by {
                assert(terms_sum(r.terms@, assign) == 0);
                lemma_small_mod(c.as_nat(), modulus());
            }
        }
        r
    }

    /// Evaluates the combination under the assignment, term by term.
    pub fn eval(&self, assign: &Vec<Fp>) -> (r: Fp)
        requires
            self.wf(assign@.len() as nat),
            all_reduced(assign@),
        ensures
            r.as_nat() == self.spec_eval(assign@),
            r.reduced(),
    {
        let mut acc = self.constant;
        let ghost k = self.constant.as_nat();
        proof {
            assert(self.terms@.take(0) =~= Seq::<(Variable, Fp)>::empty());
            lemma_small_mod(k, modulus());
        }
        let mut idx: usize = 0;
        while idx < self.terms.len()
            invariant
                idx <= self.terms@.len(),
                self.wf(assign@.len() as nat),
                all_reduced(assign@),
                acc.reduced(),
                k == self.constant.as_nat(),
                acc.as_nat() == (k + terms_sum(self.terms@.take(idx as int), assign@))
                    % modulus(),
            decreases self.terms@.len() - idx,
        {
            let ghost s_old = terms_sum(self.terms@.take(idx as int), assign@);
            let v = self.terms[idx].0;
            let mut c = self.terms[idx].1;
            let a = assign[v.index];
            proof {
                lemma_mul_congruence(c.as_nat() as int, a.as_nat() as int,
                    self.terms@[idx as int].1.as_nat() as int,
                    assign@[self.terms@[idx as int].0.index as int].as_nat() as int);
            }
            c.mul_assign(&a);
            let ghost term = self.terms@[idx as int].1.as_nat()
                * assign@[self.terms@[idx as int].0.index as int].as_nat();
            proof {
                lemma_add_mod_noop((k + s_old) as int, term as int, modulus() as int);
                lemma_mod_twice(term as int, modulus() as int);
                lemma_add_mod_noop_right((k + s_old) as int, term as int, modulus() as int);
            }
            acc.add_assign(&c);
            idx = idx + 1;
            proof {
                assert(self.terms@.take(idx as int).drop_last()
                    =~= self.terms@.take(idx as int - 1));
                assert(self.terms@.take(idx as int).last() == self.terms@[idx as int - 1]);
            }
        }
        proof {
            assert(self.terms@.take(self.terms@.len() as int) =~= self.terms@);
        }
        acc
    }
}

/// The weighted sum reads only the slots the terms name: extending the
/// assignment beyond them does not change it.
proof fn lemma_terms_sum_extend(terms: Seq<(Variable, Fp)>, a1: Seq<Fp>, a2: Seq<Fp>)
    requires
        a1.len() <= a2.len(),
        forall|i: int| 0 <= i < terms.len() ==> (#[trigger] terms[i]).0.index < a1.len(),
        forall|j: int| 0 <= j < a1.len() ==> a1[j] == a2[j],
    ensures
        terms_sum(terms, a1) == terms_sum(terms, a2),
    decreases terms.len(),
{
    if terms.len() > 0 {
        lemma_terms_sum_extend(terms.drop_last(), a1, a2);
        assert(terms[terms.len() - 1] == terms.last());
    }
}

/// A combination's value reads only the slots it names: extending the
/// assignment does not change it.
pub proof fn lemma_eval_extend(lc: LinearCombination, a1: Seq<Fp>, a2: Seq<Fp>)
    requires
        lc.wf(a1.len() as nat),
        a1.len() <= a2.len(),
        forall|j: int| 0 <= j < a1.len() ==> a1[j] == a2[j],
    ensures
        lc.spec_eval(a1) == lc.spec_eval(a2),
{
    lemma_terms_sum_extend(lc.terms@, a1, a2);
}

/// Whether a constraint holds depends only on the slots it names: a
/// constraint satisfied by an assignment stays satisfied when later slots
/// are appended.
pub proof fn lemma_satisfied_extend(c: Constraint, a1: Seq<Fp>, a2: Seq<Fp>)
    requires
        c.wf(a1.len() as nat),
        a1.len() <= a2.len(),
        forall|j: int| 0 <= j < a1.len() ==> a1[j] == a2[j],
    ensures
        c.satisfied(a1) == c.satisfied(a2),
{
    lemma_eval_extend(c.a, a1, a2);
    lemma_eval_extend(c.b, a1, a2);
    lemma_eval_extend(c.c, a1, a2);
}

/// An R1CS constraint: the assertion a * b = c over linear combinations.
pub struct Constraint {
    pub a: LinearCombination,
    pub b: LinearCombination,
    pub c: LinearCombination,
}

impl Constraint {
    pub open spec fn wf(self, n: nat) -> bool {
        self.a.wf(n) && self.b.wf(n) && self.c.wf(n)
    }

    /// The constraint holds under an assignment when the residue of the
    /// product of the first two sides equals the third.
    pub open spec fn satisfied(self, assign: Seq<Fp>) -> bool {
        (self.a.spec_eval(assign) * self.b.spec_eval(assign)) % modulus()
            == self.c.spec_eval(assign)
    }

    /// Evaluates the three sides and checks the product.
    pub fn holds(&self, assign: &Vec<Fp>) -> (r: bool)
        requires
            self.wf(assign@.len() as nat),
            all_reduced(assign@),
        ensures
            r == self.satisfied(assign@),
    {
        let ea = self.a.eval(assign);
        let eb = self.b.eval(assign);
        let ec = self.c.eval(assign);
        let mut p = ea;
        proof {
            lemma_mul_congruence(ea.as_nat() as int, eb.as_nat() as int,
                self.a.spec_eval(assign@) as int, self.b.spec_eval(assign@) as int);
        }
        p.mul_assign(&eb);
        p.0.cmp(&ec.0) == 0
    }
}

/// A constraint system: the owned sequence of constraints, the witness
/// vector filled during proving, and the variables exposed as public inputs,
/// in allocation order.
pub struct ConstraintSystem {
    pub mode: SynthesisMode,
    pub num_vars: usize,
    pub assignments: Vec<Fp>,
    pub public_inputs: Vec<usize>,
    pub constraints: Vec<Constraint>,
    pub namespaces: Vec<&'static str>,
}

impl ConstraintSystem {
    /// The system invariant: in proving mode the witness vector has one
    /// reduced value per variable; in setup mode it stays empty; recorded
    /// public inputs and constraints speak only of allocated variables.
    pub open spec fn wf(self) -> bool {
        &&& all_reduced(self.assignments@)
        &&& (self.mode == SynthesisMode::Proving
            ==> self.assignments@.len() == self.num_vars)
        &&& (self.mode == SynthesisMode::Setup ==> self.assignments@.len() == 0)
        &&& (forall|i: int| 0 <= i < self.public_inputs@.len()
            ==> (#[trigger] self.public_inputs@[i]) < self.num_vars)
        &&& (forall|i: int| 0 <= i < self.constraints@.len()
            ==> (#[trigger] self.constraints@[i]).wf(self.num_vars as nat))
    }

    /// An empty system in the given mode.
    pub fn new(mode: SynthesisMode) -> (r: ConstraintSystem)
        ensures
            r.wf(),
            r.mode == mode,
            r.num_vars == 0,
            r.assignments@.len() == 0,
            r.public_inputs@.len() == 0,
            r.constraints@.len() == 0,
            r.namespaces@.len() == 0,
    {
        ConstraintSystem {
            mode,
            num_vars: 0,
            assignments: Vec::new(),
            public_inputs: Vec::new(),
            constraints: Vec::new(),
            namespaces: Vec::new(),
        }
    }

    /// Adds a witness slot. During witness synthesis a concrete value is
    /// required, and its absence aborts with AssignmentMissing; during setup
    /// the value is ignored.
    pub fn allocate_private(&mut self, value: Option<Fp>) -> (r: Result<
        Variable,
        SynthesisError,
    >)
        requires
            old(self).wf(),
            old(self).num_vars < usize::MAX,
            value is Some ==> value.unwrap().reduced(),
        ensures
            r is Ok <==> (old(self).mode == SynthesisMode::Proving ==> value is Some),
            r is Err ==> *final(self) == *old(self) && r.unwrap_err()
                == SynthesisError::AssignmentMissing,
            r is Ok ==> final(self).wf() && r.unwrap()
                == (Variable { index: old(self).num_vars, is_public: false })
                && final(self).num_vars == old(self).num_vars + 1
                && final(self).mode == old(self).mode
                && final(self).constraints == old(self).constraints
                && final(self).public_inputs == old(self).public_inputs
                && final(self).namespaces == old(self).namespaces
                && (old(self).mode == SynthesisMode::Proving
                    ==> final(self).assignments@
                        == old(self).assignments@.push(value.unwrap()))
                && (old(self).mode == SynthesisMode::Setup
                    ==> final(self).assignments == old(self).assignments),
    {
        let index = self.num_vars;
        match self.mode {
            SynthesisMode::Proving => {
                match value {
                    Some(v) => {
                        self.assignments.push(v);
                        self.num_vars = self.num_vars + 1;
                        Ok(Variable { index, is_public: false })
                    },
                    None => Err(SynthesisError::AssignmentMissing),
                }
            },
            SynthesisMode::Setup => {
                self.num_vars = self.num_vars + 1;
                Ok(Variable { index, is_public: false })
            },
        }
    }

    /// Adds a witness slot that is additionally exposed as a proof public
    /// input, in allocation order.
    pub fn allocate_public(&mut self, value: Option<Fp>) -> (r: Result<
        Variable,
        SynthesisError,
    >)
        requires
            old(self).wf(),
            old(self).num_vars < usize::MAX,
            value is Some ==> value.unwrap().reduced(),
        ensures
            r is Ok <==> (old(self).mode == SynthesisMode::Proving ==> value is Some),
            r is Err ==> *final(self) == *old(self) && r.unwrap_err()
                == SynthesisError::AssignmentMissing,
            r is Ok ==> final(self).wf() && r.unwrap()
                == (Variable { index: old(self).num_vars, is_public: true })
                && final(self).num_vars == old(self).num_vars + 1
                && final(self).mode == old(self).mode
                && final(self).constraints == old(self).constraints
                && final(self).public_inputs@
                    == old(self).public_inputs@.push(old(self).num_vars)
                && final(self).namespaces == old(self).namespaces
                && (old(self).mode == SynthesisMode::Proving
                    ==> final(self).assignments@
                        == old(self).assignments@.push(value.unwrap()))
                && (old(self).mode == SynthesisMode::Setup
                    ==> final(self).assignments == old(self).assignments),
    {
        let index = self.num_vars;
        match self.mode {
            SynthesisMode::Proving => {
                match value {
                    Some(v) => {
                        self.assignments.push(v);
                        self.num_vars = self.num_vars + 1;
                        self.public_inputs.push(index);
                        Ok(Variable { index, is_public: true })
                    },
                    None => Err(SynthesisError::AssignmentMissing),
                }
            },
            SynthesisMode::Setup => {
                self.num_vars = self.num_vars + 1;
                self.public_inputs.push(index);
                Ok(Variable { index, is_public: true })
            },
        }
    }

    /// Appends the constraint a * b = c. During witness synthesis the
    /// assignment is checked first and an unsatisfied constraint aborts with
    /// ConstraintViolated; during setup nothing is evaluated.
    pub fn enforce(&mut self, a: LinearCombination, b: LinearCombination, c: LinearCombination)
        -> (r: Result<(), SynthesisError>)
        requires
            old(self).wf(),
            a.wf(old(self).num_vars as nat),
            b.wf(old(self).num_vars as nat),
            c.wf(old(self).num_vars as nat),
        ensures
            r is Ok <==> (old(self).mode == SynthesisMode::Proving
                ==> (Constraint { a, b, c }).satisfied(old(self).assignments@)),
            r is Err ==> *final(self) == *old(self) && r.unwrap_err()
                == SynthesisError::ConstraintViolated,
            r is Ok ==> final(self).wf()
                && final(self).constraints@
                    == old(self).constraints@.push(Constraint { a, b, c })
                && final(self).mode == old(self).mode
                && final(self).num_vars == old(self).num_vars
                && final(self).assignments == old(self).assignments
                && final(self).public_inputs == old(self).public_inputs
                && final(self).namespaces == old(self).namespaces,
    {
        let cst = Constraint { a, b, c };
        match self.mode {
            SynthesisMode::Proving => {
                if cst.holds(&self.assignments) {
                    self.constraints.push(cst);
                    Ok(())
                } else {
                    Err(SynthesisError::ConstraintViolated)
                }
            },
            SynthesisMode::Setup => {
                self.constraints.push(cst);
                Ok(())
            },
        }
    }

    /// Opens a named scope. Scopes are organizational only: nothing else in
    /// the system changes.
    pub fn namespace(&mut self, label: &'static str)
        ensures
            final(self).namespaces@ == old(self).namespaces@.push(label),
            final(self).mode == old(self).mode,
            final(self).num_vars == old(self).num_vars,
            final(self).assignments == old(self).assignments,
            final(self).public_inputs == old(self).public_inputs,
            final(self).constraints == old(self).constraints,
    {
        self.namespaces.push(label);
    }

    /// Leaves the innermost named scope, if one is open.
    pub fn exit_namespace(&mut self)
        ensures
            final(self).namespaces@ == old(self).namespaces@.drop_last()
                || (old(self).namespaces@.len() == 0
                    && final(self).namespaces@ == old(self).namespaces@),
            final(self).mode == old(self).mode,
            final(self).num_vars == old(self).num_vars,
            final(self).assignments == old(self).assignments,
            final(self).public_inputs == old(self).public_inputs,
            final(self).constraints == old(self).constraints,
    {
        if self.namespaces.len() > 0 {
            let _ = self.namespaces.pop();
        }
    }

    /// True exactly when every recorded constraint holds under the witness.
    pub fn is_satisfied(&self) -> (r: bool)
        requires
            self.wf(),
            self.mode == SynthesisMode::Proving,
        ensures
            r == forall|i: int| 0 <= i < self.constraints@.len()
                ==> (#[trigger] self.constraints@[i]).satisfied(self.assignments@),
    {
        let mut j: usize = 0;
        while j < self.constraints.len()
            invariant
                j <= self.constraints@.len(),
                self.wf(),
                self.mode == SynthesisMode::Proving,
                forall|i: int| 0 <= i < j
                    ==> (#[trigger] self.constraints@[i]).satisfied(self.assignments@),
            decreases self.constraints@.len() - j,
        {
            if !self.constraints[j].holds(&self.assignments) {
                return false;
            }
            j = j + 1;
        }
        true
    }
}

} // verus!
