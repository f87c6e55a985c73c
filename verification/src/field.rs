use vstd::prelude::*;
use vstd::arithmetic::div_mod::*;
use vstd::arithmetic::mul::*;
use vstd::arithmetic::power::*;
use vstd::arithmetic::power2::*;
use crate::int256::Int256;
use crate::int256::lemma_pow2_limb_values;
use crate::int256::lemma_mul_congruence;
use crate::int256::lemma_add_sub_cancel;

verus! {

/// The fixed 256-bit prime modulus of the field.
pub open spec fn modulus() -> nat {
    (0x30644e72e131a029b85045b68181585d97816a916871ca8d3c208c16d87cfd47int) as nat
}

/// The multiplicative inverse taken by this library: the value
/// x^(modulus - 2) mod modulus, the Fermat power of x.
pub open spec fn inv_spec(x: nat) -> nat {
    (pow(x as int, (modulus() - 2) as nat) % (modulus() as int)) as nat
}

/// An element of the prime field: an Int256 kept in [0, modulus).
#[derive(Copy, Clone)]
pub struct Fp(pub Int256);

impl PartialEq for Fp {
    /// Equal exactly when the underlying integers agree; for reduced
    /// elements this is equality of field values.
    fn eq(&self, other: &Fp) -> (r: bool) {
        self.0.0[0] == other.0.0[0] && self.0.0[1] == other.0.0[1]
            && self.0.0[2] == other.0.0[2] && self.0.0[3] == other.0.0[3]
    }
}

impl vstd::std_specs::cmp::PartialEqSpecImpl for Fp {
    open spec fn obeys_eq_spec() -> bool {
        true
    }

    open spec fn eq_spec(&self, other: &Fp) -> bool {
        self.0.0[0] == other.0.0[0] && self.0.0[1] == other.0.0[1]
            && self.0.0[2] == other.0.0[2] && self.0.0[3] == other.0.0[3]
    }
}

/// The modulus as a four-limb integer.
pub fn modulus_int256() -> (r: Int256)
    ensures
        r.as_nat() == modulus(),
{
    Int256([0x3c208c16d87cfd47, 0x97816a916871ca8d, 0xb85045b68181585d, 0x30644e72e131a029])
}

impl Fp {
    /// Mathematical value of this element.
    pub open spec fn as_nat(self) -> nat {
        self.0.as_nat()
    }

    /// The representation invariant: the value lies below the modulus.
    pub open spec fn reduced(self) -> bool {
        self.as_nat() < modulus()
    }

    /// Repeatedly subtracts the modulus until the value lies in [0, modulus):
    /// the canonical residue of the starting value.
    pub fn reduce(&mut self)
        ensures
            final(self).as_nat() == old(self).as_nat() % modulus(),
            final(self).reduced(),
    {
        let m = modulus_int256();
        while self.0.cmp(&m) >= 0
            invariant
                m.as_nat() == modulus(),
                self.0.as_nat() % modulus() == old(self).as_nat() % modulus(),
            decreases self.0.as_nat(),
        {
            let ghost v = self.0.as_nat();
            proof {
                self.0.lemma_as_nat_bound();
                lemma_small_mod((v - modulus()) as nat, pow2(256));
            }
            self.0 = self.0.sub(m);
            proof {
                lemma_mod_sub_multiples_vanish(v as int, modulus() as int);
            }
        }
        proof {
            lemma_small_mod(self.0.as_nat(), modulus());
        }
    }

    /// The canonical residue of a 64-bit integer.
    pub fn from(a: u64) -> (r: Fp)
        ensures
            r.as_nat() == a,
            r.reduced(),
    {
        Fp(Int256([a, 0, 0, 0]))
    }

    /// The least significant limb of the value: the value modulo 2^64.
    pub fn to_u64(&self) -> (r: u64)
        ensures
            r == self.as_nat() % pow2(64),
    {
        self.0.to_u64()
    }

    /// A field element drawn from the thread-local randomness source: some
    /// 256-bit value, reduced into the field.
    pub fn rand() -> (r: Fp)
        ensures
            r.reduced(),
    {
        let mut fp = Fp(Int256::rand());
        fp.reduce();
        fp
    }

    /// The additive identity.
    pub fn zero() -> (r: Fp)
        ensures
            r.as_nat() == 0,
            r.reduced(),
    {
        Fp(Int256([0, 0, 0, 0]))
    }

    /// The multiplicative identity.
    pub fn one() -> (r: Fp)
        ensures
            r.as_nat() == 1,
            r.reduced(),
    {
        Fp(Int256([1, 0, 0, 0]))
    }

    /// True exactly when all four limbs, and so the value, are zero.
    pub fn is_zero(&self) -> (r: bool)
        ensures
            r == (self.as_nat() == 0),
    {
        self.0.0[0] == 0 && self.0.0[1] == 0 && self.0.0[2] == 0 && self.0.0[3] == 0
    }

    /// The additive inverse: modulus - value for a nonzero value, zero for zero.
    pub fn negate(&mut self)
        requires
            old(self).reduced(),
        ensures
            final(self).as_nat() == (modulus() - old(self).as_nat()) % (modulus() as int),
            final(self).reduced(),
    {
        let ghost v = old(self).as_nat();
        if !self.is_zero() {
            let m = modulus_int256();
            self.0 = m.sub(self.0);
            proof {
                lemma_pow2_limb_values();
                lemma_small_mod((modulus() - v) as nat, pow2(256));
                lemma_small_mod((modulus() - v) as nat, modulus());
            }
        } else {
            proof {
                lemma_mod_self_0(modulus() as int);
            }
        }
    }

    /// Modular subtraction: the canonical residue of self - other.
    pub fn sub_assign(&mut self, other: &Fp)
        requires
            old(self).reduced(),
            other.reduced(),
        ensures
            final(self).as_nat()
                == (old(self).as_nat() - other.as_nat()) % (modulus() as int),
            final(self).reduced(),
    {
        let ghost s = old(self).as_nat();
        let ghost o = other.as_nat();
        proof {
            lemma_pow2_limb_values();
        }
        if self.0.cmp(&other.0) != -1 {
            self.0 = self.0.sub(other.0);
            proof {
                lemma_small_mod((s - o) as nat, pow2(256));
                lemma_small_mod((s - o) as nat, modulus());
            }
        } else {
            self.0 = other.0.sub(self.0);
            proof {
                lemma_small_mod((o - s) as nat, pow2(256));
            }
            self.negate();
            proof {
                lemma_small_mod((modulus() - (o - s)) as nat, modulus());
                lemma_mod_add_multiples_vanish(s - o, modulus() as int);
                lemma_small_mod((modulus() + s - o) as nat, modulus());
            }
        }
    }

    /// Modular addition, routed through negation and subtraction as the
    /// field's subtraction already handles the wrap below zero.
    pub fn add_assign(&mut self, other: &Fp)
        requires
            old(self).reduced(),
            other.reduced(),
        ensures
            final(self).as_nat() == (old(self).as_nat() + other.as_nat()) % modulus(),
            final(self).reduced(),
    {
        let ghost s = old(self).as_nat();
        let ghost o = other.as_nat();
        let mut neg_other = *other;
        neg_other.negate();
        self.sub_assign(&neg_other);
        proof {
            if o == 0 {
                lemma_mod_self_0(modulus() as int);
                lemma_small_mod(s, modulus());
            } else {
                lemma_small_mod((modulus() - o) as nat, modulus());
                lemma_mod_sub_multiples_vanish((s + o) as int, modulus() as int);
            }
        }
    }

    /// Doubling: adding the value to itself.
    pub fn double(&mut self)
        requires
            old(self).reduced(),
        ensures
            final(self).as_nat() == (2 * old(self).as_nat()) % modulus(),
            final(self).reduced(),
    {
        let other = self.clone();
        self.add_assign(&other);
    }

    /// Modular multiplication by a double-and-add scan over the 256 bits of
    /// self, doubling the other operand at each step.
    pub fn mul_assign(&mut self, other: &Fp)
        requires
            old(self).reduced(),
            other.reduced(),
        ensures
            final(self).as_nat() == (old(self).as_nat() * other.as_nat()) % modulus(),
            final(self).reduced(),
    {
        let s = *self;
        let o = *other;
        let ghost sv = s.as_nat();
        let ghost ov = o.as_nat();
        let mut r = Fp::zero();
        let mut a2 = o;
        let mut i: usize = 0;
        proof {
            lemma2_to64();
            lemma_small_mod(ov, modulus());
            lemma_pow1(ov as int);
            assert(sv % pow2(0) == 0);
            assert(r.as_nat() == ((sv % pow2(0)) * ov) % modulus());
        }
        while i < 256
            invariant
                i <= 256,
                r.reduced(),
                a2.reduced(),
                s.as_nat() == sv,
                s.reduced(),
                r.as_nat() == ((sv % pow2(i as nat)) * ov) % modulus(),
                a2.as_nat() == (pow2(i as nat) * ov) % modulus(),
            decreases 256 - i,
        {
            let ghost lowk = sv % pow2(i as nat);
            let ghost b = (sv / pow2(i as nat)) % 2;
            proof {
                lemma_low_bit_step(sv, i as nat);
            }
            let bit = s.0.bit(i);
            if bit {
                proof {
                    lemma_add_mod_noop((lowk * ov) as int, (pow2(i as nat) * ov) as int,
                        modulus() as int);
                    lemma_mul_is_distributive_add_other_way(ov as int,
                        lowk as int, pow2(i as nat) as int);
                }
                r.add_assign(&a2);
            }
            proof {
                lemma_mul_mod_noop_general(2, (pow2(i as nat) * ov) as int, modulus() as int);
                lemma_mul_is_associative(2, pow2(i as nat) as int, ov as int);
                lemma_pow2_adds(1, i as nat);
                lemma2_to64();
            }
            a2.double();
            i = i + 1;
            proof {
                assert(pow2(i as nat) == 2 * pow2((i - 1) as nat));
                if b == 1 {
                    lemma_mul_congruence((sv % pow2(i as nat)) as int, ov as int,
                        (lowk + pow2((i - 1) as nat)) as int, ov as int);
                } else {
                    lemma_mul_congruence((sv % pow2(i as nat)) as int, ov as int,
                        lowk as int, ov as int);
                }
                lemma_mul_congruence(pow2(i as nat) as int, ov as int,
                    2 * (pow2((i - 1) as nat) as int), ov as int);
            }
        }
        proof {
            s.0.lemma_as_nat_bound();
            lemma_small_mod(sv, pow2(256));
            lemma_mul_congruence((sv % pow2(256)) as int, ov as int, sv as int, ov as int);
        }
        *self = r;
    }

    /// Squaring: multiplying the value by itself.
    pub fn square(&mut self)
        requires
            old(self).reduced(),
        ensures
            final(self).as_nat() == (old(self).as_nat() * old(self).as_nat()) % modulus(),
            final(self).reduced(),
    {
        let other = self.clone();
        self.mul_assign(&other);
    }

    /// The multiplicative inverse: absent for zero; for a nonzero value, the
    /// Fermat power x^(modulus - 2) mod modulus, computed by
    /// square-and-multiply over the bits of the exponent.
    pub fn inverse(&self) -> (r: Option<Fp>)
        requires
            self.reduced(),
        ensures
            (r is None) <==> self.as_nat() == 0,
            r is Some ==> r.unwrap().as_nat() == inv_spec(self.as_nat()),
            r is Some ==> r.unwrap().reduced(),
    {
        if self.is_zero() {
            None
        } else {
            let e = Int256([0x3c208c16d87cfd45, 0x97816a916871ca8d, 0xb85045b68181585d,
                0x30644e72e131a029]);
            proof {
                assert(e.as_nat() == modulus() - 2);
            }
            let ghost bv = self.as_nat() as int;
            let ghost ev = e.as_nat();
            let mut r = Fp::one();
            let mut a2 = *self;
            let mut i: usize = 0;
            proof {
                lemma2_to64();
                lemma_pow0(bv);
                lemma_pow1(bv);
                lemma_small_mod(1, modulus());
                lemma_small_mod(self.as_nat(), modulus());
                assert(ev % pow2(0) == 0);
            }
            while i < 256
                invariant
                    i <= 256,
                    r.reduced(),
                    a2.reduced(),
                    e.as_nat() == ev,
                    bv == self.as_nat(),
                    bv > 0,
                    r.as_nat() == pow(bv, ev % pow2(i as nat)) % (modulus() as int),
                    a2.as_nat() == pow(bv, pow2(i as nat)) % (modulus() as int),
                decreases 256 - i,
            {
                let ghost lowk = ev % pow2(i as nat);
                let ghost b = (ev / pow2(i as nat)) % 2;
                proof {
                    lemma_low_bit_step(ev, i as nat);
                    lemma_pow_positive(bv, lowk);
                    lemma_pow_positive(bv, pow2(i as nat));
                }
                let bit = e.bit(i);
                if bit {
                    proof {
                        lemma_mul_congruence(r.as_nat() as int, a2.as_nat() as int,
                            pow(bv, lowk) % (modulus() as int),
                            pow(bv, pow2(i as nat)) % (modulus() as int));
                        lemma_mul_mod_noop_general(pow(bv, lowk), pow(bv, pow2(i as nat)),
                            modulus() as int);
                        lemma_pow_adds(bv, lowk, pow2(i as nat));
                    }
                    r.mul_assign(&a2);
                }
                proof {
                    lemma_mul_congruence(a2.as_nat() as int, a2.as_nat() as int,
                        pow(bv, pow2(i as nat)) % (modulus() as int),
                        pow(bv, pow2(i as nat)) % (modulus() as int));
                    lemma_mul_mod_noop_general(pow(bv, pow2(i as nat)),
                        pow(bv, pow2(i as nat)), modulus() as int);
                    lemma_pow_adds(bv, pow2(i as nat), pow2(i as nat));
                    lemma_pow2_adds(1, i as nat);
                    lemma2_to64();
                }
                a2.square();
                i = i + 1;
                proof {
                    assert(pow2(i as nat) == pow2((i - 1) as nat) + pow2((i - 1) as nat));
                    if b == 1 {
                        assert(ev % pow2(i as nat) == lowk + pow2((i - 1) as nat));
                    } else {
                        assert(ev % pow2(i as nat) == lowk);
                    }
                }
            }
            proof {
                e.lemma_as_nat_bound();
                lemma_small_mod(ev, pow2(256));
                lemma_mod_bound(pow(bv, (modulus() - 2) as nat), modulus() as int);
            }
            Some(r)
        }
    }

    /// The Frobenius endomorphism, which is the identity on a prime field.
    pub fn frobenius_map(&mut self, _power: usize)
        ensures
            *final(self) == *old(self),
    {
    }
}

/// One step of the binary expansion: the low i+1 bits of n are the low i bits
/// plus 2^i when bit i of n is set.
pub proof fn lemma_low_bit_step(n: nat, i: nat)
    ensures
        n % pow2((i + 1) as nat) == n % pow2(i) + pow2(i) * ((n / pow2(i)) % 2),
        (n / pow2(i)) % 2 == 0 || (n / pow2(i)) % 2 == 1,
{
    lemma_pow2_pos(i);
    lemma_mod_breakdown(n as int, pow2(i) as int, 2);
    lemma_pow2_adds(i, 1);
    lemma2_to64();
}

/// Reduction is idempotent: a value already in [0, modulus) reduces to itself.
pub proof fn lemma_reduce_idempotent(v: nat)
    ensures
        (v % modulus()) % modulus() == v % modulus(),
        v % modulus() < modulus(),
{
    lemma_mod_twice(v as int, modulus() as int);
    lemma_mod_bound(v as int, modulus() as int);
}

/// Adding y and then subtracting y restores x: over the field's model,
/// sub_assign undoes add_assign for every pair of reduced elements.
pub proof fn lemma_field_add_then_sub(x: Fp, y: Fp)
    requires
        x.reduced(),
    ensures
        ((((x.as_nat() + y.as_nat()) % modulus()) as int) - (y.as_nat() as int))
            % (modulus() as int) == x.as_nat(),
{
    lemma_add_sub_cancel(x.as_nat(), y.as_nat(), modulus());
}

/// What multiplying a nonzero element by its inverse yields: the Fermat
/// power x^(modulus - 1) mod modulus.  This states only the exponent
/// arithmetic; that the power is one rests on the primality of the modulus.
pub proof fn lemma_mul_inverse_is_fermat_power(x: Fp)
    requires
        x.reduced(),
        x.as_nat() > 0,
    ensures
        (x.as_nat() * inv_spec(x.as_nat())) % modulus()
            == pow(x.as_nat() as int, (modulus() - 1) as nat) % (modulus() as int),
{
    let b = x.as_nat() as int;
    let e = (modulus() - 2) as nat;
    lemma_pow1(b);
    lemma_pow_positive(b, e);
    lemma_mul_congruence(x.as_nat() as int, inv_spec(x.as_nat()) as int,
        pow(b, 1), pow(b, e) % (modulus() as int));
    lemma_mul_mod_noop_general(pow(b, 1), pow(b, e), modulus() as int);
    lemma_mod_twice(pow(b, 1) * pow(b, e), modulus() as int);
    lemma_pow_adds(b, 1, e);
}

/// Doubling agrees with self-addition on every value: 2 v and v + v have the
/// same residue.
pub proof fn lemma_double_is_self_add(v: nat, m: nat)
    requires
        0 < m,
    ensures
        (2 * v) % m == (v + v) % m,
{
}

} // verus!
