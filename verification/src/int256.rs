use vstd::prelude::*;
use vstd::arithmetic::div_mod::*;
use vstd::arithmetic::mul::*;
use vstd::arithmetic::power2::*;
use vstd::bits::*;

verus! {

/// Unsigned 256-bit integer held as four 64-bit limbs, least significant
/// limb first.  All arithmetic wraps modulo 2^256 by design: the type is a
/// ring element and its operations are total, never a source of panics.
#[derive(Copy, Clone)]
pub struct Int256(pub [u64; 4]);

/// Relies on ff::adc: the returned digit and the updated carry decompose
/// the exact sum a + b + carry in base 2^64.
pub assume_specification [ ff::adc ](a: u64, b: u64, carry: &mut u64) -> (r: u64)
    ensures
        a + b + *old(carry) == r + 0x10000000000000000 * (*final(carry)),
;

/// Relies on ff::sbb: the returned digit and the updated borrow decompose
/// the exact difference a - b - borrow in base 2^64; the incoming borrow
/// must be a flag, as a larger one would underflow the 128-bit scratch value.
pub assume_specification [ ff::sbb ](a: u64, b: u64, borrow: &mut u64) -> (r: u64)
    requires
        *old(borrow) <= 1,
    ensures
        *final(borrow) <= 1,
        a - b - *old(borrow) == r - 0x10000000000000000 * (*final(borrow)),
;

/// Relies on ff::mac_with_carry: the returned digit and the updated carry
/// decompose the exact value a + b * c + carry in base 2^64.
pub assume_specification [ ff::mac_with_carry ](a: u64, b: u64, c: u64, carry: &mut u64) -> (r: u64)
    ensures
        a + b * c + *old(carry) == r + 0x10000000000000000 * (*final(carry)),
;

/// Relies on rand::thread_rng and rand::Rng::gen: four limbs drawn from the
/// thread-local generator; nothing is promised of their values.  Like any
/// use of the thread-local generator, this aborts the process if the
/// operating system's entropy source cannot be initialized.
#[verifier::external_body]
fn random_limbs() -> [u64; 4] {
    rand::Rng::gen(&mut rand::thread_rng())
}

impl From<u64> for Int256 {
    /// An integer whose least significant limb is the given word.
    fn from(a: u64) -> (r: Int256) {
        Int256([a, 0, 0, 0])
    }
}

impl vstd::std_specs::convert::FromSpecImpl<u64> for Int256 {
    open spec fn obeys_from_spec() -> bool {
        true
    }

    open spec fn from_spec(a: u64) -> Int256 {
        Int256([a, 0, 0, 0])
    }
}

impl From<Int256> for u64 {
    /// The least significant limb, truncating the rest.
    fn from(i: Int256) -> (r: u64) {
        i.0[0]
    }
}

impl vstd::std_specs::convert::FromSpecImpl<Int256> for u64 {
    open spec fn obeys_from_spec() -> bool {
        true
    }

    open spec fn from_spec(i: Int256) -> u64 {
        i.0[0]
    }
}

impl PartialEq for Int256 {
    /// Equal exactly when the four limbs agree.
    fn eq(&self, other: &Int256) -> (r: bool) {
        self.0[0] == other.0[0] && self.0[1] == other.0[1] && self.0[2] == other.0[2]
            && self.0[3] == other.0[3]
    }
}

impl vstd::std_specs::cmp::PartialEqSpecImpl for Int256 {
    open spec fn obeys_eq_spec() -> bool {
        true
    }

    open spec fn eq_spec(&self, other: &Int256) -> bool {
        self.0[0] == other.0[0] && self.0[1] == other.0[1] && self.0[2] == other.0[2]
            && self.0[3] == other.0[3]
    }
}

/// Concrete values of the powers of two that separate the four limbs.
pub proof fn lemma_pow2_limb_values()
    ensures
        pow2(64) == 0x10000000000000000,
        pow2(128) == 0x100000000000000000000000000000000,
        pow2(192) == 0x1000000000000000000000000000000000000000000000000,
        pow2(256) == 0x10000000000000000000000000000000000000000000000000000000000000000,
{
    lemma2_to64();
    lemma_pow2_adds(64, 64);
    lemma_pow2_adds(128, 64);
    lemma_pow2_adds(192, 64);
}

impl Int256 {
    /// Mathematical value of this integer: the four limbs read
    /// little-limb-first in base 2^64; always below 2^256.
    pub open spec fn as_nat(self) -> nat {
        (self.0[0] + self.0[1] * 0x10000000000000000
            + self.0[2] * 0x100000000000000000000000000000000
            + self.0[3] * 0x1000000000000000000000000000000000000000000000000) as nat
    }

    /// Bit `i` of the mathematical value.
    pub open spec fn spec_bit(self, i: nat) -> bool {
        (self.as_nat() / pow2(i)) % 2 == 1
    }

    pub proof fn lemma_as_nat_bound(self)
        ensures
            self.as_nat() < pow2(256),
    {
        lemma_pow2_limb_values();
    }

    /// A fresh integer drawn from the thread-local randomness source; any of
    /// the 2^256 values may come back.
    pub fn rand() -> Int256 {
        Int256(random_limbs())
    }

    /// The least significant limb: the value modulo 2^64, truncating.
    pub fn to_u64(&self) -> (r: u64)
        ensures
            r == self.as_nat() % pow2(64),
    {
        let r = self.0[0];
        proof {
            lemma_pow2_limb_values();
            let rest: int = self.0[1] + self.0[2] * 0x10000000000000000
                + self.0[3] * 0x100000000000000000000000000000000;
            assert(self.as_nat() == 0x10000000000000000 * rest + r);
            lemma_mul_congruence(pow2(64) as int, rest, 0x10000000000000000int, rest);
            lemma_mod_multiples_vanish(rest, r as int, pow2(64) as int);
            lemma_small_mod(r as nat, pow2(64));
        }
        r
    }

    /// Lexicographic comparison from the most significant limb down, which
    /// agrees with comparison of the mathematical values: 1 for greater,
    /// -1 for less, 0 for equal.
    pub fn cmp(&self, other: &Self) -> (r: i32)
        ensures
            r == 1 <==> self.as_nat() > other.as_nat(),
            r == -1 <==> self.as_nat() < other.as_nat(),
            r == 0 <==> self.as_nat() == other.as_nat(),
    {
        if self.0[3] > other.0[3] {
            1
        } else if self.0[3] < other.0[3] {
            -1
        } else if self.0[2] > other.0[2] {
            1
        } else if self.0[2] < other.0[2] {
            -1
        } else if self.0[1] > other.0[1] {
            1
        } else if self.0[1] < other.0[1] {
            -1
        } else if self.0[0] > other.0[0] {
            1
        } else if self.0[0] < other.0[0] {
            -1
        } else {
            0
        }
    }

    /// Selects limb `index / 64`, then bit `index % 64` within that limb,
    /// which is bit `index` of the mathematical value.
    pub fn bit(&self, index: usize) -> (r: bool)
        requires
            index < 256,
        ensures
            r == self.spec_bit(index as nat),
    {
        let i = index / 64;
        let b = (index % 64) as u64;
        let limb = self.0[i];
        let r = ((limb >> b) & 1) == 1;
        proof {
            lemma_u64_shr_is_div(limb, b);
            lemma_u64_low_bits_mask_is_mod(limb >> b, 1);
            lemma_low_bits_mask_values();
            lemma2_to64();
            lemma_pow2_limb_values();
            assert(r == ((limb as nat / pow2(b as nat)) % 2 == 1));
            lemma_pow2_adds(0, 64);
            lemma_pow2_adds(64, 64);
            lemma_pow2_adds(128, 64);
            lemma_pow2_adds(192, 64);
            let l0 = self.0[0] as int;
            let l1 = self.0[1] as int;
            let l2 = self.0[2] as int;
            let l3 = self.0[3] as int;
            if index < 64 {
                let high = (l1 + l2 * 0x10000000000000000
                    + l3 * 0x100000000000000000000000000000000) as nat;
                lemma_limb_bit(0, self.0[0], high, 0, b as nat);
                lemma_mul_congruence(pow2(64 * 0) as int, l0, 1, l0);
                lemma_mul_congruence((pow2(64 * 0) * pow2(64)) as int, high as int,
                    0x10000000000000000int, high as int);
                assert(pow2(64 * 0) * self.0[0] == l0);
                assert((pow2(64 * 0) * pow2(64)) * high
                    == l1 * 0x10000000000000000
                        + l2 * 0x100000000000000000000000000000000
                        + l3 * 0x1000000000000000000000000000000000000000000000000);
                assert(self.as_nat()
                    == (0 + pow2(64 * 0) * self.0[0] + (pow2(64 * 0) * pow2(64)) * high) as nat);
                assert(64 * 0 + b as nat == index as nat);
            } else if index < 128 {
                let high = (l2 + l3 * 0x10000000000000000) as nat;
                lemma_limb_bit(l0 as nat, self.0[1], high, 1, b as nat);
                lemma_mul_congruence(pow2(64 * 1) as int, l1, 0x10000000000000000int, l1);
                lemma_mul_congruence((pow2(64 * 1) * pow2(64)) as int, high as int,
                    0x100000000000000000000000000000000int, high as int);
                assert(pow2(64 * 1) * self.0[1] == l1 * 0x10000000000000000);
                assert((pow2(64 * 1) * pow2(64)) * high
                    == l2 * 0x100000000000000000000000000000000
                        + l3 * 0x1000000000000000000000000000000000000000000000000);
                assert(self.as_nat()
                    == (l0 + pow2(64 * 1) * self.0[1] + (pow2(64 * 1) * pow2(64)) * high) as nat);
                assert(64 * 1 + b as nat == index as nat);
            } else if index < 192 {
                let low = (l0 + l1 * 0x10000000000000000) as nat;
                lemma_limb_bit(low, self.0[2], l3 as nat, 2, b as nat);
                lemma_mul_congruence(pow2(64 * 2) as int, l2,
                    0x100000000000000000000000000000000int, l2);
                lemma_mul_congruence((pow2(64 * 2) * pow2(64)) as int, l3,
                    0x1000000000000000000000000000000000000000000000000int, l3);
                assert(pow2(64 * 2) * self.0[2] == l2 * 0x100000000000000000000000000000000);
                assert((pow2(64 * 2) * pow2(64)) * (l3 as nat)
                    == l3 * 0x1000000000000000000000000000000000000000000000000);
                assert(self.as_nat()
                    == (low + pow2(64 * 2) * self.0[2] + (pow2(64 * 2) * pow2(64)) * (l3 as nat)) as nat);
                assert(64 * 2 + b as nat == index as nat);
            } else {
                let low = (l0 + l1 * 0x10000000000000000
                    + l2 * 0x100000000000000000000000000000000) as nat;
                lemma_limb_bit(low, self.0[3], 0, 3, b as nat);
                lemma_mul_congruence(pow2(64 * 3) as int, l3,
                    0x1000000000000000000000000000000000000000000000000int, l3);
                lemma_mul_congruence((pow2(64 * 3) * pow2(64)) as int, 0, pow2(256) as int, 0);
                assert(pow2(64 * 3) * self.0[3]
                    == l3 * 0x1000000000000000000000000000000000000000000000000);
                assert((pow2(64 * 3) * pow2(64)) * 0 == 0);
                assert(self.as_nat()
                    == (low + pow2(64 * 3) * self.0[3] + (pow2(64 * 3) * pow2(64)) * 0) as nat);
                assert(64 * 3 + b as nat == index as nat);
            }
        }
        r
    }

    /// Ripple-carry addition across the four limbs; a final carry out is
    /// discarded, so the sum wraps modulo 2^256.
    pub fn add(self, other: Int256) -> (r: Int256)
        ensures
            r.as_nat() == (self.as_nat() + other.as_nat()) % pow2(256),
    {
        let mut c: u64 = 0;
        let r0 = ff::adc(self.0[0], other.0[0], &mut c);
        let ghost c1 = c;
        let r1 = ff::adc(self.0[1], other.0[1], &mut c);
        let ghost c2 = c;
        let r2 = ff::adc(self.0[2], other.0[2], &mut c);
        let ghost c3 = c;
        let r3 = ff::adc(self.0[3], other.0[3], &mut c);
        let r = Int256([r0, r1, r2, r3]);
        proof {
            lemma_pow2_limb_values();
            assert(self.as_nat() + other.as_nat() == r.as_nat() + pow2(256) * c);
            r.lemma_as_nat_bound();
            lemma_mod_multiples_vanish(c as int, r.as_nat() as int, pow2(256) as int);
            lemma_small_mod(r.as_nat(), pow2(256));
        }
        r
    }

    /// Ripple-borrow subtraction across the four limbs; a final borrow out is
    /// discarded, so the difference wraps modulo 2^256.
    pub fn sub(self, other: Int256) -> (r: Int256)
        ensures
            r.as_nat() == (self.as_nat() - other.as_nat()) % (pow2(256) as int),
    {
        let mut b: u64 = 0;
        let r0 = ff::sbb(self.0[0], other.0[0], &mut b);
        let r1 = ff::sbb(self.0[1], other.0[1], &mut b);
        let r2 = ff::sbb(self.0[2], other.0[2], &mut b);
        let r3 = ff::sbb(self.0[3], other.0[3], &mut b);
        let r = Int256([r0, r1, r2, r3]);
        proof {
            lemma_pow2_limb_values();
            assert(self.as_nat() - other.as_nat() == r.as_nat() - pow2(256) * b);
            r.lemma_as_nat_bound();
            lemma_mod_multiples_vanish(b as int, r.as_nat() as int, pow2(256) as int);
            lemma_small_mod(r.as_nat(), pow2(256));
        }
        r
    }

    /// Schoolbook long multiplication with per-column carries; every digit
    /// beyond the fourth limb is discarded, so the product wraps modulo 2^256.
    pub fn mul(self, other: Int256) -> (r: Int256)
        ensures
            r.as_nat() == (self.as_nat() * other.as_nat()) % pow2(256),
    {
        let (a0, a1, a2, a3) = (self.0[0], self.0[1], self.0[2], self.0[3]);
        let (b0, b1, b2, b3) = (other.0[0], other.0[1], other.0[2], other.0[3]);
        let ghost pa0 = a0 as int;
        let ghost pa1 = a1 as int;
        let ghost pa2 = a2 as int;
        let ghost pa3 = a3 as int;
        let ghost pb0 = b0 as int;
        let ghost pb1 = b1 as int;
        let ghost pb2 = b2 as int;
        let ghost pb3 = b3 as int;
        let mut c: u64 = 0;
        let r0 = ff::mac_with_carry(0, a0, b0, &mut c);
        let mut r1 = ff::mac_with_carry(0, a1, b0, &mut c);
        let mut r2 = ff::mac_with_carry(0, a2, b0, &mut c);
        let mut r3 = ff::mac_with_carry(0, a3, b0, &mut c);
        let ghost d0 = c as int;
        let ghost (s1, s2, s3) = (r1 as int, r2 as int, r3 as int);
        proof {
            assert(r0 + s1 * 0x10000000000000000
                + s2 * 0x100000000000000000000000000000000
                + s3 * 0x1000000000000000000000000000000000000000000000000
                + d0 * 0x10000000000000000000000000000000000000000000000000000000000000000
                == pa0 * pb0 + (pa1 * pb0) * 0x10000000000000000
                    + (pa2 * pb0) * 0x100000000000000000000000000000000
                    + (pa3 * pb0) * 0x1000000000000000000000000000000000000000000000000);
        }
        c = 0;
        r1 = ff::mac_with_carry(r1, a0, b1, &mut c);
        r2 = ff::mac_with_carry(r2, a1, b1, &mut c);
        r3 = ff::mac_with_carry(r3, a2, b1, &mut c);
        let ghost d1 = c as int;
        let ghost (t2, t3) = (r2 as int, r3 as int);
        proof {
            assert(r1 + t2 * 0x10000000000000000
                + t3 * 0x100000000000000000000000000000000
                + d1 * 0x1000000000000000000000000000000000000000000000000
                == s1 + pa0 * pb1 + (s2 + pa1 * pb1) * 0x10000000000000000
                    + (s3 + pa2 * pb1) * 0x100000000000000000000000000000000);
        }
        c = 0;
        r2 = ff::mac_with_carry(r2, a0, b2, &mut c);
        r3 = ff::mac_with_carry(r3, a1, b2, &mut c);
        let ghost d2 = c as int;
        let ghost u3 = r3 as int;
        proof {
            assert(r2 + u3 * 0x10000000000000000
                + d2 * 0x100000000000000000000000000000000
                == t2 + pa0 * pb2 + (t3 + pa1 * pb2) * 0x10000000000000000);
        }
        c = 0;
        r3 = ff::mac_with_carry(r3, a0, b3, &mut c);
        let ghost d3 = c as int;
        proof {
            assert(r3 + d3 * 0x10000000000000000 == u3 + pa0 * pb3);
        }
        let r = Int256([r0, r1, r2, r3]);
        proof {
            lemma_pow2_limb_values();
            let low: int = pa0 * pb0
                + (pa1 * pb0 + pa0 * pb1) * 0x10000000000000000
                + (pa2 * pb0 + pa1 * pb1 + pa0 * pb2) * 0x100000000000000000000000000000000
                + (pa3 * pb0 + pa2 * pb1 + pa1 * pb2 + pa0 * pb3)
                    * 0x1000000000000000000000000000000000000000000000000;
            let high: int = pa1 * pb3 + pa2 * pb2 + pa3 * pb1
                + (pa2 * pb3 + pa3 * pb2) * 0x10000000000000000
                + (pa3 * pb3) * 0x100000000000000000000000000000000;
            assert(r0 + r1 * 0x10000000000000000
                + r2 * 0x100000000000000000000000000000000
                + r3 * 0x1000000000000000000000000000000000000000000000000
                + (d0 + d1 + d2 + d3)
                    * 0x10000000000000000000000000000000000000000000000000000000000000000
                == low);
            assert(r.as_nat() + pow2(256) * (d0 + d1 + d2 + d3) == low) by {
                lemma_mul_congruence(pow2(256) as int, d0 + d1 + d2 + d3,
                    0x10000000000000000000000000000000000000000000000000000000000000000int,
                    d0 + d1 + d2 + d3);
            }
            let ha: int = pa0 + pa1 * 0x10000000000000000;
            let hb: int = pa2 + pa3 * 0x10000000000000000;
            let hc: int = pb0 + pb1 * 0x10000000000000000;
            let hd: int = pb2 + pb3 * 0x10000000000000000;
            lemma_mul_expand_2(ha, hb, hc, hd,
                0x100000000000000000000000000000000int,
                0x10000000000000000000000000000000000000000000000000000000000000000int);
            lemma_mul_expand_2(pa0, pa1, pb0, pb1,
                0x10000000000000000int, 0x100000000000000000000000000000000int);
            lemma_mul_expand_2(pa0, pa1, pb2, pb3,
                0x10000000000000000int, 0x100000000000000000000000000000000int);
            lemma_mul_expand_2(pa2, pa3, pb0, pb1,
                0x10000000000000000int, 0x100000000000000000000000000000000int);
            lemma_mul_expand_2(pa2, pa3, pb2, pb3,
                0x10000000000000000int, 0x100000000000000000000000000000000int);
            lemma_mul_congruence(self.as_nat() as int, other.as_nat() as int,
                ha + hb * 0x100000000000000000000000000000000int,
                hc + hd * 0x100000000000000000000000000000000int);
            assert(self.as_nat() * other.as_nat() == low
                + 0x10000000000000000000000000000000000000000000000000000000000000000 * high);
            assert(self.as_nat() * other.as_nat()
                == r.as_nat() + pow2(256) * (d0 + d1 + d2 + d3 + high)) by {
                lemma_mul_congruence(pow2(256) as int, d0 + d1 + d2 + d3 + high,
                    0x10000000000000000000000000000000000000000000000000000000000000000int,
                    d0 + d1 + d2 + d3 + high);
            }
            r.lemma_as_nat_bound();
            lemma_mod_multiples_vanish(
                d0 + d1 + d2 + d3 + high, r.as_nat() as int, pow2(256) as int);
            lemma_small_mod(r.as_nat(), pow2(256));
        }
        r
    }
}

/// Multiplication respects replacing a factor by an equal value.
pub(crate) proof fn lemma_mul_congruence(x: int, y: int, xx: int, yy: int) by (nonlinear_arith)
    requires
        x == xx,
        y == yy,
    ensures
        x * y == xx * yy,
{
}

/// Expanding the product of two two-digit numbers in base w.
proof fn lemma_mul_expand_2(p: int, q: int, r: int, s: int, w: int, ww: int)
    requires
        ww == w * w,
    ensures
        (p + q * w) * (r + s * w) == p * r + (q * r + p * s) * w + (q * s) * ww,
{
    lemma_mul_is_distributive_add_other_way(r + s * w, p, q * w);
    lemma_mul_is_distributive_add(p, r, s * w);
    lemma_mul_is_associative(p, s, w);
    lemma_mul_is_distributive_add(q * w, r, s * w);
    lemma_mul_is_associative(q, w, r);
    lemma_mul_is_commutative(w, r);
    lemma_mul_is_associative(q, r, w);
    lemma_mul_is_associative(q * w, s, w);
    lemma_mul_is_associative(q, w, s);
    lemma_mul_is_commutative(w, s);
    lemma_mul_is_associative(q, s, w);
    lemma_mul_is_associative(q * s, w, w);
    lemma_mul_is_distributive_add_other_way(w, q * r, p * s);
}

/// Subtracting y after adding y gives back x: over the field's model,
/// the modular difference of a modular sum and one addend is the other addend.
pub proof fn lemma_add_sub_cancel(x: nat, y: nat, m: nat)
    requires
        0 < m,
        x < m,
    ensures
        (((x + y) % m) as int - y as int) % (m as int) == x,
{
    let a = ((x + y) % m) as int;
    let q = (y as int) / (m as int);
    lemma_sub_mod_noop((x + y) as int, y as int, m as int);
    lemma_small_mod(x, m);
    lemma_fundamental_div_mod(y as int, m as int);
    lemma_mul_unary_negation(m as int, q);
    lemma_mod_multiples_vanish(-q, a - ((y as int) % (m as int)), m as int);
}


/// Addition is commutative: the wrapped sum does not depend on the order of
/// its operands.
pub proof fn lemma_add_commutes(x: Int256, y: Int256)
    ensures
        (x.as_nat() + y.as_nat()) % pow2(256) == (y.as_nat() + x.as_nat()) % pow2(256),
{
}

/// Subtracting y from the wrapped sum of x and y gives back x, for every
/// pair of 256-bit values.
pub proof fn lemma_sub_of_add_restores(x: Int256, y: Int256)
    ensures
        ((((x.as_nat() + y.as_nat()) % pow2(256)) as int) - (y.as_nat() as int))
            % (pow2(256) as int) == x.as_nat(),
{
    lemma_pow2_pos(256);
    x.lemma_as_nat_bound();
    lemma_add_sub_cancel(x.as_nat(), y.as_nat(), pow2(256));
}

/// Bit `b` of a limb standing at weight 2^(64 k) inside a larger value is
/// bit `64 k + b` of that value, whatever stands below and above the limb.
proof fn lemma_limb_bit(low: nat, limb: u64, high: nat, k: nat, b: nat)
    requires
        low < pow2(64 * k),
        b < 64,
    ensures
        (((low + pow2(64 * k) * limb + (pow2(64 * k) * pow2(64)) * high) as nat
            / pow2(64 * k + b)) % 2) == ((limb as nat / pow2(b)) % 2),
{
    lemma_pow2_pos(64 * k);
    lemma_pow2_pos(b);
    lemma_pow2_pos(64 * k + b);
    let n: nat = (low + pow2(64 * k) * limb + (pow2(64 * k) * pow2(64)) * high) as nat;
    let q: int = limb + pow2(64) * high;
    assert(pow2(64 * k) * limb + (pow2(64 * k) * pow2(64)) * high == pow2(64 * k) * q) by {
        lemma_mul_is_associative(pow2(64 * k) as int, pow2(64) as int, high as int);
        lemma_mul_is_distributive_add(pow2(64 * k) as int, limb as int, pow2(64) as int * high as int);
    }
    assert(n == pow2(64 * k) * q + low);
    lemma_div_multiples_vanish_fancy(q, low as int, pow2(64 * k) as int);
    assert(n as int / pow2(64 * k) as int == q);
    lemma_pow2_adds(64 * k, b);
    lemma_div_denominator(n as int, pow2(64 * k) as int, pow2(b) as int);
    assert(n as int / pow2(64 * k + b) as int == q / pow2(b) as int);
    lemma_pow2_adds(b, (64 - b) as nat);
    let j: int = pow2((64 - b) as nat) as int * high as int;
    assert(j * pow2(b) == pow2(64) * high) by {
        lemma_mul_is_associative(pow2((64 - b) as nat) as int, high as int, pow2(b) as int);
        lemma_mul_is_commutative(high as int, pow2(b) as int);
        lemma_mul_is_associative(pow2((64 - b) as nat) as int, pow2(b) as int, high as int);
    }
    lemma_hoist_over_denominator(limb as int, j, pow2(b));
    assert(q / pow2(b) as int == limb as int / pow2(b) as int + j);
    lemma_pow2_adds(1, (63 - b) as nat);
    lemma2_to64();
    assert(j == 2 * (pow2((63 - b) as nat) * high)) by {
        lemma_mul_is_associative(2, pow2((63 - b) as nat) as int, high as int);
    }
    lemma_mod_multiples_vanish(
        pow2((63 - b) as nat) as int * high as int, limb as int / pow2(b) as int, 2);
}

} // verus!
