use vstd::prelude::*;
use crate::curve::Curve;
use crate::curve::Point;
use crate::curve::point_spec;
use crate::curve::spec_edwards_add;
use crate::field::Fp;
use crate::field::modulus;
use crate::r1cs::ConstraintSystem;
use crate::r1cs::LinearCombination;
use crate::r1cs::SynthesisError;
use crate::r1cs::SynthesisMode;

verus! {

/// The field negation of a canonical residue.
pub open spec fn f_neg(y: nat) -> nat {
    ((modulus() - y) % (modulus() as int)) as nat
}

/// Configuration of the hash: the fixed personalization tag, the
/// per-segment, per-window tables of four generator points each, and the
/// curve the points live on.  Table contents are a deployment choice; the
/// gadget is exact for whatever table it is given.
pub struct PedersenParams {
    pub personalization: Vec<bool>,
    pub tables: Vec<Vec<Vec<Point>>>,
    pub curve: Curve,
}

impl PedersenParams {
    /// The number of windows every segment offers.
    pub open spec fn window_count(self) -> nat {
        self.tables@[0]@.len()
    }

    pub open spec fn wf(self) -> bool {
        &&& self.curve.wf()
        &&& self.personalization@.len() == 6
        &&& self.tables@.len() > 0
        &&& self.window_count() > 0
        &&& self.window_count() <= usize::MAX / 4
        &&& forall|s: int| 0 <= s < self.tables@.len()
            ==> (#[trigger] self.tables@[s])@.len() == self.window_count()
        &&& forall|s: int, w: int| 0 <= s < self.tables@.len()
            && 0 <= w < self.tables@[s]@.len()
            ==> (#[trigger] self.tables@[s]@[w])@.len() == 4
        &&& forall|s: int, w: int, k: int| 0 <= s < self.tables@.len()
            && 0 <= w < self.tables@[s]@.len() && 0 <= k < 4
            ==> (#[trigger] self.tables@[s]@[w]@[k]).wf()
    }
}

/// Bit j of the padded message: false beyond the end.
pub open spec fn cbit(bits: Seq<bool>, j: int) -> bool {
    if 0 <= j < bits.len() {
        bits[j]
    } else {
        false
    }
}

/// The number of three-bit windows needed for a message.
pub open spec fn spec_num_windows(len: nat) -> nat {
    (len + 2) / 3
}

/// The number of segments needed for that many windows, with wc windows in
/// each segment.
pub open spec fn spec_num_segments(nwin: nat, wc: nat) -> nat {
    ((nwin + wc - 1) as int / wc as int) as nat
}

/// The point a three-bit window selects: one of the four table points chosen
/// by the first two bits, negated in y when the third bit is set.
pub open spec fn spec_lookup(table: Seq<Point>, b0: bool, b1: bool, b2: bool) -> (
    nat,
    nat,
    bool,
) {
    let idx = (if b0 { 1int } else { 0int }) + (if b1 { 2int } else { 0int });
    let p = table[idx];
    if b2 {
        (p.x.as_nat(), f_neg(p.y.as_nat()), p.isnull)
    } else {
        point_spec(p)
    }
}

/// The point contributed by global window w of the padded message.
pub open spec fn spec_window_point(
    params: PedersenParams,
    allbits: Seq<bool>,
    w: int,
) -> (nat, nat, bool) {
    let wc = params.window_count() as int;
    spec_lookup(params.tables@[w / wc]@[w % wc]@, cbit(allbits, 3 * w), cbit(allbits, 3 * w + 1),
        cbit(allbits, 3 * w + 2))
}

/// The sum of the first j window points of segment s, later windows added on
/// the left as the loop does.
pub open spec fn spec_segment_sum(
    params: PedersenParams,
    allbits: Seq<bool>,
    s: int,
    j: nat,
) -> (nat, nat, bool)
    decreases j,
{
    if j == 0 {
        (0nat, 0nat, true)
    } else {
        spec_edwards_add(params.curve.edwards_a.as_nat(), params.curve.edwards_d.as_nat(),
            spec_window_point(params, allbits, s * params.window_count() as int + j - 1),
            spec_segment_sum(params, allbits, s, (j - 1) as nat))
    }
}

/// The number of windows that fall into segment s.
pub open spec fn spec_windows_in_segment(nwin: nat, wc: nat, s: int) -> nat {
    if nwin >= s * wc + wc {
        wc
    } else {
        (nwin - s * wc) as nat
    }
}

/// The running total after the first s segments: each finished segment's sum
/// added on the left into the accumulator.
pub open spec fn spec_pedersen_total(
    params: PedersenParams,
    allbits: Seq<bool>,
    nwin: nat,
    s: nat,
) -> (nat, nat, bool)
    decreases s,
{
    if s == 0 {
        (0nat, 0nat, true)
    } else {
        spec_edwards_add(params.curve.edwards_a.as_nat(), params.curve.edwards_d.as_nat(),
            spec_segment_sum(params, allbits, s - 1,
                spec_windows_in_segment(nwin, params.window_count(), s - 1)),
            spec_pedersen_total(params, allbits, nwin, (s - 1) as nat))
    }
}

/// The hash of a message: the total over all needed segments of the
/// personalization tag followed by the message bits.
pub open spec fn spec_pedersen_hash(params: PedersenParams, bits: Seq<bool>) -> (
    nat,
    nat,
    bool,
) {
    let allbits = params.personalization@ + bits;
    let nwin = spec_num_windows(allbits.len());
    spec_pedersen_total(params, allbits, nwin,
        spec_num_segments(nwin, params.window_count()))
}

/// Selects one of the four points of a window table by the first two bits
/// and conditionally negates it by the third.
pub fn lookup3(table: &Vec<Point>, b0: bool, b1: bool, b2: bool) -> (r: Point)
    requires
        table@.len() == 4,
        forall|k: int| 0 <= k < 4 ==> (#[trigger] table@[k]).wf(),
    ensures
        r.wf(),
        point_spec(r) == spec_lookup(table@, b0, b1, b2),
{
    let idx: usize = (if b0 { 1 } else { 0 }) + (if b1 { 2 } else { 0 });
    let mut p = table[idx];
    if b2 {
        p.y.negate();
    }
    p
}

/// The windowed Pedersen hash: the personalization tag and the message bits,
/// taken three at a time, select per-window generator points, which
/// accumulate within fixed-size segments; each finished segment is added
/// into the running total, and synthesis stops when the bits are exhausted.
pub fn pedersen_hash(bits: &Vec<bool>, params: &PedersenParams) -> (r: Result<
    Point,
    SynthesisError,
>)
    requires
        params.wf(),
        bits@.len() <= usize::MAX / 4,
        params.tables@.len() >= spec_num_segments(
            spec_num_windows((6 + bits@.len()) as nat), params.window_count()),
    ensures
        r is Ok,
        r.unwrap().wf(),
        point_spec(r.unwrap()) == spec_pedersen_hash(*params, bits@),
{
    let mut allbits: Vec<bool> = Vec::new();
    let mut pi: usize = 0;
    while pi < params.personalization.len()
        invariant
            pi <= params.personalization@.len(),
            allbits@ == params.personalization@.take(pi as int),
        decreases params.personalization@.len() - pi,
    {
        allbits.push(params.personalization[pi]);
        pi = pi + 1;
        proof {
            assert(params.personalization@.take(pi as int)
                =~= params.personalization@.take(pi as int - 1)
                    .push(params.personalization@[pi as int - 1]));
        }
    }
    proof {
        assert(params.personalization@.take(params.personalization@.len() as int)
            =~= params.personalization@);
    }
    let mut bi: usize = 0;
    while bi < bits.len()
        invariant
            bi <= bits@.len(),
            allbits@ == params.personalization@ + bits@.take(bi as int),
        decreases bits@.len() - bi,
    {
        allbits.push(bits[bi]);
        bi = bi + 1;
        proof {
            assert(params.personalization@ + bits@.take(bi as int)
                =~= (params.personalization@ + bits@.take(bi as int - 1))
                    .push(bits@[bi as int - 1]));
        }
    }
    proof {
        assert(bits@.take(bits@.len() as int) =~= bits@);
        assert(allbits@ =~= params.personalization@ + bits@);
    }
    let total_bits = allbits.len();
    let nwin = (total_bits + 2) / 3;
    let wc = params.tables[0].len();
    let nseg = (nwin + wc - 1) / wc;
    let ghost av = allbits@;
    let mut tot = Point::null();
    let mut w: usize = 0;
    let mut s: usize = 0;
    while s < nseg
        invariant
            params.wf(),
            av == params.personalization@ + bits@,
            av.len() == total_bits,
            total_bits == allbits@.len(),
            av == allbits@,
            total_bits <= usize::MAX / 4 + 6,
            nwin == spec_num_windows(total_bits as nat),
            wc == params.window_count(),
            nseg == spec_num_segments(nwin as nat, wc as nat),
            params.tables@.len() >= nseg,
            s <= nseg,
            w as int == (if s * wc <= nwin { (s * wc) as int } else { nwin as int }),
            tot.wf(),
            point_spec(tot) == spec_pedersen_total(*params, av, nwin as nat, s as nat),
        decreases nseg - s,
    {
        proof {
            assert(s * wc <= nwin) by (nonlinear_arith)
                requires
                    s < nseg,
                    wc > 0,
                    nseg == ((nwin + wc - 1) as int / wc as int);
        }
        let mut acc = Point::null();
        let mut j: usize = 0;
        while j < wc && w < nwin
            invariant
                params.wf(),
                av == allbits@,
                av.len() == total_bits,
                total_bits == allbits@.len(),
                total_bits <= usize::MAX / 4 + 6,
                nwin == spec_num_windows(total_bits as nat),
                wc == params.window_count(),
                nseg == spec_num_segments(nwin as nat, wc as nat),
                params.tables@.len() >= nseg,
                s < nseg,
                j <= wc,
                w == s * wc + j,
                w <= nwin,
                acc.wf(),
                point_spec(acc) == spec_segment_sum(*params, av, s as int, j as nat),
            decreases wc - j,
        {
            let b0 = allbits[3 * w];
            let b1 = if 3 * w + 1 < total_bits {
                allbits[3 * w + 1]
            } else {
                false
            };
            let b2 = if 3 * w + 2 < total_bits {
                allbits[3 * w + 2]
            } else {
                false
            };
            proof {
                assert(3 * w < total_bits) by (nonlinear_arith)
                    requires
                        w < nwin,
                        nwin == ((total_bits + 2) as int) / 3;
                assert(w as int / wc as int == s as int
                    && w as int % wc as int == j as int) by (nonlinear_arith)
                    requires
                        w == s * wc + j,
                        0 <= j < wc;
            }
            proof {
                assert(params.tables@[s as int]@.len() == wc);
                assert(params.tables@[s as int]@[j as int]@.len() == 4);
                assert(forall|k: int| 0 <= k < 4
                    ==> (#[trigger] params.tables@[s as int]@[j as int]@[k]).wf());
            }
            let tmp = lookup3(&params.tables[s][j], b0, b1, b2);
            acc = params.curve.edwards_add(&tmp, &acc);
            w = w + 1;
            j = j + 1;
        }
        proof {
            assert(j as nat == spec_windows_in_segment(nwin as nat, wc as nat, s as int))
                by (nonlinear_arith)
                requires
                    w == s * wc + j,
                    j <= wc,
                    w <= nwin,
                    wc > 0,
                    (j == wc || w == nwin),
                    nwin >= s * wc;
        }
        tot = params.curve.edwards_add(&acc, &tot);
        s = s + 1;
        proof {
            assert(w as int == (if s * wc <= nwin { (s * wc) as int } else { nwin as int })) by (nonlinear_arith)
                requires
                    w == (s - 1) * wc + spec_windows_in_segment(nwin as nat, wc as nat,
                        s as int - 1),
                    wc > 0,
                    nwin >= (s - 1) * wc;
        }
    }
    proof {
        assert(point_spec(tot) == spec_pedersen_hash(*params, bits@));
    }
    Ok(tot)
}

/// A circuit that hashes a fixed number of message bits: each bit becomes a
/// boolean-constrained witness variable, and the hash point is exposed as
/// two constrained public inputs.
pub struct PedersenHashCircuit {
    pub bits: Option<Vec<bool>>,
    pub num_bits: usize,
    pub params: PedersenParams,
}

impl PedersenHashCircuit {
    pub open spec fn wf(self) -> bool {
        &&& self.params.wf()
        &&& (self.bits is Some ==> self.bits.unwrap()@.len() == self.num_bits)
        &&& self.num_bits <= usize::MAX / 4
        &&& self.params.tables@.len() >= spec_num_segments(
            spec_num_windows((6 + self.num_bits) as nat), self.params.window_count())
    }

    /// Writes the circuit into the system: one boolean-constrained private
    /// variable per message bit, the hash coordinates as private variables,
    /// and two public inputs constrained to equal them.  During witness
    /// synthesis the absence of the message aborts with AssignmentMissing,
    /// and the exposed public values are exactly the coordinates of the
    /// Pedersen hash of the message.
    pub fn synthesize(self, cs: &mut ConstraintSystem) -> (r: Result<(), SynthesisError>)
        requires
            old(cs).wf(),
            self.wf(),
            old(cs).num_vars + self.num_bits + 4 <= usize::MAX,
        ensures
            r is Ok <==> (old(cs).mode == SynthesisMode::Proving ==> self.bits is Some),
            r is Err ==> *final(cs) == *old(cs)
                && r.unwrap_err() == SynthesisError::AssignmentMissing,
            r is Ok ==> final(cs).wf()
                && final(cs).mode == old(cs).mode
                && final(cs).num_vars == old(cs).num_vars + self.num_bits + 4
                && final(cs).constraints@.len()
                    == old(cs).constraints@.len() + self.num_bits + 2
                && final(cs).public_inputs@ == old(cs).public_inputs@
                    .push((old(cs).num_vars + self.num_bits + 2) as usize)
                    .push((old(cs).num_vars + self.num_bits + 3) as usize),
            r is Ok && old(cs).mode == SynthesisMode::Proving ==> {
                let h = spec_pedersen_hash(self.params, self.bits.unwrap()@);
                &&& final(cs).assignments@[old(cs).num_vars + self.num_bits + 2].as_nat()
                    == h.0
                &&& final(cs).assignments@[old(cs).num_vars + self.num_bits + 3].as_nat()
                    == h.1
                &&& forall|t: int| 0 <= t < self.num_bits
                    ==> (#[trigger] final(cs).assignments@[old(cs).num_vars + t]).as_nat()
                        == (if self.bits.unwrap()@[t] { 1nat } else { 0nat })
                &&& forall|ci: int| old(cs).constraints@.len() <= ci
                    < final(cs).constraints@.len()
                    ==> (#[trigger] final(cs).constraints@[ci])
                        .satisfied(final(cs).assignments@)
            },
    {
        let ghost old_cs = *cs;
        let proving = match cs.mode {
            SynthesisMode::Proving => true,
            SynthesisMode::Setup => false,
        };
        if proving && self.bits.is_none() {
            return Err(SynthesisError::AssignmentMissing);
        }
        let mut i: usize = 0;
        while i < self.num_bits
            invariant
                cs.wf(),
                cs.mode == old_cs.mode,
                proving == (cs.mode == SynthesisMode::Proving),
                proving ==> self.bits is Some,
                self.wf(),
                i <= self.num_bits,
                cs.num_vars == old_cs.num_vars + i,
                old_cs.num_vars + self.num_bits + 4 <= usize::MAX,
                cs.constraints@.len() == old_cs.constraints@.len() + i,
                cs.public_inputs == old_cs.public_inputs,
                proving ==> cs.assignments@.len() == old_cs.assignments@.len() + i,
                proving ==> forall|t: int| 0 <= t < i
                    ==> (#[trigger] cs.assignments@[old_cs.num_vars + t]).as_nat()
                        == (if self.bits.unwrap()@[t] { 1nat } else { 0nat }),
                proving ==> forall|ci: int| old_cs.constraints@.len() <= ci
                    < cs.constraints@.len()
                    ==> (#[trigger] cs.constraints@[ci]).satisfied(cs.assignments@),
            decreases self.num_bits - i,
        {
            let value = if proving {
                match &self.bits {
                    Some(b) => Some(if b[i] { Fp::one() } else { Fp::zero() }),
                    None => None,
                }
            } else {
                None
            };
            let ghost bv: nat = if value is Some { value.unwrap().as_nat() } else { 0nat };
            let ghost pre_cs = *cs;
            let v = match cs.allocate_private(value) {
                Ok(v) => v,
                Err(_) => {
                    proof {
                        assert(false);
                    }
                    return Err(SynthesisError::AssignmentMissing);
                },
            };
            proof {
                if proving {
                    assert forall|ci: int| old_cs.constraints@.len() <= ci
                        < cs.constraints@.len() implies (#[trigger] cs.constraints@[ci])
                        .satisfied(cs.assignments@) by {
                        crate::r1cs::lemma_satisfied_extend(cs.constraints@[ci],
                            pre_cs.assignments@, cs.assignments@);
                    }
                }
            }
            let lva = LinearCombination::of_var(v);
            let lvb = LinearCombination::of_var(v);
            let lvc = LinearCombination::of_var(v);
            proof {
                if proving {
                    let assign = cs.assignments@;
                    vstd::arithmetic::div_mod::lemma_small_mod(bv, modulus());
                    assert(lva.spec_eval(assign) == bv);
                    assert(lvb.spec_eval(assign) == bv);
                    assert(lvc.spec_eval(assign) == bv);
                    crate::int256::lemma_mul_congruence(lva.spec_eval(assign) as int,
                        lvb.spec_eval(assign) as int, bv as int, bv as int);
                    assert((bv * bv) % modulus() == bv) by {
                        if bv == 0 {
                            vstd::arithmetic::div_mod::lemma_small_mod(0, modulus());
                        } else {
                            assert(bv == 1);
                            vstd::arithmetic::div_mod::lemma_small_mod(1, modulus());
                        }
                    }
                }
            }
            match cs.enforce(lva, lvb, lvc) {
                Ok(()) => (),
                Err(e) => {
                    proof {
                        assert(false);
                    }
                    return Err(e);
                },
            }
            i = i + 1;
        }
        let hash = if proving {
            match &self.bits {
                Some(b) => {
                    match pedersen_hash(b, &self.params) {
                        Ok(p) => Some(p),
                        Err(e) => {
                            proof {
                                assert(false);
                            }
                            return Err(e);
                        },
                    }
                },
                None => None,
            }
        } else {
            None
        };
        let ghost after_bits_cs = *cs;
        let hx = match &hash {
            Some(p) => Some(p.x),
            None => None,
        };
        let hy = match &hash {
            Some(p) => Some(p.y),
            None => None,
        };
        let vhx = match cs.allocate_private(hx) {
            Ok(v) => v,
            Err(_) => {
                proof {
                    assert(false);
                }
                return Err(SynthesisError::AssignmentMissing);
            },
        };
        let vhy = match cs.allocate_private(hy) {
            Ok(v) => v,
            Err(_) => {
                proof {
                    assert(false);
                }
                return Err(SynthesisError::AssignmentMissing);
            },
        };
        let vpx = match cs.allocate_public(hx) {
            Ok(v) => v,
            Err(_) => {
                proof {
                    assert(false);
                }
                return Err(SynthesisError::AssignmentMissing);
            },
        };
        let vpy = match cs.allocate_public(hy) {
            Ok(v) => v,
            Err(_) => {
                proof {
                    assert(false);
                }
                return Err(SynthesisError::AssignmentMissing);
            },
        };
        proof {
            if proving {
                assert forall|ci: int| old_cs.constraints@.len() <= ci
                    < cs.constraints@.len() implies (#[trigger] cs.constraints@[ci])
                    .satisfied(cs.assignments@) by {
                    crate::r1cs::lemma_satisfied_extend(cs.constraints@[ci],
                        after_bits_cs.assignments@, cs.assignments@);
                }
            }
        }
        let ghost hxv: nat = if hx is Some { hx.unwrap().as_nat() } else { 0nat };
        let ghost hyv: nat = if hy is Some { hy.unwrap().as_nat() } else { 0nat };
        let lhx = LinearCombination::of_var(vhx);
        let lone_x = LinearCombination::of_constant(Fp::one());
        let lpx = LinearCombination::of_var(vpx);
        proof {
            if proving {
                let assign = cs.assignments@;
                vstd::arithmetic::div_mod::lemma_small_mod(hxv, modulus());
                vstd::arithmetic::div_mod::lemma_small_mod(1, modulus());
                assert(lhx.spec_eval(assign) == hxv);
                assert(lone_x.spec_eval(assign) == 1);
                assert(lpx.spec_eval(assign) == hxv);
                crate::int256::lemma_mul_congruence(lhx.spec_eval(assign) as int,
                    lone_x.spec_eval(assign) as int, hxv as int, 1int);
                assert((hxv * 1) % modulus() == hxv);
            }
        }
        match cs.enforce(lhx, lone_x, lpx) {
            Ok(()) => (),
            Err(e) => {
                proof {
                    assert(false);
                }
                return Err(e);
            },
        }
        let lhy = LinearCombination::of_var(vhy);
        let lone_y = LinearCombination::of_constant(Fp::one());
        let lpy = LinearCombination::of_var(vpy);
        proof {
            if proving {
                let assign = cs.assignments@;
                vstd::arithmetic::div_mod::lemma_small_mod(hyv, modulus());
                vstd::arithmetic::div_mod::lemma_small_mod(1, modulus());
                assert(lhy.spec_eval(assign) == hyv);
                assert(lone_y.spec_eval(assign) == 1);
                assert(lpy.spec_eval(assign) == hyv);
                crate::int256::lemma_mul_congruence(lhy.spec_eval(assign) as int,
                    lone_y.spec_eval(assign) as int, hyv as int, 1int);
                assert((hyv * 1) % modulus() == hyv);
            }
        }
        match cs.enforce(lhy, lone_y, lpy) {
            Ok(()) => (),
            Err(e) => {
                proof {
                    assert(false);
                }
                return Err(e);
            },
        }
        Ok(())
    }
}

} // verus!
