use vstd::prelude::*;
use crate::field::Fp;
use crate::field::inv_spec;
use crate::field::modulus;

verus! {

/// Field product as a canonical residue.
pub open spec fn f_mul(a: nat, b: nat) -> nat {
    (a * b) % modulus()
}

/// Field sum as a canonical residue.
pub open spec fn f_add(a: nat, b: nat) -> nat {
    (a + b) % modulus()
}

/// Field difference as a canonical residue.
pub open spec fn f_sub(a: nat, b: nat) -> nat {
    ((a - b) % (modulus() as int)) as nat
}

/// An affine point with an explicit marker for the point at infinity, which
/// also stands for an absent accumulator.
#[derive(Copy, Clone)]
pub struct Point {
    pub x: Fp,
    pub y: Fp,
    pub isnull: bool,
}

/// A point reduced to its mathematical content: both coordinates as values,
/// and the infinity marker.
pub open spec fn point_spec(p: Point) -> (nat, nat, bool) {
    (p.x.as_nat(), p.y.as_nat(), p.isnull)
}

impl Point {
    pub open spec fn wf(self) -> bool {
        self.x.reduced() && self.y.reduced()
    }

    /// The point at infinity, the identity of addition.
    pub fn null() -> (r: Point)
        ensures
            r.wf(),
            point_spec(r) == (0nat, 0nat, true),
    {
        Point { x: Fp::zero(), y: Fp::zero(), isnull: true }
    }
}

/// Twisted Edwards addition on coordinate triples: null is the identity, and
/// a vanishing denominator yields null.  The complete addition law
/// x3 = (x1 y2 + y1 x2) / (1 + d x1 x2 y1 y2),
/// y3 = (y1 y2 - a x1 x2) / (1 - d x1 x2 y1 y2).
pub open spec fn spec_edwards_add(
    ca: nat,
    cd: nat,
    p: (nat, nat, bool),
    q: (nat, nat, bool),
) -> (nat, nat, bool) {
    if p.2 {
        q
    } else if q.2 {
        p
    } else {
        let x1x2 = f_mul(p.0, q.0);
        let y1y2 = f_mul(p.1, q.1);
        let x1y2 = f_mul(p.0, q.1);
        let y1x2 = f_mul(p.1, q.0);
        let t = f_mul(f_mul(cd, x1x2), y1y2);
        let den1 = f_add(1, t);
        let den2 = f_sub(1, t);
        if den1 == 0 || den2 == 0 {
            (0nat, 0nat, true)
        } else {
            (
                f_mul(f_add(x1y2, y1x2), inv_spec(den1)),
                f_mul(f_sub(y1y2, f_mul(ca, x1x2)), inv_spec(den2)),
                false,
            )
        }
    }
}

/// Iterated doubling: the base point after i doublings.
pub open spec fn spec_scalar_base(ca: nat, cd: nat, p: (nat, nat, bool), i: nat) -> (
    nat,
    nat,
    bool,
)
    decreases i,
{
    if i == 0 {
        p
    } else {
        let b = spec_scalar_base(ca, cd, p, (i - 1) as nat);
        spec_edwards_add(ca, cd, b, b)
    }
}

/// Double-and-add accumulator: the sum of the doubled base points selected by
/// the low i bits of the scalar k.
pub open spec fn spec_scalar_acc(ca: nat, cd: nat, p: (nat, nat, bool), k: nat, i: nat) -> (
    nat,
    nat,
    bool,
)
    decreases i,
{
    if i == 0 {
        (0nat, 0nat, true)
    } else {
        let prev = spec_scalar_acc(ca, cd, p, k, (i - 1) as nat);
        if (k / vstd::arithmetic::power2::pow2((i - 1) as nat)) % 2 == 1 {
            spec_edwards_add(ca, cd, spec_scalar_base(ca, cd, p, (i - 1) as nat), prev)
        } else {
            prev
        }
    }
}

/// A twisted Edwards curve over the field, given by its two coefficients.
#[derive(Copy, Clone)]
pub struct Curve {
    pub edwards_a: Fp,
    pub edwards_d: Fp,
}

/// The group operations a curve offers: point addition and scalar
/// multiplication.
pub trait CurveGroup where Self: Sized {
    spec fn group_wf(self) -> bool;

    fn add(self, p1: &Point, p2: &Point) -> (r: Point)
        requires
            self.group_wf(),
            p1.wf(),
            p2.wf(),
        ensures
            r.wf(),
    ;

    fn mul(self, p: &Point, k: Fp) -> (r: Point)
        requires
            self.group_wf(),
            p.wf(),
            k.reduced(),
        ensures
            r.wf(),
    ;
}

impl Curve {
    pub open spec fn wf(self) -> bool {
        self.edwards_a.reduced() && self.edwards_d.reduced()
    }

    /// Complete twisted Edwards addition of two points.
    pub fn edwards_add(&self, p: &Point, q: &Point) -> (r: Point)
        requires
            self.wf(),
            p.wf(),
            q.wf(),
        ensures
            r.wf(),
            point_spec(r) == spec_edwards_add(self.edwards_a.as_nat(),
                self.edwards_d.as_nat(), point_spec(*p), point_spec(*q)),
    {
        if p.isnull {
            return *q;
        }
        if q.isnull {
            return *p;
        }
        let mut x1x2 = p.x;
        x1x2.mul_assign(&q.x);
        let mut y1y2 = p.y;
        y1y2.mul_assign(&q.y);
        let mut x1y2 = p.x;
        x1y2.mul_assign(&q.y);
        let mut y1x2 = p.y;
        y1x2.mul_assign(&q.x);
        let mut t = self.edwards_d;
        t.mul_assign(&x1x2);
        t.mul_assign(&y1y2);
        let mut den1 = Fp::one();
        den1.add_assign(&t);
        let mut den2 = Fp::one();
        den2.sub_assign(&t);
        let i1 = match den1.inverse() {
            Some(v) => v,
            None => {
                return Point::null();
            },
        };
        let i2 = match den2.inverse() {
            Some(v) => v,
            None => {
                return Point::null();
            },
        };
        let mut x3 = x1y2;
        x3.add_assign(&y1x2);
        x3.mul_assign(&i1);
        let mut ax = self.edwards_a;
        ax.mul_assign(&x1x2);
        let mut y3 = y1y2;
        y3.sub_assign(&ax);
        y3.mul_assign(&i2);
        Point { x: x3, y: y3, isnull: false }
    }
}

impl CurveGroup for Curve {
    open spec fn group_wf(self) -> bool {
        self.wf()
    }

    /// Point addition under the complete Edwards law.
    fn add(self, p1: &Point, p2: &Point) -> (r: Point)
        ensures
            point_spec(r) == spec_edwards_add(self.edwards_a.as_nat(),
                self.edwards_d.as_nat(), point_spec(*p1), point_spec(*p2)),
    {
        self.edwards_add(p1, p2)
    }

    /// Scalar multiplication by double-and-add over the 256 bits of k.
    fn mul(self, p: &Point, k: Fp) -> (r: Point)
        ensures
            point_spec(r) == spec_scalar_acc(self.edwards_a.as_nat(),
                self.edwards_d.as_nat(), point_spec(*p), k.as_nat(), 256),
    {
        let ghost ca = self.edwards_a.as_nat();
        let ghost cd = self.edwards_d.as_nat();
        let ghost pv = point_spec(*p);
        let mut acc = Point::null();
        let mut base = *p;
        let mut i: usize = 0;
        while i < 256
            invariant
                i <= 256,
                self.wf(),
                acc.wf(),
                base.wf(),
                k.reduced(),
                ca == self.edwards_a.as_nat(),
                cd == self.edwards_d.as_nat(),
                point_spec(acc) == spec_scalar_acc(ca, cd, pv, k.as_nat(), i as nat),
                point_spec(base) == spec_scalar_base(ca, cd, pv, i as nat),
            decreases 256 - i,
        {
            if k.0.bit(i) {
                acc = self.edwards_add(&base, &acc);
            }
            base = self.edwards_add(&base, &base);
            i = i + 1;
        }
        acc
    }
}

} // verus!
