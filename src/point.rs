use vstd::prelude::*;
use ark_ec::{AffineRepr, CurveGroup};
use ark_ff::PrimeField;
use crate::field::{Fe, fadd, fsub, fmul, finv};

verus! {

/// A point of the curve y^2 = x^3 + 3 as values: the identity or a finite point.
pub enum PointVal {
    Inf,
    Pt(nat, nat),
}

/// An affine point of G1, the identity being its own variant.
#[derive(Clone, Copy, Debug, PartialEq, Eq)]
pub enum AffinePoint {
    Infinity,
    Finite { x: Fe, y: Fe },
}

impl AffinePoint {
    pub open spec fn view(self) -> PointVal {
        match self {
            AffinePoint::Infinity => PointVal::Inf,
            AffinePoint::Finite { x, y } => PointVal::Pt(x.val(), y.val()),
        }
    }

    pub open spec fn wf(self) -> bool {
        match self {
            AffinePoint::Infinity => true,
            AffinePoint::Finite { x, y } => x.wf() && y.wf(),
        }
    }

    pub fn is_zero(&self) -> (r: bool)
        ensures
            r == (*self == AffinePoint::Infinity),
    {
        match self {
            AffinePoint::Infinity => true,
            AffinePoint::Finite { .. } => false,
        }
    }

    /// The x coordinate, zero for the identity.
    pub fn x(&self) -> (r: Fe)
        ensures
            r.wf() || !self.wf(),
            r.val() == coord_x(self@),
    {
        match self {
            AffinePoint::Infinity => Fe::zero(),
            AffinePoint::Finite { x, .. } => *x,
        }
    }

    /// The y coordinate, zero for the identity.
    pub fn y(&self) -> (r: Fe)
        ensures
            r.wf() || !self.wf(),
            r.val() == coord_y(self@),
    {
        match self {
            AffinePoint::Infinity => Fe::zero(),
            AffinePoint::Finite { y, .. } => *y,
        }
    }
}

/// The coordinates of a point on the machine, where the identity is `(0, 0)`.
pub open spec fn coord_x(p: PointVal) -> nat {
    match p {
        PointVal::Inf => 0,
        PointVal::Pt(x, _) => x,
    }
}

pub open spec fn coord_y(p: PointVal) -> nat {
    match p {
        PointVal::Inf => 0,
        PointVal::Pt(_, y) => y,
    }
}

impl PointVal {
    pub open spec fn finite(self) -> bool {
        self is Pt
    }

    pub open spec fn on_curve(self) -> bool {
        match self {
            PointVal::Inf => true,
            PointVal::Pt(x, y) => fmul(y, y) == fadd(fmul(x, fmul(x, x)), 3),
        }
    }
}

/// The slope `(y1 - y2) / (x1 - x2)` of the chord through two points.
pub open spec fn chord_slope(x1: nat, y1: nat, x2: nat, y2: nat) -> nat {
    fmul(fsub(y1, y2), finv(fsub(x1, x2)))
}

/// The slope `3 x^2 / 2 y` of the tangent at a point.
pub open spec fn tangent_slope(x: nat, y: nat) -> nat {
    fmul(fadd(fadd(fmul(x, x), fmul(x, x)), fmul(x, x)), finv(fadd(y, y)))
}

/// The third point of the line of slope `l` through `(x1, y1)` and a point of
/// abscissa `x2`, reflected.
pub open spec fn line_point(l: nat, x1: nat, y1: nat, x2: nat) -> PointVal {
    let x3 = fsub(fsub(fmul(l, l), x1), x2);
    PointVal::Pt(x3, fsub(fmul(l, fsub(x1, x3)), y1))
}

/// The group law of the curve.
pub open spec fn point_sum(a: PointVal, b: PointVal) -> PointVal {
    match (a, b) {
        (PointVal::Inf, _) => b,
        (_, PointVal::Inf) => a,
        (PointVal::Pt(x1, y1), PointVal::Pt(x2, y2)) => if x1 != x2 {
            line_point(chord_slope(x1, y1, x2, y2), x1, y1, x2)
        } else if y1 == y2 && y1 != 0 {
            line_point(tangent_slope(x1, y1), x1, y1, x1)
        } else {
            PointVal::Inf
        },
    }
}

/// Relies on ark_ec's addition of two ark_bn254::G1Affine points and
/// `into_affine`: the group law of the curve, which keeps points on the curve.
#[verifier::external_body]
pub(crate) fn ec_add(a: AffinePoint, b: AffinePoint) -> (r: AffinePoint)
    requires
        a.wf(),
        b.wf(),
        a@.on_curve(),
        b@.on_curve(),
    ensures
        r.wf(),
        r@ == point_sum(a@, b@),
        r@.on_curve(),
{
    let f = |p: AffinePoint| match p {
        AffinePoint::Infinity => ark_bn254::G1Affine::identity(),
        AffinePoint::Finite { x, y } => ark_bn254::G1Affine::new_unchecked(
            ark_bn254::Fq::new(ark_ff::BigInt(x.limbs)), ark_bn254::Fq::new(ark_ff::BigInt(y.limbs))),
    };
    match (f(a) + f(b)).into_affine().xy() {
        None => AffinePoint::Infinity,
        Some((x, y)) => AffinePoint::Finite { x: Fe { limbs: x.into_bigint().0 }, y: Fe { limbs: y.into_bigint().0 } },
    }
}

} // verus!
