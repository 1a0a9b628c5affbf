use vstd::prelude::*;
use crate::field::{Fe, fadd, fsub, fmul, fneg, finv, modulus, fe_add, fe_sub, fe_mul, fe_neg, fe_square, fe_inverse};
use crate::point::{AffinePoint, PointVal, coord_x, coord_y, chord_slope, tangent_slope};
use crate::script::Op;

verus! {

/// The values of a sequence of field elements.
pub open spec fn vals(v: Seq<Fe>) -> Seq<nat> {
    v.map_values(|h: Fe| h.val())
}

pub open spec fn all_wf(v: Seq<Fe>) -> bool {
    forall|i: int| 0 <= i < v.len() ==> #[trigger] v[i].wf()
}

/// Whether `(alpha, c4)`, with `c4` the negated intercept, is a line through `(x, y)`.
pub open spec fn on_line(alpha: nat, c4: nat, x: nat, y: nat) -> bool {
    fadd(c4, fsub(y, fmul(x, alpha))) == 0
}

pub open spec fn line_through_point_ops() -> Seq<Op> {
    seq![Op::Mul(1, 3), Op::Sub(1, 0), Op::Add(1, 0), Op::PushZero, Op::Equal(1, 0)]
}

pub open spec fn push_zero_ops() -> Seq<Op> {
    seq![Op::PushZero, Op::PushZero]
}

pub open spec fn push_ops(p: AffinePoint) -> Seq<Op> {
    match p {
        AffinePoint::Infinity => push_zero_ops(),
        AffinePoint::Finite { x, y } => seq![Op::Push(x), Op::Push(y)],
    }
}

pub open spec fn equalverify_ops() -> Seq<Op> {
    seq![Op::Roll(2), Op::EqualVerify(1, 0), Op::EqualVerify(1, 0)]
}

pub open spec fn is_zero_ops() -> Seq<Op> {
    seq![Op::IsZero(0), Op::ToAlt, Op::IsZero(0), Op::FromAlt, Op::BoolAnd]
}

pub open spec fn is_zero_keep_ops() -> Seq<Op> {
    seq![Op::IsZeroKeep(0), Op::ToAlt, Op::IsZeroKeep(1), Op::FromAlt, Op::BoolAnd]
}

pub open spec fn drop_ops() -> Seq<Op> {
    seq![Op::Drop, Op::Drop]
}

pub open spec fn roll_ops(a: u32) -> Seq<Op> {
    seq![Op::Roll((2 * a + 1) as u32), Op::Roll((2 * a + 1) as u32)]
}

pub open spec fn chord_line_ops() -> Seq<Op> {
    seq![Op::Copy(5), Op::Copy(5), Op::Roll(3), Op::Roll(3)] + line_through_point_ops()
        + seq![Op::ToAlt] + line_through_point_ops() + seq![Op::FromAlt, Op::BoolAnd]
}

pub open spec fn chord_line_hints(tx: nat, qx: nat, c3: nat) -> Seq<nat> {
    seq![fmul(qx, c3), fmul(tx, c3)]
}

pub open spec fn tangent_line_ops() -> Seq<Op> {
    seq![
        Op::Copy(0), Op::Double(0), Op::Copy(4), Op::Mul(1, 0), Op::Copy(2), Op::Square,
        Op::Copy(0), Op::Double(0), Op::Add(1, 0), Op::Sub(1, 0), Op::IsZero(0), Op::ToAlt,
    ] + line_through_point_ops() + seq![Op::FromAlt, Op::BoolAnd]
}

pub open spec fn tangent_line_hints(tx: nat, ty: nat, c3: nat) -> Seq<nat> {
    seq![fmul(fadd(ty, ty), c3), fmul(tx, tx), fmul(tx, c3)]
}

pub open spec fn add_ops() -> Seq<Op> {
    seq![
        Op::Add(1, 0), Op::Roll(2), Op::Copy(0), Op::Square, Op::Sub(0, 2), Op::Copy(0),
        Op::Mul(2, 0), Op::Sub(2, 0),
    ]
}

pub open spec fn double_ops() -> Seq<Op> {
    seq![
        Op::Double(0), Op::Roll(2), Op::Copy(0), Op::Square, Op::Sub(0, 2), Op::Copy(0),
        Op::Mul(2, 0), Op::Sub(2, 0),
    ]
}

/// The abscissa `alpha^2 - (tx + qx)` of a sum along a line of slope `alpha`.
pub open spec fn sum_x(tx: nat, qx: nat, alpha: nat) -> nat {
    fsub(fmul(alpha, alpha), fadd(tx, qx))
}

pub open spec fn add_hints(tx: nat, qx: nat, c3: nat) -> Seq<nat> {
    seq![fmul(c3, c3), fmul(c3, sum_x(tx, qx, c3))]
}

/// The negated intercept `-(y - alpha x)` of the line of slope `alpha` through `(x, y)`.
pub open spec fn neg_bias(alpha: nat, x: nat, y: nat) -> nat {
    fneg(fsub(y, fmul(alpha, x)))
}

#[verifier::opaque]
pub open spec fn check_add_ops() -> Seq<Op> {
    is_zero_keep_ops() + seq![Op::If] + drop_ops() + seq![Op::Else] + roll_ops(1) + is_zero_keep_ops()
        + seq![Op::If] + drop_ops() + seq![
        Op::Else, Op::FromHint, Op::FromHint, Op::Copy(1), Op::Copy(1), Op::Copy(5), Op::Roll(5),
        Op::Copy(8), Op::Roll(8),
    ] + chord_line_ops() + seq![Op::Verify, Op::Roll(2), Op::Roll(3)] + add_ops() + seq![
        Op::EndIf, Op::EndIf,
    ]
}

#[verifier::opaque]
pub open spec fn check_add_hints(t: PointVal, q: PointVal, c3: nat) -> Seq<nat> {
    match (t, q) {
        (PointVal::Pt(tx, ty), PointVal::Pt(qx, qy)) => {
            let alpha = chord_slope(tx, ty, qx, qy);
            seq![alpha, neg_bias(alpha, tx, ty)] + chord_line_hints(tx, qx, c3) + add_hints(tx, qx, c3)
        },
        _ => Seq::empty(),
    }
}

#[verifier::opaque]
pub open spec fn check_double_ops() -> Seq<Op> {
    is_zero_keep_ops() + seq![
        Op::NotIf, Op::FromHint, Op::FromHint, Op::Copy(1), Op::Copy(1), Op::Copy(5), Op::Roll(5),
    ] + tangent_line_ops() + seq![Op::Verify, Op::Roll(2)] + double_ops() + seq![Op::EndIf]
}

#[verifier::opaque]
pub open spec fn check_double_hints(t: PointVal) -> Seq<nat> {
    match t {
        PointVal::Pt(x, y) => {
            let alpha = tangent_slope(x, y);
            seq![alpha, neg_bias(alpha, x, y)] + tangent_line_hints(x, y, alpha) + add_hints(x, x, alpha)
        },
        _ => Seq::empty(),
    }
}

pub open spec fn three() -> Fe {
    Fe { limbs: [3u64, 0u64, 0u64, 0u64] }
}

pub open spec fn is_on_curve_ops() -> Seq<Op> {
    seq![
        Op::Copy(1), Op::Square, Op::Roll(2), Op::Mul(0, 1), Op::Push(three()), Op::Add(1, 0),
        Op::Roll(1), Op::Square, Op::Equal(1, 0),
    ]
}

pub open spec fn is_on_curve_hints(x: nat, y: nat) -> Seq<nat> {
    seq![fmul(x, x), fmul(x, fmul(x, x)), fmul(y, y)]
}

fn cat_ops(a: Vec<Op>, b: Vec<Op>) -> (r: Vec<Op>)
    ensures
        r@ == a@ + b@,
{
    let mut a = a;
    let mut b = b;
    a.append(&mut b);
    a
}

pub(crate) fn cat_hints(a: Vec<Fe>, b: Vec<Fe>) -> (r: Vec<Fe>)
    requires
        all_wf(a@),
        all_wf(b@),
    ensures
        r@ == a@ + b@,
        vals(r@) == vals(a@) + vals(b@),
        all_wf(r@),
{
    let mut a = a;
    let mut b = b;
    let ghost (a0, b0) = (a@, b@);
    a.append(&mut b);
    proof {
        assert(vals(a@) =~= vals(a0) + vals(b0));
        assert forall|i: int| 0 <= i < a@.len() implies #[trigger] a@[i].wf() by {
            if i < a0.len() {
                assert(a@[i] == a0[i]);
            } else {
                assert(a@[i] == b0[i - a0.len()]);
            }
        }
    }
    a
}

pub(crate) fn append_hints(a: &mut Vec<Fe>, b: Vec<Fe>)
    requires
        all_wf(old(a)@),
        all_wf(b@),
    ensures
        final(a)@ == old(a)@ + b@,
        vals(final(a)@) == vals(old(a)@) + vals(b@),
        all_wf(final(a)@),
{
    let mut b = b;
    let ghost (a0, b0) = (a@, b@);
    a.append(&mut b);
    proof {
        assert(vals(a@) =~= vals(a0) + vals(b0));
        assert forall|i: int| 0 <= i < a@.len() implies #[trigger] a@[i].wf() by {
            if i < a0.len() {
                assert(a@[i] == a0[i]);
            } else {
                assert(a@[i] == b0[i - a0.len()]);
            }
        }
    }
}

proof fn lemma_fsub_nonzero(a: nat, b: nat)
    requires
        a < modulus(),
        b < modulus(),
        a != b,
    ensures
        fsub(a, b) != 0,
{
    let m = modulus() as int;
    let d = a - b;
    if d > 0 {
        vstd::arithmetic::div_mod::lemma_small_mod(d as nat, modulus());
    } else {
        vstd::arithmetic::div_mod::lemma_fundamental_div_mod_converse(d, m, -1, d + m);
    }
}

proof fn lemma_double_nonzero(y: nat)
    requires
        y < modulus(),
        y != 0,
    ensures
        fadd(y, y) != 0,
{
    let m = modulus() as int;
    if y + y < m {
        vstd::arithmetic::div_mod::lemma_small_mod((y + y) as nat, modulus());
    } else {
        vstd::arithmetic::div_mod::lemma_fundamental_div_mod_converse((y + y) as int, m, 1, y + y - m);
    }
}

/// The namespace of the G1 gadgets.
pub struct G1Affine;

impl G1Affine {
    /// Checks that the line `(alpha, -bias)` passes through the point, from the
    /// stack `alpha, -bias, x, y`; leaves a flag.
    pub fn hinted_check_line_through_point(x: Fe, c3: Fe) -> (r: (Vec<Op>, Vec<Fe>))
        requires
            x.wf(),
            c3.wf(),
        ensures
            r.0@ == line_through_point_ops(),
            vals(r.1@) == seq![fmul(x.val(), c3.val())],
            all_wf(r.1@),
    {
        let h = fe_mul(x, c3);
        let ops = vec![Op::Mul(1, 3), Op::Sub(1, 0), Op::Add(1, 0), Op::PushZero, Op::Equal(1, 0)];
        let hints = vec![h];
        proof {
            assert(vals(hints@) =~= seq![fmul(x.val(), c3.val())]);
        }
        (ops, hints)
    }

    /// Pushes the identity's coordinates `(0, 0)`.
    pub fn push_zero() -> (r: Vec<Op>)
        ensures
            r@ == push_zero_ops(),
    {
        vec![Op::PushZero, Op::PushZero]
    }

    /// Pushes the identity's coordinates `(0, 0)`.
    pub fn identity() -> (r: Vec<Op>)
        ensures
            r@ == push_zero_ops(),
    {
        vec![Op::PushZero, Op::PushZero]
    }

    /// Pushes the coordinates of a point, `(0, 0)` for the identity.
    pub fn push(element: AffinePoint) -> (r: Vec<Op>)
        ensures
            r@ == push_ops(element),
    {
        match element {
            AffinePoint::Infinity => Self::push_zero(),
            AffinePoint::Finite { x, y } => vec![Op::Push(x), Op::Push(y)],
        }
    }

    /// Reads a point back from the two field elements that a script left.
    pub fn read_from_stack(witness: Vec<Fe>) -> (r: AffinePoint)
        requires
            witness@.len() == 2,
        ensures
            r == (AffinePoint::Finite { x: witness@[0], y: witness@[1] }),
    {
        AffinePoint::Finite { x: witness[0], y: witness[1] }
    }

    /// From `x1, y1, x2, y2`, fails unless the two points are equal.
    pub fn equalverify() -> (r: Vec<Op>)
        ensures
            r@ == equalverify_ops(),
    {
        vec![Op::Roll(2), Op::EqualVerify(1, 0), Op::EqualVerify(1, 0)]
    }

    /// Replaces the top point by the flag of whether it is `(0, 0)`.
    pub fn is_zero() -> (r: Vec<Op>)
        ensures
            r@ == is_zero_ops(),
    {
        vec![Op::IsZero(0), Op::ToAlt, Op::IsZero(0), Op::FromAlt, Op::BoolAnd]
    }

    /// Pushes the flag of whether the top point is `(0, 0)`, keeping the point.
    pub fn is_zero_keep_element() -> (r: Vec<Op>)
        ensures
            r@ == is_zero_keep_ops(),
    {
        vec![Op::IsZeroKeep(0), Op::ToAlt, Op::IsZeroKeep(1), Op::FromAlt, Op::BoolAnd]
    }

    /// Removes the top point.
    pub fn drop() -> (r: Vec<Op>)
        ensures
            r@ == drop_ops(),
    {
        vec![Op::Drop, Op::Drop]
    }

    /// Moves the point at point depth `a` to the top.
    pub fn roll(a: u32) -> (r: Vec<Op>)
        requires
            2 * a + 1 <= u32::MAX,
        ensures
            r@ == roll_ops(a),
    {
        let d = 2 * a + 1;
        vec![Op::Roll(d), Op::Roll(d)]
    }

    /// Checks that the line `(alpha, -bias)` passes through both points, from the
    /// stack `alpha, -bias, tx, ty, qx, qy`; leaves a flag.
    pub fn hinted_check_chord_line(t: AffinePoint, q: AffinePoint, c3: Fe) -> (r: (Vec<Op>, Vec<Fe>))
        requires
            t.wf(),
            q.wf(),
            c3.wf(),
        ensures
            r.0@ == chord_line_ops(),
            vals(r.1@) == chord_line_hints(coord_x(t@), coord_x(q@), c3.val()),
            all_wf(r.1@),
    {
        let (s1, h1) = Self::hinted_check_line_through_point(q.x(), c3);
        let (s2, h2) = Self::hinted_check_line_through_point(t.x(), c3);
        let ops = cat_ops(vec![Op::Copy(5), Op::Copy(5), Op::Roll(3), Op::Roll(3)], s1);
        let ops = cat_ops(ops, vec![Op::ToAlt]);
        let ops = cat_ops(ops, s2);
        let ops = cat_ops(ops, vec![Op::FromAlt, Op::BoolAnd]);
        let hints = cat_hints(h1, h2);
        proof {
            assert(vals(hints@) =~= chord_line_hints(coord_x(t@), coord_x(q@), c3.val()));
        }
        (ops, hints)
    }

    /// Checks that `alpha` is the tangent slope at the point and `(alpha, -bias)` a
    /// line through it, from the stack `alpha, -bias, x, y`; leaves a flag.
    pub fn hinted_check_tangent_line(t: AffinePoint, c3: Fe) -> (r: (Vec<Op>, Vec<Fe>))
        requires
            t.wf(),
            c3.wf(),
        ensures
            r.0@ == tangent_line_ops(),
            vals(r.1@) == tangent_line_hints(coord_x(t@), coord_y(t@), c3.val()),
            all_wf(r.1@),
    {
        let (tx, ty) = (t.x(), t.y());
        let h1 = fe_mul(fe_add(ty, ty), c3);
        let h2 = fe_square(tx);
        let (s3, h3) = Self::hinted_check_line_through_point(tx, c3);
        let ops = cat_ops(vec![
            Op::Copy(0), Op::Double(0), Op::Copy(4), Op::Mul(1, 0), Op::Copy(2), Op::Square,
            Op::Copy(0), Op::Double(0), Op::Add(1, 0), Op::Sub(1, 0), Op::IsZero(0), Op::ToAlt,
        ], s3);
        let ops = cat_ops(ops, vec![Op::FromAlt, Op::BoolAnd]);
        let hints = vec![h1, h2];
        proof {
            assert(vals(hints@) =~= seq![h1.val(), h2.val()]);
        }
        let hints = cat_hints(hints, h3);
        proof {
            assert(vals(hints@) =~= tangent_line_hints(coord_x(t@), coord_y(t@), c3.val()));
        }
        (ops, hints)
    }

    /// From `alpha, -bias, tx, qx`, leaves the sum's coordinates
    /// `x' = alpha^2 - tx - qx` and `y' = -bias - alpha x'`.
    pub fn hinted_add(tx: Fe, qx: Fe, c3: Fe) -> (r: (Vec<Op>, Vec<Fe>))
        requires
            tx.wf(),
            qx.wf(),
            c3.wf(),
        ensures
            r.0@ == add_ops(),
            vals(r.1@) == add_hints(tx.val(), qx.val(), c3.val()),
            all_wf(r.1@),
    {
        let sq = fe_square(c3);
        let x = fe_sub(sq, fe_add(tx, qx));
        let hints = vec![sq, fe_mul(c3, x)];
        proof {
            assert(vals(hints@) =~= add_hints(tx.val(), qx.val(), c3.val()));
        }
        let ops = vec![
            Op::Add(1, 0), Op::Roll(2), Op::Copy(0), Op::Square, Op::Sub(0, 2), Op::Copy(0),
            Op::Mul(2, 0), Op::Sub(2, 0),
        ];
        (ops, hints)
    }

    /// From `alpha, -bias, x`, leaves the double's coordinates
    /// `x' = alpha^2 - 2x` and `y' = -bias - alpha x'`.
    pub fn hinted_double(t: AffinePoint, c3: Fe) -> (r: (Vec<Op>, Vec<Fe>))
        requires
            t.wf(),
            c3.wf(),
        ensures
            r.0@ == double_ops(),
            vals(r.1@) == add_hints(coord_x(t@), coord_x(t@), c3.val()),
            all_wf(r.1@),
    {
        let tx = t.x();
        let sq = fe_square(c3);
        let x = fe_sub(sq, fe_add(tx, tx));
        let hints = vec![sq, fe_mul(c3, x)];
        proof {
            assert(vals(hints@) =~= add_hints(tx.val(), tx.val(), c3.val()));
        }
        let ops = vec![
            Op::Double(0), Op::Roll(2), Op::Copy(0), Op::Square, Op::Sub(0, 2), Op::Copy(0),
            Op::Mul(2, 0), Op::Sub(2, 0),
        ];
        (ops, hints)
    }

    /// From `tx, ty, qx, qy` and the hints, leaves the sum of the two points: the
    /// other point where one is the identity, else the point along the line
    /// `(c3, -bias)` once the line is checked through both.
    pub fn hinted_check_add(t: AffinePoint, q: AffinePoint, c3: Fe) -> (r: (Vec<Op>, Vec<Fe>))
        requires
            t.wf(),
            q.wf(),
            c3.wf(),
            t@.finite() && q@.finite() ==> coord_x(t@) != coord_x(q@),
        ensures
            r.0@ == check_add_ops(),
            vals(r.1@) == check_add_hints(t@, q@, c3.val()),
            all_wf(r.1@),
    {
        reveal(check_add_ops);
        reveal(check_add_hints);
        let (tx, ty, qx, qy) = (t.x(), t.y(), q.x(), q.y());
        let (s1, h1) = Self::hinted_check_chord_line(t, q, c3);
        let (s2, h2) = Self::hinted_add(tx, qx, c3);
        let ops = cat_ops(Self::is_zero_keep_element(), vec![Op::If]);
        let ops = cat_ops(ops, Self::drop());
        let ops = cat_ops(ops, vec![Op::Else]);
        let ops = cat_ops(ops, Self::roll(1));
        let ops = cat_ops(ops, Self::is_zero_keep_element());
        let ops = cat_ops(ops, vec![Op::If]);
        let ops = cat_ops(ops, Self::drop());
        let ops = cat_ops(ops, vec![
            Op::Else, Op::FromHint, Op::FromHint, Op::Copy(1), Op::Copy(1), Op::Copy(5), Op::Roll(5),
            Op::Copy(8), Op::Roll(8),
        ]);
        let ops = cat_ops(ops, s1);
        let ops = cat_ops(ops, vec![Op::Verify, Op::Roll(2), Op::Roll(3)]);
        let ops = cat_ops(ops, s2);
        let ops = cat_ops(ops, vec![Op::EndIf, Op::EndIf]);
        let mut hints: Vec<Fe> = Vec::new();
        if !t.is_zero() && !q.is_zero() {
            proof {
                lemma_fsub_nonzero(tx.val(), qx.val());
            }
            let alpha = fe_mul(fe_sub(ty, qy), fe_inverse(fe_sub(tx, qx)));
            let nb = fe_neg(fe_sub(ty, fe_mul(alpha, tx)));
            hints = vec![alpha, nb];
            proof {
                assert(vals(hints@) =~= seq![alpha.val(), nb.val()]);
            }
            hints = cat_hints(hints, h1);
            hints = cat_hints(hints, h2);
        }
        proof {
            assert(vals(hints@) =~= check_add_hints(t@, q@, c3.val()));
        }
        (ops, hints)
    }

    /// From `x, y` and the hints, leaves the double of the point: the identity
    /// stays, else the point along the tangent once the tangent is checked.
    pub fn hinted_check_double(t: AffinePoint) -> (r: (Vec<Op>, Vec<Fe>))
        requires
            t.wf(),
            t@.finite() ==> coord_y(t@) != 0,
        ensures
            r.0@ == check_double_ops(),
            vals(r.1@) == check_double_hints(t@),
            all_wf(r.1@),
    {
        reveal(check_double_ops);
        reveal(check_double_hints);
        let (tx, ty) = (t.x(), t.y());
        let mut alpha = Fe::zero();
        let mut nb = Fe::zero();
        if !t.is_zero() {
            let sq = fe_square(tx);
            proof {
                lemma_double_nonzero(ty.val());
            }
            alpha = fe_mul(fe_add(fe_add(sq, sq), sq), fe_inverse(fe_add(ty, ty)));
            nb = fe_neg(fe_sub(ty, fe_mul(alpha, tx)));
        }
        let (s1, h1) = Self::hinted_check_tangent_line(t, alpha);
        let (s2, h2) = Self::hinted_double(t, alpha);
        let ops = cat_ops(Self::is_zero_keep_element(), vec![
            Op::NotIf, Op::FromHint, Op::FromHint, Op::Copy(1), Op::Copy(1), Op::Copy(5), Op::Roll(5),
        ]);
        let ops = cat_ops(ops, s1);
        let ops = cat_ops(ops, vec![Op::Verify, Op::Roll(2)]);
        let ops = cat_ops(ops, s2);
        let ops = cat_ops(ops, vec![Op::EndIf]);
        let mut hints: Vec<Fe> = Vec::new();
        if !t.is_zero() {
            hints = vec![alpha, nb];
            proof {
                assert(vals(hints@) =~= seq![alpha.val(), nb.val()]);
            }
            hints = cat_hints(hints, h1);
            hints = cat_hints(hints, h2);
        }
        proof {
            assert(vals(hints@) =~= check_double_hints(t@));
        }
        (ops, hints)
    }

    /// From `x, y`, leaves the flag of whether `y^2 = x^3 + 3`.
    pub fn hinted_is_on_curve(x: Fe, y: Fe) -> (r: (Vec<Op>, Vec<Fe>))
        requires
            x.wf(),
            y.wf(),
        ensures
            r.0@ == is_on_curve_ops(),
            vals(r.1@) == is_on_curve_hints(x.val(), y.val()),
            all_wf(r.1@),
    {
        let x2 = fe_square(x);
        let hints = vec![x2, fe_mul(x, x2), fe_square(y)];
        proof {
            assert(vals(hints@) =~= is_on_curve_hints(x.val(), y.val()));
        }
        let three = Fe { limbs: [3, 0, 0, 0] };
        let ops = vec![
            Op::Copy(1), Op::Square, Op::Roll(2), Op::Mul(0, 1), Op::Push(three), Op::Add(1, 0),
            Op::Roll(1), Op::Square, Op::Equal(1, 0),
        ];
        (ops, hints)
    }
}

} // verus!
