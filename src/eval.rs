use vstd::prelude::*;
use crate::field::{Fe, fmul, fneg, finv, fe_mul, fe_neg, fe_inverse};
use crate::point::{AffinePoint, coord_x, coord_y};
use crate::script::Op;
use crate::g1::{vals, all_wf};

verus! {

pub open spec fn x_from_eval_ops() -> Seq<Op> {
    seq![Op::Copy(2), Op::Mul(1, 0), Op::PushOne, Op::EqualVerify(1, 0), Op::Neg(0), Op::Mul(1, 0)]
}

pub open spec fn x_from_eval_hints(px: nat, py: nat, py_inv: nat) -> Seq<nat> {
    seq![fmul(py, py_inv), fmul(py_inv, fneg(px))]
}

pub open spec fn y_from_eval_ops() -> Seq<Op> {
    seq![Op::Mul(1, 0), Op::PushOne, Op::EqualVerify(1, 0)]
}

pub open spec fn y_from_eval_hints(py: nat, py_inv: nat) -> Seq<nat> {
    seq![fmul(py_inv, py)]
}

pub open spec fn from_eval_ops() -> Seq<Op> {
    seq![Op::Copy(2), Op::Copy(1)] + y_from_eval_ops() + seq![Op::Copy(2), Op::ToAlt]
        + x_from_eval_ops() + seq![Op::FromAlt]
}

pub open spec fn from_eval_hints(px: nat, py: nat) -> Seq<nat> {
    y_from_eval_hints(py, finv(py)) + x_from_eval_hints(px, py, finv(py))
}

/// From `y_inv, x, y`, checks that `y_inv` is the inverse of `y` and leaves
/// `-x y_inv`.
pub fn hinted_x_from_eval_point(p: AffinePoint, py_inv: Fe) -> (r: (Vec<Op>, Vec<Fe>))
    requires
        p.wf(),
        py_inv.wf(),
    ensures
        r.0@ == x_from_eval_ops(),
        vals(r.1@) == x_from_eval_hints(coord_x(p@), coord_y(p@), py_inv.val()),
        all_wf(r.1@),
{
    let hints = vec![fe_mul(p.y(), py_inv), fe_mul(py_inv, fe_neg(p.x()))];
    proof {
        assert(vals(hints@) =~= x_from_eval_hints(coord_x(p@), coord_y(p@), py_inv.val()));
    }
    (vec![Op::Copy(2), Op::Mul(1, 0), Op::PushOne, Op::EqualVerify(1, 0), Op::Neg(0), Op::Mul(1, 0)], hints)
}

/// From `y_inv, y`, checks that `y_inv` is the inverse of `y`.
pub fn hinted_y_from_eval_point(py: Fe, py_inv: Fe) -> (r: (Vec<Op>, Vec<Fe>))
    requires
        py.wf(),
        py_inv.wf(),
    ensures
        r.0@ == y_from_eval_ops(),
        vals(r.1@) == y_from_eval_hints(py.val(), py_inv.val()),
        all_wf(r.1@),
{
    let hints = vec![fe_mul(py_inv, py)];
    proof {
        assert(vals(hints@) =~= y_from_eval_hints(py.val(), py_inv.val()));
    }
    (vec![Op::Mul(1, 0), Op::PushOne, Op::EqualVerify(1, 0)], hints)
}

/// From `y_inv, x, y`, checks the claimed inverse once and leaves the evaluation
/// point `(-x / y, 1 / y)`.
pub fn hinted_from_eval_point(p: AffinePoint) -> (r: (Vec<Op>, Vec<Fe>))
    requires
        p.wf(),
        p@.finite(),
        coord_y(p@) != 0,
    ensures
        r.0@ == from_eval_ops(),
        vals(r.1@) == from_eval_hints(coord_x(p@), coord_y(p@)),
        all_wf(r.1@),
{
    let py_inv = fe_inverse(p.y());
    let (s1, h1) = hinted_y_from_eval_point(p.y(), py_inv);
    let (s2, h2) = hinted_x_from_eval_point(p, py_inv);
    let mut ops = vec![Op::Copy(2), Op::Copy(1)];
    let mut s1 = s1;
    ops.append(&mut s1);
    ops.push(Op::Copy(2));
    ops.push(Op::ToAlt);
    let mut s2 = s2;
    ops.append(&mut s2);
    ops.push(Op::FromAlt);
    let mut hints = h1;
    let mut h2 = h2;
    let ghost (a, b) = (hints@, h2@);
    hints.append(&mut h2);
    proof {
        assert(ops@ =~= from_eval_ops());
        assert(vals(hints@) =~= from_eval_hints(coord_x(p@), coord_y(p@)));
        assert forall|i: int| 0 <= i < hints@.len() implies #[trigger] hints@[i].wf() by {
            if i < a.len() {
                assert(hints@[i] == a[i]);
            } else {
                assert(hints@[i] == b[i - a.len()]);
            }
        }
    }
    (ops, hints)
}

} // verus!
