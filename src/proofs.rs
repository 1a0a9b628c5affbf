use vstd::prelude::*;
use crate::field::{fadd, fsub, fmul, fneg, finv, modulus};
use crate::script::{Op, MState, at, without, without2, flag, all_true, exec_op, exec_ops, lemma_exec_concat};
use crate::g1::{push_ops, push_zero_ops, tangent_line_ops, tangent_line_hints, double_ops, check_double_ops, check_double_hints, sum_x, add_hints, neg_bias, check_add_hints, on_line, line_through_point_ops, chord_line_ops, chord_line_hints, is_zero_keep_ops, drop_ops, roll_ops, add_ops, check_add_ops};
use crate::point::{AffinePoint, PointVal, point_sum, chord_slope, tangent_slope, coord_x, coord_y};
use crate::algebra::{lemma_on_own_line, lemma_chord_through_second, lemma_sum_coords, lemma_tangent_slope, lemma_slope_unique};
use crate::scalar_mul::{dfs_ops, Scalar, run, step_point, doubled, table_val, window_mask, win_depth, nbits, remaining};
use crate::eval::{from_eval_ops, from_eval_hints, x_from_eval_ops, y_from_eval_ops};
use crate::field::lemma_inverse_unique;

verus! {

/// One more instruction after a script that ran.
pub proof fn lemma_step(ops: Seq<Op>, op: Op, s0: MState, s1: MState, s2: MState)
    requires
        (ops.len() == 0 && s1 == s0) || exec_ops(ops, s0) == Some(s1),
        exec_op(op, s1) == Some(s2),
    ensures
        exec_ops(ops.push(op), s0) == Some(s2),
{
    reveal(exec_ops);
    assert(ops.push(op).drop_last() =~= ops);
}

/// One more instruction, which fails, after a script that ran.
pub proof fn lemma_step_fails(ops: Seq<Op>, op: Op, s0: MState, s1: MState)
    requires
        (ops.len() == 0 && s1 == s0) || exec_ops(ops, s0) == Some(s1),
        exec_op(op, s1) == None::<MState>,
    ensures
        exec_ops(ops.push(op), s0) == None::<MState>,
{
    reveal(exec_ops);
    assert(ops.push(op).drop_last() =~= ops);
}

/// The empty script changes nothing.
pub proof fn lemma_exec_empty(s: MState)
    ensures
        exec_ops(Seq::empty(), s) == Some(s),
{
    reveal(exec_ops);
}

/// A failed script stays failed whatever follows.
pub proof fn lemma_fail_extends(ops: Seq<Op>, op: Op, s0: MState)
    requires
        exec_ops(ops, s0) == None::<MState>,
    ensures
        exec_ops(ops.push(op), s0) == None::<MState>,
{
    reveal(exec_ops);
    assert(ops.push(op).drop_last() =~= ops);
}

/// Two scripts that ran, one after the other.
pub proof fn lemma_seq(a: Seq<Op>, b: Seq<Op>, s0: MState, s1: MState, s2: MState)
    requires
        exec_ops(a, s0) == Some(s1),
        exec_ops(b, s1) == Some(s2),
    ensures
        exec_ops(a + b, s0) == Some(s2),
{
    lemma_exec_concat(a, b, s0);
}

pub open spec fn st(hints: Seq<nat>, main: Seq<nat>, alt: Seq<nat>, conds: Seq<bool>) -> MState {
    MState { hints, main, alt, conds }
}

/// Run on `alpha, -bias, x, y` and the hint of its multiplication, the
/// through-point check leaves exactly the flag of whether the point is on the line.
pub proof fn lemma_line_through_point(
    pre: Seq<nat>,
    alpha: nat,
    c4: nat,
    x: nat,
    y: nat,
    rest: Seq<nat>,
    alt: Seq<nat>,
    conds: Seq<bool>,
)
    requires
        all_true(conds),
    ensures
        exec_ops(line_through_point_ops(), st(seq![fmul(x, alpha)] + rest, pre + seq![alpha, c4, x, y], alt, conds))
            == Some(st(rest, pre.push(flag(on_line(alpha, c4, x, y))), alt, conds)),
{
    let h = fmul(x, alpha);
    let s0 = st(seq![h] + rest, pre + seq![alpha, c4, x, y], alt, conds);
    let m = s0.main;
    assert(at(m, 1) == x && at(m, 3) == alpha);
    assert((seq![h] + rest).drop_first() =~= rest);
    let s1 = st(rest, pre + seq![c4, y, h], alt, conds);
    assert(without2(m, 1, 3).push(h) =~= s1.main);
    let v = fsub(y, h);
    let s2 = st(rest, pre + seq![c4, v], alt, conds);
    assert(without2(s1.main, 1, 0).push(v) =~= s2.main);
    let w = fadd(c4, v);
    let s3 = st(rest, pre + seq![w], alt, conds);
    assert(without2(s2.main, 1, 0).push(w) =~= s3.main);
    let s4 = st(rest, pre + seq![w, 0], alt, conds);
    assert(s3.main.push(0) =~= s4.main);
    let s5 = st(rest, pre.push(flag(w == 0)), alt, conds);
    assert(without2(s4.main, 1, 0).push(flag(w == 0)) =~= s5.main);
    let o0 = Seq::<Op>::empty();
    let o1 = o0.push(Op::Mul(1, 3));
    let o2 = o1.push(Op::Sub(1, 0));
    let o3 = o2.push(Op::Add(1, 0));
    let o4 = o3.push(Op::PushZero);
    lemma_step(o0, Op::Mul(1, 3), s0, s0, s1);
    lemma_step(o1, Op::Sub(1, 0), s0, s1, s2);
    lemma_step(o2, Op::Add(1, 0), s0, s2, s3);
    lemma_step(o3, Op::PushZero, s0, s3, s4);
    lemma_step(o4, Op::Equal(1, 0), s0, s4, s5);
    assert(o4.push(Op::Equal(1, 0)) =~= line_through_point_ops());
}

proof fn lemma_chord_prefix(pre: Seq<nat>, alpha: nat, c4: nat, tx: nat, ty: nat, qx: nat, qy: nat, hs: Seq<nat>, alt: Seq<nat>, conds: Seq<bool>)
    requires
        all_true(conds),
    ensures
        exec_ops(seq![Op::Copy(5), Op::Copy(5), Op::Roll(3), Op::Roll(3)], st(hs, pre + seq![alpha, c4, tx, ty, qx, qy], alt, conds))
            == Some(st(hs, pre + seq![alpha, c4, tx, ty] + seq![alpha, c4, qx, qy], alt, conds)),
{
    let s0 = st(hs, pre + seq![alpha, c4, tx, ty, qx, qy], alt, conds);
    let s1 = st(hs, pre + seq![alpha, c4, tx, ty, qx, qy, alpha], alt, conds);
    let s2 = st(hs, pre + seq![alpha, c4, tx, ty, qx, qy, alpha, c4], alt, conds);
    let s3 = st(hs, pre + seq![alpha, c4, tx, ty, qy, alpha, c4, qx], alt, conds);
    let s4 = st(hs, pre + seq![alpha, c4, tx, ty] + seq![alpha, c4, qx, qy], alt, conds);
    assert(s0.main.push(at(s0.main, 5)) =~= s1.main);
    assert(s1.main.push(at(s1.main, 5)) =~= s2.main);
    assert(without(s2.main, 3).push(at(s2.main, 3)) =~= s3.main);
    assert(without(s3.main, 3).push(at(s3.main, 3)) =~= s4.main);
    let o0 = Seq::<Op>::empty();
    let o1 = o0.push(Op::Copy(5));
    let o2 = o1.push(Op::Copy(5));
    let o3 = o2.push(Op::Roll(3));
    lemma_step(o0, Op::Copy(5), s0, s0, s1);
    lemma_step(o1, Op::Copy(5), s0, s1, s2);
    lemma_step(o2, Op::Roll(3), s0, s2, s3);
    lemma_step(o3, Op::Roll(3), s0, s3, s4);
    assert(o3.push(Op::Roll(3)) =~= seq![Op::Copy(5), Op::Copy(5), Op::Roll(3), Op::Roll(3)]);
}

proof fn lemma_to_alt(hs: Seq<nat>, m: Seq<nat>, v: nat, alt: Seq<nat>, conds: Seq<bool>)
    requires
        all_true(conds),
    ensures
        exec_ops(seq![Op::ToAlt], st(hs, m.push(v), alt, conds)) == Some(st(hs, m, alt.push(v), conds)),
{
    assert(m.push(v).drop_last() =~= m);
    lemma_step(Seq::empty(), Op::ToAlt, st(hs, m.push(v), alt, conds), st(hs, m.push(v), alt, conds), st(hs, m, alt.push(v), conds));
    assert(Seq::<Op>::empty().push(Op::ToAlt) =~= seq![Op::ToAlt]);
}

proof fn lemma_from_alt_and(hs: Seq<nat>, m: Seq<nat>, a: nat, v: nat, alt: Seq<nat>, conds: Seq<bool>)
    requires
        all_true(conds),
    ensures
        exec_ops(seq![Op::FromAlt, Op::BoolAnd], st(hs, m.push(a), alt.push(v), conds))
            == Some(st(hs, m.push(flag(v != 0 && a != 0)), alt, conds)),
{
    let s0 = st(hs, m.push(a), alt.push(v), conds);
    let s1 = st(hs, m.push(a).push(v), alt, conds);
    let s2 = st(hs, m.push(flag(v != 0 && a != 0)), alt, conds);
    assert(alt.push(v).drop_last() =~= alt);
    assert(s1.main.drop_last().drop_last() =~= m);
    let o1 = Seq::<Op>::empty().push(Op::FromAlt);
    lemma_step(Seq::empty(), Op::FromAlt, s0, s0, s1);
    lemma_step(o1, Op::BoolAnd, s0, s1, s2);
    assert(o1.push(Op::BoolAnd) =~= seq![Op::FromAlt, Op::BoolAnd]);
}

/// Run on `alpha, -bias, tx, ty, qx, qy` and its hints, the chord check leaves
/// exactly the flag of whether both points lie on the line `(alpha, -bias)`.
pub proof fn lemma_chord_line(
    pre: Seq<nat>,
    alpha: nat,
    c4: nat,
    tx: nat,
    ty: nat,
    qx: nat,
    qy: nat,
    rest: Seq<nat>,
    alt: Seq<nat>,
    conds: Seq<bool>,
)
    requires
        all_true(conds),
    ensures
        exec_ops(chord_line_ops(), st(chord_line_hints(tx, qx, alpha) + rest, pre + seq![alpha, c4, tx, ty, qx, qy], alt, conds))
            == Some(st(rest, pre.push(flag(on_line(alpha, c4, tx, ty) && on_line(alpha, c4, qx, qy))), alt, conds)),
{
    let hs = chord_line_hints(tx, qx, alpha) + rest;
    let r1 = seq![fmul(tx, alpha)] + rest;
    assert(hs =~= seq![fmul(qx, alpha)] + r1);
    let s0 = st(hs, pre + seq![alpha, c4, tx, ty, qx, qy], alt, conds);
    let pre1 = pre + seq![alpha, c4, tx, ty];
    let s4 = st(hs, pre1 + seq![alpha, c4, qx, qy], alt, conds);
    let a = seq![Op::Copy(5), Op::Copy(5), Op::Roll(3), Op::Roll(3)];
    let lt = line_through_point_ops();
    lemma_chord_prefix(pre, alpha, c4, tx, ty, qx, qy, hs, alt, conds);
    let fq = flag(on_line(alpha, c4, qx, qy));
    let ft = flag(on_line(alpha, c4, tx, ty));
    lemma_line_through_point(pre1, alpha, c4, qx, qy, r1, alt, conds);
    let s5 = st(r1, pre1.push(fq), alt, conds);
    lemma_seq(a, lt, s0, s4, s5);
    let s6 = st(r1, pre1, alt.push(fq), conds);
    lemma_to_alt(r1, pre1, fq, alt, conds);
    lemma_seq(a + lt, seq![Op::ToAlt], s0, s5, s6);
    lemma_line_through_point(pre, alpha, c4, tx, ty, rest, alt.push(fq), conds);
    let s7 = st(rest, pre.push(ft), alt.push(fq), conds);
    lemma_seq(a + lt + seq![Op::ToAlt], lt, s0, s6, s7);
    lemma_from_alt_and(rest, pre, ft, fq, alt, conds);
    let s9 = st(rest, pre.push(flag(fq != 0 && ft != 0)), alt, conds);
    lemma_seq(a + lt + seq![Op::ToAlt] + lt, seq![Op::FromAlt, Op::BoolAnd], s0, s7, s9);
}


proof fn lemma_doubled_identity(n: nat)
    ensures
        doubled(PointVal::Inf, n) == PointVal::Inf,
    decreases n,
{
    if n > 0 {
        lemma_doubled_identity((n - 1) as nat);
    }
}

proof fn lemma_zero_mask(k: Scalar, i: nat, n: nat)
    requires
        forall|j: int| 0 <= j < 4 ==> k.limbs@[j] == 0,
        i + n <= nbits(),
    ensures
        window_mask(k, i, n) == 0,
    decreases n,
{
    if n > 0 {
        lemma_zero_mask(k, i, (n - 1) as nat);
        let b = (nbits() - i - n) as nat;
        assert(b / 64 < 4);
        vstd::arithmetic::power2::lemma_pow2_pos(b % 64);
        assert(k.limbs@[(b / 64) as int] == 0);
        assert(0nat / vstd::arithmetic::power2::pow2(b % 64) == 0) by (nonlinear_arith)
            requires vstd::arithmetic::power2::pow2(b % 64) > 0;
    }
}

proof fn lemma_zero_run(p: PointVal, k: Scalar, w: nat, i: nat)
    requires
        forall|j: int| 0 <= j < 4 ==> k.limbs@[j] == 0,
    ensures
        run(p, k, w, i, PointVal::Inf) == PointVal::Inf,
    decreases remaining(i),
{
    if i < nbits() && w > 0 {
        let d = win_depth(w, i);
        lemma_doubled_identity(d);
        lemma_zero_mask(k, i, d);
        assert(step_point(p, k, w, i, PointVal::Inf) == PointVal::Inf) by {
            reveal(step_point);
        }
        lemma_zero_run(p, k, w, i + w);
    }
}

/// The multiplication by the zero scalar yields the identity, whatever the base
/// point and the window width.
pub proof fn lemma_scalar_zero_is_identity(p: PointVal, k: Scalar, w: nat)
    requires
        forall|j: int| 0 <= j < 4 ==> k.limbs@[j] == 0,
    ensures
        run(p, k, w, 0, PointVal::Inf) == PointVal::Inf,
{
    lemma_zero_run(p, k, w, 0);
}

proof fn lemma_ops2(o: Seq<Op>, a: Op, b: Op, s0: MState, s1: MState, s2: MState)
    requires
        o == seq![a, b],
        exec_op(a, s0) == Some(s1),
        exec_op(b, s1) == Some(s2),
    ensures
        exec_ops(o, s0) == Some(s2),
{
    let o0 = Seq::<Op>::empty();
    lemma_step(o0, a, s0, s0, s1);
    lemma_step(o0.push(a), b, s0, s1, s2);
    assert(o0.push(a).push(b) =~= o);
}

/// The check that `y_inv` inverts `y`, from `..., y_inv, y` and the hint of its
/// multiplication.
proof fn lemma_y_from_eval(hs: Seq<nat>, pre: Seq<nat>, y: nat, yi: nat, alt: Seq<nat>, conds: Seq<bool>)
    requires
        all_true(conds),
        fmul(yi, y) == 1,
    ensures
        exec_ops(y_from_eval_ops(), st(seq![fmul(yi, y)] + hs, pre + seq![yi, y], alt, conds))
            == Some(st(hs, pre, alt, conds)),
{
    let ops = y_from_eval_ops();
    let o1 = Seq::<Op>::empty().push(Op::Mul(1, 0));
    let o2 = o1.push(Op::PushOne);
    assert(o2.push(Op::EqualVerify(1, 0)) =~= ops);
    let s0 = st(seq![fmul(yi, y)] + hs, pre + seq![yi, y], alt, conds);
    let s1 = st(hs, pre + seq![1nat], alt, conds);
    let s2 = st(hs, pre + seq![1nat, 1nat], alt, conds);
    let s3 = st(hs, pre, alt, conds);
    assert((seq![fmul(yi, y)] + hs).drop_first() =~= hs);
    assert(without2(s0.main, 1, 0).push(1) =~= s1.main);
    assert(s1.main.push(1) =~= s2.main);
    assert(without2(s2.main, 1, 0) =~= s3.main);
    lemma_step(Seq::empty(), Op::Mul(1, 0), s0, s0, s1);
    lemma_step(o1, Op::PushOne, s0, s1, s2);
    lemma_step(o2, Op::EqualVerify(1, 0), s0, s2, s3);
}

/// The inverse check fails, whatever the hints, on a wrong inverse.
proof fn lemma_y_from_eval_fails(h: Seq<nat>, pre: Seq<nat>, y: nat, yi: nat, alt: Seq<nat>, conds: Seq<bool>)
    requires
        all_true(conds),
        fmul(yi, y) != 1,
    ensures
        exec_ops(y_from_eval_ops(), st(h, pre + seq![yi, y], alt, conds)) == None::<MState>,
{
    let ops = y_from_eval_ops();
    let o1 = Seq::<Op>::empty().push(Op::Mul(1, 0));
    let o2 = o1.push(Op::PushOne);
    assert(o2.push(Op::EqualVerify(1, 0)) =~= ops);
    let s0 = st(h, pre + seq![yi, y], alt, conds);
    assert(at(s0.main, 1) == yi && at(s0.main, 0) == y);
    if h.len() > 0 && h[0] == fmul(yi, y) {
        let s1 = st(h.drop_first(), without2(s0.main, 1, 0).push(h[0]), alt, conds);
        let s2 = st(h.drop_first(), s1.main.push(1), alt, conds);
        lemma_step(Seq::empty(), Op::Mul(1, 0), s0, s0, s1);
        lemma_step(o1, Op::PushOne, s0, s1, s2);
        lemma_step_fails(o2, Op::EqualVerify(1, 0), s0, s2);
    } else {
        lemma_step_fails(Seq::empty(), Op::Mul(1, 0), s0, s0);
        lemma_fail_extends(o1, Op::PushOne, s0);
        lemma_fail_extends(o2, Op::EqualVerify(1, 0), s0);
    }
}

/// The x part of the encoder, from `y_inv, x, y` with the inverse already checked.
proof fn lemma_x_from_eval(pre: Seq<nat>, x: nat, y: nat, yi: nat, rest: Seq<nat>, alt1: Seq<nat>, conds: Seq<bool>)
    requires
        all_true(conds),
        fmul(y, yi) == 1,
    ensures
        exec_ops(x_from_eval_ops(), st(seq![fmul(y, yi), fmul(yi, fneg(x))] + rest, pre + seq![yi, x, y], alt1, conds))
            == Some(st(rest, pre + seq![fmul(yi, fneg(x))], alt1, conds)),
{
    let m = pre + seq![yi, x, y];
    let h2 = seq![fmul(y, yi), fmul(yi, fneg(x))] + rest;
    let t0 = st(h2, m, alt1, conds);
    let h3 = seq![fmul(yi, fneg(x))] + rest;
    assert(h2.drop_first() =~= h3);
    assert(h3.drop_first() =~= rest);
    let t1 = st(h2, m.push(yi), alt1, conds);
    let t2 = st(h3, pre + seq![yi, x, 1nat], alt1, conds);
    let t3 = st(h3, pre + seq![yi, x, 1nat, 1nat], alt1, conds);
    let t4 = st(h3, pre + seq![yi, x], alt1, conds);
    let t5 = st(h3, pre + seq![yi, fneg(x)], alt1, conds);
    let t6 = st(rest, pre + seq![fmul(yi, fneg(x))], alt1, conds);
    assert(without2(t1.main, 1, 0).push(1) =~= t2.main);
    assert(t2.main.push(1) =~= t3.main);
    assert(without2(t3.main, 1, 0) =~= t4.main);
    assert(without(t4.main, 0).push(fneg(x)) =~= t5.main);
    assert(without2(t5.main, 1, 0).push(fmul(yi, fneg(x))) =~= t6.main);
    let x0 = Seq::<Op>::empty();
    let x1 = x0.push(Op::Copy(2));
    let x2 = x1.push(Op::Mul(1, 0));
    let x3 = x2.push(Op::PushOne);
    let x4 = x3.push(Op::EqualVerify(1, 0));
    let x5 = x4.push(Op::Neg(0));
    lemma_step(x0, Op::Copy(2), t0, t0, t1);
    lemma_step(x1, Op::Mul(1, 0), t0, t1, t2);
    lemma_step(x2, Op::PushOne, t0, t2, t3);
    lemma_step(x3, Op::EqualVerify(1, 0), t0, t3, t4);
    lemma_step(x4, Op::Neg(0), t0, t4, t5);
    lemma_step(x5, Op::Mul(1, 0), t0, t5, t6);
    assert(x5.push(Op::Mul(1, 0)) =~= x_from_eval_ops());
}

/// The inverse check of the encoder and the parking of `y_inv`.
proof fn lemma_eval_prefix(m: Seq<nat>, y: nat, yi: nat, hs: Seq<nat>, h2: Seq<nat>, alt: Seq<nat>, conds: Seq<bool>)
    requires
        all_true(conds),
        m.len() >= 3,
        at(m, 2) == yi,
        at(m, 0) == y,
        exec_ops(y_from_eval_ops(), st(hs, m + seq![yi, y], alt, conds)) == Some(st(h2, m, alt, conds)),
    ensures
        exec_ops(seq![Op::Copy(2), Op::Copy(1)] + y_from_eval_ops() + seq![Op::Copy(2), Op::ToAlt],
            st(hs, m, alt, conds)) == Some(st(h2, m, alt.push(yi), conds)),
{
    let a = seq![Op::Copy(2), Op::Copy(1)];
    let m2 = m + seq![yi, y];
    let s0 = st(hs, m, alt, conds);
    let s1 = st(hs, m.push(yi), alt, conds);
    let s2 = st(hs, m2, alt, conds);
    assert(at(s1.main, 1) == y);
    assert(s1.main.push(y) =~= m2);
    lemma_ops2(a, Op::Copy(2), Op::Copy(1), s0, s1, s2);
    let s3 = st(h2, m, alt, conds);
    lemma_seq(a, y_from_eval_ops(), s0, s2, s3);
    let b = seq![Op::Copy(2), Op::ToAlt];
    let s5 = st(h2, m, alt.push(yi), conds);
    lemma_copy_to_alt(h2, m, yi, alt, conds);
    lemma_seq(a + y_from_eval_ops(), b, s0, s3, s5);
}

proof fn lemma_copy_to_alt(h: Seq<nat>, m: Seq<nat>, v: nat, alt: Seq<nat>, conds: Seq<bool>)
    requires
        all_true(conds),
        m.len() >= 3,
        at(m, 2) == v,
    ensures
        exec_ops(seq![Op::Copy(2), Op::ToAlt], st(h, m, alt, conds)) == Some(st(h, m, alt.push(v), conds)),
{
    let s0 = st(h, m, alt, conds);
    let s1 = st(h, m.push(v), alt, conds);
    let s2 = st(h, m, alt.push(v), conds);
    assert(exec_op(Op::Copy(2), s0) == Some(s1));
    assert(m.push(v).drop_last() =~= m);
    assert(exec_op(Op::ToAlt, s1) == Some(s2));
    lemma_ops2(seq![Op::Copy(2), Op::ToAlt], Op::Copy(2), Op::ToAlt, s0, s1, s2);
}

/// Run on `y_inv, x, y` with its hints, where `y_inv` inverts `y`, the encoder
/// leaves the evaluation point `(-x / y, 1 / y)`.
pub proof fn lemma_from_eval_point(pre: Seq<nat>, x: nat, y: nat, yi: nat, rest: Seq<nat>, alt: Seq<nat>, conds: Seq<bool>)
    requires
        all_true(conds),
        yi < crate::field::modulus(),
        fmul(y, yi) == 1,
    ensures
        exec_ops(from_eval_ops(), st(from_eval_hints(x, y) + rest, pre + seq![yi, x, y], alt, conds))
            == Some(st(rest, pre + seq![fmul(finv(y), fneg(x)), finv(y)], alt, conds)),
{
    let m = pre + seq![yi, x, y];
    assert(fmul(y, yi) == fmul(yi, y)) by {
        vstd::arithmetic::mul::lemma_mul_is_commutative(y as int, yi as int);
    }
    lemma_inverse_unique(y, yi);
    let hs = from_eval_hints(x, y) + rest;
    let h2 = seq![fmul(y, yi), fmul(yi, fneg(x))] + rest;
    assert(hs =~= seq![fmul(yi, y)] + h2);
    let a = seq![Op::Copy(2), Op::Copy(1)];
    let b = seq![Op::Copy(2), Op::ToAlt];
    let s0 = st(hs, m, alt, conds);
    let s5 = st(h2, m, alt.push(yi), conds);
    lemma_y_from_eval(h2, m, y, yi, alt, conds);
    lemma_eval_prefix(m, y, yi, hs, h2, alt, conds);
    let alt1 = alt.push(yi);
    let t6 = st(rest, pre + seq![fmul(yi, fneg(x))], alt1, conds);
    lemma_x_from_eval(pre, x, y, yi, rest, alt1, conds);
    let c = a + y_from_eval_ops() + b;
    lemma_seq(c, x_from_eval_ops(), s0, s5, t6);
    let fin = st(rest, pre + seq![fmul(yi, fneg(x)), yi], alt, conds);
    assert(alt1.drop_last() =~= alt);
    assert(t6.main.push(yi) =~= fin.main);
    lemma_step(c + x_from_eval_ops(), Op::FromAlt, s0, t6, fin);
    assert((c + x_from_eval_ops()).push(Op::FromAlt) =~= from_eval_ops());
}

/// Run on `y_inv, x, y` where `y_inv` does not invert `y`, the encoder fails,
/// whatever the hints.
pub proof fn lemma_from_eval_point_rejects(h: Seq<nat>, pre: Seq<nat>, x: nat, y: nat, yi: nat, alt: Seq<nat>, conds: Seq<bool>)
    requires
        all_true(conds),
        fmul(y, yi) != 1,
    ensures
        exec_ops(from_eval_ops(), st(h, pre + seq![yi, x, y], alt, conds)) == None::<MState>,
{
    let m = pre + seq![yi, x, y];
    let a = seq![Op::Copy(2), Op::Copy(1)];
    let m2 = m + seq![yi, y];
    assert(fmul(y, yi) == fmul(yi, y)) by {
        vstd::arithmetic::mul::lemma_mul_is_commutative(y as int, yi as int);
    }
    let s0 = st(h, m, alt, conds);
    let s1 = st(h, m.push(yi), alt, conds);
    let s2 = st(h, m2, alt, conds);
    assert(at(m, 2) == yi);
    assert(at(s1.main, 1) == y);
    assert(s1.main.push(y) =~= m2);
    lemma_ops2(a, Op::Copy(2), Op::Copy(1), s0, s1, s2);
    lemma_y_from_eval_fails(h, m, y, yi, alt, conds);
    lemma_exec_concat(a, y_from_eval_ops(), s0);
    let rest_ops = seq![Op::Copy(2), Op::ToAlt] + x_from_eval_ops() + seq![Op::FromAlt];
    lemma_exec_concat(a + y_from_eval_ops(), rest_ops, s0);
    assert(a + y_from_eval_ops() + rest_ops =~= from_eval_ops());
}

/// An instruction other than the branching ones.
pub open spec fn plain(op: Op) -> bool {
    !(op is If || op is NotIf || op is Else || op is EndIf)
}

/// Inside a branch that does not run, plain instructions change nothing.
proof fn lemma_skip(ops: Seq<Op>, s: MState)
    requires
        !all_true(s.conds),
        forall|i: int| 0 <= i < ops.len() ==> plain(#[trigger] ops[i]),
    ensures
        exec_ops(ops, s) == Some(s),
    decreases ops.len(),
{
    reveal(exec_ops);
    if ops.len() > 0 {
        let d = ops.drop_last();
        assert forall|i: int| 0 <= i < d.len() implies plain(#[trigger] d[i]) by {
            assert(d[i] == ops[i]);
        }
        lemma_skip(d, s);
        assert(plain(ops[ops.len() - 1]));
    }
}

proof fn lemma_all_true_push(c: Seq<bool>, b: bool)
    ensures
        all_true(c.push(b)) == (b && all_true(c)),
{
    assert(c.push(b).drop_last() =~= c);
}

proof fn lemma_single(op: Op, s0: MState, s1: MState)
    requires
        exec_op(op, s0) == Some(s1),
    ensures
        exec_ops(seq![op], s0) == Some(s1),
{
    lemma_step(Seq::empty(), op, s0, s0, s1);
    assert(Seq::<Op>::empty().push(op) =~= seq![op]);
}

/// The identity test of the top point, which it keeps.
proof fn lemma_is_zero_keep(h: Seq<nat>, pre: Seq<nat>, x: nat, y: nat, alt: Seq<nat>, conds: Seq<bool>)
    requires
        all_true(conds),
    ensures
        exec_ops(is_zero_keep_ops(), st(h, pre + seq![x, y], alt, conds))
            == Some(st(h, pre + seq![x, y, flag(x == 0 && y == 0)], alt, conds)),
{
    let m = pre + seq![x, y];
    let s0 = st(h, m, alt, conds);
    let s1 = st(h, m.push(flag(y == 0)), alt, conds);
    let s2 = st(h, m, alt.push(flag(y == 0)), conds);
    let s3 = st(h, m.push(flag(x == 0)), alt.push(flag(y == 0)), conds);
    let s4 = st(h, m.push(flag(x == 0)).push(flag(y == 0)), alt, conds);
    let s5 = st(h, m.push(flag(x == 0 && y == 0)), alt, conds);
    assert(m.push(flag(y == 0)).drop_last() =~= m);
    assert(alt.push(flag(y == 0)).drop_last() =~= alt);
    assert(s4.main.drop_last().drop_last() =~= m);
    let o0 = Seq::<Op>::empty();
    let o1 = o0.push(Op::IsZeroKeep(0));
    let o2 = o1.push(Op::ToAlt);
    let o3 = o2.push(Op::IsZeroKeep(1));
    let o4 = o3.push(Op::FromAlt);
    lemma_step(o0, Op::IsZeroKeep(0), s0, s0, s1);
    lemma_step(o1, Op::ToAlt, s0, s1, s2);
    lemma_step(o2, Op::IsZeroKeep(1), s0, s2, s3);
    lemma_step(o3, Op::FromAlt, s0, s3, s4);
    lemma_step(o4, Op::BoolAnd, s0, s4, s5);
    assert(o4.push(Op::BoolAnd) =~= is_zero_keep_ops());
    assert(m.push(flag(x == 0 && y == 0)) =~= pre + seq![x, y, flag(x == 0 && y == 0)]);
}

proof fn lemma_drop_point(h: Seq<nat>, pre: Seq<nat>, x: nat, y: nat, alt: Seq<nat>, conds: Seq<bool>)
    requires
        all_true(conds),
    ensures
        exec_ops(drop_ops(), st(h, pre + seq![x, y], alt, conds)) == Some(st(h, pre, alt, conds)),
{
    let s0 = st(h, pre + seq![x, y], alt, conds);
    let s1 = st(h, pre.push(x), alt, conds);
    let s2 = st(h, pre, alt, conds);
    assert(s0.main.drop_last() =~= s1.main);
    assert(s1.main.drop_last() =~= pre);
    lemma_ops2(drop_ops(), Op::Drop, Op::Drop, s0, s1, s2);
}

proof fn lemma_roll_point(h: Seq<nat>, pre: Seq<nat>, a: nat, b: nat, c: nat, d: nat, alt: Seq<nat>, conds: Seq<bool>)
    requires
        all_true(conds),
    ensures
        exec_ops(roll_ops(1), st(h, pre + seq![a, b, c, d], alt, conds)) == Some(st(h, pre + seq![c, d, a, b], alt, conds)),
{
    let s0 = st(h, pre + seq![a, b, c, d], alt, conds);
    let s1 = st(h, pre + seq![b, c, d, a], alt, conds);
    let s2 = st(h, pre + seq![c, d, a, b], alt, conds);
    assert(without(s0.main, 3).push(at(s0.main, 3)) =~= s1.main);
    assert(without(s1.main, 3).push(at(s1.main, 3)) =~= s2.main);
    lemma_ops2(roll_ops(1), Op::Roll(3), Op::Roll(3), s0, s1, s2);
}

/// The part of the addition check after its identity tests, as plain instructions.
pub open spec fn add_tail_ops() -> Seq<Op> {
    seq![Op::FromHint, Op::FromHint, Op::Copy(1), Op::Copy(1), Op::Copy(5), Op::Roll(5), Op::Copy(8), Op::Roll(8)]
        + chord_line_ops() + seq![Op::Verify, Op::Roll(2), Op::Roll(3)] + add_ops()
}

proof fn lemma_add_tail_plain()
    ensures
        forall|i: int| 0 <= i < add_tail_ops().len() ==> plain(#[trigger] add_tail_ops()[i]),
{
    let a = seq![Op::FromHint, Op::FromHint, Op::Copy(1), Op::Copy(1), Op::Copy(5), Op::Roll(5), Op::Copy(8), Op::Roll(8)];
    let lt = line_through_point_ops();
    let c = seq![Op::Copy(5), Op::Copy(5), Op::Roll(3), Op::Roll(3)] + lt + seq![Op::ToAlt] + lt + seq![Op::FromAlt, Op::BoolAnd];
    let v = seq![Op::Verify, Op::Roll(2), Op::Roll(3)];
    assert forall|i: int| 0 <= i < add_tail_ops().len() implies plain(#[trigger] add_tail_ops()[i]) by {
        let t = add_tail_ops();
        if i < a.len() {
            assert(t[i] == a[i]);
        } else if i < a.len() + c.len() {
            assert(t[i] == c[i - a.len()]);
            let j = i - a.len();
            if j < 4 {
            } else if j < 9 {
                assert(c[j] == lt[j - 4]);
            } else if j < 10 {
            } else if j < 15 {
                assert(c[j] == lt[j - 10]);
            } else {
            }
        } else if i < a.len() + c.len() + 3 {
            assert(t[i] == v[i - a.len() - c.len()]);
        } else {
            assert(t[i] == add_ops()[i - a.len() - c.len() - 3]);
        }
    }
}

proof fn lemma_else_skip(h: Seq<nat>, m: Seq<nat>, alt: Seq<nat>, c: Seq<bool>, b: bool)
    requires
        !all_true(c) || b,
    ensures
        exec_ops(seq![Op::Else] + add_tail_ops(), st(h, m, alt, c.push(b))) == Some(st(h, m, alt, c.push(!b))),
{
    let s0 = st(h, m, alt, c.push(b));
    let s1 = st(h, m, alt, c.push(!b));
    lemma_all_true_push(c, b);
    lemma_all_true_push(c, !b);
    assert(c.push(b).drop_last() =~= c);
    lemma_single(Op::Else, s0, s1);
    lemma_add_tail_plain();
    lemma_skip(add_tail_ops(), s1);
    lemma_seq(seq![Op::Else], add_tail_ops(), s0, s1, s1);
}

proof fn lemma_if_active(h: Seq<nat>, m: Seq<nat>, v: nat, alt: Seq<nat>, c: Seq<bool>)
    requires
        all_true(c),
    ensures
        exec_ops(seq![Op::If], st(h, m.push(v), alt, c)) == Some(st(h, m, alt, c.push(v != 0))),
{
    assert(m.push(v).drop_last() =~= m);
    lemma_single(Op::If, st(h, m.push(v), alt, c), st(h, m, alt, c.push(v != 0)));
}

proof fn lemma_if_inactive(h: Seq<nat>, m: Seq<nat>, alt: Seq<nat>, c: Seq<bool>)
    requires
        !all_true(c),
    ensures
        exec_ops(seq![Op::If], st(h, m, alt, c)) == Some(st(h, m, alt, c.push(false))),
{
    lemma_single(Op::If, st(h, m, alt, c), st(h, m, alt, c.push(false)));
}

proof fn lemma_else(h: Seq<nat>, m: Seq<nat>, alt: Seq<nat>, c: Seq<bool>, b: bool)
    ensures
        exec_ops(seq![Op::Else], st(h, m, alt, c.push(b))) == Some(st(h, m, alt, c.push(!b))),
{
    assert(c.push(b).drop_last() =~= c);
    lemma_single(Op::Else, st(h, m, alt, c.push(b)), st(h, m, alt, c.push(!b)));
}

proof fn lemma_end_ifs(h: Seq<nat>, m: Seq<nat>, alt: Seq<nat>, c: Seq<bool>, a: bool, b: bool)
    ensures
        exec_ops(seq![Op::EndIf, Op::EndIf], st(h, m, alt, c.push(a).push(b))) == Some(st(h, m, alt, c)),
{
    assert(c.push(a).push(b).drop_last() =~= c.push(a));
    assert(c.push(a).drop_last() =~= c);
    lemma_ops2(seq![Op::EndIf, Op::EndIf], Op::EndIf, Op::EndIf, st(h, m, alt, c.push(a).push(b)), st(h, m, alt, c.push(a)), st(h, m, alt, c));
}

proof fn lemma_skip_small(h: Seq<nat>, m: Seq<nat>, alt: Seq<nat>, c: Seq<bool>)
    requires
        !all_true(c),
    ensures
        exec_ops(drop_ops(), st(h, m, alt, c)) == Some(st(h, m, alt, c)),
        exec_ops(roll_ops(1), st(h, m, alt, c)) == Some(st(h, m, alt, c)),
        exec_ops(is_zero_keep_ops(), st(h, m, alt, c)) == Some(st(h, m, alt, c)),
{
    let s = st(h, m, alt, c);
    assert forall|i: int| 0 <= i < drop_ops().len() implies plain(#[trigger] drop_ops()[i]) by {}
    assert forall|i: int| 0 <= i < roll_ops(1).len() implies plain(#[trigger] roll_ops(1)[i]) by {}
    assert forall|i: int| 0 <= i < is_zero_keep_ops().len() implies plain(#[trigger] is_zero_keep_ops()[i]) by {}
    lemma_skip(drop_ops(), s);
    lemma_skip(roll_ops(1), s);
    lemma_skip(is_zero_keep_ops(), s);
}

/// The pieces of the addition check.
pub open spec fn add_piece(k: int) -> Seq<Op> {
    if k == 0 {
        is_zero_keep_ops()
    } else if k == 1 {
        seq![Op::If]
    } else if k == 2 {
        drop_ops()
    } else if k == 3 {
        seq![Op::Else]
    } else if k == 4 {
        roll_ops(1)
    } else if k == 5 {
        is_zero_keep_ops()
    } else if k == 6 {
        seq![Op::If]
    } else if k == 7 {
        drop_ops()
    } else if k == 8 {
        seq![Op::Else] + add_tail_ops()
    } else {
        seq![Op::EndIf, Op::EndIf]
    }
}

/// The first `k` pieces of the addition check.
pub open spec fn add_prefix(k: nat) -> Seq<Op>
    decreases k,
{
    if k == 0 {
        Seq::empty()
    } else {
        add_prefix((k - 1) as nat) + add_piece(k - 1)
    }
}

proof fn lemma_check_add_shape()
    ensures
        check_add_ops() == add_prefix(10),
{
    reveal(check_add_ops);
    reveal_with_fuel(add_prefix, 11);
    assert(check_add_ops() =~= add_prefix(10));
}

/// One more piece of the addition check, which ran.
proof fn lemma_piece(k: nat, s0: MState, s1: MState, s2: MState)
    requires
        exec_ops(add_prefix(k), s0) == Some(s1),
        exec_ops(add_piece(k as int), s1) == Some(s2),
    ensures
        exec_ops(add_prefix(k + 1), s0) == Some(s2),
{
    lemma_seq(add_prefix(k), add_piece(k as int), s0, s1, s2);
}

/// The checked addition of a point and the identity leaves the point, whatever
/// the coefficient and the hints.
pub proof fn lemma_check_add_right_identity(h: Seq<nat>, pre: Seq<nat>, tx: nat, ty: nat, alt: Seq<nat>, c: Seq<bool>)
    requires
        all_true(c),
    ensures
        exec_ops(check_add_ops(), st(h, pre + seq![tx, ty, 0nat, 0nat], alt, c)) == Some(st(h, pre + seq![tx, ty], alt, c)),
{
    let m0 = pre + seq![tx, ty, 0nat, 0nat];
    let s0 = st(h, m0, alt, c);
    let t = pre + seq![tx, ty];
    lemma_all_true_push(c, true);
    lemma_all_true_push(c, false);
    lemma_all_true_push(c.push(false), false);
    lemma_is_zero_keep(h, pre + seq![tx, ty], 0, 0, alt, c);
    assert(pre + seq![tx, ty] + seq![0nat, 0nat] =~= m0);
    let s1 = st(h, m0.push(1), alt, c);
    assert(pre + seq![tx, ty] + seq![0nat, 0nat, 1nat] =~= m0.push(1));
    assert(add_prefix(0) + add_piece(0) =~= add_piece(0));
    lemma_exec_empty(s0);
    lemma_piece(0, s0, s0, s1);
    lemma_if_active(h, m0, 1, alt, c);
    let s2 = st(h, m0, alt, c.push(true));
    lemma_piece(1, s0, s1, s2);
    lemma_drop_point(h, t, 0, 0, alt, c.push(true));
    let s3 = st(h, t, alt, c.push(true));
    lemma_piece(2, s0, s2, s3);
    lemma_else(h, t, alt, c, true);
    let s4 = st(h, t, alt, c.push(false));
    lemma_piece(3, s0, s3, s4);
    lemma_skip_small(h, t, alt, c.push(false));
    lemma_piece(4, s0, s4, s4);
    lemma_piece(5, s0, s4, s4);
    lemma_if_inactive(h, t, alt, c.push(false));
    let s5 = st(h, t, alt, c.push(false).push(false));
    lemma_piece(6, s0, s4, s5);
    lemma_skip_small(h, t, alt, c.push(false).push(false));
    lemma_piece(7, s0, s5, s5);
    lemma_else_skip(h, t, alt, c.push(false), false);
    let s6 = st(h, t, alt, c.push(false).push(true));
    lemma_piece(8, s0, s5, s6);
    lemma_end_ifs(h, t, alt, c, false, true);
    lemma_piece(9, s0, s6, st(h, t, alt, c));
    lemma_check_add_shape();
}

/// The checked addition of the identity and a point leaves the point, whatever
/// the coefficient and the hints.
pub proof fn lemma_check_add_left_identity(h: Seq<nat>, pre: Seq<nat>, qx: nat, qy: nat, alt: Seq<nat>, c: Seq<bool>)
    requires
        all_true(c),
        !(qx == 0 && qy == 0),
    ensures
        exec_ops(check_add_ops(), st(h, pre + seq![0nat, 0nat, qx, qy], alt, c)) == Some(st(h, pre + seq![qx, qy], alt, c)),
{
    let m0 = pre + seq![0nat, 0nat, qx, qy];
    let s0 = st(h, m0, alt, c);
    let q = pre + seq![qx, qy];
    let m1 = pre + seq![qx, qy, 0nat, 0nat];
    lemma_all_true_push(c, true);
    lemma_all_true_push(c, false);
    lemma_all_true_push(c.push(true), true);
    lemma_is_zero_keep(h, pre + seq![0nat, 0nat], qx, qy, alt, c);
    assert(pre + seq![0nat, 0nat] + seq![qx, qy] =~= m0);
    let s1 = st(h, m0.push(0), alt, c);
    assert(pre + seq![0nat, 0nat] + seq![qx, qy, 0nat] =~= m0.push(0));
    assert(add_prefix(0) + add_piece(0) =~= add_piece(0));
    lemma_exec_empty(s0);
    lemma_piece(0, s0, s0, s1);
    lemma_if_active(h, m0, 0, alt, c);
    let s2 = st(h, m0, alt, c.push(false));
    lemma_piece(1, s0, s1, s2);
    lemma_skip_small(h, m0, alt, c.push(false));
    lemma_piece(2, s0, s2, s2);
    lemma_else(h, m0, alt, c, false);
    let s3 = st(h, m0, alt, c.push(true));
    lemma_piece(3, s0, s2, s3);
    lemma_roll_point(h, pre, 0, 0, qx, qy, alt, c.push(true));
    let s4 = st(h, m1, alt, c.push(true));
    lemma_piece(4, s0, s3, s4);
    lemma_is_zero_keep(h, q, 0, 0, alt, c.push(true));
    assert(q + seq![0nat, 0nat] =~= m1);
    let s5 = st(h, m1.push(1), alt, c.push(true));
    assert(q + seq![0nat, 0nat, 1nat] =~= m1.push(1));
    lemma_piece(5, s0, s4, s5);
    lemma_if_active(h, m1, 1, alt, c.push(true));
    let s6 = st(h, m1, alt, c.push(true).push(true));
    lemma_piece(6, s0, s5, s6);
    lemma_drop_point(h, q, 0, 0, alt, c.push(true).push(true));
    let s7 = st(h, q, alt, c.push(true).push(true));
    lemma_piece(7, s0, s6, s7);
    lemma_else_skip(h, q, alt, c.push(true), true);
    let s8 = st(h, q, alt, c.push(true).push(false));
    lemma_piece(8, s0, s7, s8);
    lemma_end_ifs(h, q, alt, c, true, false);
    lemma_piece(9, s0, s8, st(h, q, alt, c));
    lemma_check_add_shape();
}

proof fn lemma_fetch_hints(r: Seq<nat>, m: Seq<nat>, a: nat, nb: nat, alt: Seq<nat>, c: Seq<bool>)
    requires
        all_true(c),
    ensures
        exec_ops(seq![Op::FromHint, Op::FromHint, Op::Copy(1), Op::Copy(1)], st(seq![a, nb] + r, m, alt, c))
            == Some(st(r, m + seq![a, nb, a, nb], alt, c)),
{
    let h0 = seq![a, nb] + r;
    let h1 = seq![nb] + r;
    assert(h0.drop_first() =~= h1);
    assert(h1.drop_first() =~= r);
    let s0 = st(h0, m, alt, c);
    let s1 = st(h1, m.push(a), alt, c);
    let s2 = st(r, m + seq![a, nb], alt, c);
    let s3 = st(r, m + seq![a, nb, a], alt, c);
    let s4 = st(r, m + seq![a, nb, a, nb], alt, c);
    assert(m.push(a).push(nb) =~= s2.main);
    assert(s2.main.push(at(s2.main, 1)) =~= s3.main);
    assert(s3.main.push(at(s3.main, 1)) =~= s4.main);
    let o0 = Seq::<Op>::empty();
    let o1 = o0.push(Op::FromHint);
    let o2 = o1.push(Op::FromHint);
    let o3 = o2.push(Op::Copy(1));
    lemma_step(o0, Op::FromHint, s0, s0, s1);
    lemma_step(o1, Op::FromHint, s0, s1, s2);
    lemma_step(o2, Op::Copy(1), s0, s2, s3);
    lemma_step(o3, Op::Copy(1), s0, s3, s4);
    assert(o3.push(Op::Copy(1)) =~= seq![Op::FromHint, Op::FromHint, Op::Copy(1), Op::Copy(1)]);
}

proof fn lemma_fetch_points(r: Seq<nat>, pre: Seq<nat>, a: nat, nb: nat, tx: nat, ty: nat, qx: nat, qy: nat, alt: Seq<nat>, c: Seq<bool>)
    requires
        all_true(c),
    ensures
        exec_ops(seq![Op::Copy(5), Op::Roll(5), Op::Copy(8), Op::Roll(8)], st(r, pre + seq![qx, qy, tx, ty, a, nb, a, nb], alt, c))
            == Some(st(r, pre + seq![qx, tx, a, nb] + seq![a, nb, tx, ty, qx, qy], alt, c)),
{
    let s4 = st(r, pre + seq![qx, qy, tx, ty, a, nb, a, nb], alt, c);
    let s5 = st(r, pre + seq![qx, qy, tx, ty, a, nb, a, nb, tx], alt, c);
    let s6 = st(r, pre + seq![qx, qy, tx, a, nb, a, nb, tx, ty], alt, c);
    let s7 = st(r, pre + seq![qx, qy, tx, a, nb, a, nb, tx, ty, qx], alt, c);
    let s8 = st(r, pre + seq![qx, tx, a, nb] + seq![a, nb, tx, ty, qx, qy], alt, c);
    assert(s4.main.push(at(s4.main, 5)) =~= s5.main);
    assert(without(s5.main, 5).push(at(s5.main, 5)) =~= s6.main);
    assert(s6.main.push(at(s6.main, 8)) =~= s7.main);
    assert(without(s7.main, 8).push(at(s7.main, 8)) =~= s8.main);
    let o0 = Seq::<Op>::empty();
    let o1 = o0.push(Op::Copy(5));
    let o2 = o1.push(Op::Roll(5));
    let o3 = o2.push(Op::Copy(8));
    lemma_step(o0, Op::Copy(5), s4, s4, s5);
    lemma_step(o1, Op::Roll(5), s4, s5, s6);
    lemma_step(o2, Op::Copy(8), s4, s6, s7);
    lemma_step(o3, Op::Roll(8), s4, s7, s8);
    assert(o3.push(Op::Roll(8)) =~= seq![Op::Copy(5), Op::Roll(5), Op::Copy(8), Op::Roll(8)]);
}

/// Fetching the coefficients from the hints and laying out the chord check's input.
proof fn lemma_add_fetch(r: Seq<nat>, pre: Seq<nat>, a: nat, nb: nat, tx: nat, ty: nat, qx: nat, qy: nat, alt: Seq<nat>, c: Seq<bool>)
    requires
        all_true(c),
    ensures
        exec_ops(
            seq![Op::FromHint, Op::FromHint, Op::Copy(1), Op::Copy(1), Op::Copy(5), Op::Roll(5), Op::Copy(8), Op::Roll(8)],
            st(seq![a, nb] + r, pre + seq![qx, qy, tx, ty], alt, c),
        ) == Some(st(r, pre + seq![qx, tx, a, nb] + seq![a, nb, tx, ty, qx, qy], alt, c)),
{
    let m = pre + seq![qx, qy, tx, ty];
    lemma_fetch_hints(r, m, a, nb, alt, c);
    assert(m + seq![a, nb, a, nb] =~= pre + seq![qx, qy, tx, ty, a, nb, a, nb]);
    lemma_fetch_points(r, pre, a, nb, tx, ty, qx, qy, alt, c);
    let f1 = seq![Op::FromHint, Op::FromHint, Op::Copy(1), Op::Copy(1)];
    let f2 = seq![Op::Copy(5), Op::Roll(5), Op::Copy(8), Op::Roll(8)];
    lemma_seq(f1, f2, st(seq![a, nb] + r, m, alt, c), st(r, m + seq![a, nb, a, nb], alt, c),
        st(r, pre + seq![qx, tx, a, nb] + seq![a, nb, tx, ty, qx, qy], alt, c));
    assert(f1 + f2 =~= seq![Op::FromHint, Op::FromHint, Op::Copy(1), Op::Copy(1), Op::Copy(5), Op::Roll(5), Op::Copy(8), Op::Roll(8)]);
}

/// Consuming the chord check's flag and laying out the sum's input.
proof fn lemma_add_verify(r: Seq<nat>, pre: Seq<nat>, a: nat, nb: nat, tx: nat, qx: nat, alt: Seq<nat>, c: Seq<bool>)
    requires
        all_true(c),
    ensures
        exec_ops(seq![Op::Verify, Op::Roll(2), Op::Roll(3)], st(r, (pre + seq![qx, tx, a, nb]).push(1), alt, c))
            == Some(st(r, pre + seq![a, nb, tx, qx], alt, c)),
{
    let s0 = st(r, (pre + seq![qx, tx, a, nb]).push(1), alt, c);
    let s1 = st(r, pre + seq![qx, tx, a, nb], alt, c);
    let s2 = st(r, pre + seq![qx, a, nb, tx], alt, c);
    let s3 = st(r, pre + seq![a, nb, tx, qx], alt, c);
    assert(s0.main.drop_last() =~= s1.main);
    assert(without(s1.main, 2).push(at(s1.main, 2)) =~= s2.main);
    assert(without(s2.main, 3).push(at(s2.main, 3)) =~= s3.main);
    let o0 = Seq::<Op>::empty();
    let o1 = o0.push(Op::Verify);
    let o2 = o1.push(Op::Roll(2));
    lemma_step(o0, Op::Verify, s0, s0, s1);
    lemma_step(o1, Op::Roll(2), s0, s1, s2);
    lemma_step(o2, Op::Roll(3), s0, s2, s3);
    assert(o2.push(Op::Roll(3)) =~= seq![Op::Verify, Op::Roll(2), Op::Roll(3)]);
}

/// Run on `alpha, -bias, tx, qx` and its hints, the sum formulas leave
/// `x' = alpha^2 - tx - qx` and `y' = -bias - alpha x'`.
pub proof fn lemma_add(r: Seq<nat>, pre: Seq<nat>, a: nat, nb: nat, tx: nat, qx: nat, alt: Seq<nat>, c: Seq<bool>)
    requires
        all_true(c),
    ensures
        exec_ops(add_ops(), st(add_hints(tx, qx, a) + r, pre + seq![a, nb, tx, qx], alt, c))
            == Some(st(r, pre + seq![sum_x(tx, qx, a), fsub(nb, fmul(a, sum_x(tx, qx, a)))], alt, c)),
{
    let x = sum_x(tx, qx, a);
    let sq = fmul(a, a);
    let h0 = add_hints(tx, qx, a) + r;
    let h1 = seq![fmul(a, x)] + r;
    assert(h0.drop_first() =~= h1);
    assert(h1.drop_first() =~= r);
    let sm = fadd(tx, qx);
    let s0 = st(h0, pre + seq![a, nb, tx, qx], alt, c);
    let s1 = st(h0, pre + seq![a, nb, sm], alt, c);
    let s2 = st(h0, pre + seq![nb, sm, a], alt, c);
    let s3 = st(h0, pre + seq![nb, sm, a, a], alt, c);
    let s4 = st(h1, pre + seq![nb, sm, a, sq], alt, c);
    let s5 = st(h1, pre + seq![nb, a, x], alt, c);
    let s6 = st(h1, pre + seq![nb, a, x, x], alt, c);
    let s7 = st(r, pre + seq![nb, x, fmul(a, x)], alt, c);
    let s8 = st(r, pre + seq![x, fsub(nb, fmul(a, x))], alt, c);
    assert(without2(s0.main, 1, 0).push(sm) =~= s1.main);
    assert(without(s1.main, 2).push(at(s1.main, 2)) =~= s2.main);
    assert(s2.main.push(a) =~= s3.main);
    assert(s3.main.drop_last().push(sq) =~= s4.main);
    assert(without2(s4.main, 0, 2).push(x) =~= s5.main);
    assert(s5.main.push(x) =~= s6.main);
    assert(without2(s6.main, 2, 0).push(fmul(a, x)) =~= s7.main);
    assert(without2(s7.main, 2, 0).push(fsub(nb, fmul(a, x))) =~= s8.main);
    let o0 = Seq::<Op>::empty();
    let o1 = o0.push(Op::Add(1, 0));
    let o2 = o1.push(Op::Roll(2));
    let o3 = o2.push(Op::Copy(0));
    let o4 = o3.push(Op::Square);
    let o5 = o4.push(Op::Sub(0, 2));
    let o6 = o5.push(Op::Copy(0));
    let o7 = o6.push(Op::Mul(2, 0));
    lemma_step(o0, Op::Add(1, 0), s0, s0, s1);
    lemma_step(o1, Op::Roll(2), s0, s1, s2);
    lemma_step(o2, Op::Copy(0), s0, s2, s3);
    lemma_step(o3, Op::Square, s0, s3, s4);
    lemma_step(o4, Op::Sub(0, 2), s0, s4, s5);
    lemma_step(o5, Op::Copy(0), s0, s5, s6);
    lemma_step(o6, Op::Mul(2, 0), s0, s6, s7);
    lemma_step(o7, Op::Sub(2, 0), s0, s7, s8);
    assert(o7.push(Op::Sub(2, 0)) =~= add_ops());
}

/// The general branch of the addition check on two points of distinct abscissae
/// with the line through both.
proof fn lemma_add_tail(r: Seq<nat>, pre: Seq<nat>, a: nat, nb: nat, tx: nat, ty: nat, qx: nat, qy: nat, alt: Seq<nat>, c: Seq<bool>)
    requires
        all_true(c),
        on_line(a, nb, tx, ty),
        on_line(a, nb, qx, qy),
    ensures
        exec_ops(add_tail_ops(), st(seq![a, nb] + chord_line_hints(tx, qx, a) + add_hints(tx, qx, a) + r, pre + seq![qx, qy, tx, ty], alt, c))
            == Some(st(r, pre + seq![sum_x(tx, qx, a), fsub(nb, fmul(a, sum_x(tx, qx, a)))], alt, c)),
{
    let r2 = add_hints(tx, qx, a) + r;
    let r1 = chord_line_hints(tx, qx, a) + r2;
    assert(seq![a, nb] + chord_line_hints(tx, qx, a) + add_hints(tx, qx, a) + r =~= seq![a, nb] + r1);
    let s0 = st(seq![a, nb] + r1, pre + seq![qx, qy, tx, ty], alt, c);
    let pre2 = pre + seq![qx, tx, a, nb];
    lemma_add_fetch(r1, pre, a, nb, tx, ty, qx, qy, alt, c);
    let s1 = st(r1, pre2 + seq![a, nb, tx, ty, qx, qy], alt, c);
    let fetch = seq![Op::FromHint, Op::FromHint, Op::Copy(1), Op::Copy(1), Op::Copy(5), Op::Roll(5), Op::Copy(8), Op::Roll(8)];
    lemma_chord_line(pre2, a, nb, tx, ty, qx, qy, r2, alt, c);
    let s2 = st(r2, pre2.push(1), alt, c);
    lemma_seq(fetch, chord_line_ops(), s0, s1, s2);
    lemma_add_verify(r2, pre, a, nb, tx, qx, alt, c);
    let s3 = st(r2, pre + seq![a, nb, tx, qx], alt, c);
    let v = seq![Op::Verify, Op::Roll(2), Op::Roll(3)];
    lemma_seq(fetch + chord_line_ops(), v, s0, s2, s3);
    lemma_add(r, pre, a, nb, tx, qx, alt, c);
    let s4 = st(r, pre + seq![sum_x(tx, qx, a), fsub(nb, fmul(a, sum_x(tx, qx, a)))], alt, c);
    lemma_seq(fetch + chord_line_ops() + v, add_ops(), s0, s3, s4);
}

/// The addition check on two points other than `(0, 0)`, with coefficients of a
/// line through both, leaves the sum formulas' result.
proof fn lemma_check_add_general(h: Seq<nat>, rest: Seq<nat>, pre: Seq<nat>, a: nat, nb: nat, tx: nat, ty: nat, qx: nat, qy: nat, alt: Seq<nat>, c: Seq<bool>)
    requires
        all_true(c),
        !(tx == 0 && ty == 0),
        !(qx == 0 && qy == 0),
        on_line(a, nb, tx, ty),
        on_line(a, nb, qx, qy),
        h == seq![a, nb] + chord_line_hints(tx, qx, a) + add_hints(tx, qx, a) + rest,
    ensures
        exec_ops(check_add_ops(), st(h, pre + seq![tx, ty, qx, qy], alt, c))
            == Some(st(rest, pre + seq![sum_x(tx, qx, a), fsub(nb, fmul(a, sum_x(tx, qx, a)))], alt, c)),
{
    let m0 = pre + seq![tx, ty, qx, qy];
    let s0 = st(h, m0, alt, c);
    let p = pre + seq![tx, ty];
    let m1 = pre + seq![qx, qy, tx, ty];
    let q = pre + seq![qx, qy];
    lemma_all_true_push(c, true);
    lemma_all_true_push(c, false);
    lemma_all_true_push(c.push(true), true);
    lemma_all_true_push(c.push(true), false);
    lemma_is_zero_keep(h, p, qx, qy, alt, c);
    assert(p + seq![qx, qy] =~= m0);
    let s1 = st(h, m0.push(0), alt, c);
    assert(p + seq![qx, qy, 0nat] =~= m0.push(0));
    assert(add_prefix(0) + add_piece(0) =~= add_piece(0));
    lemma_exec_empty(s0);
    lemma_piece(0, s0, s0, s1);
    lemma_if_active(h, m0, 0, alt, c);
    let s2 = st(h, m0, alt, c.push(false));
    lemma_piece(1, s0, s1, s2);
    lemma_skip_small(h, m0, alt, c.push(false));
    lemma_piece(2, s0, s2, s2);
    lemma_else(h, m0, alt, c, false);
    let s3 = st(h, m0, alt, c.push(true));
    lemma_piece(3, s0, s2, s3);
    lemma_roll_point(h, pre, tx, ty, qx, qy, alt, c.push(true));
    let s4 = st(h, m1, alt, c.push(true));
    lemma_piece(4, s0, s3, s4);
    lemma_is_zero_keep(h, q, tx, ty, alt, c.push(true));
    assert(q + seq![tx, ty] =~= m1);
    let s5 = st(h, m1.push(0), alt, c.push(true));
    assert(q + seq![tx, ty, 0nat] =~= m1.push(0));
    lemma_piece(5, s0, s4, s5);
    lemma_if_active(h, m1, 0, alt, c.push(true));
    let s6 = st(h, m1, alt, c.push(true).push(false));
    lemma_piece(6, s0, s5, s6);
    lemma_skip_small(h, m1, alt, c.push(true).push(false));
    lemma_piece(7, s0, s6, s6);
    lemma_else(h, m1, alt, c.push(true), false);
    let c2 = c.push(true).push(true);
    let s7 = st(h, m1, alt, c2);
    lemma_add_tail(rest, pre, a, nb, tx, ty, qx, qy, alt, c2);
    let out = pre + seq![sum_x(tx, qx, a), fsub(nb, fmul(a, sum_x(tx, qx, a)))];
    let s8 = st(rest, out, alt, c2);
    lemma_seq(seq![Op::Else], add_tail_ops(), s6, s7, s8);
    lemma_piece(8, s0, s6, s8);
    lemma_end_ifs(rest, out, alt, c, true, true);
    lemma_piece(9, s0, s8, st(rest, out, alt, c));
    lemma_check_add_shape();
}


/// For two points of the curve with distinct abscissae, the addition check run
/// on `tx, ty, qx, qy` with the honest hints for the chord slope leaves exactly
/// the coordinates of their sum. The inverse of `tx - qx` is taken to exist, as
/// it does in the prime field.
pub proof fn lemma_check_add_finite(rest: Seq<nat>, pre: Seq<nat>, tx: nat, ty: nat, qx: nat, qy: nat, alt: Seq<nat>, c: Seq<bool>)
    requires
        all_true(c),
        tx < modulus(),
        ty < modulus(),
        qx < modulus(),
        qy < modulus(),
        tx != qx,
        PointVal::Pt(tx, ty).on_curve(),
        PointVal::Pt(qx, qy).on_curve(),
        fmul(fsub(tx, qx), finv(fsub(tx, qx))) == 1,
    ensures
        point_sum(PointVal::Pt(tx, ty), PointVal::Pt(qx, qy)).finite(),
        exec_ops(check_add_ops(), st(
            check_add_hints(PointVal::Pt(tx, ty), PointVal::Pt(qx, qy), chord_slope(tx, ty, qx, qy)) + rest,
            pre + seq![tx, ty, qx, qy], alt, c)) == Some(st(rest, pre + seq![
                coord_x(point_sum(PointVal::Pt(tx, ty), PointVal::Pt(qx, qy))),
                coord_y(point_sum(PointVal::Pt(tx, ty), PointVal::Pt(qx, qy))),
            ], alt, c)),
{
    let a = chord_slope(tx, ty, qx, qy);
    let nb = neg_bias(a, tx, ty);
    lemma_on_own_line(a, tx, ty);
    lemma_chord_through_second(tx, ty, qx, qy);
    lemma_sum_coords(a, tx, ty, qx);
    let h = check_add_hints(PointVal::Pt(tx, ty), PointVal::Pt(qx, qy), a) + rest;
    assert(h == seq![a, nb] + chord_line_hints(tx, qx, a) + add_hints(tx, qx, a) + rest) by {
        reveal(check_add_hints);
    }
    lemma_not_sentinel(tx, ty);
    lemma_not_sentinel(qx, qy);
    lemma_check_add_general(h, rest, pre, a, nb, tx, ty, qx, qy, alt, c);
}

/// A point of the curve is never the sentinel `(0, 0)`.
pub proof fn lemma_not_sentinel(x: nat, y: nat)
    requires
        PointVal::Pt(x, y).on_curve(),
    ensures
        !(x == 0 && y == 0),
{
    if x == 0 && y == 0 {
        assert(fmul(0, 0) == 0);
        assert(fmul(0, fmul(0, 0)) == 0);
        assert(fadd(0, 3) == 3);
    }
}

/// Where the slope differs from the chord slope of two points of distinct
/// abscissae, the chord check leaves 0, whatever the intercept.
pub proof fn lemma_chord_line_rejects(pre: Seq<nat>, alpha: nat, c4: nat, tx: nat, ty: nat, qx: nat, qy: nat, rest: Seq<nat>, alt: Seq<nat>, conds: Seq<bool>)
    requires
        all_true(conds),
        alpha < modulus(),
        c4 < modulus(),
        ty < modulus(),
        qy < modulus(),
        fmul(fsub(tx, qx), finv(fsub(tx, qx))) == 1,
        alpha != chord_slope(tx, ty, qx, qy),
    ensures
        exec_ops(chord_line_ops(), st(chord_line_hints(tx, qx, alpha) + rest, pre + seq![alpha, c4, tx, ty, qx, qy], alt, conds))
            == Some(st(rest, pre.push(0), alt, conds)),
{
    lemma_chord_line(pre, alpha, c4, tx, ty, qx, qy, rest, alt, conds);
    if on_line(alpha, c4, tx, ty) && on_line(alpha, c4, qx, qy) {
        lemma_slope_unique(alpha, c4, tx, ty, qx, qy);
    }
}

proof fn lemma_tangent_first(r: Seq<nat>, pre: Seq<nat>, a: nat, nb: nat, x: nat, y: nat, alt: Seq<nat>, c: Seq<bool>)
    requires
        all_true(c),
    ensures
        exec_ops(seq![Op::Copy(0), Op::Double(0), Op::Copy(4), Op::Mul(1, 0), Op::Copy(2), Op::Square],
            st(seq![fmul(fadd(y, y), a), fmul(x, x)] + r, pre + seq![a, nb, x, y], alt, c))
            == Some(st(r, pre + seq![a, nb, x, y, fmul(fadd(y, y), a), fmul(x, x)], alt, c)),
{
    let m1 = fmul(fadd(y, y), a);
    let x2 = fmul(x, x);
    let h0 = seq![m1, x2] + r;
    let h1 = seq![x2] + r;
    assert(h0.drop_first() =~= h1);
    assert(h1.drop_first() =~= r);
    let s0 = st(h0, pre + seq![a, nb, x, y], alt, c);
    let s1 = st(h0, pre + seq![a, nb, x, y, y], alt, c);
    let s2 = st(h0, pre + seq![a, nb, x, y, fadd(y, y)], alt, c);
    let s3 = st(h0, pre + seq![a, nb, x, y, fadd(y, y), a], alt, c);
    let s4 = st(h1, pre + seq![a, nb, x, y, m1], alt, c);
    let s5 = st(h1, pre + seq![a, nb, x, y, m1, x], alt, c);
    let s6 = st(r, pre + seq![a, nb, x, y, m1, x2], alt, c);
    assert(s0.main.push(at(s0.main, 0)) =~= s1.main);
    assert(without(s1.main, 0).push(fadd(y, y)) =~= s2.main);
    assert(s2.main.push(at(s2.main, 4)) =~= s3.main);
    assert(without2(s3.main, 1, 0).push(m1) =~= s4.main);
    assert(s4.main.push(at(s4.main, 2)) =~= s5.main);
    assert(s5.main.drop_last().push(x2) =~= s6.main);
    let o0 = Seq::<Op>::empty();
    let o1 = o0.push(Op::Copy(0));
    let o2 = o1.push(Op::Double(0));
    let o3 = o2.push(Op::Copy(4));
    let o4 = o3.push(Op::Mul(1, 0));
    let o5 = o4.push(Op::Copy(2));
    lemma_step(o0, Op::Copy(0), s0, s0, s1);
    lemma_step(o1, Op::Double(0), s0, s1, s2);
    lemma_step(o2, Op::Copy(4), s0, s2, s3);
    lemma_step(o3, Op::Mul(1, 0), s0, s3, s4);
    lemma_step(o4, Op::Copy(2), s0, s4, s5);
    lemma_step(o5, Op::Square, s0, s5, s6);
    assert(o5.push(Op::Square) =~= seq![Op::Copy(0), Op::Double(0), Op::Copy(4), Op::Mul(1, 0), Op::Copy(2), Op::Square]);
}

proof fn lemma_tangent_second(r: Seq<nat>, upper_stack: Seq<nat>, m1: nat, x2: nat, alt: Seq<nat>, c: Seq<bool>)
    requires
        all_true(c),
    ensures
        exec_ops(seq![Op::Copy(0), Op::Double(0), Op::Add(1, 0), Op::Sub(1, 0), Op::IsZero(0), Op::ToAlt],
            st(r, upper_stack + seq![m1, x2], alt, c))
            == Some(st(r, upper_stack, alt.push(flag(fsub(m1, fadd(x2, fadd(x2, x2))) == 0)), c)),
{
    let t3 = fadd(x2, fadd(x2, x2));
    let f = flag(fsub(m1, t3) == 0);
    let s0 = st(r, upper_stack + seq![m1, x2], alt, c);
    let s1 = st(r, upper_stack + seq![m1, x2, x2], alt, c);
    let s2 = st(r, upper_stack + seq![m1, x2, fadd(x2, x2)], alt, c);
    let s3 = st(r, upper_stack + seq![m1, t3], alt, c);
    let s4 = st(r, upper_stack + seq![fsub(m1, t3)], alt, c);
    let s5 = st(r, upper_stack + seq![f], alt, c);
    let s6 = st(r, upper_stack, alt.push(f), c);
    assert(s0.main.push(at(s0.main, 0)) =~= s1.main);
    assert(without(s1.main, 0).push(fadd(x2, x2)) =~= s2.main);
    assert(without2(s2.main, 1, 0).push(t3) =~= s3.main);
    assert(without2(s3.main, 1, 0).push(fsub(m1, t3)) =~= s4.main);
    assert(without(s4.main, 0).push(f) =~= s5.main);
    assert(s5.main.drop_last() =~= upper_stack);
    let o0 = Seq::<Op>::empty();
    let o1 = o0.push(Op::Copy(0));
    let o2 = o1.push(Op::Double(0));
    let o3 = o2.push(Op::Add(1, 0));
    let o4 = o3.push(Op::Sub(1, 0));
    let o5 = o4.push(Op::IsZero(0));
    lemma_step(o0, Op::Copy(0), s0, s0, s1);
    lemma_step(o1, Op::Double(0), s0, s1, s2);
    lemma_step(o2, Op::Add(1, 0), s0, s2, s3);
    lemma_step(o3, Op::Sub(1, 0), s0, s3, s4);
    lemma_step(o4, Op::IsZero(0), s0, s4, s5);
    lemma_step(o5, Op::ToAlt, s0, s5, s6);
    assert(o5.push(Op::ToAlt) =~= seq![Op::Copy(0), Op::Double(0), Op::Add(1, 0), Op::Sub(1, 0), Op::IsZero(0), Op::ToAlt]);
}

/// Run on `alpha, -bias, x, y` and its hints, the tangent check leaves the flag of
/// whether `alpha 2y = 3x^2` and the line passes through the point.
pub proof fn lemma_tangent_line(r: Seq<nat>, pre: Seq<nat>, a: nat, nb: nat, x: nat, y: nat, alt: Seq<nat>, c: Seq<bool>)
    requires
        all_true(c),
    ensures
        exec_ops(tangent_line_ops(), st(tangent_line_hints(x, y, a) + r, pre + seq![a, nb, x, y], alt, c))
            == Some(st(r, pre.push(flag(
                fsub(fmul(fadd(y, y), a), fadd(fmul(x, x), fadd(fmul(x, x), fmul(x, x)))) == 0
                    && on_line(a, nb, x, y))), alt, c)),
{
    let m1 = fmul(fadd(y, y), a);
    let x2 = fmul(x, x);
    let r1 = seq![fmul(x, a)] + r;
    let h0 = tangent_line_hints(x, y, a) + r;
    assert(h0 =~= seq![m1, x2] + r1);
    let s0 = st(h0, pre + seq![a, nb, x, y], alt, c);
    let upper_stack = pre + seq![a, nb, x, y];
    lemma_tangent_first(r1, pre, a, nb, x, y, alt, c);
    assert(pre + seq![a, nb, x, y, m1, x2] =~= upper_stack + seq![m1, x2]);
    let s1 = st(r1, upper_stack + seq![m1, x2], alt, c);
    lemma_tangent_second(r1, upper_stack, m1, x2, alt, c);
    let f1 = flag(fsub(m1, fadd(x2, fadd(x2, x2))) == 0);
    let s2 = st(r1, upper_stack, alt.push(f1), c);
    let t1 = seq![Op::Copy(0), Op::Double(0), Op::Copy(4), Op::Mul(1, 0), Op::Copy(2), Op::Square];
    let t2 = seq![Op::Copy(0), Op::Double(0), Op::Add(1, 0), Op::Sub(1, 0), Op::IsZero(0), Op::ToAlt];
    lemma_seq(t1, t2, s0, s1, s2);
    lemma_line_through_point(pre, a, nb, x, y, r, alt.push(f1), c);
    let f2 = flag(on_line(a, nb, x, y));
    let s3 = st(r, pre.push(f2), alt.push(f1), c);
    lemma_seq(t1 + t2, line_through_point_ops(), s0, s2, s3);
    lemma_from_alt_and(r, pre, f2, f1, alt, c);
    let s4 = st(r, pre.push(flag(f1 != 0 && f2 != 0)), alt, c);
    lemma_seq(t1 + t2 + line_through_point_ops(), seq![Op::FromAlt, Op::BoolAnd], s0, s3, s4);
    assert(t1 + t2 =~= seq![
        Op::Copy(0), Op::Double(0), Op::Copy(4), Op::Mul(1, 0), Op::Copy(2), Op::Square,
        Op::Copy(0), Op::Double(0), Op::Add(1, 0), Op::Sub(1, 0), Op::IsZero(0), Op::ToAlt,
    ]);
}

/// Run on `alpha, -bias, x` and its hints, the doubling formulas leave
/// `x' = alpha^2 - 2x` and `y' = -bias - alpha x'`.
pub proof fn lemma_double(r: Seq<nat>, pre: Seq<nat>, a: nat, nb: nat, x: nat, alt: Seq<nat>, c: Seq<bool>)
    requires
        all_true(c),
    ensures
        exec_ops(double_ops(), st(add_hints(x, x, a) + r, pre + seq![a, nb, x], alt, c))
            == Some(st(r, pre + seq![sum_x(x, x, a), fsub(nb, fmul(a, sum_x(x, x, a)))], alt, c)),
{
    let xs = sum_x(x, x, a);
    let sq = fmul(a, a);
    let h0 = add_hints(x, x, a) + r;
    let h1 = seq![fmul(a, xs)] + r;
    assert(h0.drop_first() =~= h1);
    assert(h1.drop_first() =~= r);
    let dx = fadd(x, x);
    let s0 = st(h0, pre + seq![a, nb, x], alt, c);
    let s1 = st(h0, pre + seq![a, nb, dx], alt, c);
    let s2 = st(h0, pre + seq![nb, dx, a], alt, c);
    let s3 = st(h0, pre + seq![nb, dx, a, a], alt, c);
    let s4 = st(h1, pre + seq![nb, dx, a, sq], alt, c);
    let s5 = st(h1, pre + seq![nb, a, xs], alt, c);
    let s6 = st(h1, pre + seq![nb, a, xs, xs], alt, c);
    let s7 = st(r, pre + seq![nb, xs, fmul(a, xs)], alt, c);
    let s8 = st(r, pre + seq![xs, fsub(nb, fmul(a, xs))], alt, c);
    assert(without(s0.main, 0).push(dx) =~= s1.main);
    assert(without(s1.main, 2).push(at(s1.main, 2)) =~= s2.main);
    assert(s2.main.push(a) =~= s3.main);
    assert(s3.main.drop_last().push(sq) =~= s4.main);
    assert(without2(s4.main, 0, 2).push(xs) =~= s5.main);
    assert(s5.main.push(xs) =~= s6.main);
    assert(without2(s6.main, 2, 0).push(fmul(a, xs)) =~= s7.main);
    assert(without2(s7.main, 2, 0).push(fsub(nb, fmul(a, xs))) =~= s8.main);
    let o0 = Seq::<Op>::empty();
    let o1 = o0.push(Op::Double(0));
    let o2 = o1.push(Op::Roll(2));
    let o3 = o2.push(Op::Copy(0));
    let o4 = o3.push(Op::Square);
    let o5 = o4.push(Op::Sub(0, 2));
    let o6 = o5.push(Op::Copy(0));
    let o7 = o6.push(Op::Mul(2, 0));
    lemma_step(o0, Op::Double(0), s0, s0, s1);
    lemma_step(o1, Op::Roll(2), s0, s1, s2);
    lemma_step(o2, Op::Copy(0), s0, s2, s3);
    lemma_step(o3, Op::Square, s0, s3, s4);
    lemma_step(o4, Op::Sub(0, 2), s0, s4, s5);
    lemma_step(o5, Op::Copy(0), s0, s5, s6);
    lemma_step(o6, Op::Mul(2, 0), s0, s6, s7);
    lemma_step(o7, Op::Sub(2, 0), s0, s7, s8);
    assert(o7.push(Op::Sub(2, 0)) =~= double_ops());
}

/// The part of the doubling check after its identity test.
pub open spec fn double_tail_ops() -> Seq<Op> {
    seq![Op::FromHint, Op::FromHint, Op::Copy(1), Op::Copy(1), Op::Copy(5), Op::Roll(5)] + tangent_line_ops()
        + seq![Op::Verify, Op::Roll(2)] + double_ops()
}

proof fn lemma_check_double_shape()
    ensures
        check_double_ops() == is_zero_keep_ops() + (seq![Op::NotIf] + double_tail_ops()) + seq![Op::EndIf],
{
    reveal(check_double_ops);
    assert(check_double_ops() =~= is_zero_keep_ops() + (seq![Op::NotIf] + double_tail_ops()) + seq![Op::EndIf]);
}

proof fn lemma_double_tail_plain()
    ensures
        forall|i: int| 0 <= i < double_tail_ops().len() ==> plain(#[trigger] double_tail_ops()[i]),
{
    let a = seq![Op::FromHint, Op::FromHint, Op::Copy(1), Op::Copy(1), Op::Copy(5), Op::Roll(5)];
    let lt = line_through_point_ops();
    let t12 = seq![
        Op::Copy(0), Op::Double(0), Op::Copy(4), Op::Mul(1, 0), Op::Copy(2), Op::Square,
        Op::Copy(0), Op::Double(0), Op::Add(1, 0), Op::Sub(1, 0), Op::IsZero(0), Op::ToAlt,
    ];
    let t = tangent_line_ops();
    let v = seq![Op::Verify, Op::Roll(2)];
    assert forall|i: int| 0 <= i < double_tail_ops().len() implies plain(#[trigger] double_tail_ops()[i]) by {
        let d = double_tail_ops();
        if i < a.len() {
            assert(d[i] == a[i]);
        } else if i < a.len() + t.len() {
            let j = i - a.len();
            assert(d[i] == t[j]);
            if j < 12 {
                assert(t[j] == t12[j]);
            } else if j < 17 {
                assert(t[j] == lt[j - 12]);
            } else {
            }
        } else if i < a.len() + t.len() + 2 {
            assert(d[i] == v[i - a.len() - t.len()]);
        } else {
            assert(d[i] == double_ops()[i - a.len() - t.len() - 2]);
        }
    }
}

/// The doubling check leaves the identity `(0, 0)` as it is, whatever the hints.
pub proof fn lemma_check_double_identity(h: Seq<nat>, pre: Seq<nat>, alt: Seq<nat>, c: Seq<bool>)
    requires
        all_true(c),
    ensures
        exec_ops(check_double_ops(), st(h, pre + seq![0nat, 0nat], alt, c)) == Some(st(h, pre + seq![0nat, 0nat], alt, c)),
{
    let m0 = pre + seq![0nat, 0nat];
    let s0 = st(h, m0, alt, c);
    lemma_is_zero_keep(h, pre, 0, 0, alt, c);
    let s1 = st(h, m0.push(1), alt, c);
    assert(pre + seq![0nat, 0nat, 1nat] =~= m0.push(1));
    let s2 = st(h, m0, alt, c.push(false));
    assert(m0.push(1).drop_last() =~= m0);
    lemma_single(Op::NotIf, s1, s2);
    lemma_all_true_push(c, false);
    lemma_double_tail_plain();
    lemma_skip(double_tail_ops(), s2);
    lemma_seq(seq![Op::NotIf], double_tail_ops(), s1, s2, s2);
    lemma_seq(is_zero_keep_ops(), seq![Op::NotIf] + double_tail_ops(), s0, s1, s2);
    assert(c.push(false).drop_last() =~= c);
    lemma_single(Op::EndIf, s2, s0);
    lemma_seq(is_zero_keep_ops() + (seq![Op::NotIf] + double_tail_ops()), seq![Op::EndIf], s0, s2, s0);
    lemma_check_double_shape();
}

proof fn lemma_double_tail(r: Seq<nat>, pre: Seq<nat>, a: nat, nb: nat, x: nat, y: nat, alt: Seq<nat>, c: Seq<bool>)
    requires
        all_true(c),
        fsub(fmul(fadd(y, y), a), fadd(fmul(x, x), fadd(fmul(x, x), fmul(x, x)))) == 0,
        on_line(a, nb, x, y),
    ensures
        exec_ops(double_tail_ops(), st(seq![a, nb] + tangent_line_hints(x, y, a) + add_hints(x, x, a) + r, pre + seq![x, y], alt, c))
            == Some(st(r, pre + seq![sum_x(x, x, a), fsub(nb, fmul(a, sum_x(x, x, a)))], alt, c)),
{
    let r2 = add_hints(x, x, a) + r;
    let r1 = tangent_line_hints(x, y, a) + r2;
    assert(seq![a, nb] + tangent_line_hints(x, y, a) + add_hints(x, x, a) + r =~= seq![a, nb] + r1);
    let m = pre + seq![x, y];
    let s0 = st(seq![a, nb] + r1, m, alt, c);
    lemma_fetch_hints(r1, m, a, nb, alt, c);
    let s1 = st(r1, m + seq![a, nb, a, nb], alt, c);
    let s2m = pre + seq![x, a, nb] + seq![a, nb, x, y];
    let s2 = st(r1, s2m, alt, c);
    let u = m + seq![a, nb, a, nb];
    let u1 = st(r1, u.push(at(u, 5)), alt, c);
    assert(at(u, 5) == x);
    assert(without(u.push(x), 5).push(at(u.push(x), 5)) =~= s2m);
    lemma_ops2(seq![Op::Copy(5), Op::Roll(5)], Op::Copy(5), Op::Roll(5), s1, u1, s2);
    let f1 = seq![Op::FromHint, Op::FromHint, Op::Copy(1), Op::Copy(1)];
    lemma_seq(f1, seq![Op::Copy(5), Op::Roll(5)], s0, s1, s2);
    let fetch = f1 + seq![Op::Copy(5), Op::Roll(5)];
    lemma_tangent_line(r2, pre + seq![x, a, nb], a, nb, x, y, alt, c);
    let lower_stack = pre + seq![x, a, nb];
    let s3 = st(r2, lower_stack.push(1), alt, c);
    lemma_seq(fetch, tangent_line_ops(), s0, s2, s3);
    let s4 = st(r2, lower_stack, alt, c);
    let s5 = st(r2, pre + seq![a, nb, x], alt, c);
    assert(lower_stack.push(1).drop_last() =~= lower_stack);
    assert(without(lower_stack, 2).push(at(lower_stack, 2)) =~= s5.main);
    lemma_ops2(seq![Op::Verify, Op::Roll(2)], Op::Verify, Op::Roll(2), s3, s4, s5);
    lemma_seq(fetch + tangent_line_ops(), seq![Op::Verify, Op::Roll(2)], s0, s3, s5);
    lemma_double(r, pre, a, nb, x, alt, c);
    let s6 = st(r, pre + seq![sum_x(x, x, a), fsub(nb, fmul(a, sum_x(x, x, a)))], alt, c);
    lemma_seq(fetch + tangent_line_ops() + seq![Op::Verify, Op::Roll(2)], double_ops(), s0, s5, s6);
    assert(fetch + tangent_line_ops() + seq![Op::Verify, Op::Roll(2)] + double_ops() =~= double_tail_ops());
}

/// The doubling check on a point other than `(0, 0)`, with coefficients that pass
/// the tangent check, leaves the doubling formulas' result.
proof fn lemma_check_double_general(h: Seq<nat>, rest: Seq<nat>, pre: Seq<nat>, a: nat, nb: nat, x: nat, y: nat, alt: Seq<nat>, c: Seq<bool>)
    requires
        all_true(c),
        !(x == 0 && y == 0),
        fsub(fmul(fadd(y, y), a), fadd(fmul(x, x), fadd(fmul(x, x), fmul(x, x)))) == 0,
        on_line(a, nb, x, y),
        h == seq![a, nb] + tangent_line_hints(x, y, a) + add_hints(x, x, a) + rest,
    ensures
        exec_ops(check_double_ops(), st(h, pre + seq![x, y], alt, c))
            == Some(st(rest, pre + seq![sum_x(x, x, a), fsub(nb, fmul(a, sum_x(x, x, a)))], alt, c)),
{
    let m0 = pre + seq![x, y];
    let s0 = st(h, m0, alt, c);
    lemma_is_zero_keep(h, pre, x, y, alt, c);
    let s1 = st(h, m0.push(0), alt, c);
    assert(pre + seq![x, y, 0nat] =~= m0.push(0));
    let s2 = st(h, m0, alt, c.push(true));
    assert(m0.push(0).drop_last() =~= m0);
    lemma_single(Op::NotIf, s1, s2);
    lemma_all_true_push(c, true);
    lemma_double_tail(rest, pre, a, nb, x, y, alt, c.push(true));
    let out = pre + seq![sum_x(x, x, a), fsub(nb, fmul(a, sum_x(x, x, a)))];
    let s3 = st(rest, out, alt, c.push(true));
    lemma_seq(seq![Op::NotIf], double_tail_ops(), s1, s2, s3);
    lemma_seq(is_zero_keep_ops(), seq![Op::NotIf] + double_tail_ops(), s0, s1, s3);
    assert(c.push(true).drop_last() =~= c);
    let s4 = st(rest, out, alt, c);
    lemma_single(Op::EndIf, s3, s4);
    lemma_seq(is_zero_keep_ops() + (seq![Op::NotIf] + double_tail_ops()), seq![Op::EndIf], s0, s3, s4);
    lemma_check_double_shape();
}


/// For a point of the curve with non-zero ordinate, the doubling check run on
/// `x, y` with its honest hints leaves exactly the coordinates of twice the point.
/// The inverse of `2y` is taken to exist, as it does in the prime field.
pub proof fn lemma_check_double_finite(rest: Seq<nat>, pre: Seq<nat>, x: nat, y: nat, alt: Seq<nat>, c: Seq<bool>)
    requires
        all_true(c),
        x < modulus(),
        y < modulus(),
        y != 0,
        PointVal::Pt(x, y).on_curve(),
        fmul(fadd(y, y), finv(fadd(y, y))) == 1,
    ensures
        point_sum(PointVal::Pt(x, y), PointVal::Pt(x, y)).finite(),
        exec_ops(check_double_ops(), st(check_double_hints(PointVal::Pt(x, y)) + rest, pre + seq![x, y], alt, c))
            == Some(st(rest, pre + seq![
                coord_x(point_sum(PointVal::Pt(x, y), PointVal::Pt(x, y))),
                coord_y(point_sum(PointVal::Pt(x, y), PointVal::Pt(x, y))),
            ], alt, c)),
{
    let a = tangent_slope(x, y);
    let nb = neg_bias(a, x, y);
    lemma_tangent_slope(x, y);
    lemma_on_own_line(a, x, y);
    lemma_sum_coords(a, x, y, x);
    lemma_not_sentinel(x, y);
    let t3 = fadd(fmul(x, x), fadd(fmul(x, x), fmul(x, x)));
    assert(fsub(t3, t3) == 0);
    let h = check_double_hints(PointVal::Pt(x, y)) + rest;
    assert(h == seq![a, nb] + tangent_line_hints(x, y, a) + add_hints(x, x, a) + rest) by {
        reveal(check_double_hints);
    }
    lemma_check_double_general(h, rest, pre, a, nb, x, y, alt, c);
}

/// The coordinates that pushing a point leaves, `(0, 0)` for the identity.
pub open spec fn point_coords(p: AffinePoint) -> Seq<nat> {
    seq![coord_x(p@), coord_y(p@)]
}

/// What the decision tree pushes for selection `m`: `(0, 0)` for the all-zero
/// selection, else the table entry's coordinates.
pub open spec fn entry_coords(table: Seq<AffinePoint>, m: nat) -> Seq<nat> {
    if m == 0 {
        seq![0nat, 0nat]
    } else {
        point_coords(table[m as int])
    }
}

/// The number that the bits on the stack spell, the top one of weight `2^index`.
pub open spec fn bits_value(bs: Seq<nat>, index: nat) -> nat
    decreases bs.len(),
{
    if bs.len() == 0 {
        0
    } else {
        bs.last() * vstd::arithmetic::power2::pow2(index) + bits_value(bs.drop_last(), index + 1)
    }
}

proof fn lemma_push_point(h: Seq<nat>, m: Seq<nat>, p: AffinePoint, alt: Seq<nat>, c: Seq<bool>)
    requires
        all_true(c),
    ensures
        exec_ops(push_ops(p), st(h, m, alt, c)) == Some(st(h, m + point_coords(p), alt, c)),
{
    let s0 = st(h, m, alt, c);
    match p {
        AffinePoint::Infinity => {
            let s1 = st(h, m.push(0), alt, c);
            let s2 = st(h, m + point_coords(p), alt, c);
            assert(m.push(0).push(0) =~= s2.main);
            lemma_ops2(push_zero_ops(), Op::PushZero, Op::PushZero, s0, s1, s2);
        },
        AffinePoint::Finite { x, y } => {
            let s1 = st(h, m.push(x.val()), alt, c);
            let s2 = st(h, m + point_coords(p), alt, c);
            assert(m.push(x.val()).push(y.val()) =~= s2.main);
            lemma_ops2(push_ops(p), Op::Push(x), Op::Push(y), s0, s1, s2);
        },
    }
}

proof fn lemma_push_zero(h: Seq<nat>, m: Seq<nat>, alt: Seq<nat>, c: Seq<bool>)
    requires
        all_true(c),
    ensures
        exec_ops(push_zero_ops(), st(h, m, alt, c)) == Some(st(h, m + seq![0nat, 0nat], alt, c)),
{
    lemma_push_point(h, m, AffinePoint::Infinity, alt, c);
}

proof fn lemma_push_skip(s: MState, p: AffinePoint)
    requires
        !all_true(s.conds),
    ensures
        exec_ops(push_ops(p), s) == Some(s),
        exec_ops(push_zero_ops(), s) == Some(s),
{
    assert forall|i: int| 0 <= i < push_ops(p).len() implies plain(#[trigger] push_ops(p)[i]) by {}
    assert forall|i: int| 0 <= i < push_zero_ops().len() implies plain(#[trigger] push_zero_ops()[i]) by {}
    lemma_skip(push_ops(p), s);
    lemma_skip(push_zero_ops(), s);
}

/// `[If] + a + [Else] + b + [EndIf]` from the pieces' runs.
proof fn lemma_branch(a: Seq<Op>, b: Seq<Op>, s0: MState, s1: MState, s2: MState, s3: MState, s4: MState, s5: MState)
    requires
        exec_ops(seq![Op::If], s0) == Some(s1),
        exec_ops(a, s1) == Some(s2),
        exec_ops(seq![Op::Else], s2) == Some(s3),
        exec_ops(b, s3) == Some(s4),
        exec_ops(seq![Op::EndIf], s4) == Some(s5),
    ensures
        exec_ops(seq![Op::If] + a + seq![Op::Else] + b + seq![Op::EndIf], s0) == Some(s5),
{
    lemma_seq(seq![Op::If], a, s0, s1, s2);
    lemma_seq(seq![Op::If] + a, seq![Op::Else], s0, s2, s3);
    lemma_seq(seq![Op::If] + a + seq![Op::Else], b, s0, s3, s4);
    lemma_seq(seq![Op::If] + a + seq![Op::Else] + b, seq![Op::EndIf], s0, s4, s5);
}

proof fn lemma_end_if(h: Seq<nat>, m: Seq<nat>, alt: Seq<nat>, c: Seq<bool>, b: bool)
    ensures
        exec_ops(seq![Op::EndIf], st(h, m, alt, c.push(b))) == Some(st(h, m, alt, c)),
{
    assert(c.push(b).drop_last() =~= c);
    lemma_single(Op::EndIf, st(h, m, alt, c.push(b)), st(h, m, alt, c));
}

/// Inside a branch that does not run, the decision tree changes nothing.
proof fn lemma_dfs_skip(index: nat, depth: nat, mask: nat, table: Seq<AffinePoint>, s: MState)
    requires
        !all_true(s.conds),
    ensures
        exec_ops(dfs_ops(index, depth, mask, table), s) == Some(s),
    decreases depth,
{
    let hi = mask + vstd::arithmetic::power2::pow2(index);
    let c = s.conds;
    let s1 = MState { conds: c.push(false), ..s };
    let s3 = MState { conds: c.push(true), ..s };
    lemma_all_true_push(c, false);
    lemma_all_true_push(c, true);
    lemma_single(Op::If, s, s1);
    assert(c.push(false).drop_last() =~= c);
    lemma_single(Op::Else, s1, s3);
    assert(c.push(true).drop_last() =~= c);
    lemma_single(Op::EndIf, s3, s);
    if depth == 0 {
        lemma_push_skip(s1, table[hi as int]);
        lemma_push_skip(s3, table[mask as int]);
        let b = if mask == 0 { push_zero_ops() } else { push_ops(table[mask as int]) };
        lemma_branch(push_ops(table[hi as int]), b, s, s1, s1, s3, s3, s);
    } else {
        lemma_dfs_skip(index + 1, (depth - 1) as nat, hi, table, s1);
        lemma_dfs_skip(index + 1, (depth - 1) as nat, mask, table, s3);
        lemma_branch(dfs_ops(index + 1, (depth - 1) as nat, hi, table), dfs_ops(index + 1, (depth - 1) as nat, mask, table), s, s1, s1, s3, s3, s);
    }
}

/// Run on `depth + 1` bits on the stack, the top one of weight `2^index`, the
/// decision tree replaces them by the coordinates of the table entry they select,
/// offset by `mask`; the all-zero selection pushes `(0, 0)`.
pub proof fn lemma_dfs_selects(index: nat, depth: nat, mask: nat, table: Seq<AffinePoint>, h: Seq<nat>, pre: Seq<nat>, bs: Seq<nat>, alt: Seq<nat>, c: Seq<bool>)
    requires
        all_true(c),
        bs.len() == depth + 1,
        forall|i: int| 0 <= i < bs.len() ==> #[trigger] bs[i] == 0 || bs[i] == 1,
    ensures
        exec_ops(dfs_ops(index, depth, mask, table), st(h, pre + bs, alt, c))
            == Some(st(h, pre + entry_coords(table, mask + bits_value(bs, index)), alt, c)),
    decreases depth,
{
    let p2 = vstd::arithmetic::power2::pow2(index);
    let hi = mask + p2;
    let b = bs.last();
    let rest = bs.drop_last();
    vstd::arithmetic::power2::lemma_pow2_pos(index);
    assert((pre + bs).drop_last() =~= pre + rest);
    assert(b == 0 || b == 1);
    let s0 = st(h, pre + bs, alt, c);
    let m = mask + bits_value(bs, index);
    let out = pre + entry_coords(table, m);
    assert forall|i: int| 0 <= i < rest.len() implies #[trigger] rest[i] == 0 || rest[i] == 1 by {
        assert(rest[i] == bs[i]);
    }
    if b == 1 {
        assert(m == hi + bits_value(rest, index + 1));
        let s1 = st(h, pre + rest, alt, c.push(true));
        lemma_single(Op::If, s0, s1);
        lemma_all_true_push(c, true);
        let s2 = st(h, out, alt, c.push(true));
        if depth == 0 {
            assert(rest.len() == 0);
            assert(m == hi);
            lemma_push_point(h, pre + rest, table[hi as int], alt, c.push(true));
            assert(pre + rest + point_coords(table[hi as int]) =~= out);
        } else {
            lemma_dfs_selects(index + 1, (depth - 1) as nat, hi, table, h, pre, rest, alt, c.push(true));
        }
        let s3 = st(h, out, alt, c.push(false));
        lemma_else(h, out, alt, c, true);
        lemma_all_true_push(c, false);
        let bb = if depth == 0 {
            if mask == 0 { push_zero_ops() } else { push_ops(table[mask as int]) }
        } else {
            dfs_ops(index + 1, (depth - 1) as nat, mask, table)
        };
        if depth == 0 {
            lemma_push_skip(s3, table[mask as int]);
        } else {
            lemma_dfs_skip(index + 1, (depth - 1) as nat, mask, table, s3);
        }
        lemma_end_if(h, out, alt, c, false);
        let aa = if depth == 0 { push_ops(table[hi as int]) } else { dfs_ops(index + 1, (depth - 1) as nat, hi, table) };
        lemma_branch(aa, bb, s0, s1, s2, s3, s3, st(h, out, alt, c));
    } else {
        assert(m == mask + bits_value(rest, index + 1));
        let s1 = st(h, pre + rest, alt, c.push(false));
        lemma_single(Op::If, s0, s1);
        lemma_all_true_push(c, false);
        lemma_all_true_push(c, true);
        let s3 = st(h, pre + rest, alt, c.push(true));
        lemma_else(h, pre + rest, alt, c, false);
        let s4 = st(h, out, alt, c.push(true));
        let aa = if depth == 0 { push_ops(table[hi as int]) } else { dfs_ops(index + 1, (depth - 1) as nat, hi, table) };
        if depth == 0 {
            lemma_push_skip(s1, table[hi as int]);
            assert(rest.len() == 0);
            assert(m == mask);
            if mask == 0 {
                lemma_push_zero(h, pre + rest, alt, c.push(true));
                assert(pre + rest + seq![0nat, 0nat] =~= out);
            } else {
                lemma_push_point(h, pre + rest, table[mask as int], alt, c.push(true));
                assert(pre + rest + point_coords(table[mask as int]) =~= out);
            }
        } else {
            lemma_dfs_skip(index + 1, (depth - 1) as nat, hi, table, s1);
            lemma_dfs_selects(index + 1, (depth - 1) as nat, mask, table, h, pre, rest, alt, c.push(true));
        }
        let bb = if depth == 0 {
            if mask == 0 { push_zero_ops() } else { push_ops(table[mask as int]) }
        } else {
            dfs_ops(index + 1, (depth - 1) as nat, mask, table)
        };
        lemma_end_if(h, out, alt, c, true);
        lemma_branch(aa, bb, s0, s1, s1, s3, s4, st(h, out, alt, c));
    }
}

} // verus!
