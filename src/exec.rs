use vstd::prelude::*;
use crate::field::{Fe, fe_add, fe_sub, fe_mul, fe_neg, fadd, fsub, fmul, fneg};
use crate::script::{Op, MState, at, without, without2, flag, all_true, valid_pair, exec_op, exec_active, exec_ops, lemma_exec_concat, scalar_bits, SCALAR_BITS};
use crate::g1::{vals, all_wf};
use crate::proofs::{lemma_step, lemma_step_fails, lemma_exec_empty};

verus! {

/// The number of branches on the condition stack that do not run.
pub open spec fn count_false(c: Seq<bool>) -> nat
    decreases c.len(),
{
    if c.len() == 0 {
        0
    } else {
        count_false(c.drop_last()) + if c.last() { 0nat } else { 1nat }
    }
}

proof fn lemma_count_false(c: Seq<bool>)
    ensures
        all_true(c) == (count_false(c) == 0),
        count_false(c) <= c.len(),
    decreases c.len(),
{
    if c.len() > 0 {
        lemma_count_false(c.drop_last());
    }
}

/// Literals that the machine can hold.
pub open spec fn op_wf(op: Op) -> bool {
    match op {
        Op::Push(v) => v.wf(),
        _ => true,
    }
}

struct Machine {
    hints: Vec<Fe>,
    hpos: usize,
    main: Vec<Fe>,
    alt: Vec<Fe>,
    conds: Vec<bool>,
    falses: usize,
}

impl Machine {
    spec fn view(self) -> MState {
        MState {
            hints: vals(self.hints@).skip(self.hpos as int),
            main: vals(self.main@),
            alt: vals(self.alt@),
            conds: self.conds@,
        }
    }

    spec fn inv(self) -> bool {
        &&& self.hpos <= self.hints@.len()
        &&& all_wf(self.hints@)
        &&& all_wf(self.main@)
        &&& all_wf(self.alt@)
        &&& self.falses == count_false(self.conds@)
    }
}

fn flag_fe(b: bool) -> (r: Fe)
    ensures
        r.wf(),
        r.val() == flag(b),
{
    if b {
        Fe::one()
    } else {
        Fe::zero()
    }
}

fn vpush(v: &mut Vec<Fe>, x: Fe)
    requires
        all_wf(old(v)@),
        x.wf(),
    ensures
        vals(final(v)@) == vals(old(v)@).push(x.val()),
        all_wf(final(v)@),
{
    let ghost o = v@;
    v.push(x);
    proof {
        assert(vals(v@) =~= vals(o).push(x.val()));
        assert forall|i: int| 0 <= i < v@.len() implies #[trigger] v@[i].wf() by {
            if i < o.len() {
                assert(v@[i] == o[i]);
            }
        }
    }
}

fn vpop(v: &mut Vec<Fe>) -> (r: Fe)
    requires
        all_wf(old(v)@),
        old(v)@.len() > 0,
    ensures
        r.wf(),
        r.val() == vals(old(v)@).last(),
        vals(final(v)@) == vals(old(v)@).drop_last(),
        all_wf(final(v)@),
{
    let ghost o = v@;
    let r = v.pop().unwrap();
    proof {
        assert(vals(v@) =~= vals(o).drop_last());
        assert(r == o[o.len() - 1]);
        assert forall|i: int| 0 <= i < v@.len() implies #[trigger] v@[i].wf() by {
            assert(v@[i] == o[i]);
        }
    }
    r
}

fn vpick(v: &Vec<Fe>, d: u32) -> (r: Fe)
    requires
        all_wf(v@),
        (d as int) < v@.len(),
    ensures
        r.wf(),
        r.val() == at(vals(v@), d as int),
{
    v[v.len() - 1 - d as usize]
}

fn vtake(v: &mut Vec<Fe>, d: u32) -> (r: Fe)
    requires
        all_wf(old(v)@),
        (d as int) < old(v)@.len(),
    ensures
        r.wf(),
        r.val() == at(vals(old(v)@), d as int),
        vals(final(v)@) == without(vals(old(v)@), d as int),
        all_wf(final(v)@),
{
    let ghost o = v@;
    let i = v.len() - 1 - d as usize;
    let r = v.remove(i);
    proof {
        assert(vals(v@) =~= without(vals(o), d as int));
        assert forall|j: int| 0 <= j < v@.len() implies #[trigger] v@[j].wf() by {
            if j < i {
                assert(v@[j] == o[j]);
            } else {
                assert(v@[j] == o[j + 1]);
            }
        }
    }
    r
}

fn vtake2(v: &mut Vec<Fe>, a: u32, b: u32) -> (r: (Fe, Fe))
    requires
        all_wf(old(v)@),
        valid_pair(vals(old(v)@), a, b),
    ensures
        r.0.wf(),
        r.1.wf(),
        r.0.val() == at(vals(old(v)@), a as int),
        r.1.val() == at(vals(old(v)@), b as int),
        vals(final(v)@) == without2(vals(old(v)@), a as int, b as int),
        all_wf(final(v)@),
{
    let ghost s = vals(v@);
    assert(s.len() == v@.len());
    if a > b {
        let y = vtake(v, b);
        assert(vals(v@).len() == v@.len());
        let x = vtake(v, a - 1);
        (x, y)
    } else {
        let x = vtake(v, a);
        assert(vals(v@).len() == v@.len());
        let y = vtake(v, b - 1);
        (x, y)
    }
}

/// Places the bits of `k` on the alternate stack, least significant first.
fn push_bits(alt: &mut Vec<Fe>, k: Fe)
    requires
        all_wf(old(alt)@),
    ensures
        vals(final(alt)@) == vals(old(alt)@) + scalar_bits(k.val(), SCALAR_BITS as nat),
        all_wf(final(alt)@),
{
    let ghost a0 = vals(alt@);
    let mut j: u32 = 0;
    proof {
        assert(vals(alt@) =~= a0 + scalar_bits(k.val(), 0));
    }
    while j < SCALAR_BITS
        invariant
            j <= SCALAR_BITS,
            all_wf(alt@),
            vals(alt@) == a0 + scalar_bits(k.val(), j as nat),
        decreases SCALAR_BITS - j,
    {
        let b = flag_fe(k.bit(j));
        let ghost prev = vals(alt@);
        vpush(alt, b);
        proof {
            let p = vstd::arithmetic::power2::pow2(j as nat);
            assert((k.val() / p) % 2 == 0 || (k.val() / p) % 2 == 1);
            assert(b.val() == (k.val() / p) % 2);
            assert(scalar_bits(k.val(), (j + 1) as nat) == scalar_bits(k.val(), j as nat).push((k.val() / p) % 2));
            assert(vals(alt@) =~= a0 + scalar_bits(k.val(), (j + 1) as nat));
        }
        j = j + 1;
    }
}

/// One instruction on the machine; `false` where the instruction fails.
fn step(m: &mut Machine, op: Op) -> (ok: bool)
    requires
        old(m).inv(),
        op_wf(op),
    ensures
        ok == (exec_op(op, old(m).view()) is Some),
        ok ==> final(m).inv() && exec_op(op, old(m).view()) == Some(final(m).view()),
{
    let ghost s0 = m.view();
    proof {
        lemma_count_false(m.conds@);
        assert(s0.main.len() == m.main@.len());
        assert(s0.alt.len() == m.alt@.len());
        assert(s0.hints.len() == m.hints@.len() - m.hpos);
    }
    let active = m.falses == 0;
    match op {
        Op::If | Op::NotIf => {
            if active {
                if m.main.len() == 0 {
                    return false;
                }
                let v = vpop(&mut m.main);
                let c = if let Op::If = op { !v.is_zero() } else { v.is_zero() };
                m.conds.push(c);
                let cl = m.conds.len();
                proof {
                    assert(m.conds@.drop_last() =~= s0.conds);
                    lemma_count_false(m.conds@);
                }
                if !c {
                    m.falses = m.falses + 1;
                }
            } else {
                m.conds.push(false);
                let cl = m.conds.len();
                proof {
                    assert(m.conds@.drop_last() =~= s0.conds);
                    lemma_count_false(m.conds@);
                }
                m.falses = m.falses + 1;
            }
            proof {
                assert(m.view().conds =~= m.conds@);
            }
            true
        },
        Op::Else => {
            if m.conds.len() == 0 {
                return false;
            }
            let b = m.conds.pop().unwrap();
            m.conds.push(!b);
            proof {
                assert(m.conds@.drop_last() =~= s0.conds.drop_last());
                lemma_count_false(m.conds@);
                lemma_count_false(s0.conds.drop_last());
            }
            if b {
                m.falses = m.falses + 1;
            } else {
                m.falses = m.falses - 1;
            }
            proof {
                assert(m.conds@.drop_last() =~= s0.conds.drop_last());
                assert(m.conds@ =~= s0.conds.drop_last().push(!s0.conds.last()));
            }
            true
        },
        Op::EndIf => {
            if m.conds.len() == 0 {
                return false;
            }
            let b = m.conds.pop().unwrap();
            if !b {
                m.falses = m.falses - 1;
            }
            proof {
                assert(m.conds@ =~= s0.conds.drop_last());
            }
            true
        },
        _ => {
            if !active {
                return true;
            }
            step_active(m, op)
        },
    }
}

/// One plain instruction on a machine whose branches all run.
fn step_active(m: &mut Machine, op: Op) -> (ok: bool)
    requires
        old(m).inv(),
        all_true(old(m).view().conds),
        op_wf(op),
        !(op is If || op is NotIf || op is Else || op is EndIf),
    ensures
        ok == (exec_active(op, old(m).view()) is Some),
        ok ==> final(m).inv() && exec_active(op, old(m).view()) == Some(final(m).view()),
{
    let ghost s0 = m.view();
    let ghost h0 = vals(m.hints@);
    proof {
        assert(s0.main.len() == m.main@.len());
        assert(s0.alt.len() == m.alt@.len());
        assert(s0.hints.len() == m.hints@.len() - m.hpos);
        if m.hpos < m.hints@.len() {
            assert(s0.hints[0] == m.hints@[m.hpos as int].val());
            assert(s0.hints.drop_first() =~= h0.skip(m.hpos + 1));
        }
    }
    let len = m.main.len();
    match op {
        Op::Push(v) => {
            vpush(&mut m.main, v);
        },
        Op::PushZero => {
            vpush(&mut m.main, Fe::zero());
        },
        Op::PushOne => {
            vpush(&mut m.main, Fe::one());
        },
        Op::Copy(d) => {
            if d as usize >= len {
                return false;
            }
            let x = vpick(&m.main, d);
            vpush(&mut m.main, x);
        },
        Op::Roll(d) => {
            if d as usize >= len {
                return false;
            }
            let x = vtake(&mut m.main, d);
            vpush(&mut m.main, x);
        },
        Op::Drop => {
            if len == 0 {
                return false;
            }
            vpop(&mut m.main);
        },
        Op::Add(a, b) => {
            if a == b || a as usize >= len || b as usize >= len {
                return false;
            }
            let (x, y) = vtake2(&mut m.main, a, b);
            vpush(&mut m.main, fe_add(x, y));
        },
        Op::Sub(a, b) => {
            if a == b || a as usize >= len || b as usize >= len {
                return false;
            }
            let (x, y) = vtake2(&mut m.main, a, b);
            vpush(&mut m.main, fe_sub(x, y));
        },
        Op::Double(d) => {
            if d as usize >= len {
                return false;
            }
            let x = vtake(&mut m.main, d);
            vpush(&mut m.main, fe_add(x, x));
        },
        Op::Neg(d) => {
            if d as usize >= len {
                return false;
            }
            let x = vtake(&mut m.main, d);
            vpush(&mut m.main, fe_neg(x));
        },
        Op::Mul(a, b) => {
            if a == b || a as usize >= len || b as usize >= len || m.hpos >= m.hints.len() {
                return false;
            }
            let h = m.hints[m.hpos];
            let p = fe_mul(vpick(&m.main, a), vpick(&m.main, b));
            if !h.eq_val(&p) {
                return false;
            }
            vtake2(&mut m.main, a, b);
            vpush(&mut m.main, h);
            m.hpos = m.hpos + 1;
        },
        Op::Square => {
            if len == 0 || m.hpos >= m.hints.len() {
                return false;
            }
            let h = m.hints[m.hpos];
            let x = vpick(&m.main, 0);
            if !h.eq_val(&fe_mul(x, x)) {
                return false;
            }
            vpop(&mut m.main);
            vpush(&mut m.main, h);
            m.hpos = m.hpos + 1;
        },
        Op::Equal(a, b) => {
            if a == b || a as usize >= len || b as usize >= len {
                return false;
            }
            let (x, y) = vtake2(&mut m.main, a, b);
            vpush(&mut m.main, flag_fe(x.eq_val(&y)));
        },
        Op::EqualVerify(a, b) => {
            if a == b || a as usize >= len || b as usize >= len {
                return false;
            }
            let (x, y) = vtake2(&mut m.main, a, b);
            if !x.eq_val(&y) {
                return false;
            }
        },
        Op::IsZero(d) => {
            if d as usize >= len {
                return false;
            }
            let x = vtake(&mut m.main, d);
            vpush(&mut m.main, flag_fe(x.is_zero()));
        },
        Op::IsZeroKeep(d) => {
            if d as usize >= len {
                return false;
            }
            let x = vpick(&m.main, d);
            vpush(&mut m.main, flag_fe(x.is_zero()));
        },
        Op::FromHint => {
            if m.hpos >= m.hints.len() {
                return false;
            }
            let h = m.hints[m.hpos];
            vpush(&mut m.main, h);
            m.hpos = m.hpos + 1;
        },
        Op::ToAlt => {
            if len == 0 {
                return false;
            }
            let x = vpop(&mut m.main);
            vpush(&mut m.alt, x);
        },
        Op::FromAlt => {
            if m.alt.len() == 0 {
                return false;
            }
            let x = vpop(&mut m.alt);
            vpush(&mut m.main, x);
        },
        Op::BoolAnd => {
            if len < 2 {
                return false;
            }
            let a = vpop(&mut m.main);
            let b = vpop(&mut m.main);
            vpush(&mut m.main, flag_fe(!a.is_zero() && !b.is_zero()));
        },
        Op::Verify => {
            if len == 0 {
                return false;
            }
            let x = vpop(&mut m.main);
            if x.is_zero() {
                return false;
            }
        },
        Op::ScalarBitsToAlt => {
            if len == 0 {
                return false;
            }
            let k = vpop(&mut m.main);
            push_bits(&mut m.alt, k);
        },
        _ => {
            return false;
        },
    }
    proof {
        assert(m.view().main == vals(m.main@));
    }
    true
}

/// The machine's state at the start: the hints, the given stack, nothing else.
pub open spec fn initial(hints: Seq<nat>, stack: Seq<nat>) -> MState {
    MState { hints, main: stack, alt: Seq::empty(), conds: Seq::empty() }
}

/// Runs a script from the given hints and stack: `None` where an instruction
/// fails, else the main stack at the end.
pub fn execute(ops: &Vec<Op>, hints: Vec<Fe>, stack: Vec<Fe>) -> (r: Option<Vec<Fe>>)
    requires
        all_wf(hints@),
        all_wf(stack@),
        forall|i: int| 0 <= i < ops@.len() ==> op_wf(#[trigger] ops@[i]),
    ensures
        match exec_ops(ops@, initial(vals(hints@), vals(stack@))) {
            Some(s) => match r {
                Some(v) => vals(v@) == s.main,
                None => false,
            },
            None => r is None,
        },
{
    let ghost init = initial(vals(hints@), vals(stack@));
    let ghost ops0 = ops@;
    let mut m = Machine { hints, hpos: 0, main: stack, alt: Vec::new(), conds: Vec::new(), falses: 0 };
    proof {
        assert(vals(m.hints@).skip(0) =~= vals(m.hints@));
        assert(vals(m.alt@) =~= Seq::<nat>::empty());
        assert(m.view() == init);
        lemma_exec_empty(init);
        assert(ops@.take(0) =~= Seq::<Op>::empty());
    }
    let mut i: usize = 0;
    while i < ops.len()
        invariant
            m.inv(),
            ops@ == ops0,
            init == initial(vals(hints@), vals(stack@)),
            i <= ops@.len(),
            exec_ops(ops@.take(i as int), init) == Some(m.view()),
            forall|j: int| 0 <= j < ops@.len() ==> op_wf(#[trigger] ops@[j]),
        decreases ops@.len() - i,
    {
        let op = ops[i];
        let ghost before = m.view();
        let ok = step(&mut m, op);
        proof {
            assert(ops@.take(i as int).push(op) =~= ops@.take(i + 1));
        }
        if !ok {
            proof {
                assert(exec_op(op, before) == None::<MState>);
                lemma_step_fails(ops@.take(i as int), op, init, before);
                assert(exec_ops(ops@.take(i + 1), init) == None::<MState>);
                lemma_exec_concat(ops@.take(i + 1), ops@.skip(i + 1), init);
                assert(ops@.take(i + 1) + ops@.skip(i + 1) =~= ops@);
                assert(exec_ops(ops@, init) == None::<MState>);
            }
            return None;
        }
        proof {
            lemma_step(ops@.take(i as int), op, init, before, m.view());
        }
        i = i + 1;
    }
    proof {
        assert(ops@.take(ops@.len() as int) =~= ops@);
    }
    Some(m.main)
}

} // verus!
