use vstd::prelude::*;
use crate::field::{Fe, fadd, fsub, fmul, fneg};

verus! {

/// One instruction of the field-level stack machine. Depths count from the top
/// of the main stack, the top element being at depth 0.
#[derive(Clone, Copy, Debug)]
pub enum Op {
    /// Push a literal field element.
    Push(Fe),
    PushZero,
    PushOne,
    /// Push a copy of the element at the depth.
    Copy(u32),
    /// Move the element at the depth to the top.
    Roll(u32),
    Drop,
    /// Remove both operands, push their sum.
    Add(u32, u32),
    /// Remove both operands, push the first minus the second.
    Sub(u32, u32),
    Double(u32),
    Neg(u32),
    /// Remove both operands, take the next hint as their claimed product, check it
    /// and push it.
    Mul(u32, u32),
    /// Remove the top element, take the next hint as its claimed square, check it
    /// and push it.
    Square,
    /// Remove both operands, push 1 if they are equal and 0 otherwise.
    Equal(u32, u32),
    /// Remove both operands, fail unless they are equal.
    EqualVerify(u32, u32),
    /// Remove the element, push 1 if it is zero and 0 otherwise.
    IsZero(u32),
    /// Push 1 if the element at the depth is zero and 0 otherwise.
    IsZeroKeep(u32),
    /// Move the oldest unconsumed hint, the deepest element of the stack, to the top.
    FromHint,
    ToAlt,
    FromAlt,
    /// Remove two flags, push 1 if both are non-zero and 0 otherwise.
    BoolAnd,
    /// Remove a flag, fail if it is zero.
    Verify,
    If,
    NotIf,
    Else,
    EndIf,
    /// Remove a scalar and place its bits on the alternate stack, least significant
    /// first, so that the most significant bit comes back first.
    ScalarBitsToAlt,
}

/// The number of bits of a scalar.
pub const SCALAR_BITS: u32 = 254;

/// The state of the machine: unconsumed hints (oldest first), the main and
/// alternate stacks (top last), and the conditions of the enclosing branches.
pub struct MState {
    pub hints: Seq<nat>,
    pub main: Seq<nat>,
    pub alt: Seq<nat>,
    pub conds: Seq<bool>,
}

pub open spec fn at(s: Seq<nat>, d: int) -> nat {
    s[s.len() - 1 - d]
}

pub open spec fn without(s: Seq<nat>, d: int) -> Seq<nat> {
    s.remove(s.len() - 1 - d)
}

/// The stack without the two elements at depths `a` and `b`.
pub open spec fn without2(s: Seq<nat>, a: int, b: int) -> Seq<nat> {
    if a > b {
        without(without(s, b), a - 1)
    } else {
        without(without(s, a), b - 1)
    }
}

pub open spec fn flag(b: bool) -> nat {
    if b {
        1
    } else {
        0
    }
}

pub open spec fn all_true(c: Seq<bool>) -> bool
    decreases c.len(),
{
    c.len() == 0 || (c.last() && all_true(c.drop_last()))
}

/// The bits of `k` from bit `i` down to bit 0, bit 0 pushed first.
pub open spec fn scalar_bits(k: nat, n: nat) -> Seq<nat>
    decreases n,
{
    if n == 0 {
        Seq::empty()
    } else {
        scalar_bits(k, (n - 1) as nat).push((k / vstd::arithmetic::power2::pow2((n - 1) as nat)) % 2)
    }
}

pub open spec fn valid_depth(s: Seq<nat>, d: u32) -> bool {
    (d as int) < s.len()
}

pub open spec fn valid_pair(s: Seq<nat>, a: u32, b: u32) -> bool {
    a != b && (a as int) < s.len() && (b as int) < s.len()
}

pub open spec fn with_main(st: MState, m: Seq<nat>) -> MState {
    MState { main: m, ..st }
}

/// The effect of one instruction on a state whose enclosing branches all run.
pub open spec fn exec_active(op: Op, st: MState) -> Option<MState> {
    let s = st.main;
    match op {
        Op::Push(v) => Some(with_main(st, s.push(v.val()))),
        Op::PushZero => Some(with_main(st, s.push(0))),
        Op::PushOne => Some(with_main(st, s.push(1))),
        Op::Copy(d) => if valid_depth(s, d) {
            Some(with_main(st, s.push(at(s, d as int))))
        } else {
            None
        },
        Op::Roll(d) => if valid_depth(s, d) {
            Some(with_main(st, without(s, d as int).push(at(s, d as int))))
        } else {
            None
        },
        Op::Drop => if s.len() > 0 {
            Some(with_main(st, s.drop_last()))
        } else {
            None
        },
        Op::Add(a, b) => if valid_pair(s, a, b) {
            Some(with_main(st, without2(s, a as int, b as int).push(fadd(at(s, a as int), at(s, b as int)))))
        } else {
            None
        },
        Op::Sub(a, b) => if valid_pair(s, a, b) {
            Some(with_main(st, without2(s, a as int, b as int).push(fsub(at(s, a as int), at(s, b as int)))))
        } else {
            None
        },
        Op::Double(d) => if valid_depth(s, d) {
            Some(with_main(st, without(s, d as int).push(fadd(at(s, d as int), at(s, d as int)))))
        } else {
            None
        },
        Op::Neg(d) => if valid_depth(s, d) {
            Some(with_main(st, without(s, d as int).push(fneg(at(s, d as int)))))
        } else {
            None
        },
        Op::Mul(a, b) => if valid_pair(s, a, b) && st.hints.len() > 0
            && st.hints[0] == fmul(at(s, a as int), at(s, b as int)) {
            Some(MState {
                hints: st.hints.drop_first(),
                main: without2(s, a as int, b as int).push(st.hints[0]),
                ..st
            })
        } else {
            None
        },
        Op::Square => if s.len() > 0 && st.hints.len() > 0 && st.hints[0] == fmul(s.last(), s.last()) {
            Some(MState { hints: st.hints.drop_first(), main: s.drop_last().push(st.hints[0]), ..st })
        } else {
            None
        },
        Op::Equal(a, b) => if valid_pair(s, a, b) {
            Some(with_main(st, without2(s, a as int, b as int).push(flag(at(s, a as int) == at(s, b as int)))))
        } else {
            None
        },
        Op::EqualVerify(a, b) => if valid_pair(s, a, b) && at(s, a as int) == at(s, b as int) {
            Some(with_main(st, without2(s, a as int, b as int)))
        } else {
            None
        },
        Op::IsZero(d) => if valid_depth(s, d) {
            Some(with_main(st, without(s, d as int).push(flag(at(s, d as int) == 0))))
        } else {
            None
        },
        Op::IsZeroKeep(d) => if valid_depth(s, d) {
            Some(with_main(st, s.push(flag(at(s, d as int) == 0))))
        } else {
            None
        },
        Op::FromHint => if st.hints.len() > 0 {
            Some(MState { hints: st.hints.drop_first(), main: s.push(st.hints[0]), ..st })
        } else {
            None
        },
        Op::ToAlt => if s.len() > 0 {
            Some(MState { main: s.drop_last(), alt: st.alt.push(s.last()), ..st })
        } else {
            None
        },
        Op::FromAlt => if st.alt.len() > 0 {
            Some(MState { main: s.push(st.alt.last()), alt: st.alt.drop_last(), ..st })
        } else {
            None
        },
        Op::BoolAnd => if s.len() > 1 {
            Some(with_main(st, s.drop_last().drop_last().push(flag(s.last() != 0 && s[s.len() - 2] != 0))))
        } else {
            None
        },
        Op::Verify => if s.len() > 0 && s.last() != 0 {
            Some(with_main(st, s.drop_last()))
        } else {
            None
        },
        Op::If => if s.len() > 0 {
            Some(MState { main: s.drop_last(), conds: st.conds.push(s.last() != 0), ..st })
        } else {
            None
        },
        Op::NotIf => if s.len() > 0 {
            Some(MState { main: s.drop_last(), conds: st.conds.push(s.last() == 0), ..st })
        } else {
            None
        },
        Op::ScalarBitsToAlt => if s.len() > 0 {
            Some(MState {
                main: s.drop_last(),
                alt: st.alt + scalar_bits(s.last(), SCALAR_BITS as nat),
                ..st
            })
        } else {
            None
        },
        _ => exec_branching(op, st),
    }
}

/// The effect of the branching instructions, which run whatever the conditions.
pub open spec fn exec_branching(op: Op, st: MState) -> Option<MState> {
    match op {
        Op::If | Op::NotIf => Some(MState { conds: st.conds.push(false), ..st }),
        Op::Else => if st.conds.len() > 0 {
            Some(MState { conds: st.conds.drop_last().push(!st.conds.last()), ..st })
        } else {
            None
        },
        Op::EndIf => if st.conds.len() > 0 {
            Some(MState { conds: st.conds.drop_last(), ..st })
        } else {
            None
        },
        _ => Some(st),
    }
}

/// The effect of one instruction.
pub open spec fn exec_op(op: Op, st: MState) -> Option<MState> {
    if all_true(st.conds) {
        match op {
            Op::Else | Op::EndIf => exec_branching(op, st),
            _ => exec_active(op, st),
        }
    } else {
        exec_branching(op, st)
    }
}

/// The effect of a script: its instructions in order, stopping at the first failure.
#[verifier::opaque]
pub open spec fn exec_ops(ops: Seq<Op>, st: MState) -> Option<MState>
    decreases ops.len(),
{
    if ops.len() == 0 {
        Some(st)
    } else {
        match exec_ops(ops.drop_last(), st) {
            Some(s) => exec_op(ops.last(), s),
            None => None,
        }
    }
}

/// Running two scripts one after the other is running their concatenation.
pub proof fn lemma_exec_concat(a: Seq<Op>, b: Seq<Op>, st: MState)
    ensures
        exec_ops(a + b, st) == match exec_ops(a, st) {
            Some(s) => exec_ops(b, s),
            None => None,
        },
    decreases b.len(),
{
    reveal(exec_ops);
    if b.len() == 0 {
        assert(a + b =~= a);
    } else {
        lemma_exec_concat(a, b.drop_last(), st);
        assert((a + b).drop_last() =~= a + b.drop_last());
        assert((a + b).last() == b.last());
        match exec_ops(a, st) {
            Some(s) => {},
            None => {},
        }
    }
}

} // verus!
