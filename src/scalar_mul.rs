use vstd::prelude::*;
use vstd::arithmetic::power2::{pow2, lemma_pow2_unfold, lemma_pow2_strictly_increases, lemma2_to64};
use crate::field::Fe;
use crate::g1::append_hints;
use crate::point::{AffinePoint, PointVal, point_sum, coord_x, coord_y, ec_add};
use crate::script::{Op, SCALAR_BITS};
use crate::g1::{
    G1Affine, vals, all_wf, push_ops, push_zero_ops, check_add_ops, check_add_hints,
    check_double_ops, check_double_hints,
};

verus! {

/// How many bit positions lie at or after position `i`.
pub open spec fn remaining(i: nat) -> nat {
    if i < nbits() {
        (nbits() - i) as nat
    } else {
        0
    }
}

/// The number of bits of a scalar, as a value.
pub open spec fn nbits() -> nat {
    SCALAR_BITS as nat
}

/// A scalar held as four little-endian 64-bit limbs.
#[derive(Clone, Copy, Debug, PartialEq, Eq)]
pub struct Scalar {
    pub limbs: [u64; 4],
}

impl Scalar {
    /// Bit `i` of the scalar.
    pub open spec fn bit(self, i: nat) -> nat {
        (self.limbs@[(i / 64) as int] as nat / pow2(i % 64)) % 2
    }

    pub fn get_bit(&self, i: u32) -> (r: u32)
        requires
            i < 256,
        ensures
            r as nat == self.bit(i as nat),
    {
        let limb = self.limbs[(i / 64) as usize];
        let s = (i % 64) as u64;
        proof {
            vstd::bits::lemma_u64_shr_is_div(limb, s);
        }
        let v = limb >> s;
        assert((v & 1) == v % 2) by (bit_vector);
        (v & 1) as u32
    }
}

/// The decision tree that selects a table entry by the bits on the stack, the
/// bit of weight `2^index` on top; an all-zero selection pushes `(0, 0)`.
pub open spec fn dfs_ops(index: nat, depth: nat, mask: nat, table: Seq<AffinePoint>) -> Seq<Op>
    decreases depth,
{
    let hi = mask + pow2(index);
    if depth == 0 {
        seq![Op::If] + push_ops(table[hi as int]) + seq![Op::Else] + (if mask == 0 {
            push_zero_ops()
        } else {
            push_ops(table[mask as int])
        }) + seq![Op::EndIf]
    } else {
        seq![Op::If] + dfs_ops(index + 1, (depth - 1) as nat, hi, table) + seq![Op::Else] + dfs_ops(
            index + 1,
            (depth - 1) as nat,
            mask,
            table,
        ) + seq![Op::EndIf]
    }
}

/// `j` times the base point.
pub open spec fn table_val(p: PointVal, j: nat) -> PointVal
    decreases j,
{
    if j == 0 {
        PointVal::Inf
    } else {
        point_sum(table_val(p, (j - 1) as nat), p)
    }
}

/// The point doubled `n` times.
pub open spec fn doubled(c: PointVal, n: nat) -> PointVal
    decreases n,
{
    if n == 0 {
        c
    } else {
        doubled(point_sum(c, c), (n - 1) as nat)
    }
}

/// The width of the window that starts at bit position `i` from the top.
pub open spec fn win_depth(w: nat, i: nat) -> nat {
    if nbits() - i < w {
        (nbits() - i) as nat
    } else {
        w
    }
}

/// The `n` bits of the scalar below position `i` from the top, as a number.
pub open spec fn window_mask(k: Scalar, i: nat, n: nat) -> nat
    decreases n,
{
    if n == 0 {
        0
    } else {
        window_mask(k, i, (n - 1) as nat) * 2 + k.bit((nbits() - i - n) as nat)
    }
}

/// The accumulator after the window at position `i`, from `c`.
#[verifier::opaque]
pub open spec fn step_point(p: PointVal, k: Scalar, w: nat, i: nat, c: PointVal) -> PointVal {
    let d = win_depth(w, i);
    let c1 = if i > 0 { doubled(c, d) } else { c };
    point_sum(c1, table_val(p, window_mask(k, i, d)))
}

/// The accumulator after the windows from position `i` on, starting from `c`.
pub open spec fn run(p: PointVal, k: Scalar, w: nat, i: nat, c: PointVal) -> PointVal
    decreases remaining(i),
{
    if i >= nbits() || w == 0 {
        c
    } else {
        run(p, k, w, i + w, step_point(p, k, w, i, c))
    }
}

/// No doubling along the way meets a finite point of ordinate zero.
pub open spec fn doubles_ok(c: PointVal, n: nat) -> bool
    decreases n,
{
    n == 0 || ((c.finite() ==> coord_y(c) != 0) && doubles_ok(point_sum(c, c), (n - 1) as nat))
}

/// The window at position `i` meets no degenerate case of the incomplete formulas.
#[verifier::opaque]
pub open spec fn step_ok(p: PointVal, k: Scalar, w: nat, i: nat, c: PointVal) -> bool {
    let d = win_depth(w, i);
    let c1 = if i > 0 { doubled(c, d) } else { c };
    let t = table_val(p, window_mask(k, i, d));
    i > 0 ==> doubles_ok(c, d) && (c1.finite() && t.finite() ==> coord_x(c1) != coord_x(t))
}

/// No checked doubling or addition from position `i` on meets a degenerate case of
/// the incomplete formulas.
pub open spec fn run_ok(p: PointVal, k: Scalar, w: nat, i: nat, c: PointVal) -> bool
    decreases remaining(i),
{
    if i >= nbits() || w == 0 {
        true
    } else {
        step_ok(p, k, w, i, c) && run_ok(p, k, w, i + w, step_point(p, k, w, i, c))
    }
}

/// How many slope coefficients the window at position `i` consumes.
pub open spec fn step_coeffs(w: nat, i: nat) -> nat {
    if i > 0 { win_depth(w, i) + 1 } else { 0 }
}

/// How many slope coefficients the windows from position `i` on consume.
pub open spec fn coeff_needed(w: nat, i: nat) -> nat
    decreases remaining(i),
{
    if i >= nbits() || w == 0 {
        0
    } else {
        step_coeffs(w, i) + coeff_needed(w, i + w)
    }
}

/// How many step points the windows from position `i` on consume.
pub open spec fn step_needed(w: nat, i: nat) -> nat
    decreases remaining(i),
{
    if i >= nbits() || w == 0 {
        0
    } else {
        (if i > 0 { win_depth(w, i) } else { 0 }) + step_needed(w, i + w)
    }
}

/// How many trace points the windows from position `i` on consume.
pub open spec fn trace_needed(w: nat, i: nat) -> nat
    decreases remaining(i),
{
    if i >= nbits() || w == 0 {
        0
    } else {
        (if i > 0 { win_depth(w, i) + 1 } else { 1 }) + trace_needed(w, i + w)
    }
}

pub open spec fn repeat(s: Seq<Op>, n: nat) -> Seq<Op>
    decreases n,
{
    if n == 0 {
        Seq::empty()
    } else {
        s + repeat(s, (n - 1) as nat)
    }
}

pub open spec fn from_alt_ops(n: nat) -> Seq<Op>
    decreases n,
{
    if n == 0 {
        Seq::empty()
    } else {
        from_alt_ops((n - 1) as nat) + seq![Op::FromAlt]
    }
}

/// The script of the window at position `i`.
#[verifier::opaque]
pub open spec fn step_ops(table: Seq<AffinePoint>, w: nat, i: nat) -> Seq<Op> {
    let d = win_depth(w, i);
    (if i > 0 { repeat(check_double_ops(), d) } else { Seq::empty() }) + from_alt_ops(d)
        + dfs_ops(0, (d - 1) as nat, 0, table) + (if i > 0 { check_add_ops() } else { Seq::empty() })
}

/// The script of the windows from position `i` on.
pub open spec fn window_ops(table: Seq<AffinePoint>, w: nat, i: nat) -> Seq<Op>
    decreases remaining(i),
{
    if i >= nbits() || w == 0 {
        Seq::empty()
    } else {
        step_ops(table, w, i) + window_ops(table, w, i + w)
    }
}

pub open spec fn doubles_hints(c: PointVal, n: nat) -> Seq<nat>
    decreases n,
{
    if n == 0 {
        Seq::empty()
    } else {
        check_double_hints(c) + doubles_hints(point_sum(c, c), (n - 1) as nat)
    }
}

/// The hints of the window at position `i`, from accumulator `c`, the next slope
/// coefficient being `coeff[ci]`.
#[verifier::opaque]
pub open spec fn step_hints(p: PointVal, k: Scalar, w: nat, i: nat, c: PointVal, coeff: Seq<(Fe, Fe)>, ci: nat) -> Seq<nat> {
    let d = win_depth(w, i);
    let t = table_val(p, window_mask(k, i, d));
    if i > 0 {
        doubles_hints(c, d) + check_add_hints(doubled(c, d), t, coeff[(ci + d) as int].0.val())
    } else {
        Seq::empty()
    }
}

/// The hints of the windows from position `i` on, from accumulator `c`, the
/// next slope coefficient being `coeff[ci]`.
pub open spec fn window_hints(
    p: PointVal,
    k: Scalar,
    w: nat,
    i: nat,
    c: PointVal,
    coeff: Seq<(Fe, Fe)>,
    ci: nat,
) -> Seq<nat>
    decreases remaining(i),
{
    if i >= nbits() || w == 0 {
        Seq::empty()
    } else {
        step_hints(p, k, w, i, c, coeff, ci) + window_hints(
            p,
            k,
            w,
            i + w,
            step_point(p, k, w, i, c),
            coeff,
            ci + step_coeffs(w, i),
        )
    }
}


/// Emits `n` checked doublings of `c` and returns the doubled point.
fn double_steps(c: AffinePoint, n: u32, ops: &mut Vec<Op>, hints: &mut Vec<Fe>) -> (r: AffinePoint)
    requires
        c.wf(),
        c@.on_curve(),
        doubles_ok(c@, n as nat),
        all_wf(old(hints)@),
    ensures
        r.wf(),
        r@.on_curve(),
        r@ == doubled(c@, n as nat),
        final(ops)@ == old(ops)@ + repeat(check_double_ops(), n as nat),
        vals(final(hints)@) == vals(old(hints)@) + doubles_hints(c@, n as nat),
        all_wf(final(hints)@),
{
    let ghost ops0 = ops@;
    let ghost hints0 = vals(hints@);
    let mut c = c;
    let ghost c0 = c@;
    let mut k: u32 = 0;
    proof {
        assert(ops@ + repeat(check_double_ops(), n as nat) =~= ops0 + repeat(check_double_ops(), n as nat));
        assert(vals(hints@) + doubles_hints(c@, n as nat) =~= hints0 + doubles_hints(c0, n as nat));
    }
    while k < n
        invariant
            k <= n,
            c.wf(),
            c@.on_curve(),
            doubled(c@, (n - k) as nat) == doubled(c0, n as nat),
            doubles_ok(c@, (n - k) as nat),
            ops@ + repeat(check_double_ops(), (n - k) as nat) == ops0 + repeat(check_double_ops(), n as nat),
            vals(hints@) + doubles_hints(c@, (n - k) as nat) == hints0 + doubles_hints(c0, n as nat),
            all_wf(hints@),
        decreases n - k,
    {
        let (s, h) = G1Affine::hinted_check_double(c);
        let ghost (o1, h1, cc) = (ops@, vals(hints@), c@);
        let mut s = s;
        ops.append(&mut s);
        append_hints(hints, h);
        c = ec_add(c, c);
        k = k + 1;
        proof {
            assert(ops@ + repeat(check_double_ops(), (n - k) as nat) =~= o1 + repeat(check_double_ops(), (n - k + 1) as nat));
            assert(vals(hints@) + doubles_hints(c@, (n - k) as nat) =~= h1 + doubles_hints(cc, (n - k + 1) as nat));
        }
    }
    proof {
        assert(ops@ =~= ops0 + repeat(check_double_ops(), n as nat));
        assert(vals(hints@) =~= hints0 + doubles_hints(c0, n as nat));
    }
    c
}

/// Emits `n` moves of a bit from the alternate stack.
fn push_from_alt(n: u32, ops: &mut Vec<Op>)
    ensures
        final(ops)@ == old(ops)@ + from_alt_ops(n as nat),
{
    let ghost ops1 = ops@;
    let mut j: u32 = 0;
    proof {
        assert(ops@ =~= ops1 + from_alt_ops(0));
    }
    while j < n
        invariant
            j <= n,
            ops@ == ops1 + from_alt_ops(j as nat),
        decreases n - j,
    {
        ops.push(Op::FromAlt);
        j = j + 1;
        proof {
            assert(ops@ =~= ops1 + from_alt_ops(j as nat));
        }
    }
}

/// The window's bits as a number, the first bit read the most significant.
fn select_mask(scalar: Scalar, i: u32, depth: u32, w: u32) -> (mask: u32)
    requires
        1 <= depth <= w <= 15,
        i + depth <= SCALAR_BITS,
    ensures
        mask as nat == window_mask(scalar, i as nat, depth as nat),
        mask < pow2(depth as nat),
{
    let mut mask: u32 = 0;
    let mut j: u32 = 0;
    proof {
        lemma2_to64();
    }
    while j < depth
        invariant
            j <= depth,
            depth <= w <= 15,
            i + depth <= SCALAR_BITS,
            mask as nat == window_mask(scalar, i as nat, j as nat),
            mask < pow2(j as nat),
        decreases depth - j,
    {
        proof {
            lemma_pow2_unfold((j + 1) as nat);
            lemma_pow2_strictly_increases(j as nat, 15);
            lemma2_to64();
        }
        let b = scalar.get_bit(SCALAR_BITS - i - j - 1);
        mask = mask * 2 + b;
        j = j + 1;
    }
    mask
}


proof fn lemma_step_facts(p: PointVal, k: Scalar, w: nat, i: nat, c: PointVal, table: Seq<AffinePoint>, coeff: Seq<(Fe, Fe)>, ci: nat)
    ensures
        step_ok(p, k, w, i, c) ==> (i > 0 ==> doubles_ok(c, win_depth(w, i))),
        step_ok(p, k, w, i, c) && i > 0 ==> ({
            let c1 = doubled(c, win_depth(w, i));
            let t = table_val(p, window_mask(k, i, win_depth(w, i)));
            c1.finite() && t.finite() ==> coord_x(c1) != coord_x(t)
        }),
        step_point(p, k, w, i, c) == point_sum(
            if i > 0 { doubled(c, win_depth(w, i)) } else { c },
            table_val(p, window_mask(k, i, win_depth(w, i))),
        ),
        step_ops(table, w, i) == (if i > 0 { repeat(check_double_ops(), win_depth(w, i)) } else { Seq::empty() })
            + from_alt_ops(win_depth(w, i)) + dfs_ops(0, (win_depth(w, i) - 1) as nat, 0, table) + (if i > 0 {
            check_add_ops()
        } else {
            Seq::empty()
        }),
        step_hints(p, k, w, i, c, coeff, ci) == (if i > 0 {
            doubles_hints(c, win_depth(w, i)) + check_add_hints(
                doubled(c, win_depth(w, i)),
                table_val(p, window_mask(k, i, win_depth(w, i))),
                coeff[(ci + win_depth(w, i)) as int].0.val(),
            )
        } else {
            Seq::empty()
        }),
{
    reveal(step_ok);
    reveal(step_point);
    reveal(step_ops);
    reveal(step_hints);
}

/// Emits the checks of the window at position `i` and returns the new
/// accumulator and coefficient index.
fn window_step(
    p_mul: &Vec<AffinePoint>,
    bv: Ghost<PointVal>,
    scalar: Scalar,
    w: u32,
    i: u32,
    c: AffinePoint,
    coeff: &Vec<(Fe, Fe)>,
    ci: usize,
    ops: &mut Vec<Op>,
    hints: &mut Vec<Fe>,
) -> (r: (AffinePoint, usize))
    requires
        2 <= w <= 15,
        i < SCALAR_BITS,
        p_mul@.len() == pow2(w as nat),
        forall|j: int| 0 <= j < p_mul@.len() ==> (#[trigger] p_mul@[j])@ == table_val(bv@, j as nat)
            && p_mul@[j].wf() && p_mul@[j]@.on_curve(),
        forall|j: int| 0 <= j < coeff@.len() ==> (#[trigger] coeff@[j]).0.wf(),
        c.wf(),
        c@.on_curve(),
        step_ok(bv@, scalar, w as nat, i as nat, c@),
        ci + step_coeffs(w as nat, i as nat) <= coeff@.len(),
        all_wf(old(hints)@),
    ensures
        r.0.wf(),
        r.0@.on_curve(),
        r.0@ == step_point(bv@, scalar, w as nat, i as nat, c@),
        r.1 == ci + step_coeffs(w as nat, i as nat),
        final(ops)@ == old(ops)@ + step_ops(p_mul@, w as nat, i as nat),
        vals(final(hints)@) == vals(old(hints)@) + step_hints(bv@, scalar, w as nat, i as nat, c@, coeff@, ci as nat),
        all_wf(final(hints)@),
{
    let ghost wn = w as nat;
    let ghost ops0 = ops@;
    let ghost hints0 = vals(hints@);
    let ghost c0 = c@;
    let ghost ci0 = ci as nat;
    proof {
        lemma_step_facts(bv@, scalar, wn, i as nat, c0, p_mul@, coeff@, ci0);
    }
    let depth: u32 = if SCALAR_BITS - i < w { SCALAR_BITS - i } else { w };
    assert(depth as nat == win_depth(wn, i as nat));
    let ghost d = depth as nat;
    let mut c = c;
    let mut ci = ci;
    let clen = coeff.len();
    assert(i > 0 ==> ci + depth + 1 <= clen);
    if i > 0 {
        c = double_steps(c, depth, ops, hints);
        ci = ci + depth as usize;
    }
    let ghost ops1 = ops@;
    let ghost hints1 = vals(hints@);
    push_from_alt(depth, ops);
    let mask = select_mask(scalar, i, depth, w);
    proof {
        if depth < w {
            lemma_pow2_strictly_increases(depth as nat, wn);
        }
        lemma2_to64();
    }
    let mut tree = G1Affine::dfs_with_constant_mul(0, depth - 1, 0, p_mul);
    let t = p_mul[mask as usize];
    let ghost ops2 = ops@;
    ops.append(&mut tree);
    if i > 0 {
        let add_coeff = coeff[ci];
        ci = ci + 1;
        let (add_script, add_hints) = G1Affine::hinted_check_add(c, t, add_coeff.0);
        let mut add_script = add_script;
        ops.append(&mut add_script);
        append_hints(hints, add_hints);
    }
    proof {
        let a = if i > 0 { repeat(check_double_ops(), d) } else { Seq::<Op>::empty() };
        let b = if i > 0 { check_add_ops() } else { Seq::<Op>::empty() };
        assert(ops1 == ops0 + a);
        assert(ops2 == ops1 + from_alt_ops(d));
        assert(ops@ =~= ops2 + dfs_ops(0, (d - 1) as nat, 0, p_mul@) + b);
        assert(ops@ =~= ops0 + step_ops(p_mul@, wn, i as nat));
        assert(vals(hints@) =~= hints0 + step_hints(bv@, scalar, wn, i as nat, c0, coeff@, ci0));
    }
    let c2 = ec_add(c, t);
    (c2, ci)
}

impl G1Affine {
    /// Emits the decision tree that pushes the table entry the stacked bits select.
    pub fn dfs_with_constant_mul(index: u32, depth: u32, mask: u32, p_mul: &Vec<AffinePoint>) -> (r: Vec<Op>)
        requires
            index + depth < 15,
            mask < pow2(index as nat),
            pow2((index + depth + 1) as nat) <= p_mul@.len(),
        ensures
            r@ == dfs_ops(index as nat, depth as nat, mask as nat, p_mul@),
        decreases depth,
    {
        proof {
            lemma2_to64();
            lemma_pow2_unfold((index + 1) as nat);
            if depth > 0 {
                lemma_pow2_strictly_increases((index + 1) as nat, (index + depth + 1) as nat);
            }
            vstd::arithmetic::power2::lemma_pow2_strictly_increases(index as nat, 15);
            vstd::bits::lemma_u32_shl_is_mul(1, index);
        }
        let hi = mask + (1u32 << index);
        let mut ops = vec![Op::If];
        if depth == 0 {
            let mut a = Self::push(p_mul[hi as usize]);
            ops.append(&mut a);
            ops.push(Op::Else);
            let mut b = if mask == 0 {
                Self::push_zero()
            } else {
                Self::push(p_mul[mask as usize])
            };
            ops.append(&mut b);
        } else {
            let mut a = Self::dfs_with_constant_mul(index + 1, depth - 1, hi, p_mul);
            ops.append(&mut a);
            ops.push(Op::Else);
            let mut b = Self::dfs_with_constant_mul(index + 1, depth - 1, mask, p_mul);
            ops.append(&mut b);
        }
        ops.push(Op::EndIf);
        proof {
            assert(ops@ =~= dfs_ops(index as nat, depth as nat, mask as nat, p_mul@));
        }
        ops
    }

    /// Compiles the check of `scalar * P` for the fixed base point `P`, with
    /// windows of 12 bits; sets `p` to the product.
    pub fn hinted_scalar_mul_by_constant_g1(
        scalar: Scalar,
        p: &mut AffinePoint,
        coeff: Vec<(Fe, Fe)>,
        step_p: Vec<AffinePoint>,
        trace: Vec<AffinePoint>,
    ) -> (r: (Vec<Op>, Vec<Fe>))
        requires
            old(p).wf(),
            old(p)@.on_curve(),
            forall|j: int| 0 <= j < coeff@.len() ==> (#[trigger] coeff@[j]).0.wf(),
            run_ok(old(p)@, scalar, 12, 0, PointVal::Inf),
            coeff@.len() == coeff_needed(12, 0),
            step_p@.len() == step_needed(12, 0),
            trace@.len() == trace_needed(12, 0),
        ensures
            final(p).wf(),
            final(p)@ == run(old(p)@, scalar, 12, 0, PointVal::Inf),
            exists|t: Seq<AffinePoint>|
                #![trigger t.len()]
                t.len() == pow2(12) && (forall|j: int| 0 <= j < t.len() ==> (#[trigger] t[j])@ == table_val(old(p)@, j as nat) && t[j].wf())
                    && r.0@ == seq![Op::ScalarBitsToAlt] + window_ops(t, 12, 0),
            vals(r.1@) == window_hints(old(p)@, scalar, 12, 0, PointVal::Inf, coeff@, 0),
            all_wf(r.1@),
    {
        Self::hinted_scalar_mul_by_constant_g1_windowed(scalar, p, coeff, step_p, trace, 12)
    }

    /// Compiles the check of `scalar * P` for the fixed base point `P`, with
    /// windows of `window` bits; sets `p` to the product.
    pub fn hinted_scalar_mul_by_constant_g1_windowed(
        scalar: Scalar,
        p: &mut AffinePoint,
        coeff: Vec<(Fe, Fe)>,
        step_p: Vec<AffinePoint>,
        trace: Vec<AffinePoint>,
        window: u32,
    ) -> (r: (Vec<Op>, Vec<Fe>))
        requires
            2 <= window <= 15,
            old(p).wf(),
            old(p)@.on_curve(),
            forall|j: int| 0 <= j < coeff@.len() ==> (#[trigger] coeff@[j]).0.wf(),
            run_ok(old(p)@, scalar, window as nat, 0, PointVal::Inf),
            coeff@.len() == coeff_needed(window as nat, 0),
            step_p@.len() == step_needed(window as nat, 0),
            trace@.len() == trace_needed(window as nat, 0),
        ensures
            final(p).wf(),
            final(p)@ == run(old(p)@, scalar, window as nat, 0, PointVal::Inf),
            exists|t: Seq<AffinePoint>|
                #![trigger t.len()]
                t.len() == pow2(window as nat) && (forall|j: int| 0 <= j < t.len() ==> (#[trigger] t[j])@ == table_val(old(p)@, j as nat) && t[j].wf())
                    && r.0@ == seq![Op::ScalarBitsToAlt] + window_ops(t, window as nat, 0),
            vals(r.1@) == window_hints(old(p)@, scalar, window as nat, 0, PointVal::Inf, coeff@, 0),
            all_wf(r.1@),
    {
        let w = window;
        let ghost wn = w as nat;
        let base = *p;
        let ghost bv = base@;
        proof {
            lemma2_to64();
            vstd::bits::lemma_u32_shl_is_mul(1, w);
            if w < 15 {
                lemma_pow2_strictly_increases(w as nat, 15);
            }
        }
        let n: u32 = 1u32 << w;
        // the multiples 0 P, 1 P, ..., (2^w - 1) P
        let mut p_mul: Vec<AffinePoint> = vec![AffinePoint::Infinity];
        while p_mul.len() < n as usize
            invariant
                1 <= p_mul@.len() <= n,
                n == pow2(wn),
                base.wf(),
                base@ == bv,
                bv.on_curve(),
                forall|j: int| 0 <= j < p_mul@.len() ==> (#[trigger] p_mul@[j])@ == table_val(bv, j as nat)
                    && p_mul@[j].wf() && p_mul@[j]@.on_curve(),
            decreases n - p_mul@.len(),
        {
            let last = p_mul[p_mul.len() - 1];
            let next = ec_add(last, base);
            p_mul.push(next);
        }
        let ghost table = p_mul@;
        let ghost full_ops = seq![Op::ScalarBitsToAlt] + window_ops(table, wn, 0);
        let ghost full_hints = window_hints(bv, scalar, wn, 0, PointVal::Inf, coeff@, 0);
        let mut c = AffinePoint::Infinity;
        let mut ops = vec![Op::ScalarBitsToAlt];
        let mut hints: Vec<Fe> = Vec::new();
        let mut ci: usize = 0;
        let mut i: u32 = 0;
        proof {
            assert(ops@ + window_ops(table, wn, 0) =~= full_ops);
            assert(vals(hints@) + full_hints =~= full_hints);
        }
        while i < SCALAR_BITS
            invariant
                2 <= w <= 15,
                wn == w as nat,
                i < SCALAR_BITS + w,
                p_mul@ == table,
                table.len() == pow2(wn),
                forall|j: int| 0 <= j < table.len() ==> (#[trigger] table[j])@ == table_val(bv, j as nat)
                    && table[j].wf() && table[j]@.on_curve(),
                forall|j: int| 0 <= j < coeff@.len() ==> (#[trigger] coeff@[j]).0.wf(),
                c.wf(),
                c@.on_curve(),
                run(bv, scalar, wn, 0, PointVal::Inf) == run(bv, scalar, wn, i as nat, c@),
                run_ok(bv, scalar, wn, i as nat, c@),
                ops@ + window_ops(table, wn, i as nat) == full_ops,
                vals(hints@) + window_hints(bv, scalar, wn, i as nat, c@, coeff@, ci as nat) == full_hints,
                all_wf(hints@),
                ci + coeff_needed(wn, i as nat) == coeff@.len(),
            decreases remaining(i as nat),
        {
            let ghost c0 = c@;
            let ghost ci0 = ci as nat;
            let ghost ops0 = ops@;
            let ghost hints0 = vals(hints@);
            let r = window_step(&p_mul, Ghost(bv), scalar, w, i, c, &coeff, ci, &mut ops, &mut hints);
            c = r.0;
            ci = r.1;
            proof {
                assert(ops@ + window_ops(table, wn, (i + w) as nat) =~= ops0 + window_ops(table, wn, i as nat));
                assert(vals(hints@) + window_hints(bv, scalar, wn, (i + w) as nat, c@, coeff@, ci as nat)
                    =~= hints0 + window_hints(bv, scalar, wn, i as nat, c0, coeff@, ci0));
            }
            i = i + w;
        }
        *p = c;
        proof {
            assert(ops@ =~= full_ops);
            assert(vals(hints@) =~= full_hints);
        }
        (ops, hints)
    }
}

} // verus!
