use vstd::prelude::*;
use vstd::arithmetic::div_mod::{
    lemma_add_mod_noop, lemma_sub_mod_noop, lemma_mul_mod_noop_left, lemma_mul_mod_noop_right,
    lemma_small_mod,
};
use vstd::arithmetic::mul::{lemma_mul_is_associative, lemma_mul_is_commutative, lemma_mul_is_distributive_sub};
use crate::field::{fadd, fsub, fmul, fneg, finv, modulus};
use crate::g1::{on_line, sum_x, neg_bias};
use crate::point::{chord_slope, tangent_slope, line_point, PointVal};

verus! {

pub open spec fn m() -> int {
    modulus() as int
}

proof fn lemma_red(v: nat)
    requires
        v < modulus(),
    ensures
        (v as int) % m() == v as int,
{
    lemma_small_mod(v, modulus());
}

/// The negated intercept is `alpha x - y`, reduced.
pub proof fn lemma_neg_bias(a: nat, x: nat, y: nat)
    requires
        y < modulus(),
    ensures
        neg_bias(a, x, y) as int == (a * x - y) % m(),
{
    let mm = m();
    lemma_red(y);
    lemma_sub_mod_noop(y as int, (a * x) as int, mm);
    let z = y - a * x;
    assert(fsub(y, fmul(a, x)) as int == z % mm);
    lemma_sub_mod_noop(0, z, mm);
    assert((0int % mm) == 0);
}

/// The line `(alpha, alpha x - y)` passes through `(x, y)`.
pub proof fn lemma_on_own_line(a: nat, x: nat, y: nat)
    requires
        y < modulus(),
    ensures
        on_line(a, neg_bias(a, x, y), x, y),
{
    let mm = m();
    lemma_neg_bias(a, x, y);
    let nb = neg_bias(a, x, y);
    lemma_red(y);
    lemma_sub_mod_noop(y as int, (x * a) as int, mm);
    let u = a * x - y;
    let v = y - x * a;
    assert(fsub(y, fmul(x, a)) as int == v % mm);
    lemma_add_mod_noop(u, v, mm);
    lemma_mul_is_commutative(a as int, x as int);
    assert(u + v == 0);
}

/// The chord slope times the abscissae's difference is the ordinates' difference.
pub proof fn lemma_chord_slope(x1: nat, y1: nat, x2: nat, y2: nat)
    requires
        fmul(fsub(x1, x2), finv(fsub(x1, x2))) == 1,
    ensures
        (chord_slope(x1, y1, x2, y2) * (x1 - x2)) % m() == (y1 - y2) % m(),
{
    let mm = m();
    let n = fsub(y1, y2) as int;
    let d = fsub(x1, x2) as int;
    let i = finv(fsub(x1, x2)) as int;
    let a = chord_slope(x1, y1, x2, y2) as int;
    assert(a == (n * i) % mm);
    assert((d * i) % mm == 1);
    // a (x1 - x2) == a d == n i d == n (d i) == n
    lemma_mul_mod_noop_right(a, (x1 - x2) as int, mm);
    assert(d == (x1 - x2) % mm);
    lemma_mul_mod_noop_left(n * i, d, mm);
    lemma_mul_is_associative(n, i, d);
    lemma_mul_is_commutative(i, d);
    lemma_mul_mod_noop_right(n, d * i, mm);
    assert(n * 1 == n);
    assert(n == (y1 - y2) % mm);
    assert(n % mm == n) by {
        lemma_red(n as nat);
    }
}

/// The line of the chord slope through the first point passes through the second.
pub proof fn lemma_chord_through_second(x1: nat, y1: nat, x2: nat, y2: nat)
    requires
        y1 < modulus(),
        y2 < modulus(),
        fmul(fsub(x1, x2), finv(fsub(x1, x2))) == 1,
    ensures
        on_line(chord_slope(x1, y1, x2, y2), neg_bias(chord_slope(x1, y1, x2, y2), x1, y1), x2, y2),
{
    let mm = m();
    let a = chord_slope(x1, y1, x2, y2);
    lemma_neg_bias(a, x1, y1);
    lemma_chord_slope(x1, y1, x2, y2);
    lemma_red(y2);
    lemma_sub_mod_noop(y2 as int, (x2 * a) as int, mm);
    let u = a * x1 - y1;
    let v = y2 - x2 * a;
    lemma_add_mod_noop(u, v, mm);
    lemma_mul_is_commutative(a as int, x2 as int);
    lemma_mul_is_distributive_sub(a as int, x1 as int, x2 as int);
    assert(u + v == a * (x1 - x2) - (y1 - y2));
    lemma_sub_mod_noop(a * (x1 - x2), y1 - y2, mm);
    assert((u + v) % mm == 0);
}

/// The sum formulas of the gadget give the chord construction of the group law.
pub proof fn lemma_sum_coords(a: nat, x1: nat, y1: nat, x2: nat)
    requires
        x1 < modulus(),
        x2 < modulus(),
        y1 < modulus(),
    ensures
        line_point(a, x1, y1, x2) == PointVal::Pt(
            sum_x(x1, x2, a),
            fsub(neg_bias(a, x1, y1), fmul(a, sum_x(x1, x2, a))),
        ),
{
    let mm = m();
    lemma_red(x1);
    lemma_red(x2);
    lemma_red(y1);
    // abscissa
    let sq = fmul(a, a);
    lemma_add_mod_noop(x1 as int, x2 as int, mm);
    lemma_sub_mod_noop(sq as int, (x1 + x2) as int, mm);
    let xs = sum_x(x1, x2, a);
    assert(xs as int == (sq - (x1 + x2)) % mm);
    let x3 = fsub(fsub(sq, x1), x2);
    lemma_sub_mod_noop(sq as int, x1 as int, mm);
    lemma_sub_mod_noop(sq - x1, x2 as int, mm);
    assert(fsub(sq, x1) as int == (sq - x1) % mm);
    assert(x3 as int == ((sq - x1) - x2) % mm);
    assert(x3 == xs);
    // ordinate
    lemma_neg_bias(a, x1, y1);
    let nb = neg_bias(a, x1, y1);
    lemma_sub_mod_noop(a * x1 - y1, (a * xs) as int, mm);
    let y_gadget = fsub(nb, fmul(a, xs));
    assert(y_gadget as int == (a * x1 - y1 - a * xs) % mm);
    let dx = fsub(x1, x3);
    lemma_mul_mod_noop_right(a as int, x1 - x3, mm);
    assert(fmul(a, dx) as int == (a * (x1 - x3)) % mm);
    lemma_sub_mod_noop(a * (x1 - x3), y1 as int, mm);
    lemma_mul_is_distributive_sub(a as int, x1 as int, x3 as int);
    assert(fsub(fmul(a, dx), y1) as int == (a * x1 - a * x3 - y1) % mm);
}

/// The tangent slope times `2y` is `3x^2`, as the tangent check computes both.
pub proof fn lemma_tangent_slope(x: nat, y: nat)
    requires
        fmul(fadd(y, y), finv(fadd(y, y))) == 1,
    ensures
        fmul(fadd(y, y), tangent_slope(x, y)) == fadd(fmul(x, x), fadd(fmul(x, x), fmul(x, x))),
{
    let mm = m();
    let x2 = fmul(x, x);
    let n = fadd(fadd(x2, x2), x2) as int;
    let d = fadd(y, y) as int;
    let i = finv(fadd(y, y)) as int;
    let a = tangent_slope(x, y) as int;
    assert(a == (n * i) % mm);
    assert((d * i) % mm == 1);
    // d (n i) == n (d i) == n
    lemma_mul_mod_noop_right(d, n * i, mm);
    lemma_mul_is_associative(d, n, i);
    lemma_mul_is_commutative(d, n);
    lemma_mul_is_associative(n, d, i);
    lemma_mul_mod_noop_right(n, d * i, mm);
    assert(n * 1 == n);
    assert(n % mm == n) by {
        lemma_red(n as nat);
    }
    assert(fmul(fadd(y, y), tangent_slope(x, y)) as int == n);
    // both sums of three squares agree
    let xi = x2 as int;
    lemma_red(x2);
    lemma_add_mod_noop(xi + xi, xi, mm);
    lemma_add_mod_noop(xi, xi + xi, mm);
    lemma_red(fadd(x2, x2));
    assert(fadd(x2, x2) as int == (xi + xi) % mm);
    assert(n == (xi + xi + xi) % mm);
    assert(fadd(x2, fadd(x2, x2)) as int == (xi + (xi + xi)) % mm);
}

/// A slope for which `(alpha, c4)` passes through two points of distinct
/// abscissae is the chord slope.
pub proof fn lemma_slope_unique(a: nat, c4: nat, x1: nat, y1: nat, x2: nat, y2: nat)
    requires
        a < modulus(),
        c4 < modulus(),
        y1 < modulus(),
        y2 < modulus(),
        fmul(fsub(x1, x2), finv(fsub(x1, x2))) == 1,
        on_line(a, c4, x1, y1),
        on_line(a, c4, x2, y2),
    ensures
        a == chord_slope(x1, y1, x2, y2),
{
    let mm = m();
    lemma_red(y1);
    lemma_red(y2);
    lemma_red(c4);
    lemma_red(a);
    // c4 + y - x a == 0 for both points, so a (x1 - x2) == y1 - y2
    lemma_sub_mod_noop(y1 as int, (x1 * a) as int, mm);
    lemma_sub_mod_noop(y2 as int, (x2 * a) as int, mm);
    lemma_add_mod_noop(c4 as int, y1 - x1 * a, mm);
    lemma_add_mod_noop(c4 as int, y2 - x2 * a, mm);
    let e1 = c4 + y1 - x1 * a;
    let e2 = c4 + y2 - x2 * a;
    assert(e1 % mm == 0);
    assert(e2 % mm == 0);
    lemma_sub_mod_noop(e1, e2, mm);
    assert((e1 - e2) % mm == 0);
    lemma_mul_is_commutative(x1 as int, a as int);
    lemma_mul_is_commutative(x2 as int, a as int);
    lemma_mul_is_distributive_sub(a as int, x1 as int, x2 as int);
    assert(e1 - e2 == (y1 - y2) - a * (x1 - x2));
    lemma_sub_mod_noop(y1 - y2, a * (x1 - x2), mm);
    let n = fsub(y1, y2) as int;
    let d = fsub(x1, x2) as int;
    let i = finv(fsub(x1, x2)) as int;
    lemma_mul_mod_noop_right(a as int, (x1 - x2) as int, mm);
    // n == a d, so the chord slope n i == a d i == a
    assert(n == (a * d) % mm) by {
        lemma_red(n as nat);
        lemma_red((a * d % mm) as nat);
        assert((y1 - y2) % mm == (a * (x1 - x2)) % mm) by {
            lemma_sub_mod_noop(y1 - y2, a * (x1 - x2), mm);
            lemma_fundamental_div_mod_sub_zero(y1 - y2, a * (x1 - x2), mm);
        }
    }
    lemma_mul_mod_noop_left(a * d, i, mm);
    lemma_mul_is_associative(a as int, d, i);
    lemma_mul_mod_noop_right(a as int, d * i, mm);
    assert((d * i) % mm == 1);
    assert(a * 1 == a);
}

/// Two integers whose difference is a multiple of `m` have the same residue.
proof fn lemma_fundamental_div_mod_sub_zero(u: int, v: int, mm: int)
    requires
        mm > 0,
        (u - v) % mm == 0,
    ensures
        u % mm == v % mm,
{
    vstd::arithmetic::div_mod::lemma_fundamental_div_mod(u - v, mm);
    let k = (u - v) / mm;
    assert(u == v + mm * k);
    vstd::arithmetic::div_mod::lemma_mod_multiples_vanish(k, v, mm);
    lemma_mul_is_commutative(mm, k);
}

} // verus!
