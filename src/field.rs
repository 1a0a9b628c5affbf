use vstd::prelude::*;
use ark_ff::PrimeField;
use vstd::arithmetic::power2::pow2;

verus! {

/// The base field modulus of BN254.
pub open spec fn modulus() -> nat {
    21888242871839275222246405745257275088696311157297823662689037894645226208583nat
}

/// The limb radix.
pub open spec fn radix() -> nat {
    18446744073709551616nat
}

pub open spec fn fadd(a: nat, b: nat) -> nat {
    (a + b) % modulus()
}

pub open spec fn fsub(a: nat, b: nat) -> nat {
    ((a - b) % (modulus() as int)) as nat
}

pub open spec fn fmul(a: nat, b: nat) -> nat {
    (a * b) % modulus()
}

pub open spec fn fneg(a: nat) -> nat {
    fsub(0, a)
}

/// The multiplicative inverse of `a`, where one exists.
pub open spec fn finv(a: nat) -> nat {
    choose|b: nat| b < modulus() && fmul(a, b) == 1
}

/// A field element held as four little-endian 64-bit limbs.
#[derive(Clone, Copy, Debug, PartialEq, Eq)]
pub struct Fe {
    pub limbs: [u64; 4],
}

impl Fe {
    pub open spec fn val(self) -> nat {
        self.limbs@[0] as nat + radix() * (self.limbs@[1] as nat + radix() * (
        self.limbs@[2] as nat + radix() * (self.limbs@[3] as nat)))
    }

    /// The limbs encode a reduced residue.
    pub open spec fn wf(self) -> bool {
        self.val() < modulus()
    }

    pub fn zero() -> (r: Fe)
        ensures
            r.wf(),
            r.val() == 0,
    {
        Fe { limbs: [0, 0, 0, 0] }
    }

    pub fn one() -> (r: Fe)
        ensures
            r.wf(),
            r.val() == 1,
    {
        Fe { limbs: [1, 0, 0, 0] }
    }

    pub fn is_zero(&self) -> (r: bool)
        ensures
            r == (self.val() == 0),
    {
        proof {
            lemma_val_zero(*self);
        }
        self.limbs[0] == 0 && self.limbs[1] == 0 && self.limbs[2] == 0 && self.limbs[3] == 0
    }

    /// Bit `i` of the value.
    pub fn bit(&self, i: u32) -> (r: bool)
        requires
            i < 256,
        ensures
            r == ((self.val() / pow2(i as nat)) % 2 == 1),
    {
        let limb = self.limbs[(i / 64) as usize];
        let s = (i % 64) as u64;
        proof {
            vstd::bits::lemma_u64_shr_is_div(limb, s);
            lemma_bit(*self, i as nat);
        }
        let v = limb >> s;
        assert((v & 1) == v % 2) by (bit_vector);
        (v & 1) == 1
    }

    pub fn eq_val(&self, o: &Fe) -> (r: bool)
        ensures
            r == (self.val() == o.val()),
    {
        proof {
            lemma_val_injective(*self, *o);
        }
        self.limbs[0] == o.limbs[0] && self.limbs[1] == o.limbs[1] && self.limbs[2] == o.limbs[2]
            && self.limbs[3] == o.limbs[3]
    }
}

proof fn lemma_val_zero(a: Fe)
    ensures
        (a.val() == 0) == (a.limbs@[0] == 0 && a.limbs@[1] == 0 && a.limbs@[2] == 0
            && a.limbs@[3] == 0),
{
    let r = radix();
    let t3 = a.limbs@[3] as nat;
    let t2 = a.limbs@[2] as nat + r * t3;
    let t1 = a.limbs@[1] as nat + r * t2;
    assert(r * t3 >= 0 && r * t2 >= 0 && r * t1 >= 0) by (nonlinear_arith)
        requires r > 0, t3 >= 0, t2 >= 0, t1 >= 0;
    assert(t3 > 0 ==> r * t3 > 0) by (nonlinear_arith) requires r > 0, t3 >= 0;
    assert(t2 > 0 ==> r * t2 > 0) by (nonlinear_arith) requires r > 0, t2 >= 0;
    assert(t1 > 0 ==> r * t1 > 0) by (nonlinear_arith) requires r > 0, t1 >= 0;
}

proof fn lemma_split(lo: u64, hi: nat)
    ensures
        (lo as nat + radix() * hi) % radix() == lo as nat,
        (lo as nat + radix() * hi) / radix() == hi,
{
    vstd::arithmetic::div_mod::lemma_fundamental_div_mod_converse(
        (lo as nat + radix() * hi) as int, radix() as int, hi as int, lo as int);
}

proof fn lemma_val_injective(a: Fe, b: Fe)
    ensures
        (a.val() == b.val()) == (a.limbs@[0] == b.limbs@[0] && a.limbs@[1] == b.limbs@[1]
            && a.limbs@[2] == b.limbs@[2] && a.limbs@[3] == b.limbs@[3]),
{
    let r = radix();
    let a2 = a.limbs@[2] as nat + r * (a.limbs@[3] as nat);
    let a1 = a.limbs@[1] as nat + r * a2;
    let b2 = b.limbs@[2] as nat + r * (b.limbs@[3] as nat);
    let b1 = b.limbs@[1] as nat + r * b2;
    lemma_split(a.limbs@[0], a1);
    lemma_split(b.limbs@[0], b1);
    lemma_split(a.limbs@[1], a2);
    lemma_split(b.limbs@[1], b2);
    lemma_split(a.limbs@[2], a.limbs@[3] as nat);
    lemma_split(b.limbs@[2], b.limbs@[3] as nat);
}


/// The part of the value from limb `j` upwards.
pub open spec fn upper(a: Fe, j: nat) -> nat {
    if j == 0 {
        a.val()
    } else if j == 1 {
        a.limbs@[1] as nat + radix() * (a.limbs@[2] as nat + radix() * (a.limbs@[3] as nat))
    } else if j == 2 {
        a.limbs@[2] as nat + radix() * (a.limbs@[3] as nat)
    } else {
        a.limbs@[3] as nat
    }
}

proof fn lemma_upper(a: Fe, j: nat)
    requires
        j < 4,
    ensures
        a.val() / pow2(64 * j) == upper(a, j),
        j < 3 ==> upper(a, j) == a.limbs@[j as int] as nat + radix() * upper(a, j + 1),
        j == 3 ==> upper(a, j) == a.limbs@[3] as nat + radix() * 0,
    decreases j,
{
    vstd::arithmetic::power2::lemma2_to64();
    vstd::arithmetic::power2::lemma2_to64_rest();
    assert(pow2(64) == radix());
    if j == 0 {
        assert(pow2(0) == 1);
        vstd::arithmetic::div_mod::lemma_fundamental_div_mod_converse(a.val() as int, 1, a.val() as int, 0);
    } else {
        let k = (j - 1) as nat;
        lemma_upper(a, k);
        assert(upper(a, k) == a.limbs@[k as int] as nat + radix() * upper(a, j));
        lemma_split(a.limbs@[k as int], upper(a, j));
        assert(upper(a, k) / radix() == upper(a, j));
        vstd::arithmetic::power2::lemma_pow2_adds(64 * k, 64);
        assert(64 * k + 64 == 64 * j);
        vstd::arithmetic::power2::lemma_pow2_pos(64 * k);
        vstd::arithmetic::div_mod::lemma_div_denominator(a.val() as int, pow2(64 * k) as int, pow2(64) as int);
        assert(a.val() / pow2(64 * k) == upper(a, k));
        assert(pow2(64 * j) == pow2(64 * k) * pow2(64));
        assert((a.val() as int / pow2(64 * k) as int) / pow2(64) as int == a.val() as int / (pow2(64 * k) * pow2(64)) as int);
        assert(upper(a, k) / pow2(64) == upper(a, j));
    }
}

/// Bit `i` of the value is bit `i mod 64` of limb `i / 64`.
proof fn lemma_bit(a: Fe, i: nat)
    requires
        i < 256,
    ensures
        (a.val() / pow2(i)) % 2 == (a.limbs@[(i / 64) as int] as nat / pow2(i % 64)) % 2,
{
    let j = i / 64;
    let s = i % 64;
    let l = a.limbs@[j as int] as nat;
    let h = if j < 3 { upper(a, j + 1) } else { 0 };
    lemma_upper(a, j);
    vstd::arithmetic::power2::lemma_pow2_adds(64 * j, s);
    vstd::arithmetic::power2::lemma_pow2_pos(64 * j);
    vstd::arithmetic::power2::lemma_pow2_pos(s);
    vstd::arithmetic::power2::lemma_pow2_adds(s, (64 - s) as nat);
    vstd::arithmetic::power2::lemma2_to64();
    vstd::arithmetic::power2::lemma2_to64_rest();
    assert(pow2(64) == radix());
    vstd::arithmetic::div_mod::lemma_div_denominator(a.val() as int, pow2(64 * j) as int, pow2(s) as int);
    let ps = pow2(s);
    let pr = pow2((64 - s) as nat);
    assert(upper(a, j) == l + radix() * h);
    assert(radix() == ps * pr);
    let q = l / ps;
    let r = l % ps;
    vstd::arithmetic::div_mod::lemma_fundamental_div_mod(l as int, ps as int);
    assert(upper(a, j) == (q + pr * h) * ps + r) by (nonlinear_arith)
        requires upper(a, j) == l + radix() * h, radix() == ps * pr, l == ps * q + r;
    vstd::arithmetic::div_mod::lemma_mod_pos_bound(l as int, ps as int);
    vstd::arithmetic::div_mod::lemma_fundamental_div_mod_converse(upper(a, j) as int, ps as int, (q + pr * h) as int, r as int);
    vstd::arithmetic::power2::lemma_pow2_unfold((64 - s) as nat);
    let pr1 = pow2((63 - s) as nat);
    assert(q + pr * h == 2 * (pr1 * h) + q) by (nonlinear_arith)
        requires pr == 2 * pr1;
    vstd::arithmetic::div_mod::lemma_mod_multiples_vanish((pr1 * h) as int, q as int, 2);
}

/// Each multiplicative inverse of `a` is the one that `finv` names.
pub proof fn lemma_inverse_unique(a: nat, b: nat)
    requires
        b < modulus(),
        fmul(a, b) == 1,
    ensures
        finv(a) == b,
        fmul(a, finv(a)) == 1,
{
    let m = modulus() as int;
    assert(b < modulus() && fmul(a, b) == 1);
    let c = finv(a);
    assert(c < modulus() && fmul(a, c) == 1);
    let (ai, bi, ci) = (a as int, b as int, c as int);
    // b == b * (a * c) == (b * a) * c == c, all modulo m
    vstd::arithmetic::div_mod::lemma_mul_mod_noop_right(bi, ai * ci, m);
    vstd::arithmetic::div_mod::lemma_mul_mod_noop_left(bi * ai, ci, m);
    vstd::arithmetic::mul::lemma_mul_is_associative(bi, ai, ci);
    vstd::arithmetic::mul::lemma_mul_is_commutative(bi, ai);
    vstd::arithmetic::div_mod::lemma_small_mod(b, modulus());
    vstd::arithmetic::div_mod::lemma_small_mod(c, modulus());
    assert((bi * (ai * ci)) % m == bi % m);
    assert(((bi * ai) * ci) % m == ci % m);
}

/// Relies on `Add` of ark_bn254::Fq: addition modulo the base field prime.
#[verifier::external_body]
pub(crate) fn fe_add(a: Fe, b: Fe) -> (r: Fe)
    requires
        a.wf(),
        b.wf(),
    ensures
        r.wf(),
        r.val() == fadd(a.val(), b.val()),
{
    let s = ark_bn254::Fq::new(ark_ff::BigInt(a.limbs)) + ark_bn254::Fq::new(ark_ff::BigInt(b.limbs));
    Fe { limbs: s.into_bigint().0 }
}

/// Relies on `Sub` of ark_bn254::Fq: subtraction modulo the base field prime.
#[verifier::external_body]
pub(crate) fn fe_sub(a: Fe, b: Fe) -> (r: Fe)
    requires
        a.wf(),
        b.wf(),
    ensures
        r.wf(),
        r.val() == fsub(a.val(), b.val()),
{
    let s = ark_bn254::Fq::new(ark_ff::BigInt(a.limbs)) - ark_bn254::Fq::new(ark_ff::BigInt(b.limbs));
    Fe { limbs: s.into_bigint().0 }
}

/// Relies on `Mul` of ark_bn254::Fq: multiplication modulo the base field prime.
#[verifier::external_body]
pub(crate) fn fe_mul(a: Fe, b: Fe) -> (r: Fe)
    requires
        a.wf(),
        b.wf(),
    ensures
        r.wf(),
        r.val() == fmul(a.val(), b.val()),
{
    let s = ark_bn254::Fq::new(ark_ff::BigInt(a.limbs)) * ark_bn254::Fq::new(ark_ff::BigInt(b.limbs));
    Fe { limbs: s.into_bigint().0 }
}

/// Relies on `Neg` of ark_bn254::Fq: the additive inverse modulo the base field prime.
#[verifier::external_body]
pub(crate) fn fe_neg(a: Fe) -> (r: Fe)
    requires
        a.wf(),
    ensures
        r.wf(),
        r.val() == fneg(a.val()),
{
    let s = -ark_bn254::Fq::new(ark_ff::BigInt(a.limbs));
    Fe { limbs: s.into_bigint().0 }
}

/// Relies on ark_ff's `Field::square` for ark_bn254::Fq: the product of an element with itself.
#[verifier::external_body]
pub(crate) fn fe_square(a: Fe) -> (r: Fe)
    requires
        a.wf(),
    ensures
        r.wf(),
        r.val() == fmul(a.val(), a.val()),
{
    let s = ark_ff::Field::square(&ark_bn254::Fq::new(ark_ff::BigInt(a.limbs)));
    Fe { limbs: s.into_bigint().0 }
}

/// Relies on ark_ff's `Field::inverse` for ark_bn254::Fq: `Some` of the multiplicative
/// inverse for every non-zero element.
#[verifier::external_body]
fn fe_inverse_raw(a: Fe) -> (r: Fe)
    requires
        a.wf(),
        a.val() != 0,
    ensures
        r.wf(),
        fmul(a.val(), r.val()) == 1,
{
    let s = ark_ff::Field::inverse(&ark_bn254::Fq::new(ark_ff::BigInt(a.limbs))).unwrap();
    Fe { limbs: s.into_bigint().0 }
}

/// The multiplicative inverse of a non-zero element.
pub fn fe_inverse(a: Fe) -> (r: Fe)
    requires
        a.wf(),
        a.val() != 0,
    ensures
        r.wf(),
        r.val() == finv(a.val()),
        fmul(a.val(), r.val()) == 1,
{
    let r = fe_inverse_raw(a);
    proof {
        lemma_inverse_unique(a.val(), r.val());
    }
    r
}

} // verus!
