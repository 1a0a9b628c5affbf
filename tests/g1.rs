use ark_ec::{AffineRepr, CurveGroup};
use ark_ff::{AdditiveGroup, BigInteger, Field, PrimeField};
use ark_std::UniformRand;
use bn254_g1::eval::{hinted_from_eval_point, hinted_x_from_eval_point, hinted_y_from_eval_point};
use bn254_g1::exec::execute;
use bn254_g1::field::Fe;
use bn254_g1::g1::G1Affine;
use bn254_g1::point::AffinePoint;
use bn254_g1::scalar_mul::Scalar;
use bn254_g1::script::Op;
use rand::SeedableRng;
use rand_chacha::ChaCha20Rng;

fn fe(x: ark_bn254::Fq) -> Fe {
    Fe { limbs: x.into_bigint().0 }
}

fn pt(p: ark_bn254::G1Affine) -> AffinePoint {
    match p.xy() {
        None => AffinePoint::Infinity,
        Some((x, y)) => AffinePoint::Finite { x: fe(x), y: fe(y) },
    }
}

fn two_points(seed: u64) -> (ark_bn254::G1Affine, ark_bn254::G1Affine) {
    let mut prng = ChaCha20Rng::seed_from_u64(seed);
    let t = ark_bn254::G1Affine::rand(&mut prng);
    let q = ark_bn254::G1Affine::rand(&mut prng);
    (t, q)
}

fn run(ops: &Vec<Op>, hints: Vec<Fe>, stack: Vec<ark_bn254::Fq>) -> Option<Vec<Fe>> {
    execute(ops, hints, stack.into_iter().map(fe).collect())
}

#[test]
fn test_affine_identity() {
    assert_eq!(run(&G1Affine::identity(), vec![], vec![]), Some(vec![Fe::zero(), Fe::zero()]));
    let mut ops = G1Affine::identity();
    ops.extend(G1Affine::push(AffinePoint::Infinity));
    ops.extend(G1Affine::equalverify());
    assert_eq!(run(&ops, vec![], vec![]), Some(vec![]));
    assert_eq!(G1Affine::identity().len(), 2);
    assert!(matches!(G1Affine::identity()[0], Op::PushZero));
    assert!(matches!(G1Affine::push(AffinePoint::Infinity)[1], Op::PushZero));
    assert_eq!(G1Affine::push_zero().len(), 2);
}

#[test]
fn test_affine_equalverify() {
    let ops = G1Affine::equalverify();
    assert_eq!(ops.len(), 3);
    let (p, q) = two_points(0);
    assert_eq!(run(&ops, vec![], vec![p.x, p.y, p.x, p.y]), Some(vec![]));
    assert_eq!(run(&ops, vec![], vec![p.x, p.y, q.x, q.y]), None);
    assert!(matches!(ops[0], Op::Roll(2)));
    assert!(matches!(ops[2], Op::EqualVerify(1, 0)));
}

#[test]
fn test_read_from_stack() {
    let (a, _) = two_points(0);
    let ops = G1Affine::push(pt(a));
    let (x, y) = match (ops[0], ops[1]) {
        (Op::Push(x), Op::Push(y)) => (x, y),
        _ => panic!("a finite point pushes its coordinates"),
    };
    assert_eq!(G1Affine::read_from_stack(vec![x, y]), pt(a));
}

#[test]
fn test_g1_affine_hinted_check_line_through_point() {
    let (t, q) = two_points(0);
    let alpha = (t.y - q.y) / (t.x - q.x);
    let bias_minus = alpha * t.x - t.y;
    let (ops, hints) = G1Affine::hinted_check_line_through_point(fe(t.x), fe(alpha));
    assert_eq!(hints, vec![fe(t.x * alpha)]);
    assert_eq!(run(&ops, hints, vec![alpha, bias_minus, t.x, t.y]), Some(vec![Fe::one()]));
}

#[test]
fn test_g1_affine_hinted_check_chord_line() {
    let (t, q) = two_points(0);
    let alpha = (t.y - q.y) / (t.x - q.x);
    let bias_minus = alpha * t.x - t.y;
    let (ops, hints) = G1Affine::hinted_check_chord_line(pt(t), pt(q), fe(alpha));
    assert_eq!(hints, vec![fe(q.x * alpha), fe(t.x * alpha)]);
    let out = run(&ops, hints, vec![alpha, bias_minus, t.x, t.y, q.x, q.y]);
    assert_eq!(out, Some(vec![Fe::one()]));
}

#[test]
fn chord_line_rejects_a_wrong_slope() {
    let (t, q) = two_points(2);
    let alpha = (t.y - q.y) / (t.x - q.x);
    let bias_minus = alpha * t.x - t.y;
    let wrong = alpha + ark_bn254::Fq::ONE;
    let (ops, hints) = G1Affine::hinted_check_chord_line(pt(t), pt(q), fe(wrong));
    let out = run(&ops, hints, vec![wrong, bias_minus, t.x, t.y, q.x, q.y]);
    assert_eq!(out, Some(vec![Fe::zero()]));
}

#[test]
fn test_g1_affine_hinted_add() {
    let (t, q) = two_points(0);
    let alpha = (t.y - q.y) / (t.x - q.x);
    let x = alpha.square() - t.x - q.x;
    let bias_minus = alpha * t.x - t.y;
    let y = bias_minus - alpha * x;
    let (ops, hints) = G1Affine::hinted_add(fe(t.x), fe(q.x), fe(alpha));
    assert_eq!(hints, vec![fe(alpha.square()), fe(alpha * x)]);
    assert_eq!(run(&ops, hints, vec![alpha, bias_minus, t.x, q.x]), Some(vec![fe(x), fe(y)]));
}

#[test]
fn test_g1_affine_hinted_check_add() {
    let (t, q) = two_points(0);
    let alpha = (t.y - q.y) / (t.x - q.x);
    let bias_minus = alpha * t.x - t.y;
    let x = alpha.square() - t.x - q.x;
    let y = bias_minus - alpha * x;
    let (ops, hints) = G1Affine::hinted_check_add(pt(t), pt(q), fe(alpha));
    let out = run(&ops, hints.clone(), vec![t.x, t.y, q.x, q.y]);
    assert_eq!(out, Some(vec![fe(x), fe(y)]));
    assert_eq!(out, Some(vec![fe((t + q).into_affine().x), fe((t + q).into_affine().y)]));
    assert_eq!(
        hints,
        vec![
            fe(alpha),
            fe(bias_minus),
            fe(q.x * alpha),
            fe(t.x * alpha),
            fe(alpha.square()),
            fe(alpha * x),
        ]
    );
}

#[test]
fn test_g1_affine_hinted_check_add_identity() {
    let (t, q) = two_points(3);
    let (ops_a, hints_a) = G1Affine::hinted_check_add(AffinePoint::Infinity, pt(q), fe(t.x));
    let (ops_b, hints_b) = G1Affine::hinted_check_add(pt(t), AffinePoint::Infinity, fe(t.x));
    assert!(hints_a.is_empty());
    assert!(hints_b.is_empty());
    let zero = ark_bn254::Fq::ZERO;
    assert_eq!(run(&ops_a, hints_a, vec![zero, zero, q.x, q.y]), Some(vec![fe(q.x), fe(q.y)]));
    assert_eq!(run(&ops_b, hints_b, vec![t.x, t.y, zero, zero]), Some(vec![fe(t.x), fe(t.y)]));
}

#[test]
fn test_g1_affine_hinted_check_double() {
    let (t, _) = two_points(0);
    let alpha = (t.x.square() + t.x.square() + t.x.square()) / (t.y + t.y);
    let bias_minus = alpha * t.x - t.y;
    let x = alpha.square() - t.x - t.x;
    let y = bias_minus - alpha * x;
    let (ops, hints) = G1Affine::hinted_check_double(pt(t));
    let out = run(&ops, hints.clone(), vec![t.x, t.y]);
    assert_eq!(out, Some(vec![fe(x), fe(y)]));
    assert_eq!(out, Some(vec![fe((t + t).into_affine().x), fe((t + t).into_affine().y)]));
    assert_eq!(
        hints,
        vec![
            fe(alpha),
            fe(bias_minus),
            fe((t.y + t.y) * alpha),
            fe(t.x.square()),
            fe(t.x * alpha),
            fe(alpha.square()),
            fe(alpha * x),
        ]
    );
    let (ops, none) = G1Affine::hinted_check_double(AffinePoint::Infinity);
    assert!(none.is_empty());
    let zero = ark_bn254::Fq::ZERO;
    assert_eq!(run(&ops, none, vec![zero, zero]), Some(vec![Fe::zero(), Fe::zero()]));
}

#[test]
fn test_hinted_affine_is_on_curve() {
    let (p, _) = two_points(0);
    let (ops, hints) = G1Affine::hinted_is_on_curve(fe(p.x), fe(p.y));
    assert_eq!(hints, vec![fe(p.x.square()), fe(p.x * p.x.square()), fe(p.y.square())]);
    assert_eq!(run(&ops, hints, vec![p.x, p.y]), Some(vec![Fe::one()]));
    let (ops, hints) = G1Affine::hinted_is_on_curve(fe(p.x), fe(p.y + p.y));
    assert_eq!(run(&ops, hints, vec![p.x, p.y + p.y]), Some(vec![Fe::zero()]));
}

#[test]
fn test_hinted_from_eval_point() {
    let mut prng = ChaCha20Rng::seed_from_u64(1);
    let p = ark_bn254::G1Affine::rand(&mut prng);
    let pyinv = p.y.inverse().unwrap();
    let (ops, hints) = hinted_from_eval_point(pt(p));
    assert_eq!(hints, vec![fe(pyinv * p.y), fe(p.y * pyinv), fe(pyinv * -p.x)]);
    let out = run(&ops, hints.clone(), vec![pyinv, p.x, p.y]);
    assert_eq!(out, Some(vec![fe(-p.x / p.y), fe(pyinv)]));
    let wrong = pyinv + ark_bn254::Fq::ONE;
    assert_eq!(run(&ops, hints, vec![wrong, p.x, p.y]), None);
}

#[test]
fn test_hintedx_from_eval_point() {
    let (p, _) = two_points(0);
    let pyinv = p.y.inverse().unwrap();
    let (ops, hints) = hinted_x_from_eval_point(pt(p), fe(pyinv));
    assert_eq!(hints, vec![fe(ark_bn254::Fq::ONE), fe(-p.x / p.y)]);
    assert_eq!(run(&ops, hints, vec![pyinv, p.x, p.y]), Some(vec![fe(-p.x / p.y)]));
}

#[test]
fn test_hintedy_from_eval_point() {
    let (p, _) = two_points(0);
    let pyinv = p.y.inverse().unwrap();
    let (ops, hints) = hinted_y_from_eval_point(fe(p.y), fe(pyinv));
    assert_eq!(hints, vec![fe(ark_bn254::Fq::ONE)]);
    assert_eq!(run(&ops, hints, vec![pyinv, p.y]), Some(vec![]));
}

fn scalar(k: ark_bn254::Fr) -> Scalar {
    Scalar { limbs: k.into_bigint().0 }
}

fn windows(w: u32) -> (usize, usize, usize) {
    let n = (254 + w - 1) / w;
    let doubles = 254 - w as usize;
    (doubles + n as usize - 1, doubles, doubles + n as usize)
}

/// The slope coefficients of the windowed multiplication: unused entries for the
/// doublings, the chord slope for each addition.
fn msm_coeffs(k: ark_bn254::Fr, base: ark_bn254::G1Affine, w: u32) -> Vec<(Fe, Fe)> {
    let bits = k.into_bigint();
    let zero = ark_bn254::Fq::ZERO;
    let mut table = vec![ark_bn254::G1Affine::identity()];
    for _ in 1..(1usize << w) {
        let next = (*table.last().unwrap() + base).into_affine();
        table.push(next);
    }
    let mut c = ark_bn254::G1Affine::identity();
    let mut out = Vec::new();
    let mut i = 0u32;
    while i < 254 {
        let d = std::cmp::min(254 - i, w);
        if i > 0 {
            for _ in 0..d {
                out.push((fe(zero), fe(zero)));
                c = (c + c).into_affine();
            }
        }
        let mut mask = 0usize;
        for j in 0..d {
            mask = mask * 2 + bits.get_bit((254 - i - j - 1) as usize) as usize;
        }
        let t = table[mask];
        if i > 0 {
            let alpha = if !c.is_zero() && !t.is_zero() { (c.y - t.y) / (c.x - t.x) } else { zero };
            out.push((fe(alpha), fe(zero)));
        }
        c = (c + t).into_affine();
        i += w;
    }
    out
}

fn run_scalar_mul(k: ark_bn254::Fr, base: ark_bn254::G1Affine, w: u32) -> (AffinePoint, Vec<Op>, Vec<Fe>) {
    let (nc, ns, nt) = windows(w);
    let mut p = pt(base);
    let coeff = msm_coeffs(k, base, w);
    assert_eq!(coeff.len(), nc);
    let step_p = vec![AffinePoint::Infinity; ns];
    let trace = vec![AffinePoint::Infinity; nt];
    let (ops, hints) = G1Affine::hinted_scalar_mul_by_constant_g1_windowed(scalar(k), &mut p, coeff, step_p, trace, w);
    (p, ops, hints)
}

#[test]
fn test_hinted_scalar_mul_by_constant_g1_affine() {
    let mut prng = ChaCha20Rng::seed_from_u64(0);
    let k = ark_bn254::Fr::rand(&mut prng);
    let base = ark_bn254::G1Projective::rand(&mut prng).into_affine();
    let expected = (base * k).into_affine();
    let (_, ns, nt) = windows(12);
    let mut p = pt(base);
    let (ops, _) = G1Affine::hinted_scalar_mul_by_constant_g1(
        scalar(k),
        &mut p,
        msm_coeffs(k, base, 12),
        vec![AffinePoint::Infinity; ns],
        vec![AffinePoint::Infinity; nt],
    );
    assert_eq!(p, pt(expected));
    assert!(matches!(ops[0], Op::ScalarBitsToAlt));
    let (_, _, hints) = run_scalar_mul(k, base, 12);
    let out = execute(&ops, hints, vec![Fe { limbs: k.into_bigint().0 }]);
    assert_eq!(out, Some(vec![fe(expected.x), fe(expected.y)]));
}

#[test]
fn scalar_mul_matches_direct_multiplication_for_each_window_width() {
    let mut prng = ChaCha20Rng::seed_from_u64(7);
    let base = ark_bn254::G1Projective::rand(&mut prng).into_affine();
    for w in [2u32, 12, 15] {
        for bits in [1u32, 2, 64, 200, 254] {
            let mut k = ark_bn254::Fr::rand(&mut prng).into_bigint();
            for i in bits..256 {
                k.0[(i / 64) as usize] &= !(1u64 << (i % 64));
            }
            let k = ark_bn254::Fr::from_bigint(k).unwrap();
            let (p, ops, hints) = run_scalar_mul(k, base, w);
            let expected = (base * k).into_affine();
            assert_eq!(p, pt(expected));
            if bits == 1 || bits == 254 {
                let out = execute(&ops, hints, vec![Fe { limbs: k.into_bigint().0 }]);
                assert_eq!(out, Some(vec![fe(expected.x), fe(expected.y)]));
            }
        }
    }
}

#[test]
fn scalar_zero_gives_identity() {
    let mut prng = ChaCha20Rng::seed_from_u64(5);
    let base = ark_bn254::G1Projective::rand(&mut prng).into_affine();
    let (p, ops, hints) = run_scalar_mul(ark_bn254::Fr::from(0u64), base, 12);
    assert_eq!(p, AffinePoint::Infinity);
    assert!(hints.is_empty());
    assert_eq!(execute(&ops, hints, vec![Fe::zero()]), Some(vec![Fe::zero(), Fe::zero()]));
}

#[test]
fn is_zero_flags_only_the_sentinel() {
    let (p, _) = two_points(4);
    let zero = ark_bn254::Fq::ZERO;
    assert_eq!(run(&G1Affine::is_zero(), vec![], vec![zero, zero]), Some(vec![Fe::one()]));
    assert_eq!(run(&G1Affine::is_zero(), vec![], vec![p.x, p.y]), Some(vec![Fe::zero()]));
    let keep = run(&G1Affine::is_zero_keep_element(), vec![], vec![p.x, p.y]);
    assert_eq!(keep, Some(vec![fe(p.x), fe(p.y), Fe::zero()]));
}

#[test]
fn roll_and_drop_move_whole_points() {
    let (p, q) = two_points(6);
    let out = run(&G1Affine::roll(1), vec![], vec![p.x, p.y, q.x, q.y]);
    assert_eq!(out, Some(vec![fe(q.x), fe(q.y), fe(p.x), fe(p.y)]));
    assert_eq!(run(&G1Affine::drop(), vec![], vec![p.x, p.y, q.x, q.y]), Some(vec![fe(p.x), fe(p.y)]));
}

#[test]
fn line_check_fails_on_a_wrong_hint() {
    let (t, q) = two_points(8);
    let alpha = (t.y - q.y) / (t.x - q.x);
    let bias_minus = alpha * t.x - t.y;
    let (ops, _) = G1Affine::hinted_check_line_through_point(fe(t.x), fe(alpha));
    assert_eq!(run(&ops, vec![fe(t.x)], vec![alpha, bias_minus, t.x, t.y]), None);
}
