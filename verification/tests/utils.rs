use grumpkin_msm::field::Scalar;
use grumpkin_msm::group::Affine;
use grumpkin_msm::utils::{gen_points, gen_scalars, naive_multiscalar_mul};
use halo2curves::bn256::{Fq, Fr, G1Affine, G1};
use halo2curves::ff::Field;
use halo2curves::group::{Curve, Group};
use halo2curves::{CurveAffine, CurveExt};
use rand::SeedableRng;
use rand_chacha::ChaCha20Rng;

fn plain(p: &G1Affine) -> Affine {
    Affine { x: p.x.into(), y: p.y.into() }
}

fn curve_point(a: &Affine) -> G1Affine {
    G1Affine { x: Fq::from_raw(a.x), y: Fq::from_raw(a.y) }
}

fn bytes(n: usize) -> Vec<u8> {
    (0..n).map(|i| (i * 37 + 11) as u8).collect()
}

#[test]
fn naive_sum_of_small_multiples_of_the_generator() {
    let g = G1::generator();
    let points = [plain(&g.to_affine()), plain(&g.double().to_affine())];
    let scalars = [Scalar::from_u64(3), Scalar::from_u64(5)];
    // 3 g + 5 (2 g) = 13 g
    let expected = (g * Fr::from(13u64)).to_affine();
    assert_eq!(naive_multiscalar_mul(&points, &scalars), plain(&expected));
}

#[test]
fn naive_sum_of_one_term() {
    let g = G1::generator().to_affine();
    let got = naive_multiscalar_mul(&[plain(&g)], &[Scalar::from_u64(1)]);
    assert_eq!(got, Affine { x: [1, 0, 0, 0], y: [2, 0, 0, 0] });
    let got = naive_multiscalar_mul(&[plain(&g)], &[Scalar::from_u64(2)]);
    assert_eq!(got, plain(&G1::generator().double().to_affine()));
    assert_ne!(got, plain(&g));
}

#[test]
fn naive_sum_is_affine_with_canonical_coordinates() {
    let rnd = bytes(32 * 4);
    let points = gen_points(&rnd, 4);
    let scalars = gen_scalars([2u8; 32], 4);
    let got = naive_multiscalar_mul(&points, &scalars);
    // canonical limbs survive a round trip through the field
    let x: [u64; 4] = Fq::from_raw(got.x).into();
    let y: [u64; 4] = Fq::from_raw(got.y).into();
    assert_eq!(got.x, x);
    assert_eq!(got.y, y);
    assert!(bool::from(curve_point(&got).is_on_curve()));
}

#[test]
fn naive_sum_of_nothing_is_the_identity() {
    assert_eq!(
        naive_multiscalar_mul(&[], &[]),
        Affine { x: [0, 0, 0, 0], y: [0, 0, 0, 0] }
    );
}

#[test]
fn naive_sum_that_cancels_is_the_identity() {
    let g = G1::generator().to_affine();
    let minus = Fr::ZERO - Fr::ONE;
    let points = [plain(&g), plain(&g)];
    let scalars = [Scalar::from_u64(1), Scalar { limbs: minus.into() }];
    assert_eq!(
        naive_multiscalar_mul(&points, &scalars),
        Affine { x: [0, 0, 0, 0], y: [0, 0, 0, 0] }
    );
}

#[test]
fn naive_sum_agrees_with_the_curve_library() {
    let rnd = bytes(32 * 9);
    let points = gen_points(&rnd, 9);
    let scalars = gen_scalars([5u8; 32], 9);
    let expected: G1 = points
        .iter()
        .zip(scalars.iter())
        .map(|(p, s)| curve_point(p) * Fr::from_raw(s.limbs))
        .sum();
    assert_eq!(naive_multiscalar_mul(&points, &scalars), plain(&expected.to_affine()));
}

#[test]
fn naive_sum_by_reversed_order_is_the_same_point() {
    let rnd = bytes(32 * 6);
    let points = gen_points(&rnd, 6);
    let scalars = gen_scalars([9u8; 32], 6);
    let mut points_back = points.clone();
    points_back.reverse();
    let mut scalars_back = scalars.clone();
    scalars_back.reverse();
    assert_eq!(
        naive_multiscalar_mul(&points, &scalars),
        naive_multiscalar_mul(&points_back, &scalars_back)
    );
}

#[test]
fn indexing_by_reversed_indices_is_reversing_the_scalars() {
    let n = 7usize;
    let rnd = bytes(32 * n);
    let points = gen_points(&rnd, n);
    let scalars = gen_scalars([3u8; 32], n);
    let indices: Vec<u32> = (0..n as u32).rev().collect();
    // the terms of the indexed request: scalar i with point indices[i]
    let gathered: Vec<Affine> = indices.iter().map(|i| points[*i as usize]).collect();
    let mut reversed = scalars.clone();
    reversed.reverse();
    assert_eq!(
        naive_multiscalar_mul(&gathered, &scalars),
        naive_multiscalar_mul(&points, &reversed)
    );
    assert_ne!(
        naive_multiscalar_mul(&points, &scalars),
        naive_multiscalar_mul(&points, &reversed)
    );
}

#[test]
fn gen_points_hashes_each_chunk() {
    let rnd = bytes(32 * 5);
    let points = gen_points(&rnd, 5);
    assert_eq!(points.len(), 5);
    let hash = G1::hash_to_curve("foobar");
    for (i, point) in points.iter().enumerate() {
        let expected = hash(&rnd[32 * i..32 * i + 32]).to_affine();
        assert_eq!(*point, plain(&expected));
        assert!(bool::from(curve_point(point).is_on_curve()));
    }
    assert_ne!(points[0], points[1]);
}

#[test]
fn gen_points_of_nothing() {
    assert_eq!(gen_points(&[], 0), vec![]);
}

#[test]
fn gen_scalars_draws_from_the_seeded_generator() {
    let seed = [7u8; 32];
    let scalars = gen_scalars(seed, 4);
    assert_eq!(scalars.len(), 4);
    let mut rng = ChaCha20Rng::from_seed(seed);
    for s in scalars.iter() {
        let expected: [u64; 4] = Fr::random(&mut rng).into();
        assert_eq!(s.limbs, expected);
    }
    assert_eq!(gen_scalars(seed, 4), scalars);
    assert_ne!(gen_scalars([8u8; 32], 4), scalars);
    assert_eq!(gen_scalars(seed, 0), vec![]);
}

#[test]
fn gen_scalars_are_canonical() {
    let modulus: [u64; 4] = [
        0x43e1f593f0000001,
        0x2833e84879b97091,
        0xb85045b68181585d,
        0x30644e72e131a029,
    ];
    for s in gen_scalars([1u8; 32], 64) {
        let mut below = false;
        for i in (0..4).rev() {
            if s.limbs[i] != modulus[i] {
                below = s.limbs[i] < modulus[i];
                break;
            }
        }
        assert!(below);
    }
}
