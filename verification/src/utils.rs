//! Test data for BN254 and the reference sum that kernels are held against.
//!
//! Nothing here reads the system's entropy: the caller hands in the random
//! bytes, and what is made of them is fixed.

use crate::field::Scalar;
use crate::group::{affine_of, lies_on_curve, Affine, Curve, Point};
use crate::msm::terms;
use ff::Field;
use halo2curves::bn256::{Fq, Fr, G1Affine, G1};
use halo2curves::CurveExt;
use rand::SeedableRng;
use rand_chacha::ChaCha20Rng;
use vstd::prelude::*;

verus! {

/// `rand_chacha::ChaCha20Rng`, the generator that scalars are drawn from.
/// Its state is not modelled.
#[verifier::external_type_specification]
#[verifier::external_body]
pub struct ExChaCha20Rng(ChaCha20Rng);

/// The point that a message hashes to under a domain prefix: what the
/// hasher of `CurveExt::hash_to_curve` of `halo2curves::bn256::G1` returns.
pub uninterp spec fn hashed(domain: Seq<char>, message: Seq<u8>) -> Point;

/// The multiple of a point by a scalar: what `Mul<Fr>` of
/// `halo2curves::bn256::G1Affine` returns, coordinate for coordinate.
pub uninterp spec fn scaled(point: Affine, scalar: Scalar) -> Point;

/// The sum of two group elements: what `Add` of `halo2curves::bn256::G1`
/// returns, coordinate for coordinate.
pub uninterp spec fn summed(a: Point, b: Point) -> Point;

/// Trusted: calls `SeedableRng::from_seed` of `rand_chacha::ChaCha20Rng`.
/// Nothing is claimed of the generator.
#[verifier::external_body]
pub(crate) fn seeded(seed: [u8; 32]) -> ChaCha20Rng {
    ChaCha20Rng::from_seed(seed)
}

/// Trusted: calls `Field::random` of `halo2curves::bn256::Fr` with the
/// generator, and reads the limbs through `From<Fr> for [u64; 4]`. The
/// contract claims only that those limbs are canonical.
#[verifier::external_body]
fn random_scalar(rng: &mut ChaCha20Rng) -> (s: Scalar)
    ensures
        s.canonical(),
{
    Scalar { limbs: Fr::random(rng).into() }
}

/// Trusted: calls the hasher that `CurveExt::hash_to_curve` of
/// `halo2curves::bn256::G1` makes for the domain prefix. The prefix must be
/// short enough for the hasher's length byte. The contract names the
/// result, and claims that it satisfies the curve equation, as the sum of
/// two points that the hasher has checked to be on the curve.
#[verifier::external_body]
fn hash_to_curve(domain: &str, message: &[u8]) -> (p: Point)
    requires
        domain.is_ascii(),
        domain@.len() < 226,
    ensures
        p == hashed(domain@, message@),
        lies_on_curve(Curve::Bn256, p),
{
    let p = G1::hash_to_curve(domain)(message);
    Point { x: p.x.into(), y: p.y.into(), z: p.z.into() }
}

/// Trusted: calls `Mul<Fr>` of `halo2curves::bn256::G1Affine` on the point
/// and the scalar that `from_raw` makes of the limbs. The contract names
/// the result.
#[verifier::external_body]
fn scale(point: &Affine, scalar: &Scalar) -> (p: Point)
    ensures
        p == scaled(*point, *scalar),
{
    let a = G1Affine { x: Fq::from_raw(point.x), y: Fq::from_raw(point.y) };
    let p: G1 = a * Fr::from_raw(scalar.limbs);
    Point { x: p.x.into(), y: p.y.into(), z: p.z.into() }
}

/// Trusted: calls `Add` of `halo2curves::bn256::G1`. The contract names the
/// result.
#[verifier::external_body]
fn sum(a: &Point, b: &Point) -> (p: Point)
    ensures
        p == summed(*a, *b),
{
    let lhs = G1 { x: Fq::from_raw(a.x), y: Fq::from_raw(a.y), z: Fq::from_raw(a.z) };
    let rhs = G1 { x: Fq::from_raw(b.x), y: Fq::from_raw(b.y), z: Fq::from_raw(b.z) };
    let p: G1 = lhs + rhs;
    Point { x: p.x.into(), y: p.y.into(), z: p.z.into() }
}

/// Trusted: calls `Curve::to_affine` of `halo2curves::bn256::G1`. The
/// contract claims that the result is `(x / z, y / z)` in canonical form,
/// and `(0, 0)` where `z` is zero.
#[verifier::external_body]
fn to_affine(p: &Point) -> (a: Affine)
    ensures
        affine_of(Curve::Bn256, *p, a),
{
    let p = G1 { x: Fq::from_raw(p.x), y: Fq::from_raw(p.y), z: Fq::from_raw(p.z) };
    let a = halo2curves::group::Curve::to_affine(&p);
    Affine { x: a.x.into(), y: a.y.into() }
}

/// The sum of terms, each the multiple of its point by its scalar, taken
/// from the left.
pub open spec fn sum_of(terms: Seq<(Scalar, Affine)>) -> Point
    decreases terms.len(),
{
    if terms.len() == 0 {
        Point::spec_identity()
    } else {
        summed(sum_of(terms.drop_last()), scaled(terms.last().1, terms.last().0))
    }
}

/// The 32 bytes that point `i` is hashed from.
pub open spec fn chunk(rnd: Seq<u8>, i: int) -> Seq<u8> {
    rnd.subrange(32 * i, 32 * i + 32)
}

/// `npoints` points of the curve, point `i` hashed from bytes `32 i` to
/// `32 i + 31` of `rnd` under the domain prefix `foobar`: each is the affine
/// form of a group element that satisfies the curve equation.
pub fn gen_points(rnd: &[u8], npoints: usize) -> (points: Vec<Affine>)
    requires
        rnd@.len() == 32 * npoints <= usize::MAX,
    ensures
        points@.len() == npoints,
        forall|i: int|
            0 <= i < npoints ==> affine_of(
                Curve::Bn256,
                hashed("foobar"@, chunk(rnd@, i)),
                #[trigger] points@[i],
            ) && lies_on_curve(Curve::Bn256, hashed("foobar"@, chunk(rnd@, i))),
{
    proof {
        reveal_strlit("foobar");
    }
    let mut points: Vec<Affine> = Vec::new();
    let mut off: usize = 0;
    while points.len() < npoints
        invariant
            rnd@.len() == 32 * npoints <= usize::MAX,
            off == 32 * points@.len(),
            points@.len() <= npoints,
            "foobar".is_ascii(),
            "foobar"@.len() == 6,
            forall|j: int|
                0 <= j < points@.len() ==> affine_of(
                    Curve::Bn256,
                    hashed("foobar"@, chunk(rnd@, j)),
                    #[trigger] points@[j],
                ) && lies_on_curve(Curve::Bn256, hashed("foobar"@, chunk(rnd@, j))),
        decreases npoints - points@.len(),
    {
        let point = hash_to_curve("foobar", &rnd[off..off + 32]);
        points.push(to_affine(&point));
        off += 32;
    }
    points
}

/// `npoints` scalars drawn from a generator that starts from `seed`.
pub fn gen_scalars(seed: [u8; 32], npoints: usize) -> (scalars: Vec<Scalar>)
    ensures
        scalars@.len() == npoints,
        forall|i: int| 0 <= i < npoints ==> (#[trigger] scalars@[i]).canonical(),
{
    let mut rng = seeded(seed);
    let mut scalars: Vec<Scalar> = Vec::new();
    let mut i: usize = 0;
    while i < npoints
        invariant
            i <= npoints,
            scalars@.len() == i,
            forall|j: int| 0 <= j < i ==> (#[trigger] scalars@[j]).canonical(),
        decreases npoints - i,
    {
        scalars.push(random_scalar(&mut rng));
        i += 1;
    }
    scalars
}

/// The reference multi-scalar multiplication: every point is multiplied by
/// its scalar and the products are added up one after the other. These are
/// the terms that a plain request asks a kernel for. It has a value for
/// as many scalars as points, which are the inputs on which the plain call
/// is no length mismatch.
pub fn naive_multiscalar_mul(points: &[Affine], scalars: &[Scalar]) -> (r: Affine)
    requires
        points@.len() == scalars@.len(),
    ensures
        affine_of(Curve::Bn256, sum_of(terms(points@, scalars@, None)), r),
{
    let mut ret = Point::identity();
    let mut i: usize = 0;
    while i < points.len()
        invariant
            i <= points@.len(),
            points@.len() == scalars@.len(),
            ret == sum_of(terms(points@, scalars@.take(i as int), None)),
        decreases points@.len() - i,
    {
        assert(terms(points@, scalars@.take(i + 1), None).drop_last() =~= terms(
            points@,
            scalars@.take(i as int),
            None,
        ));
        let term = scale(&points[i], &scalars[i]);
        ret = sum(&ret, &term);
        i += 1;
    }
    assert(scalars@.take(scalars@.len() as int) =~= scalars@);
    to_affine(&ret)
}

} // verus!
