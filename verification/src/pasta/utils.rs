//! Test data for Pallas and the reference sum that kernels are held against.
//!
//! A point is held as its 32-byte compressed encoding and a scalar as its 32
//! canonical little-endian bytes. Nothing here reads the system's entropy:
//! the caller hands in the random bytes, and what is made of them is fixed.

use crate::msm::terms;
use crate::utils::{chunk, seeded};
use ff::{Field, PrimeField};
use pasta_curves::arithmetic::CurveExt;
use pasta_curves::group::{Curve, GroupEncoding};
use pasta_curves::pallas;
use rand_chacha::ChaCha20Rng;
use vstd::prelude::*;

verus! {

/// The order of the Pallas scalar field.
pub open spec fn modulus() -> nat {
    0x40000000000000000000000000000000224698fc0994a8dd8c46eb2100000001nat
}

/// The integer that little-endian bytes stand for.
pub open spec fn bytes_value(bytes: Seq<u8>) -> nat
    decreases bytes.len(),
{
    if bytes.len() == 0 {
        0
    } else {
        bytes[0] as nat + 256 * bytes_value(bytes.drop_first())
    }
}

/// A point of Pallas in affine form, as its compressed encoding: the
/// x-coordinate with the sign of y in the top bit, and all zero for the
/// identity.
#[derive(Clone, Copy, Debug, PartialEq, Eq)]
pub struct Affine {
    pub bytes: [u8; 32],
}

/// A scalar of Pallas, as little-endian bytes.
#[derive(Clone, Copy, Debug, PartialEq, Eq)]
pub struct Scalar {
    pub bytes: [u8; 32],
}

impl Scalar {
    /// Whether the bytes hold the least non-negative representative.
    pub open spec fn canonical(&self) -> bool {
        bytes_value(self.bytes@) < modulus()
    }
}

/// The encoding of the identity: 32 zero bytes.
pub open spec fn identity_encoding() -> Seq<u8> {
    Seq::new(32, |i: int| 0u8)
}

impl Affine {
    /// The identity of the group.
    pub fn identity() -> (p: Affine)
        ensures
            p.bytes@ == identity_encoding(),
    {
        let p = Affine { bytes: [0u8; 32] };
        assert(p.bytes@ =~= identity_encoding());
        p
    }
}

/// The encoding of a point that may be missing.
pub open spec fn encoding(point: Option<Affine>) -> Option<Seq<u8>> {
    match point {
        Some(p) => Some(p.bytes@),
        None => None,
    }
}

/// The encoding of the point that a message hashes to under a domain
/// prefix: what the hasher of `CurveExt::hash_to_curve` of
/// `pasta_curves::pallas::Point` returns, in affine form.
pub uninterp spec fn hashed(domain: Seq<char>, message: Seq<u8>) -> Seq<u8>;

/// The encoding of the multiple of a point by a scalar: what `Mul<Scalar>`
/// of `pasta_curves::pallas::Affine` returns, in affine form; none where
/// the point's or the scalar's bytes are no encoding.
pub uninterp spec fn scaled(point: Seq<u8>, scalar: Seq<u8>) -> Option<Seq<u8>>;

/// The encoding of the sum of two points: what `Add` of
/// `pasta_curves::pallas::Affine` returns, in affine form; none where
/// either point's bytes are no encoding.
pub uninterp spec fn summed(a: Seq<u8>, b: Seq<u8>) -> Option<Seq<u8>>;

/// Trusted: calls `Field::random` of `pasta_curves::pallas::Scalar` with
/// the generator, and reads the bytes through `PrimeField::to_repr`. The
/// contract claims only that those bytes are canonical.
#[verifier::external_body]
fn random_scalar(rng: &mut ChaCha20Rng) -> (s: Scalar)
    ensures
        s.canonical(),
{
    Scalar { bytes: pallas::Scalar::random(rng).to_repr() }
}

/// Trusted: calls the hasher that `CurveExt::hash_to_curve` of
/// `pasta_curves::pallas::Point` makes for the domain prefix, and encodes
/// the result through `Curve::to_affine` and `GroupEncoding::to_bytes`. The
/// prefix must be short enough for the hasher's length byte. The contract
/// names the result.
#[verifier::external_body]
fn hash_to_curve(domain: &str, message: &[u8]) -> (p: Affine)
    requires
        domain.is_ascii(),
        domain@.len() < 228,
    ensures
        p.bytes@ == hashed(domain@, message@),
{
    Affine { bytes: pallas::Point::hash_to_curve(domain)(message).to_affine().to_bytes() }
}

/// Trusted: decodes the point with `GroupEncoding::from_bytes` and the
/// scalar with `PrimeField::from_repr`, calls `Mul<Scalar>` of
/// `pasta_curves::pallas::Affine`, and encodes the result. The contract
/// names the result, which is none where a decoding fails.
#[verifier::external_body]
fn scale(point: &Affine, scalar: &Scalar) -> (r: Option<Affine>)
    ensures
        encoding(r) == scaled(point.bytes@, scalar.bytes@),
{
    let p: Option<pallas::Affine> = pallas::Affine::from_bytes(&point.bytes).into();
    let s: Option<pallas::Scalar> = pallas::Scalar::from_repr(scalar.bytes).into();
    match (p, s) {
        (Some(p), Some(s)) => Some(Affine { bytes: (p * s).to_affine().to_bytes() }),
        _ => None,
    }
}

/// Trusted: decodes both points with `GroupEncoding::from_bytes`, calls
/// `Add` of `pasta_curves::pallas::Affine`, and encodes the result. The
/// contract names the result, which is none where a decoding fails.
#[verifier::external_body]
fn sum(a: &Affine, b: &Affine) -> (r: Option<Affine>)
    ensures
        encoding(r) == summed(a.bytes@, b.bytes@),
{
    let lhs: Option<pallas::Affine> = pallas::Affine::from_bytes(&a.bytes).into();
    let rhs: Option<pallas::Affine> = pallas::Affine::from_bytes(&b.bytes).into();
    match (lhs, rhs) {
        (Some(lhs), Some(rhs)) => Some(Affine { bytes: (lhs + rhs).to_affine().to_bytes() }),
        _ => None,
    }
}

/// The sum of terms, each the multiple of its point by its scalar, taken
/// from the left; none as soon as a step has none.
pub open spec fn sum_of(terms: Seq<(Scalar, Affine)>) -> Option<Seq<u8>>
    decreases terms.len(),
{
    if terms.len() == 0 {
        Some(identity_encoding())
    } else {
        match sum_of(terms.drop_last()) {
            Some(before) => match scaled(terms.last().1.bytes@, terms.last().0.bytes@) {
                Some(term) => summed(before, term),
                None => None,
            },
            None => None,
        }
    }
}

/// `npoints` points of the curve, point `i` hashed from bytes `32 i` to
/// `32 i + 31` of `rnd` under the domain prefix `foobar`.
pub fn gen_points(rnd: &[u8], npoints: usize) -> (points: Vec<Affine>)
    requires
        rnd@.len() == 32 * npoints <= usize::MAX,
    ensures
        points@.len() == npoints,
        forall|i: int|
            0 <= i < npoints ==> (#[trigger] points@[i]).bytes@ == hashed(
                "foobar"@,
                chunk(rnd@, i),
            ),
{
    proof {
        reveal_strlit("foobar");
    }
    let mut points: Vec<Affine> = Vec::new();
    let mut off: usize = 0;
    while points.len() < npoints
        invariant
            rnd@.len() == 32 * npoints <= usize::MAX,
            off == 32 * points@.len(),
            points@.len() <= npoints,
            "foobar".is_ascii(),
            "foobar"@.len() == 6,
            forall|j: int|
                0 <= j < points@.len() ==> (#[trigger] points@[j]).bytes@ == hashed(
                    "foobar"@,
                    chunk(rnd@, j),
                ),
        decreases npoints - points@.len(),
    {
        points.push(hash_to_curve("foobar", &rnd[off..off + 32]));
        off += 32;
    }
    points
}

/// `npoints` scalars drawn from a generator that starts from `seed`.
pub fn gen_scalars(seed: [u8; 32], npoints: usize) -> (scalars: Vec<Scalar>)
    ensures
        scalars@.len() == npoints,
        forall|i: int| 0 <= i < npoints ==> (#[trigger] scalars@[i]).canonical(),
{
    let mut rng = seeded(seed);
    let mut scalars: Vec<Scalar> = Vec::new();
    let mut i: usize = 0;
    while i < npoints
        invariant
            i <= npoints,
            scalars@.len() == i,
            forall|j: int| 0 <= j < i ==> (#[trigger] scalars@[j]).canonical(),
        decreases npoints - i,
    {
        scalars.push(random_scalar(&mut rng));
        i += 1;
    }
    scalars
}

/// The reference multi-scalar multiplication: every point is multiplied by
/// its scalar and the products are added up one after the other. There is
/// no sum where bytes that are no encoding come in the way.
pub fn naive_multiscalar_mul(points: &[Affine], scalars: &[Scalar]) -> (r: Option<Affine>)
    requires
        points@.len() == scalars@.len(),
    ensures
        encoding(r) == sum_of(terms(points@, scalars@, None)),
{
    let mut ret: Option<Affine> = Some(Affine::identity());
    let mut i: usize = 0;
    while i < points.len()
        invariant
            i <= points@.len(),
            points@.len() == scalars@.len(),
            encoding(ret) == sum_of(terms(points@, scalars@.take(i as int), None)),
        decreases points@.len() - i,
    {
        assert(terms(points@, scalars@.take(i + 1), None).drop_last() =~= terms(
            points@,
            scalars@.take(i as int),
            None,
        ));
        ret = match ret {
            Some(before) => match scale(&points[i], &scalars[i]) {
                Some(term) => sum(&before, &term),
                None => None,
            },
            None => None,
        };
        i += 1;
    }
    assert(scalars@.take(scalars@.len() as int) =~= scalars@);
    ret
}

} // verus!
