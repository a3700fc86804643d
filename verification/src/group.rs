//! Group elements of the BN254 and Grumpkin curves as plain coordinates,
//! and the check that turns a kernel's raw output into one.

use crate::field::{limbs_value, modulus};
use halo2curves::{bn256, grumpkin, CurveExt};
use vstd::prelude::*;

verus! {

/// The curve family a kernel computes in.
#[derive(Clone, Copy, Debug, PartialEq, Eq, Structural)]
pub enum Curve {
    /// BN254 G1: `y^2 = x^3 + 3` over the BN254 base field.
    Bn256,
    /// Grumpkin: `y^2 = x^3 - 17` over the BN254 scalar field.
    Grumpkin,
}

impl Curve {
    /// The order of the field that the coordinates live in.
    pub open spec fn base_modulus(self) -> nat {
        match self {
            Curve::Bn256 => 0x30644e72e131a029b85045b68181585d97816a916871ca8d3c208c16d87cfd47nat,
            Curve::Grumpkin => modulus(),
        }
    }

    /// The constant term of the curve equation, as a field element.
    pub open spec fn b(self) -> nat {
        match self {
            Curve::Bn256 => 3,
            Curve::Grumpkin => (modulus() - 17) as nat,
        }
    }
}

/// A raw kernel output: Jacobian coordinates `(x, y, z)` that stand for the
/// affine point `(x / z^2, y / z^3)`, or for the identity where `z` is zero.
/// Each coordinate is four little-endian limbs, taken modulo the base field.
#[derive(Clone, Copy, Debug, PartialEq, Eq)]
pub struct Jacobian {
    pub x: [u64; 4],
    pub y: [u64; 4],
    pub z: [u64; 4],
}

/// A group element in homogeneous coordinates `(x, y, z)`, which stand for
/// the affine point `(x / z, y / z)`; the identity is `(0, 1, 0)`. Each
/// coordinate is in canonical form.
#[derive(Clone, Copy, Debug, PartialEq, Eq)]
pub struct Point {
    pub x: [u64; 4],
    pub y: [u64; 4],
    pub z: [u64; 4],
}

/// A point in affine coordinates `(x, y)`, each in canonical form; the
/// identity is `(0, 0)`.
#[derive(Clone, Copy, Debug, PartialEq, Eq)]
pub struct Affine {
    pub x: [u64; 4],
    pub y: [u64; 4],
}

/// Whether `a` is the affine form of the group element `p`.
pub open spec fn affine_of(curve: Curve, p: Point, a: Affine) -> bool {
    let q = curve.base_modulus();
    let x = limbs_value(p.x@);
    let y = limbs_value(p.y@);
    let z = limbs_value(p.z@);
    let ax = limbs_value(a.x@);
    let ay = limbs_value(a.y@);
    &&& ax < q && ay < q
    &&& if z % q == 0 {
        ax == 0 && ay == 0
    } else {
        (ax * z) % q == x % q && (ay * z) % q == y % q
    }
}

impl Point {
    /// The identity of the group.
    pub open spec fn spec_identity() -> Point {
        Point { x: [0, 0, 0, 0], y: [1, 0, 0, 0], z: [0, 0, 0, 0] }
    }

    /// The identity of the group, `(0, 1, 0)`.
    #[verifier::when_used_as_spec(spec_identity)]
    pub fn identity() -> (p: Point)
        ensures
            p == Self::spec_identity(),
    {
        Point { x: [0, 0, 0, 0], y: [1, 0, 0, 0], z: [0, 0, 0, 0] }
    }
}

/// Whether a group element satisfies the homogeneous curve equation
/// `z y^2 = x^3 + b z^3`, or has `z` zero.
pub open spec fn lies_on_curve(curve: Curve, p: Point) -> bool {
    let q = curve.base_modulus();
    let x = limbs_value(p.x@);
    let y = limbs_value(p.y@);
    let z = limbs_value(p.z@);
    z % q == 0 || (z * y * y) % q == (x * x * x + curve.b() * (z * z * z)) % q
}

/// Whether a raw triple satisfies the Jacobian curve equation
/// `y^2 = x^3 + b z^6`, or has `z` zero.
pub open spec fn on_curve(curve: Curve, raw: Jacobian) -> bool {
    let q = curve.base_modulus();
    let x = limbs_value(raw.x@);
    let y = limbs_value(raw.y@);
    let z = limbs_value(raw.z@);
    z % q == 0 || (y * y) % q == (x * x * x + curve.b() * (z * z * z * z * z * z)) % q
}

/// Whether `p` is the group element that the raw triple stands for.
pub open spec fn represents(curve: Curve, raw: Jacobian, p: Point) -> bool {
    let q = curve.base_modulus();
    let x = limbs_value(raw.x@);
    let y = limbs_value(raw.y@);
    let z = limbs_value(raw.z@);
    let px = limbs_value(p.x@);
    let py = limbs_value(p.y@);
    let pz = limbs_value(p.z@);
    &&& px < q && py < q && pz < q
    &&& if z % q == 0 {
        px == 0 && py == 1 && pz == 0
    } else {
        pz == z % q && (px * z) % q == x % q && (py * z * z) % q == y % q
    }
}

/// Trusted: calls `CurveExt::new_jacobian` of `halo2curves::bn256::G1` on
/// the field elements that `Fq::from_raw` makes of the limbs, and reads the
/// coordinates of the result back through `From<Fq> for [u64; 4]`. The
/// contract claims that the call succeeds exactly on the triples that
/// satisfy the curve equation or have `z` zero, and that it returns the same
/// point in homogeneous coordinates, the identity as `(0, 1, 0)`.
#[verifier::external_body]
fn bn256_new_jacobian(raw: &Jacobian) -> (r: Option<Point>)
    ensures
        r.is_some() == on_curve(Curve::Bn256, *raw),
        r matches Some(p) ==> represents(Curve::Bn256, *raw, p),
{
    let made = bn256::G1::new_jacobian(
        bn256::Fq::from_raw(raw.x),
        bn256::Fq::from_raw(raw.y),
        bn256::Fq::from_raw(raw.z),
    );
    match Option::<bn256::G1>::from(made) {
        Some(p) => Some(Point { x: p.x.into(), y: p.y.into(), z: p.z.into() }),
        None => None,
    }
}

/// Trusted: calls `CurveExt::new_jacobian` of `halo2curves::grumpkin::G1` in
/// the same way, over `grumpkin::Fq`. The contract claims the same of it,
/// for the Grumpkin equation.
#[verifier::external_body]
fn grumpkin_new_jacobian(raw: &Jacobian) -> (r: Option<Point>)
    ensures
        r.is_some() == on_curve(Curve::Grumpkin, *raw),
        r matches Some(p) ==> represents(Curve::Grumpkin, *raw, p),
{
    let made = grumpkin::G1::new_jacobian(
        grumpkin::Fq::from_raw(raw.x),
        grumpkin::Fq::from_raw(raw.y),
        grumpkin::Fq::from_raw(raw.z),
    );
    match Option::<grumpkin::G1>::from(made) {
        Some(p) => Some(Point { x: p.x.into(), y: p.y.into(), z: p.z.into() }),
        None => None,
    }
}

/// Turns a raw kernel output into a group element, where it is one.
pub fn from_jacobian(curve: Curve, raw: &Jacobian) -> (r: Option<Point>)
    ensures
        r.is_some() == on_curve(curve, *raw),
        r matches Some(p) ==> represents(curve, *raw, p),
{
    match curve {
        Curve::Bn256 => bn256_new_jacobian(raw),
        Curve::Grumpkin => grumpkin_new_jacobian(raw),
    }
}

} // verus!
