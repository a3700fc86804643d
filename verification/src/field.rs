//! Elements of the BN254 scalar field, held as four little-endian 64-bit limbs.

use halo2curves::bn256::Fr;
use vstd::prelude::*;

verus! {

/// The order `r` of the BN254 scalar field.
pub open spec fn modulus() -> nat {
    0x30644e72e131a029b85045b68181585d2833e84879b9709143e1f593f0000001nat
}

/// The integer that four little-endian 64-bit limbs stand for.
pub open spec fn limbs_value(limbs: Seq<u64>) -> nat {
    (limbs[0] as nat) + (limbs[1] as nat) * 0x1_0000_0000_0000_0000nat + (limbs[2] as nat)
        * 0x1_0000_0000_0000_0000_0000_0000_0000_0000nat + (limbs[3] as nat)
        * 0x1_0000_0000_0000_0000_0000_0000_0000_0000_0000_0000_0000_0000nat
}

/// Limbs are determined by the integer they stand for.
pub proof fn lemma_limbs_value_injective(a: Seq<u64>, b: Seq<u64>)
    requires
        a.len() == 4,
        b.len() == 4,
        limbs_value(a) == limbs_value(b),
    ensures
        a == b,
{
    assert(a[0] == b[0] && a[1] == b[1] && a[2] == b[2] && a[3] == b[3]);
    assert(a =~= b);
}

/// A scalar, as the integer its limbs spell out. Any limbs are accepted; the
/// field element meant is that integer modulo [`modulus`].
#[derive(Clone, Copy, Debug, PartialEq, Eq)]
pub struct Scalar {
    pub limbs: [u64; 4],
}

impl View for Scalar {
    type V = nat;

    open spec fn view(&self) -> nat {
        limbs_value(self.limbs@)
    }
}

impl Scalar {
    /// Two scalars that stand for the same integer are the same value.
    pub proof fn lemma_view_injective(self, other: Scalar)
        requires
            self@ == other@,
        ensures
            self == other,
    {
        lemma_limbs_value_injective(self.limbs@, other.limbs@);
        assert(self.limbs == other.limbs);
    }

    /// Whether the limbs hold the least non-negative representative.
    pub open spec fn canonical(&self) -> bool {
        self@ < modulus()
    }

    /// The additive identity.
    pub fn zero() -> (r: Scalar)
        ensures
            r@ == 0,
            r.canonical(),
    {
        Scalar { limbs: [0, 0, 0, 0] }
    }

    /// The scalar congruent to a machine word.
    pub fn from_u64(value: u64) -> (r: Scalar)
        ensures
            r@ == value,
            r.canonical(),
    {
        Scalar { limbs: [value, 0, 0, 0] }
    }

    /// Product in the field.
    ///
    /// Trusted: calls `Mul` of `halo2curves::bn256::Fr` on the elements that
    /// `Fr::from_raw` makes of the limbs, and reads the canonical limbs back
    /// through `From<Fr> for [u64; 4]`. The contract claims that this is
    /// multiplication of integers modulo the field order.
    #[verifier::external_body]
    pub(crate) fn mul(&self, rhs: &Scalar) -> (r: Scalar)
        ensures
            r@ == (self@ * rhs@) % modulus(),
    {
        let product: Fr = Fr::from_raw(self.limbs) * Fr::from_raw(rhs.limbs);
        Scalar { limbs: product.into() }
    }

    /// Sum in the field.
    ///
    /// Trusted: calls `Add` of `halo2curves::bn256::Fr` in the same way. The
    /// contract claims that this is addition of integers modulo the field
    /// order.
    #[verifier::external_body]
    pub(crate) fn add(&self, rhs: &Scalar) -> (r: Scalar)
        ensures
            r@ == (self@ + rhs@) % modulus(),
    {
        let sum: Fr = Fr::from_raw(self.limbs) + Fr::from_raw(rhs.limbs);
        Scalar { limbs: sum.into() }
    }
}

} // verus!
