//! The two prime fields of BN254: scalars ([`FieldElement`]) and curve
//! coordinates ([`BaseFieldElement`]).
//!
//! An element is held as the limbs of its canonical representative. The
//! arithmetic is that of `ark_bn254::Fr` and `ark_bn254::Fq`.

use crate::number;
use ark_bn254::{Fq, Fr};
use ark_ff::{BigInt, BigInteger, PrimeField};
use vstd::arithmetic::div_mod::*;
use vstd::prelude::*;

verus! {

/// The order of the group G1 of BN254.
pub open spec fn scalar_modulus() -> nat {
    0x30644e72_e131a029_b85045b6_8181585d_2833e848_79b97091_43e1f593_f0000001nat
}

/// The order of the field over which the curve BN254 is defined.
pub open spec fn base_modulus() -> nat {
    0x30644e72_e131a029_b85045b6_8181585d_97816a91_6871ca8d_3c208c16_d87cfd47nat
}

/// `Fr + Fr`: the sum modulo [`scalar_modulus`].
#[verifier::external_body]
fn fr_add(a: [u64; 4], b: [u64; 4]) -> (sum: [u64; 4])
    requires
        number::limbs_value(a) < scalar_modulus(),
        number::limbs_value(b) < scalar_modulus(),
    ensures
        number::limbs_value(sum) == (number::limbs_value(a) + number::limbs_value(b))
            % scalar_modulus(),
{
    (Fr::from(BigInt(a)) + Fr::from(BigInt(b))).into_bigint().0
}

/// `Fr * Fr`: the product modulo [`scalar_modulus`].
#[verifier::external_body]
fn fr_mul(a: [u64; 4], b: [u64; 4]) -> (product: [u64; 4])
    requires
        number::limbs_value(a) < scalar_modulus(),
        number::limbs_value(b) < scalar_modulus(),
    ensures
        number::limbs_value(product) == (number::limbs_value(a) * number::limbs_value(b))
            % scalar_modulus(),
{
    (Fr::from(BigInt(a)) * Fr::from(BigInt(b))).into_bigint().0
}

/// `Fr::from(u128)`: the number itself, which is below [`scalar_modulus`].
#[verifier::external_body]
fn fr_from_u128(n: u128) -> (limbs: [u64; 4])
    ensures
        number::limbs_value(limbs) == n,
{
    Fr::from(n).into_bigint().0
}

/// `Fr::from_be_bytes_mod_order`: the number that `bytes` writes, modulo [`scalar_modulus`].
#[verifier::external_body]
fn fr_from_be_bytes_mod_order(bytes: &[u8]) -> (limbs: [u64; 4])
    ensures
        number::limbs_value(limbs) == number::be_value(bytes@) % scalar_modulus(),
{
    Fr::from_be_bytes_mod_order(bytes).into_bigint().0
}

/// `Fq::from_be_bytes_mod_order`: the number that `bytes` writes, modulo [`base_modulus`].
#[verifier::external_body]
fn fq_from_be_bytes_mod_order(bytes: &[u8]) -> (limbs: [u64; 4])
    ensures
        number::limbs_value(limbs) == number::be_value(bytes@) % base_modulus(),
{
    Fq::from_be_bytes_mod_order(bytes).into_bigint().0
}

/// `BigInteger256::to_bytes_be`: thirty-two bytes that write the same number.
#[verifier::external_body]
fn limbs_to_bytes_be(limbs: [u64; 4]) -> (bytes: Vec<u8>)
    ensures
        bytes@.len() == 32,
        number::be_value(bytes@) == number::limbs_value(limbs),
{
    BigInt(limbs).to_bytes_be()
}

/// An element of the scalar field of BN254.
#[derive(Clone, Copy, Debug, PartialEq, Eq)]
pub struct FieldElement {
    limbs: [u64; 4],
}

/// The scalar field element whose canonical representative is `n`.
pub closed spec fn field_of(n: nat) -> FieldElement {
    FieldElement { limbs: number::limbs_of(n) }
}

/// The sum of two scalar field elements.
pub open spec fn field_add(a: FieldElement, b: FieldElement) -> FieldElement {
    field_of((a@ + b@) % scalar_modulus())
}

/// The product of two scalar field elements.
pub open spec fn field_mul(a: FieldElement, b: FieldElement) -> FieldElement {
    field_of((a@ * b@) % scalar_modulus())
}

/// `field_of(n)` stands for `n`, for every `n` that the field holds.
pub proof fn lemma_field_of(n: nat)
    requires
        n < scalar_modulus(),
    ensures
        field_of(n)@ == n,
{
    number::lemma_value_of_limbs(n);
}

/// A field element is determined by the number that it stands for.
pub proof fn lemma_field_of_view(f: FieldElement)
    ensures
        field_of(f@) == f,
{
    number::lemma_limbs_of_value(f.limbs);
}

impl View for FieldElement {
    type V = nat;

    closed spec fn view(&self) -> nat {
        number::limbs_value(self.limbs)
    }
}

impl FieldElement {
    /// Every element is held by its representative below the modulus.
    #[verifier::type_invariant]
    pub open spec fn well_formed(self) -> bool {
        self@ < scalar_modulus()
    }

    /// The element zero.
    pub fn zero() -> (zero: FieldElement)
        ensures
            zero@ == 0,
            zero == field_of(0),
    {
        let zero = FieldElement { limbs: [0, 0, 0, 0] };
        proof {
            lemma_field_of_view(zero);
        }
        zero
    }

    /// The element to which the number that `bytes` writes, most significant byte first, reduces.
    pub fn from_be_bytes_mod_order(bytes: &[u8]) -> (element: FieldElement)
        ensures
            element@ == number::be_value(bytes@) % scalar_modulus(),
    {
        let limbs = fr_from_be_bytes_mod_order(bytes);
        proof {
            lemma_mod_bound(number::be_value(bytes@) as int, scalar_modulus() as int);
        }
        FieldElement { limbs }
    }

    /// The canonical representative as limbs, least significant first.
    pub fn into_repr(self) -> (limbs: [u64; 4])
        ensures
            number::limbs_value(limbs) == self@,
            self@ < scalar_modulus(),
    {
        proof {
            use_type_invariant(&self);
        }
        self.limbs
    }

    /// The canonical representative as thirty-two bytes, most significant first.
    pub fn to_be_bytes(self) -> (bytes: Vec<u8>)
        ensures
            bytes@.len() == 32,
            number::be_value(bytes@) == self@,
            self@ < scalar_modulus(),
    {
        proof {
            use_type_invariant(&self);
        }
        limbs_to_bytes_be(self.limbs)
    }
}

impl From<u128> for FieldElement {
    fn from(n: u128) -> (element: FieldElement)
        ensures
            element@ == n,
    {
        let element = FieldElement { limbs: fr_from_u128(n) };
        proof {
            lemma_field_of_view(element);
        }
        element
    }
}

impl vstd::std_specs::convert::FromSpecImpl<u128> for FieldElement {
    open spec fn obeys_from_spec() -> bool {
        true
    }

    open spec fn from_spec(n: u128) -> FieldElement {
        field_of(n as nat)
    }
}

impl core::ops::Add for FieldElement {
    type Output = FieldElement;

    fn add(self, rhs: FieldElement) -> (sum: FieldElement)
        ensures
            sum@ == (self@ + rhs@) % scalar_modulus(),
    {
        proof {
            use_type_invariant(&self);
            use_type_invariant(&rhs);
            lemma_mod_bound((self@ + rhs@) as int, scalar_modulus() as int);
        }
        let sum = FieldElement { limbs: fr_add(self.limbs, rhs.limbs) };
        proof {
            lemma_field_of_view(sum);
        }
        sum
    }
}

impl vstd::std_specs::ops::AddSpecImpl for FieldElement {
    open spec fn obeys_add_spec() -> bool {
        true
    }

    open spec fn add_req(self, rhs: FieldElement) -> bool {
        true
    }

    open spec fn add_spec(self, rhs: FieldElement) -> FieldElement {
        field_add(self, rhs)
    }
}

impl core::ops::Mul for FieldElement {
    type Output = FieldElement;

    fn mul(self, rhs: FieldElement) -> (product: FieldElement)
        ensures
            product@ == (self@ * rhs@) % scalar_modulus(),
    {
        proof {
            use_type_invariant(&self);
            use_type_invariant(&rhs);
            lemma_mod_bound((self@ * rhs@) as int, scalar_modulus() as int);
        }
        let product = FieldElement { limbs: fr_mul(self.limbs, rhs.limbs) };
        proof {
            lemma_field_of_view(product);
        }
        product
    }
}

impl vstd::std_specs::ops::MulSpecImpl for FieldElement {
    open spec fn obeys_mul_spec() -> bool {
        true
    }

    open spec fn mul_req(self, rhs: FieldElement) -> bool {
        true
    }

    open spec fn mul_spec(self, rhs: FieldElement) -> FieldElement {
        field_mul(self, rhs)
    }
}

/// A coordinate of a point on the curve BN254.
#[derive(Clone, Copy, Debug, PartialEq, Eq)]
pub struct BaseFieldElement {
    limbs: [u64; 4],
}

impl View for BaseFieldElement {
    type V = nat;

    closed spec fn view(&self) -> nat {
        number::limbs_value(self.limbs)
    }
}

impl BaseFieldElement {
    /// Every element is held by its representative below the modulus.
    #[verifier::type_invariant]
    pub open spec fn well_formed(self) -> bool {
        self@ < base_modulus()
    }

    /// The element zero.
    pub fn zero() -> (zero: BaseFieldElement)
        ensures
            zero@ == 0,
    {
        BaseFieldElement { limbs: [0, 0, 0, 0] }
    }

    /// The element to which the number that `bytes` writes, most significant byte first, reduces.
    pub fn from_be_bytes_mod_order(bytes: &[u8]) -> (element: BaseFieldElement)
        ensures
            element@ == number::be_value(bytes@) % base_modulus(),
    {
        let limbs = fq_from_be_bytes_mod_order(bytes);
        proof {
            lemma_mod_bound(number::be_value(bytes@) as int, base_modulus() as int);
        }
        BaseFieldElement { limbs }
    }

    /// The element that `limbs`, least significant first, represent, if they are canonical.
    pub(crate) fn from_canonical(limbs: [u64; 4]) -> (element: BaseFieldElement)
        requires
            number::limbs_value(limbs) < base_modulus(),
        ensures
            element@ == number::limbs_value(limbs),
    {
        BaseFieldElement { limbs }
    }

    /// The canonical representative as limbs, least significant first.
    pub fn into_repr(self) -> (limbs: [u64; 4])
        ensures
            number::limbs_value(limbs) == self@,
            self@ < base_modulus(),
    {
        proof {
            use_type_invariant(&self);
        }
        self.limbs
    }

    /// The canonical representative as thirty-two bytes, most significant first.
    pub fn to_be_bytes(self) -> (bytes: Vec<u8>)
        ensures
            bytes@.len() == 32,
            number::be_value(bytes@) == self@,
            self@ < base_modulus(),
    {
        proof {
            use_type_invariant(&self);
        }
        limbs_to_bytes_be(self.limbs)
    }
}

} // verus!
