//! Numbers of any size, held as big-endian bytes.
//!
//! The arithmetic is that of `num_bigint::BigUint`; each number crosses over
//! as its bytes.

use crate::number;
use num_bigint::BigUint;
use vstd::arithmetic::mul::*;
use vstd::arithmetic::power2::*;
use vstd::prelude::*;

verus! {

/// `BigUint::from(u64)`: the number `n` itself.
#[verifier::external_body]
fn biguint_from(n: u64) -> (bytes: Vec<u8>)
    ensures
        number::be_value(bytes@) == n,
{
    BigUint::from(n).to_bytes_be()
}

/// `BigUint << u32`: `a` times two to the power of `shift`.
#[verifier::external_body]
fn biguint_shl(a: &[u8], shift: u32) -> (bytes: Vec<u8>)
    ensures
        number::be_value(bytes@) == number::be_value(a@) * pow2(shift as nat),
{
    (BigUint::from_bytes_be(a) << shift).to_bytes_be()
}

/// `BigUint - u64`: the difference, which must not be negative.
#[verifier::external_body]
fn biguint_sub(a: &[u8], b: u64) -> (bytes: Vec<u8>)
    requires
        number::be_value(a@) >= b,
    ensures
        number::be_value(bytes@) == number::be_value(a@) - b,
{
    (BigUint::from_bytes_be(a) - b).to_bytes_be()
}

/// `&BigUint & &BigUint`: the digit-wise conjunction in base two.
#[verifier::external_body]
fn biguint_and(a: &[u8], b: &[u8]) -> (bytes: Vec<u8>)
    ensures
        number::be_value(bytes@) == number::bit_and(number::be_value(a@), number::be_value(b@)),
{
    (&BigUint::from_bytes_be(a) & &BigUint::from_bytes_be(b)).to_bytes_be()
}

/// `&BigUint >> u32`: the quotient of `a` by two to the power of `shift`.
#[verifier::external_body]
fn biguint_shr(a: &[u8], shift: u32) -> (bytes: Vec<u8>)
    ensures
        number::be_value(bytes@) == number::be_value(a@) / pow2(shift as nat),
{
    (&BigUint::from_bytes_be(a) >> shift).to_bytes_be()
}

/// Cuts a number in two: its lower `bits` binary digits, and all digits above them.
pub fn split_at_bit(digits: &[u8], bits: u32) -> (halves: (Vec<u8>, Vec<u8>))
    ensures
        number::be_value(halves.0@) == number::be_value(digits@) % pow2(bits as nat),
        number::be_value(halves.1@) == number::be_value(digits@) / pow2(bits as nat),
{
    let one = biguint_from(1);
    proof {
        lemma_pow2_pos(bits as nat);
        lemma_mul_basics(pow2(bits as nat) as int);
        number::lemma_bit_and_mask(number::be_value(digits@), bits as nat);
    }
    let power = biguint_shl(one.as_slice(), bits);
    let mask = biguint_sub(power.as_slice(), 1);
    let lo = biguint_and(digits, mask.as_slice());
    let hi = biguint_shr(digits, bits);
    (lo, hi)
}

} // verus!
