//! Natural numbers as they are written down in bytes, limbs and bits.

use vstd::arithmetic::div_mod::*;
use vstd::arithmetic::mul::*;
use vstd::arithmetic::power2::*;
use vstd::prelude::*;

verus! {

/// The number that `bytes` writes in base 256, most significant byte first.
pub open spec fn be_value(bytes: Seq<u8>) -> nat
    decreases bytes.len(),
{
    if bytes.len() == 0 {
        0
    } else {
        256 * be_value(bytes.drop_last()) + bytes.last() as nat
    }
}

/// Two to the power of sixty-four, the weight of one limb over the one below it.
pub open spec fn limb_base() -> nat {
    0x1_0000_0000_0000_0000
}

/// The number that four limbs write in base 2^64, least significant limb first.
pub open spec fn limbs_value(limbs: [u64; 4]) -> nat {
    limbs[0] as nat + limb_base() * (limbs[1] as nat + limb_base() * (limbs[2] as nat + limb_base()
        * (limbs[3] as nat)))
}

/// The four limbs of `n`, the inverse of [`limbs_value`] below 2^256.
pub open spec fn limbs_of(n: nat) -> [u64; 4] {
    [
        (n % limb_base()) as u64,
        (n / limb_base() % limb_base()) as u64,
        (n / limb_base() / limb_base() % limb_base()) as u64,
        (n / limb_base() / limb_base() / limb_base() % limb_base()) as u64,
    ]
}

/// The number whose binary digits are one exactly where those of `a` and of `b` are.
pub open spec fn bit_and(a: nat, b: nat) -> nat
    decreases a,
{
    if a == 0 {
        0
    } else {
        2 * bit_and(a / 2, b / 2) + (if a % 2 == 1 && b % 2 == 1 {
            1nat
        } else {
            0nat
        })
    }
}

/// Four limbs are read back from the number that they write.
pub proof fn lemma_limbs_of_value(limbs: [u64; 4])
    ensures
        limbs_of(limbs_value(limbs)) == limbs,
{
    let base = limb_base() as int;
    let n3 = limbs[3] as int;
    let n2 = limbs[2] + base * n3;
    let n1 = limbs[1] + base * n2;
    let n0 = limbs[0] + base * n1;
    lemma_fundamental_div_mod_converse(n0, base, n1, limbs[0] as int);
    lemma_fundamental_div_mod_converse(n1, base, n2, limbs[1] as int);
    lemma_fundamental_div_mod_converse(n2, base, n3, limbs[2] as int);
    lemma_small_mod(limbs[3] as nat, limb_base());
    assert(n0 == limbs_value(limbs));
    assert(limbs_of(limbs_value(limbs)) =~= limbs);
}

/// A number below 2^256 is what its four limbs write.
pub proof fn lemma_value_of_limbs(n: nat)
    requires
        n < limb_base() * limb_base() * limb_base() * limb_base(),
    ensures
        limbs_value(limbs_of(n)) == n,
{
    let base = limb_base();
    let n1 = n / base;
    let n2 = n1 / base;
    let n3 = n2 / base;
    lemma_fundamental_div_mod(n as int, base as int);
    lemma_fundamental_div_mod(n1 as int, base as int);
    lemma_fundamental_div_mod(n2 as int, base as int);
    assert(n3 < base);
    lemma_small_mod(n3, base);
}

/// A mask of `k` ones keeps the lower `k` binary digits of a number.
pub proof fn lemma_bit_and_mask(a: nat, k: nat)
    ensures
        bit_and(a, (pow2(k) - 1) as nat) == a % pow2(k),
    decreases a, k,
{
    lemma_pow2_pos(k);
    if a == 0 {
        lemma_small_mod(0, pow2(k));
    } else if k == 0 {
        lemma2_to64();
        lemma_bit_and_zero(a);
    } else {
        let half = pow2((k - 1) as nat);
        lemma_pow2_unfold(k);
        lemma_pow2_pos((k - 1) as nat);
        lemma_bit_and_mask(a / 2, (k - 1) as nat);
        assert((pow2(k) - 1) as nat / 2 == (half - 1) as nat);
        assert((pow2(k) - 1) as nat % 2 == 1);
        // a == 2 * (half * q + s) + b with s < half and b < 2
        let q = (a / 2) / half;
        let s = (a / 2) % half;
        let b = a % 2;
        lemma_fundamental_div_mod((a / 2) as int, half as int);
        lemma_mod_bound((a / 2) as int, half as int);
        assert(a == 2 * (half * q + s) + b);
        assert(2 * (half * q) == (2 * half) * q) by (nonlinear_arith);
        lemma_mul_is_commutative(q as int, pow2(k) as int);
        lemma_fundamental_div_mod_converse(a as int, pow2(k) as int, q as int, (2 * s + b) as int);
    }
}

proof fn lemma_bit_and_zero(a: nat)
    ensures
        bit_and(a, 0) == 0,
    decreases a,
{
    if a != 0 {
        lemma_bit_and_zero(a / 2);
    }
}

/// One byte writes itself, and bytes that follow others shift what those write
/// by eight binary digits each.
pub proof fn law_bytes_in_a_row(byte: u8, a: Seq<u8>, b: Seq<u8>)
    ensures
        be_value(seq![byte]) == byte,
        be_value(a + b) == be_value(a) * pow2(8 * b.len()) + be_value(b),
        be_value(a) < pow2(8 * a.len()),
    decreases a.len(), b.len(),
{
    reveal_with_fuel(be_value, 2);
    assert(seq![byte].drop_last() =~= Seq::empty());
    lemma2_to64();
    if a.len() > 0 {
        let fewer = a.drop_last();
        law_bytes_in_a_row(byte, fewer, Seq::empty());
        lemma_pow2_adds(8 * fewer.len(), 8);
        assert(8 * a.len() == 8 * fewer.len() + 8);
    }
    if b.len() == 0 {
        assert(a + b =~= a);
        lemma_mul_basics(be_value(a) as int);
    } else {
        let fewer = b.drop_last();
        law_bytes_in_a_row(byte, a, fewer);
        assert((a + b).drop_last() =~= a + fewer);
        assert((a + b).last() == b.last());
        lemma_pow2_adds(8 * fewer.len(), 8);
        assert(8 * b.len() == 8 * fewer.len() + 8);
        let power = pow2(8 * fewer.len());
        assert(256 * (be_value(a) * power) == be_value(a) * (power * 256)) by (nonlinear_arith);
    }
}

/// Bytes that are all `0xFF` write the greatest number that so many bytes can write.
pub proof fn lemma_be_value_of_ones(bytes: Seq<u8>)
    requires
        forall|k: int| 0 <= k < bytes.len() ==> #[trigger] bytes[k] == 0xFF,
    ensures
        be_value(bytes) + 1 == pow2(8 * bytes.len()),
    decreases bytes.len(),
{
    lemma2_to64();
    if bytes.len() > 0 {
        let fewer = bytes.drop_last();
        lemma_be_value_of_ones(fewer);
        lemma_pow2_adds(8 * fewer.len(), 8);
        assert(8 * bytes.len() == 8 * fewer.len() + 8);
    }
}

/// The powers of two that bound limbs and challenges, written out.
pub proof fn lemma_pow2_values()
    ensures
        pow2(118) == 0x40_0000_0000_0000_0000_0000_0000_0000nat,
        pow2(127) == 0x8000_0000_0000_0000_0000_0000_0000_0000nat,
        pow2(136) == 0x100_0000_0000_0000_0000_0000_0000_0000_0000nat,
{
    lemma2_to64();
    lemma2_to64_rest();
    lemma_pow2_adds(54, 64);
    lemma_pow2_adds(63, 64);
    lemma_pow2_adds(64, 64);
    lemma_pow2_adds(128, 8);
}

} // verus!
