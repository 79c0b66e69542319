//! KZG commitments to witness values, and their encoding as field elements.

use crate::bigint;
use crate::curve;
use crate::curve::G1Point;
use crate::field;
use crate::field::{BaseFieldElement, FieldElement};
use crate::number;
use crate::solver::{BlackBoxFunc, BlackBoxResolutionError};
use crate::text;
use vstd::arithmetic::div_mod::*;
use vstd::arithmetic::mul::*;
use vstd::arithmetic::power2::*;
use vstd::prelude::*;

verus! {

/// Number of bits in the lower of the two limbs that encode a coordinate.
pub const NUM_LIMB_BITS: u32 = 136;

/// The least number that does not fit into a lower limb, 2^136.
pub open spec fn limb_bound() -> nat {
    0x100_0000_0000_0000_0000_0000_0000_0000_0000nat
}

/// The least number that does not fit into an upper limb, 2^118.
pub open spec fn upper_limb_bound() -> nat {
    0x40_0000_0000_0000_0000_0000_0000_0000nat
}

/// The bounds of the limbs are powers of two: a lower limb has `NUM_LIMB_BITS`
/// bits, an upper limb the other 118 of 254.
pub proof fn lemma_limb_bounds()
    ensures
        limb_bound() == pow2(NUM_LIMB_BITS as nat),
        upper_limb_bound() == pow2(118),
{
    number::lemma_pow2_values();
}

/// The failure of a commitment to more or fewer values than there are points.
pub open spec fn msm_failure(shorter: nat) -> (BlackBoxFunc, Seq<char>) {
    (
        BlackBoxFunc::Poseidon2Permutation,
        "PhaseBarrier: KZG commitment MSM failed: "@ + text::decimal(shorter),
    )
}

/// The lower limb of a coordinate.
pub open spec fn limb_lo(coordinate: nat) -> FieldElement {
    field::field_of(coordinate % limb_bound())
}

/// The upper limb of a coordinate.
pub open spec fn limb_hi(coordinate: nat) -> FieldElement {
    field::field_of(coordinate / limb_bound())
}

/// A point as field elements: the limbs of x and of y, the lower limb first;
/// zeros for the point at infinity.
pub open spec fn encoding(point: Option<(nat, nat)>) -> Seq<FieldElement> {
    match point {
        None => seq![
            field::field_of(0),
            field::field_of(0),
            field::field_of(0),
            field::field_of(0),
        ],
        Some((x, y)) => seq![limb_lo(x), limb_hi(x), limb_lo(y), limb_hi(y)],
    }
}

/// Compute KZG commitment: C = sum_i witness_values[i] * SRS[i]
pub fn kzg_commit(witness_values: &[FieldElement], srs_points: &[G1Point]) -> (commitment: Result<
    G1Point,
    BlackBoxResolutionError,
>)
    ensures
        commitment is Ok <==> witness_values@.len() == srs_points@.len(),
        commitment matches Ok(c) ==> c@ == curve::msm_result(
            curve::point_views(srs_points@),
            curve::scalar_views(witness_values@),
        ),
        commitment matches Ok(c) ==> curve::all_on_curve(curve::point_views(srs_points@)) ==> c@
            == curve::linear_combination(
            curve::point_views(srs_points@),
            curve::scalar_views(witness_values@),
        ),
        commitment matches Ok(c) ==> curve::is_msm(srs_points@, witness_values@, c),
        commitment matches Err(e) ==> e@ == msm_failure(
            curve::shorter_length(srs_points@, witness_values@),
        ),
        commitment matches Err(e) ==> e@ == (
            BlackBoxFunc::Poseidon2Permutation,
            "PhaseBarrier: KZG commitment MSM failed: "@ + text::decimal(
                if srs_points@.len() < witness_values@.len() {
                    srs_points@.len()
                } else {
                    witness_values@.len()
                },
            ),
        ),
{
    match curve::msm(srs_points, witness_values) {
        Ok(commitment) => Ok(commitment),
        Err(shorter) => {
            let mut reason = "PhaseBarrier: KZG commitment MSM failed: ".to_owned();
            text::append_decimal(&mut reason, shorter);
            Err(BlackBoxResolutionError::Failed(BlackBoxFunc::Poseidon2Permutation, reason))
        },
    }
}

/// Split a coordinate into two scalar field elements: (lo, hi) where lo has
/// `NUM_LIMB_BITS` bits and hi has the remaining bits.
pub fn split_fq_to_fr_pair(fq: &BaseFieldElement) -> (pair: (FieldElement, FieldElement))
    ensures
        pair.0@ == fq@ % limb_bound(),
        pair.1@ == fq@ / limb_bound(),
        pair.0@ + limb_bound() * pair.1@ == fq@,
        pair.0@ < limb_bound(),
        pair.1@ < upper_limb_bound(),
        pair.0@ + pow2(136) * pair.1@ == fq@,
        pair.0@ < pow2(136),
        pair.1@ < pow2(118),
{
    let bytes = fq.to_be_bytes();
    let (lo, hi) = bigint::split_at_bit(bytes.as_slice(), NUM_LIMB_BITS);
    proof {
        lemma_limb_bounds();
        lemma_fundamental_div_mod(fq@ as int, limb_bound() as int);
        lemma_small_mod(fq@ % limb_bound(), field::scalar_modulus());
        lemma_small_mod(fq@ / limb_bound(), field::scalar_modulus());
    }
    (
        FieldElement::from_be_bytes_mod_order(lo.as_slice()),
        FieldElement::from_be_bytes_mod_order(hi.as_slice()),
    )
}

/// Encode a point as four scalar field elements.
///
/// Each coordinate is split into two elements:
/// - lo: lower 136 bits (`NUM_LIMB_BITS`)
/// - hi: upper 118 bits (254 - 136)
///
/// Result: [x_lo, x_hi, y_lo, y_hi]
pub fn encode_g1_as_fr_elements(point: &G1Point) -> (elements: [FieldElement; 4])
    ensures
        elements@ == encoding(point@),
        point@ is None ==> forall|i: int| 0 <= i < 4 ==> (#[trigger] elements@[i])@ == 0,
        point@ matches Some((x, y)) ==> {
            &&& elements@[0]@ + pow2(136) * elements@[1]@ == x
            &&& elements@[0]@ < pow2(136)
            &&& elements@[1]@ < pow2(118)
            &&& elements@[2]@ + pow2(136) * elements@[3]@ == y
            &&& elements@[2]@ < pow2(136)
            &&& elements@[3]@ < pow2(118)
        },
{
    match point.xy() {
        None => {
            let zero = FieldElement::zero();
            [zero, zero, zero, zero]
        },
        Some((x, y)) => {
            let (x_lo, x_hi) = split_fq_to_fr_pair(&x);
            let (y_lo, y_hi) = split_fq_to_fr_pair(&y);
            proof {
                field::lemma_field_of_view(x_lo);
                field::lemma_field_of_view(x_hi);
                field::lemma_field_of_view(y_lo);
                field::lemma_field_of_view(y_hi);
            }
            [x_lo, x_hi, y_lo, y_hi]
        },
    }
}

/// A coordinate is read back from its two limbs.
pub proof fn law_coordinate_from_limbs(coordinate: nat)
    requires
        coordinate < field::base_modulus(),
    ensures
        limb_lo(coordinate)@ + limb_bound() * limb_hi(coordinate)@ == coordinate,
        limb_lo(coordinate)@ < limb_bound(),
        limb_hi(coordinate)@ < upper_limb_bound(),
{
    lemma_fundamental_div_mod(coordinate as int, limb_bound() as int);
    field::lemma_field_of(coordinate % limb_bound());
    field::lemma_field_of(coordinate / limb_bound());
}

/// The encoding of a point holds its coordinates in limbs of 136 and 118 bits,
/// x before y and the lower limb first; the point at infinity is four zeros.
pub proof fn law_encoding_holds_coordinates(point: Option<(nat, nat)>)
    requires
        point matches Some((x, y)) ==> x < field::base_modulus() && y < field::base_modulus(),
    ensures
        encoding(point).len() == 4,
        point is None ==> forall|i: int| 0 <= i < 4 ==> (#[trigger] encoding(point)[i])@ == 0,
        point matches Some((x, y)) ==> {
            &&& encoding(point)[0]@ + pow2(136) * encoding(point)[1]@ == x
            &&& encoding(point)[0]@ < pow2(136)
            &&& encoding(point)[1]@ < pow2(118)
            &&& encoding(point)[2]@ + pow2(136) * encoding(point)[3]@ == y
            &&& encoding(point)[2]@ < pow2(136)
            &&& encoding(point)[3]@ < pow2(118)
        },
{
    field::lemma_field_of(0);
    lemma_limb_bounds();
    if let Some((x, y)) = point {
        law_coordinate_from_limbs(x);
        law_coordinate_from_limbs(y);
    }
}

/// Limbs of 136 and 118 bits are an encoding of the point whose coordinates
/// they make up, and of no other.
pub proof fn law_encoding_of_limbs(x: nat, y: nat, limbs: Seq<FieldElement>)
    requires
        x < field::base_modulus(),
        y < field::base_modulus(),
        limbs.len() == 4,
        limbs[0]@ < pow2(136),
        limbs[0]@ + pow2(136) * limbs[1]@ == x,
        limbs[2]@ < pow2(136),
        limbs[2]@ + pow2(136) * limbs[3]@ == y,
    ensures
        encoding(Some((x, y))) == limbs,
{
    let bound = pow2(136) as int;
    lemma_limb_bounds();
    lemma_mul_is_commutative(bound, limbs[1]@ as int);
    lemma_mul_is_commutative(bound, limbs[3]@ as int);
    lemma_fundamental_div_mod_converse(x as int, bound, limbs[1]@ as int, limbs[0]@ as int);
    lemma_fundamental_div_mod_converse(y as int, bound, limbs[3]@ as int, limbs[2]@ as int);
    field::lemma_field_of_view(limbs[0]);
    field::lemma_field_of_view(limbs[1]);
    field::lemma_field_of_view(limbs[2]);
    field::lemma_field_of_view(limbs[3]);
    assert(encoding(Some((x, y))) =~= limbs);
}

proof fn lemma_origin_off_curve()
    ensures
        !curve::on_curve(Some((0nat, 0nat))),
{
    let zero: nat = 0;
    assert(zero * zero == 0 && zero * zero * zero == 0) by (nonlinear_arith)
        requires
            zero == 0,
    ;
    lemma_small_mod(0, field::base_modulus());
    lemma_small_mod(3, field::base_modulus());
}

/// Different points of the curve have different encodings.
pub proof fn law_encoding_is_injective(p: Option<(nat, nat)>, q: Option<(nat, nat)>)
    requires
        curve::canonical(p),
        curve::canonical(q),
        curve::on_curve(p),
        curve::on_curve(q),
        encoding(p) == encoding(q),
    ensures
        p == q,
{
    field::lemma_field_of(0);
    let zeros = encoding(None);
    if let Some((x, y)) = p {
        law_coordinate_from_limbs(x);
        law_coordinate_from_limbs(y);
        assert(encoding(p)[0] == limb_lo(x) && encoding(p)[1] == limb_hi(x));
        assert(encoding(p)[2] == limb_lo(y) && encoding(p)[3] == limb_hi(y));
    }
    if let Some((x, y)) = q {
        law_coordinate_from_limbs(x);
        law_coordinate_from_limbs(y);
        assert(encoding(q)[0] == limb_lo(x) && encoding(q)[1] == limb_hi(x));
        assert(encoding(q)[2] == limb_lo(y) && encoding(q)[3] == limb_hi(y));
    }
    assert(zeros[0]@ == 0 && zeros[1]@ == 0 && zeros[2]@ == 0 && zeros[3]@ == 0);
    lemma_origin_off_curve();
    lemma_mul_basics(limb_bound() as int);
    match (p, q) {
        (Some((x1, y1)), Some((x2, y2))) => {
            assert(x1 == x2 && y1 == y2);
        },
        (Some((x, y)), None) => {
            assert(x == 0 && y == 0);
        },
        (None, Some((x, y))) => {
            assert(x == 0 && y == 0);
        },
        (None, None) => {},
    }
}

/// A commitment to one value is that multiple of the point; the value one gives the point itself.
pub proof fn law_commitment_to_one_value(point: Option<(nat, nat)>, value: nat)
    ensures
        curve::linear_combination(seq![point], seq![value]) == curve::point_mul(value, point),
        value == 1 ==> curve::linear_combination(seq![point], seq![value]) == point,
{
    reveal_with_fuel(curve::linear_combination, 2);
    reveal_with_fuel(curve::point_mul, 2);
    assert(seq![point].drop_last() =~= Seq::empty());
}

/// One more value adds its multiple of the next point to a commitment.
pub proof fn law_commitment_to_one_more_value(
    points: Seq<Option<(nat, nat)>>,
    values: Seq<nat>,
    point: Option<(nat, nat)>,
    value: nat,
)
    requires
        points.len() == values.len(),
    ensures
        curve::linear_combination(points.push(point), values.push(value)) == curve::point_add(
            curve::linear_combination(points, values),
            curve::point_mul(value, point),
        ),
{
    assert(points.push(point).drop_last() =~= points);
    assert(values.push(value).drop_last() =~= values);
}

/// Each value is committed to by the point in its own place: where one value is
/// one and the others are zero, the commitment is the point in that place.
pub proof fn law_commitment_to_one_place(
    points: Seq<G1Point>,
    values: Seq<FieldElement>,
    place: int,
    commitment: G1Point,
)
    requires
        curve::all_on_curve(curve::point_views(points)),
        values.len() == points.len(),
        0 <= place < values.len(),
        forall|i: int|
            0 <= i < values.len() ==> (#[trigger] values[i])@ == if i == place {
                1nat
            } else {
                0nat
            },
        curve::is_msm(points, values, commitment),
    ensures
        commitment@ == points[place]@,
{
    lemma_one_place(curve::point_views(points), curve::scalar_views(values), place);
}

proof fn lemma_one_place(points: Seq<Option<(nat, nat)>>, scalars: Seq<nat>, place: int)
    requires
        scalars.len() == points.len(),
        0 <= place < scalars.len(),
        forall|i: int|
            0 <= i < scalars.len() ==> #[trigger] scalars[i] == if i == place {
                1nat
            } else {
                0nat
            },
    ensures
        curve::linear_combination(points, scalars) == points[place],
    decreases points.len(),
{
    reveal_with_fuel(curve::point_mul, 2);
    if place == points.len() - 1 {
        lemma_zero_combination(points.drop_last(), scalars.drop_last());
    } else {
        lemma_one_place(points.drop_last(), scalars.drop_last(), place);
    }
}

/// A value of zero behind the others changes nothing.
pub proof fn law_commitment_ignores_trailing_zero(
    points: Seq<G1Point>,
    values: Seq<FieldElement>,
    point: G1Point,
    zero: FieldElement,
    commitment: G1Point,
    longer: G1Point,
)
    requires
        curve::all_on_curve(curve::point_views(points.push(point))),
        values.len() == points.len(),
        zero@ == 0,
        curve::is_msm(points, values, commitment),
        curve::is_msm(points.push(point), values.push(zero), longer),
    ensures
        longer@ == commitment@,
{
    let views = curve::point_views(points);
    let scalars = curve::scalar_views(values);
    assert(curve::point_views(points.push(point)) =~= views.push(point@));
    assert(curve::scalar_views(values.push(zero)) =~= scalars.push(0));
    assert forall|i: int| 0 <= i < views.len() implies curve::on_curve(#[trigger] views[i]) by {
        assert(curve::on_curve(curve::point_views(points.push(point))[i]));
    }
    law_commitment_to_one_more_value(views, scalars, point@, 0);
}

/// Commitments add up: where the values of one commitment are the sums of the
/// values of two others, it is the sum of the two.
pub proof fn law_commitments_add(
    points: Seq<G1Point>,
    u: Seq<FieldElement>,
    v: Seq<FieldElement>,
    w: Seq<FieldElement>,
    commitment_u: G1Point,
    commitment_v: G1Point,
    commitment_w: G1Point,
)
    requires
        curve::all_on_curve(curve::point_views(points)),
        u.len() == points.len(),
        v.len() == points.len(),
        w.len() == points.len(),
        forall|i: int| 0 <= i < u.len() ==> (#[trigger] u[i]).well_formed(),
        forall|i: int| 0 <= i < w.len() ==> #[trigger] w[i] == field::field_add(u[i], v[i]),
        curve::is_msm(points, u, commitment_u),
        curve::is_msm(points, v, commitment_v),
        curve::is_msm(points, w, commitment_w),
    ensures
        commitment_w@ == curve::point_add(commitment_u@, commitment_v@),
{
    let us = curve::scalar_views(u);
    let vs = curve::scalar_views(v);
    assert forall|i: int| 0 <= i < w.len() implies (#[trigger] w[i])@ == (us[i] + vs[i])
        % field::scalar_modulus() by {
        lemma_mod_bound((us[i] + vs[i]) as int, field::scalar_modulus() as int);
        field::lemma_field_of((us[i] + vs[i]) % field::scalar_modulus());
    }
    assert(curve::scalar_views(w) =~= curve::scalar_sums(us, vs));
    assert forall|i: int| 0 <= i < us.len() implies #[trigger] us[i] < field::scalar_modulus() by {
        assert(u[i].well_formed());
    }
    assert(curve::msm_result(curve::point_views(points), curve::scalar_sums(us, vs))
        == curve::point_add(
        curve::msm_result(curve::point_views(points), us),
        commitment_v@,
    ));
}

/// Commitments scale: where the values of one commitment are those of another
/// times a factor, it is that multiple of the other.
pub proof fn law_commitments_scale(
    points: Seq<G1Point>,
    u: Seq<FieldElement>,
    factor: FieldElement,
    w: Seq<FieldElement>,
    commitment_u: G1Point,
    commitment_w: G1Point,
)
    requires
        curve::all_on_curve(curve::point_views(points)),
        u.len() == points.len(),
        w.len() == points.len(),
        forall|i: int| 0 <= i < u.len() ==> (#[trigger] u[i]).well_formed(),
        forall|i: int| 0 <= i < w.len() ==> #[trigger] w[i] == field::field_mul(factor, u[i]),
        curve::is_msm(points, u, commitment_u),
        curve::is_msm(points, w, commitment_w),
    ensures
        commitment_w@ == curve::point_mul(factor@, commitment_u@),
{
    let us = curve::scalar_views(u);
    assert forall|i: int| 0 <= i < w.len() implies (#[trigger] w[i])@ == (factor@ * us[i])
        % field::scalar_modulus() by {
        lemma_mod_bound((factor@ * us[i]) as int, field::scalar_modulus() as int);
        field::lemma_field_of((factor@ * us[i]) % field::scalar_modulus());
    }
    assert(curve::scalar_views(w) =~= curve::scalar_multiples(factor@, us));
    assert forall|i: int| 0 <= i < us.len() implies #[trigger] us[i] < field::scalar_modulus() by {
        assert(u[i].well_formed());
    }
    if factor@ == 0 {
        assert forall|i: int| 0 <= i < w.len() implies #[trigger] curve::scalar_views(w)[i] == 0 by {
            lemma_mul_basics(us[i] as int);
            lemma_small_mod(0, field::scalar_modulus());
        }
        lemma_zero_combination(curve::point_views(points), curve::scalar_views(w));
    } else {
        lemma_multiples_of_result(curve::point_views(points), us, commitment_u@, factor@);
    }
}

/// Points that are all taken no time sum up to the point at infinity.
proof fn lemma_zero_combination(points: Seq<Option<(nat, nat)>>, zeros: Seq<nat>)
    requires
        points.len() == zeros.len(),
        forall|i: int| 0 <= i < zeros.len() ==> #[trigger] zeros[i] == 0,
    ensures
        curve::linear_combination(points, zeros) == None::<(nat, nat)>,
    decreases points.len(),
{
    if points.len() > 0 {
        lemma_zero_combination(points.drop_last(), zeros.drop_last());
    }
}

/// Multiples of the scalars give multiples of the result.
proof fn lemma_multiples_of_result(
    points: Seq<Option<(nat, nat)>>,
    scalars: Seq<nat>,
    result: Option<(nat, nat)>,
    k: nat,
)
    requires
        k > 0,
        scalars.len() == points.len(),
        curve::all_canonical(scalars),
        result == curve::msm_result(points, scalars),
        curve::adds_to_results(points, scalars, result),
    ensures
        curve::msm_result(points, curve::scalar_multiples(k, scalars)) == curve::point_mul(
            k,
            result,
        ),
    decreases k,
{
    let m = field::scalar_modulus();
    if k == 1 {
        assert forall|i: int| 0 <= i < scalars.len() implies (1 * #[trigger] scalars[i]) % m
            == scalars[i] by {
            lemma_small_mod(scalars[i], m);
        }
        assert(curve::scalar_multiples(1, scalars) =~= scalars);
        reveal_with_fuel(curve::point_mul, 2);
    } else {
        let before = curve::scalar_multiples((k - 1) as nat, scalars);
        lemma_multiples_of_result(points, scalars, result, (k - 1) as nat);
        assert forall|i: int| 0 <= i < before.len() implies #[trigger] before[i] < m by {
            lemma_mod_bound(((k - 1) * scalars[i]) as int, m as int);
        }
        assert forall|i: int| 0 <= i < scalars.len() implies (before[i] + #[trigger] scalars[i])
            % m == (k * scalars[i]) % m by {
            let s = scalars[i] as int;
            lemma_add_mod_noop((k - 1) * s, s, m as int);
            lemma_mod_twice((k - 1) * s, m as int);
            lemma_add_mod_noop(((k - 1) * s) % (m as int), s, m as int);
            lemma_mul_is_distributive_sub_other_way(s, k as int, 1);
        }
        assert(curve::scalar_sums(before, scalars) =~= curve::scalar_multiples(k, scalars));
        assert(curve::msm_result(points, curve::scalar_sums(before, scalars)) == curve::point_add(
            curve::msm_result(points, before),
            result,
        ));
    }
}

} // verus!
