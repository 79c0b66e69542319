//! Points of the group G1 of BN254, the curve `y^2 = x^3 + 3`.
//!
//! A point is held as its affine coordinates. Sums of points are computed by
//! `ark_ec`.

use crate::field;
use crate::field::{BaseFieldElement, FieldElement};
use crate::number;
use ark_bn254::{Fq, Fr, G1Affine, G1Projective};
use ark_ec::VariableBaseMSM;
use ark_ff::{BigInt, PrimeField};
use vstd::prelude::*;

verus! {

/// Whether a pair of coordinates solves the equation of the curve; the point
/// at infinity, written `None`, is on it too.
pub open spec fn on_curve(point: Option<(nat, nat)>) -> bool {
    match point {
        None => true,
        Some((x, y)) => (y * y) % field::base_modulus() == (x * x * x + 3) % field::base_modulus(),
    }
}

/// Whether the coordinates of a point are canonical.
pub open spec fn canonical(point: Option<(nat, nat)>) -> bool {
    match point {
        None => true,
        Some((x, y)) => x < field::base_modulus() && y < field::base_modulus(),
    }
}

/// Whether the coordinate `c` times `b` is `a`.
pub open spec fn is_quotient(a: int, b: int, c: int) -> bool {
    &&& 0 <= c < field::base_modulus()
    &&& (b * c - a) % (field::base_modulus() as int) == 0
}

/// The coordinate whose product with `b` is `a`.
pub open spec fn coordinate_div(a: int, b: int) -> int {
    choose|c: int| is_quotient(a, b, c)
}

/// The sum of two points of the curve, by the chord through them or the
/// tangent at them.
pub open spec fn point_add(p: Option<(nat, nat)>, q: Option<(nat, nat)>) -> Option<(nat, nat)> {
    let m = field::base_modulus() as int;
    match (p, q) {
        (None, _) => q,
        (_, None) => p,
        (Some((x1, y1)), Some((x2, y2))) => if x1 == x2 && (y1 + y2) % field::base_modulus() == 0 {
            None
        } else {
            let slope = if x1 == x2 {
                coordinate_div((3 * x1 * x1) as int, (2 * y1) as int)
            } else {
                coordinate_div(y2 - y1, x2 - x1)
            };
            let x3 = (slope * slope - x1 - x2) % m;
            let y3 = (slope * (x1 - x3) - y1) % m;
            Some((x3 as nat, y3 as nat))
        },
    }
}

/// The sum of `k` copies of a point.
pub open spec fn point_mul(k: nat, p: Option<(nat, nat)>) -> Option<(nat, nat)>
    decreases k,
{
    if k == 0 {
        None
    } else {
        point_add(point_mul((k - 1) as nat, p), p)
    }
}

/// The sum of the points, each taken as often as the scalar beside it says.
pub open spec fn linear_combination(
    points: Seq<Option<(nat, nat)>>,
    scalars: Seq<nat>,
) -> Option<(nat, nat)>
    decreases points.len(),
{
    if points.len() == 0 {
        None
    } else {
        point_add(
            linear_combination(points.drop_last(), scalars.drop_last()),
            point_mul(scalars.last(), points.last()),
        )
    }
}

/// Whether every point of a sequence is on the curve.
pub open spec fn all_on_curve(points: Seq<Option<(nat, nat)>>) -> bool {
    forall|i: int| 0 <= i < points.len() ==> on_curve(#[trigger] points[i])
}

/// Whether every scalar of a sequence is canonical.
pub open spec fn all_canonical(scalars: Seq<nat>) -> bool {
    forall|i: int| 0 <= i < scalars.len() ==> #[trigger] scalars[i] < field::scalar_modulus()
}

/// The sums of the scalars in the same places of two sequences.
pub open spec fn scalar_sums(a: Seq<nat>, b: Seq<nat>) -> Seq<nat> {
    Seq::new(a.len(), |i: int| (a[i] + b[i]) % field::scalar_modulus())
}

/// The products of a number with the scalars of a sequence.
pub open spec fn scalar_multiples(k: nat, a: Seq<nat>) -> Seq<nat> {
    Seq::new(a.len(), |i: int| (k * a[i]) % field::scalar_modulus())
}

/// Whether results for scalars `more`, and for the sums of `more` and
/// `scalars`, differ by the point `result` that belongs to `scalars`.
pub open spec fn adds_to_results(
    points: Seq<Option<(nat, nat)>>,
    scalars: Seq<nat>,
    result: Option<(nat, nat)>,
) -> bool {
    forall|more: Seq<nat>|
        more.len() == points.len() && all_canonical(more) ==> #[trigger] msm_result(
            points,
            scalar_sums(more, scalars),
        ) == point_add(msm_result(points, more), result)
}

/// What is known of the sum of the points, each multiplied by the scalar beside it.
pub open spec fn is_msm(points: Seq<G1Point>, scalars: Seq<FieldElement>, sum: G1Point) -> bool {
    &&& sum@ == msm_result(point_views(points), scalar_views(scalars))
    &&& all_on_curve(point_views(points)) ==> {
        &&& sum@ == linear_combination(point_views(points), scalar_views(scalars))
        &&& adds_to_results(point_views(points), scalar_views(scalars), sum@)
    }
}

/// The smaller of two lengths.
pub open spec fn shorter_length(points: Seq<G1Point>, scalars: Seq<FieldElement>) -> nat {
    if points.len() < scalars.len() {
        points.len()
    } else {
        scalars.len()
    }
}

/// What `VariableBaseMSM::msm` gives for as many points as scalars. Outside
/// the curve, where points have no sum, it is the outcome of its formulas.
pub uninterp spec fn msm_result(
    points: Seq<Option<(nat, nat)>>,
    scalars: Seq<nat>,
) -> Option<(nat, nat)>;

/// The point whose affine coordinates, or whose place at infinity, three plain values give.
pub open spec fn raw_point(raw: ([u64; 4], [u64; 4], bool)) -> Option<(nat, nat)> {
    if raw.2 {
        None
    } else {
        Some((number::limbs_value(raw.0), number::limbs_value(raw.1)))
    }
}

/// `G1Affine::is_on_curve`: whether the point solves the equation of the curve.
#[verifier::external_body]
fn g1_is_on_curve(x: [u64; 4], y: [u64; 4], infinity: bool) -> (result: bool)
    requires
        number::limbs_value(x) < field::base_modulus(),
        number::limbs_value(y) < field::base_modulus(),
    ensures
        result == on_curve(raw_point((x, y, infinity))),
{
    G1Affine { x: Fq::from(BigInt(x)), y: Fq::from(BigInt(y)), infinity }.is_on_curve()
}

/// `G1Projective::msm`, brought to affine coordinates: refuses slices of
/// different lengths with the smaller length, and otherwise gives
/// [`msm_result`], with canonical coordinates. Points of the curve it sums as
/// [`linear_combination`] does; they form a group of prime order over whose
/// scalars `msm` is an inner product, so that its results add up as the
/// scalars do.
#[verifier::external_body]
fn g1_msm(points: &[G1Point], scalars: &[FieldElement]) -> (result: Result<
    ([u64; 4], [u64; 4], bool),
    usize,
>)
    ensures
        result is Ok <==> points@.len() == scalars@.len(),
        result matches Err(shorter) ==> shorter == shorter_length(points@, scalars@),
        result matches Ok(raw) ==> {
            &&& number::limbs_value(raw.0) < field::base_modulus()
            &&& number::limbs_value(raw.1) < field::base_modulus()
            &&& raw_point(raw) == msm_result(point_views(points@), scalar_views(scalars@))
            &&& all_on_curve(point_views(points@)) ==> raw_point(raw) == linear_combination(
                point_views(points@),
                scalar_views(scalars@),
            )
            &&& all_on_curve(point_views(points@)) ==> adds_to_results(
                point_views(points@),
                scalar_views(scalars@),
                raw_point(raw),
            )
        },
{
    let bases: Vec<G1Affine> = points.iter().map(|p| G1Affine {
        x: Fq::from(BigInt(p.x.into_repr())),
        y: Fq::from(BigInt(p.y.into_repr())),
        infinity: p.infinity,
    }).collect();
    let factors: Vec<Fr> = scalars.iter().map(|s| Fr::from(BigInt(s.into_repr()))).collect();
    let sum: G1Affine = G1Projective::msm(&bases, &factors)?.into();
    Ok((sum.x.into_bigint().0, sum.y.into_bigint().0, sum.infinity))
}

/// A point of G1 in affine coordinates, or the point at infinity.
#[derive(Clone, Copy, Debug, PartialEq, Eq)]
pub struct G1Point {
    x: BaseFieldElement,
    y: BaseFieldElement,
    infinity: bool,
}

/// The points of a sequence, each as its coordinates.
pub open spec fn point_views(points: Seq<G1Point>) -> Seq<Option<(nat, nat)>> {
    points.map_values(|p: G1Point| p@)
}

/// The scalars of a sequence, each as the number that it stands for.
pub open spec fn scalar_views(scalars: Seq<FieldElement>) -> Seq<nat> {
    scalars.map_values(|s: FieldElement| s@)
}

impl View for G1Point {
    type V = Option<(nat, nat)>;

    closed spec fn view(&self) -> Option<(nat, nat)> {
        if self.infinity {
            None
        } else {
            Some((self.x@, self.y@))
        }
    }
}

impl G1Point {
    /// The point at infinity is written in one way only.
    #[verifier::type_invariant]
    closed spec fn well_formed(self) -> bool {
        self.infinity ==> self.x@ == 0 && self.y@ == 0
    }

    /// The point at infinity.
    pub fn zero() -> (point: G1Point)
        ensures
            point@ == None::<(nat, nat)>,
    {
        G1Point { x: BaseFieldElement::zero(), y: BaseFieldElement::zero(), infinity: true }
    }

    /// The point with the given coordinates, which may lie off the curve.
    pub fn new_unchecked(x: BaseFieldElement, y: BaseFieldElement) -> (point: G1Point)
        ensures
            point@ == Some((x@, y@)),
    {
        G1Point { x, y, infinity: false }
    }

    /// The affine coordinates; none at infinity.
    pub fn xy(&self) -> (coordinates: Option<(BaseFieldElement, BaseFieldElement)>)
        ensures
            coordinates matches Some((x, y)) ==> self@ == Some((x@, y@)),
            coordinates is None <==> self@ is None,
    {
        if self.infinity {
            None
        } else {
            Some((self.x, self.y))
        }
    }

    /// Whether the coordinates solve the equation of the curve.
    pub fn is_on_curve(&self) -> (result: bool)
        ensures
            result == on_curve(self@),
    {
        g1_is_on_curve(self.x.into_repr(), self.y.into_repr(), self.infinity)
    }
}

/// Multiplies each point by the scalar beside it and sums the products.
///
/// Slices of different lengths are refused with the smaller length.
pub fn msm(points: &[G1Point], scalars: &[FieldElement]) -> (result: Result<G1Point, usize>)
    ensures
        result is Ok <==> points@.len() == scalars@.len(),
        result matches Err(shorter) ==> shorter == shorter_length(points@, scalars@),
        result matches Ok(sum) ==> is_msm(points@, scalars@, sum),
        result matches Ok(sum) ==> sum@ == msm_result(point_views(points@), scalar_views(scalars@)),
{
    match g1_msm(points, scalars) {
        Ok((x, y, infinity)) => if infinity {
            Ok(G1Point::zero())
        } else {
            Ok(
                G1Point::new_unchecked(
                    BaseFieldElement::from_canonical(x),
                    BaseFieldElement::from_canonical(y),
                ),
            )
        },
        Err(shorter) => Err(shorter),
    }
}

/// Points and scalars are viewed one by one, each in its own place.
pub proof fn law_views_keep_places(points: Seq<G1Point>, scalars: Seq<FieldElement>)
    ensures
        point_views(points).len() == points.len(),
        forall|i: int| 0 <= i < points.len() ==> #[trigger] point_views(points)[i] == points[i]@,
        scalar_views(scalars).len() == scalars.len(),
        forall|i: int|
            0 <= i < scalars.len() ==> #[trigger] scalar_views(scalars)[i] == scalars[i]@,
{
}

/// The point at infinity is neutral, a point and its mirror image sum up to it,
/// and it is the sum of no points.
pub proof fn law_infinity_is_neutral(p: Option<(nat, nat)>, x: nat, y: nat)
    requires
        0 < y < field::base_modulus(),
    ensures
        point_add(None, p) == p,
        point_add(p, None) == p,
        point_add(Some((x, y)), Some((x, (field::base_modulus() - y) as nat))) == None::<
            (nat, nat),
        >,
        linear_combination(Seq::empty(), Seq::empty()) == None::<(nat, nat)>,
{
}

/// Where the line through two points with different first coordinates has a
/// slope, their sum is the mirror image of the third point on it.
pub proof fn law_sum_by_chord(x1: nat, y1: nat, x2: nat, y2: nat, quotient: int)
    requires
        x1 != x2,
        0 <= quotient < field::base_modulus(),
        ((x2 - x1) * quotient - (y2 - y1)) % (field::base_modulus() as int) == 0,
    ensures
        exists|slope: int|
            {
                let m = field::base_modulus() as int;
                let x3 = (slope * slope - x1 - x2) % m;
                &&& 0 <= slope < m
                &&& #[trigger] ((x2 - x1) * slope - (y2 - y1)) % m == 0
                &&& point_add(Some((x1, y1)), Some((x2, y2))) == Some(
                    (x3 as nat, ((slope * (x1 - x3) - y1) % m) as nat),
                )
            },
{
    assert(is_quotient(y2 - y1, x2 - x1, quotient));
    let slope = coordinate_div(y2 - y1, x2 - x1);
    assert(is_quotient(y2 - y1, x2 - x1, slope));
    assert(((x2 - x1) * slope - (y2 - y1)) % (field::base_modulus() as int) == 0);
}

/// Where the tangent at a point has a slope, the point added to itself is the
/// mirror image of the second point on it.
pub proof fn law_double_by_tangent(x: nat, y: nat, quotient: int)
    requires
        (y + y) % field::base_modulus() != 0,
        0 <= quotient < field::base_modulus(),
        (2 * y * quotient - 3 * x * x) % (field::base_modulus() as int) == 0,
    ensures
        exists|slope: int|
            {
                let m = field::base_modulus() as int;
                let x3 = (slope * slope - x - x) % m;
                &&& 0 <= slope < m
                &&& #[trigger] (2 * y * slope - 3 * x * x) % m == 0
                &&& point_add(Some((x, y)), Some((x, y))) == Some(
                    (x3 as nat, ((slope * (x - x3) - y) % m) as nat),
                )
            },
{
    assert(is_quotient((3 * x * x) as int, (2 * y) as int, quotient));
    let slope = coordinate_div((3 * x * x) as int, (2 * y) as int);
    assert(is_quotient((3 * x * x) as int, (2 * y) as int, slope));
    assert((2 * y * slope - 3 * x * x) % (field::base_modulus() as int) == 0);
}

} // verus!
