//! The structured reference string (SRS): where its file is, and what the file holds.
//!
//! The file holds the points of G1 one after the other, each as sixty-four
//! bytes: the coordinates x and y, thirty-two bytes each, most significant
//! byte first. A point of which every byte is `0xFF` is the point at infinity.

use crate::curve;
use crate::curve::G1Point;
use crate::field;
use crate::field::BaseFieldElement;
use crate::number;
use crate::solver::{BlackBoxFunc, BlackBoxResolutionError};
use crate::text;
use vstd::arithmetic::div_mod::*;
use vstd::arithmetic::power2::*;
use vstd::prelude::*;
use vstd::slice::*;
use vstd::string::*;

verus! {

/// Whether every byte is `0xFF`.
pub open spec fn all_ones(bytes: Seq<u8>) -> bool {
    forall|k: int| 0 <= k < bytes.len() ==> #[trigger] bytes[k] == 0xFF
}

/// The number of whole points in a file.
pub open spec fn points_in(data: Seq<u8>) -> nat {
    data.len() / 64
}

/// The point that sixty-four bytes of the file write.
pub open spec fn encoded_point(bytes: Seq<u8>) -> Option<(nat, nat)> {
    if all_ones(bytes) {
        None
    } else {
        Some(
            (
                number::be_value(bytes.take(32)) % field::base_modulus(),
                number::be_value(bytes.skip(32)) % field::base_modulus(),
            ),
        )
    }
}

/// The point at place `i` of the file.
pub open spec fn srs_point(data: Seq<u8>, i: int) -> Option<(nat, nat)> {
    encoded_point(data.subrange(64 * i, 64 * i + 64))
}

/// The first `n` points of the file.
pub open spec fn srs_points(data: Seq<u8>, n: nat) -> Seq<Option<(nat, nat)>> {
    Seq::new(n, |i: int| srs_point(data, i))
}

/// The failure when the file holds fewer points than are needed.
pub open spec fn too_few_points(available: nat, needed: nat) -> (BlackBoxFunc, Seq<char>) {
    (
        BlackBoxFunc::Poseidon2Permutation,
        "PhaseBarrier: SRS file has "@ + text::decimal(available) + " points but "@ + text::decimal(
            needed,
        ) + " are needed"@,
    )
}

/// The failure when there is no directory to look for the file in.
pub open spec fn no_srs_directory() -> (BlackBoxFunc, Seq<char>) {
    (
        BlackBoxFunc::Poseidon2Permutation,
        "PhaseBarrier: cannot determine SRS path (no HOME or CRS_PATH set)"@,
    )
}

/// Determine the SRS file path from the values of `CRS_PATH` and of `HOME`,
/// where they are set: `CRS_PATH` goes before `~/.bb-crs/`.
pub fn srs_file_path(crs_path: Option<&str>, home: Option<&str>) -> (path: Result<
    String,
    BlackBoxResolutionError,
>)
    ensures
        match (crs_path, home) {
            (Some(dir), _) => (path matches Ok(p) && p@ == dir@ + "/bn254_g1.dat"@),
            (None, Some(dir)) => (path matches Ok(p) && p@ == dir@ + "/.bb-crs"@ + "/bn254_g1.dat"@),
            (None, None) => (path matches Err(e) && e@ == no_srs_directory()),
        },
{
    let base_dir = match crs_path {
        Some(dir) => dir.to_owned(),
        None => match home {
            Some(dir) => text::join(dir, "/.bb-crs"),
            None => {
                return Err(
                    BlackBoxResolutionError::Failed(
                        BlackBoxFunc::Poseidon2Permutation,
                        "PhaseBarrier: cannot determine SRS path (no HOME or CRS_PATH set)".to_owned(),
                    ),
                );
            },
        },
    };
    Ok(text::join(base_dir.as_str(), "/bn254_g1.dat"))
}

/// The failure to read the file at `path`, for the reason that `cause` gives.
pub fn srs_read_error(path: &str, cause: &str) -> (error: BlackBoxResolutionError)
    ensures
        error@ == (
            BlackBoxFunc::Poseidon2Permutation,
            "PhaseBarrier: failed to read BN254 SRS file at '"@ + path@ + "': "@ + cause@,
        ),
{
    let mut reason = text::join("PhaseBarrier: failed to read BN254 SRS file at '", path);
    reason.append("': ");
    reason.append(cause);
    BlackBoxResolutionError::Failed(BlackBoxFunc::Poseidon2Permutation, reason)
}

fn is_all_ones(bytes: &[u8]) -> (result: bool)
    ensures
        result == all_ones(bytes@),
{
    for i in 0..bytes.len()
        invariant
            forall|k: int| 0 <= k < i ==> #[trigger] bytes@[k] == 0xFF,
    {
        if bytes[i] != 0xFF {
            return false;
        }
    }
    true
}

/// Reads one point of the file.
///
/// The SRS is trusted: the point is not tested to be on the curve.
fn parse_point(bytes: &[u8]) -> (point: G1Point)
    requires
        bytes@.len() == 64,
    ensures
        point@ == encoded_point(bytes@),
{
    let x_bytes = slice_subrange(bytes, 0, 32);
    let y_bytes = slice_subrange(bytes, 32, 64);
    proof {
        assert(x_bytes@ == bytes@.take(32));
        assert(y_bytes@ == bytes@.skip(32));
        if all_ones(x_bytes@) && all_ones(y_bytes@) {
            assert forall|k: int| 0 <= k < bytes@.len() implies #[trigger] bytes@[k] == 0xFF by {
                if k < 32 {
                    assert(x_bytes@[k] == bytes@[k]);
                } else {
                    assert(y_bytes@[k - 32] == bytes@[k]);
                }
            }
        }
    }
    // Check for point at infinity (all 0xFF)
    if is_all_ones(x_bytes) && is_all_ones(y_bytes) {
        return G1Point::zero();
    }
    let x = BaseFieldElement::from_be_bytes_mod_order(x_bytes);
    let y = BaseFieldElement::from_be_bytes_mod_order(y_bytes);
    G1Point::new_unchecked(x, y)
}

/// Reads the first `num_points` points out of the bytes of an SRS file.
pub fn parse_srs(data: &[u8], num_points: usize) -> (points: Result<
    Vec<G1Point>,
    BlackBoxResolutionError,
>)
    ensures
        points is Ok <==> num_points <= points_in(data@),
        points is Ok <==> 64 * num_points <= data@.len(),
        points matches Ok(p) ==> curve::point_views(p@) == srs_points(data@, num_points as nat),
        points matches Ok(p) ==> p@.len() == num_points && forall|i: int|
            0 <= i < num_points ==> (#[trigger] p@[i])@ == srs_points(data@, num_points as nat)[i],
        points matches Err(e) ==> e@ == too_few_points(points_in(data@), num_points as nat),
        points matches Err(e) ==> e@ == (
            BlackBoxFunc::Poseidon2Permutation,
            "PhaseBarrier: SRS file has "@ + text::decimal(data@.len() / 64) + " points but "@
                + text::decimal(num_points as nat) + " are needed"@,
        ),
{
    let available_points = data.len() / 64;
    if available_points < num_points {
        let mut reason = "PhaseBarrier: SRS file has ".to_owned();
        text::append_decimal(&mut reason, available_points);
        reason.append(" points but ");
        text::append_decimal(&mut reason, num_points);
        reason.append(" are needed");
        return Err(
            BlackBoxResolutionError::Failed(BlackBoxFunc::Poseidon2Permutation, reason),
        );
    }
    let mut points: Vec<G1Point> = Vec::with_capacity(num_points);
    for i in 0..num_points
        invariant
            num_points <= data.len() / 64,
            curve::point_views(points@) == srs_points(data@, i as nat),
    {
        let offset: usize = i * 64;
        let point = parse_point(slice_subrange(data, offset, offset + 64));
        let ghost before = points@;
        points.push(point);
        proof {
            assert(curve::point_views(points@) =~= curve::point_views(before).push(point@));
            assert(srs_points(data@, (i + 1) as nat) =~= srs_points(data@, i as nat).push(
                srs_point(data@, i as int),
            ));
        }
    }
    proof {
        assert forall|i: int| 0 <= i < points@.len() implies (#[trigger] points@[i])@ == srs_points(
            data@,
            num_points as nat,
        )[i] by {
            assert(curve::point_views(points@)[i] == points@[i]@);
        }
    }
    Ok(points)
}

/// The place of the first point that is not on the curve, if there is one.
pub fn first_off_curve(points: &[G1Point]) -> (place: Option<usize>)
    ensures
        place matches Some(i) ==> {
            &&& i < points@.len()
            &&& !curve::on_curve(points@[i as int]@)
            &&& forall|k: int| 0 <= k < i ==> curve::on_curve(#[trigger] points@[k]@)
        },
        place is None ==> forall|k: int|
            0 <= k < points@.len() ==> curve::on_curve(#[trigger] points@[k]@),
{
    for i in 0..points.len()
        invariant
            forall|k: int| 0 <= k < i ==> curve::on_curve(#[trigger] points@[k]@),
    {
        if !points[i].is_on_curve() {
            return Some(i);
        }
    }
    None
}

/// The points of a file stay in their places when bytes are appended to it.
pub proof fn law_points_keep_their_place(data: Seq<u8>, more: Seq<u8>, n: nat)
    requires
        n <= points_in(data),
    ensures
        n <= points_in(data + more),
        srs_points(data + more, n) == srs_points(data, n),
{
    assert forall|i: int| 0 <= i < n implies srs_point(data + more, i) == srs_point(data, i) by {
        assert((data + more).subrange(64 * i, 64 * i + 64) =~= data.subrange(64 * i, 64 * i + 64));
    }
    assert(srs_points(data + more, n) =~= srs_points(data, n));
}

/// Reading fewer points gives the first of those that reading more gives.
pub proof fn law_fewer_points_are_the_first(data: Seq<u8>, m: nat, n: nat)
    requires
        m <= n <= points_in(data),
    ensures
        srs_points(data, m) == srs_points(data, n).take(m as int),
{
    assert(srs_points(data, m) =~= srs_points(data, n).take(m as int));
}

/// A file holds `n` points exactly if it has sixty-four bytes for each of them.
pub proof fn law_file_holds_points(data: Seq<u8>, n: nat)
    ensures
        n <= points_in(data) <==> 64 * n <= data.len(),
        data.len() == 64 * n ==> points_in(data) == n,
{
}

/// A point in front of a file moves each point of the file by one place.
pub proof fn law_points_shift(first: Seq<u8>, rest: Seq<u8>, n: nat)
    requires
        first.len() == 64,
        64 * n <= rest.len(),
    ensures
        srs_points(first + rest, n + 1) == srs_points(first, 1) + srs_points(rest, n),
{
    let data = first + rest;
    assert(data.subrange(0, 64) =~= first.subrange(0, 64));
    assert forall|i: int| 0 <= i < n implies #[trigger] srs_point(rest, i) == srs_point(
        data,
        i + 1,
    ) by {
        assert(data.subrange(64 * (i + 1), 64 * (i + 1) + 64) =~= rest.subrange(
            64 * i,
            64 * i + 64,
        ));
    }
    assert(srs_points(data, n + 1) =~= srs_points(first, 1) + srs_points(rest, n));
}

/// A file is read as the points whose bytes it holds in a row: sixty-four bytes
/// `0xFF` are the point at infinity, and any others are the coordinates that
/// their halves write, up to multiples of the modulus.
pub proof fn law_file_is_read_in_order(data: Seq<u8>, points: Seq<Option<(nat, nat)>>)
    requires
        64 * points.len() <= data.len(),
        forall|i: int|
            0 <= i < points.len() ==> match #[trigger] points[i] {
                None => forall|k: int| 64 * i <= k < 64 * i + 64 ==> #[trigger] data[k] == 0xFF,
                Some((x, y)) => {
                    &&& exists|k: int| 64 * i <= k < 64 * i + 64 && #[trigger] data[k] != 0xFF
                    &&& x < field::base_modulus()
                    &&& y < field::base_modulus()
                    &&& number::be_value(data.subrange(64 * i, 64 * i + 32))
                        % field::base_modulus() == x
                    &&& number::be_value(data.subrange(64 * i + 32, 64 * i + 64))
                        % field::base_modulus() == y
                },
            },
    ensures
        srs_points(data, points.len()) == points,
{
    assert forall|i: int| 0 <= i < points.len() implies srs_point(data, i)
        == #[trigger] points[i] by {
        let bytes = data.subrange(64 * i, 64 * i + 64);
        assert(bytes.take(32) =~= data.subrange(64 * i, 64 * i + 32));
        assert(bytes.skip(32) =~= data.subrange(64 * i + 32, 64 * i + 64));
        match points[i] {
            None => {
                assert forall|k: int| 0 <= k < bytes.len() implies #[trigger] bytes[k] == 0xFF by {
                    assert(bytes[k] == data[64 * i + k]);
                }
            },
            Some(_) => {
                let k = choose|k: int| 64 * i <= k < 64 * i + 64 && #[trigger] data[k] != 0xFF;
                assert(bytes[k - 64 * i] == data[k]);
            },
        }
    }
    assert(srs_points(data, points.len()) =~= points);
}

/// Points that a file writes with canonical coordinates are read back from it.
pub proof fn law_written_points_are_read_back(data: Seq<u8>, points: Seq<Option<(nat, nat)>>)
    requires
        data.len() == 64 * points.len(),
        forall|i: int|
            0 <= i < points.len() ==> match #[trigger] points[i] {
                None => forall|k: int| 64 * i <= k < 64 * i + 64 ==> #[trigger] data[k] == 0xFF,
                Some((x, y)) => {
                    &&& x < field::base_modulus()
                    &&& y < field::base_modulus()
                    &&& number::be_value(data.subrange(64 * i, 64 * i + 32)) == x
                    &&& number::be_value(data.subrange(64 * i + 32, 64 * i + 64)) == y
                },
            },
    ensures
        points_in(data) == points.len(),
        srs_points(data, points.len()) == points,
{
    assert forall|i: int| 0 <= i < points.len() implies match #[trigger] points[i] {
        None => true,
        Some((x, y)) => {
            &&& exists|k: int| 64 * i <= k < 64 * i + 64 && #[trigger] data[k] != 0xFF
            &&& x % field::base_modulus() == x
            &&& y % field::base_modulus() == y
        },
    } by {
        if let Some((x, y)) = points[i] {
            lemma_small_mod(x, field::base_modulus());
            lemma_small_mod(y, field::base_modulus());
            let half = data.subrange(64 * i, 64 * i + 32);
            if forall|k: int| 64 * i <= k < 64 * i + 64 ==> #[trigger] data[k] == 0xFF {
                assert forall|k: int| 0 <= k < half.len() implies #[trigger] half[k] == 0xFF by {
                    assert(half[k] == data[64 * i + k]);
                }
                number::lemma_be_value_of_ones(half);
                number::lemma_pow2_values();
                lemma2_to64();
                lemma_pow2_adds(136, 118);
                lemma_pow2_adds(254, 2);
                assert(number::be_value(half) >= field::base_modulus());
            }
        }
    }
    law_file_is_read_in_order(data, points);
}

} // verus!
