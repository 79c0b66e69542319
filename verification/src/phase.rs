//! Deriving the challenges of a phase from the witness values before it.
//!
//! The derivation takes four steps:
//!
//! 1. KZG commitment: MSM of witness values against the SRS points
//! 2. Commitment encoding: point of G1 to four scalar field elements
//! 3. Poseidon2 sponge hash of the encoded commitment
//! 4. Challenge splitting: 254-bit hash to pairs of 127-bit challenges

use crate::commitment;
use crate::commitment::{encode_g1_as_fr_elements, kzg_commit};
use crate::curve;
use crate::curve::G1Point;
use crate::field::FieldElement;
use crate::solver;
use crate::solver::{BlackBoxFunc, BlackBoxFunctionSolver, BlackBoxResolutionError};
use crate::srs;
use crate::srs::parse_srs;
use crate::text;
use crate::transcript;
use crate::transcript::poseidon2_transcript_squeeze;
use vstd::arithmetic::power2::*;
use vstd::prelude::*;

verus! {

/// The failure of a phase that commits to nothing.
pub open spec fn empty_witness() -> (BlackBoxFunc, Seq<char>) {
    (
        BlackBoxFunc::Poseidon2Permutation,
        "PhaseBarrier: cannot derive challenge from empty witness list"@,
    )
}

/// The failure of a phase that asks for no challenge.
pub open spec fn no_challenge() -> (BlackBoxFunc, Seq<char>) {
    (
        BlackBoxFunc::Poseidon2Permutation,
        "PhaseBarrier: must request at least one challenge"@,
    )
}

/// The commitment to the witness values over the first points of the SRS file,
/// as field elements.
pub open spec fn encoded_commitment(
    witness_values: Seq<FieldElement>,
    srs_data: Seq<u8>,
) -> Seq<FieldElement> {
    commitment::encoding(
        curve::msm_result(
            srs::srs_points(srs_data, witness_values.len()),
            curve::scalar_views(witness_values),
        ),
    )
}

/// The challenges that a phase derives, given the bytes of the SRS file, or
/// the first failure on the way.
pub open spec fn phase_challenges<S: BlackBoxFunctionSolver<FieldElement>>(
    solver: &S,
    witness_values: Seq<FieldElement>,
    num_challenges: nat,
    srs_data: Seq<u8>,
) -> Result<Seq<FieldElement>, (BlackBoxFunc, Seq<char>)> {
    if witness_values.len() == 0 {
        Err(empty_witness())
    } else if num_challenges == 0 {
        Err(no_challenge())
    } else if srs::points_in(srs_data) < witness_values.len() {
        Err(srs::too_few_points(srs::points_in(srs_data), witness_values.len()))
    } else {
        transcript::transcript_challenges(
            solver,
            encoded_commitment(witness_values, srs_data),
            num_challenges,
        )
    }
}

/// Refuses a phase that commits to nothing or asks for no challenge.
pub fn check_phase_request(witness_values: &[FieldElement], num_challenges: usize) -> (result:
    Result<(), BlackBoxResolutionError>)
    ensures
        result is Ok <==> witness_values@.len() > 0 && num_challenges > 0,
        result matches Err(e) ==> e@ == if witness_values@.len() == 0 {
            empty_witness()
        } else {
            no_challenge()
        },
        result matches Err(e) ==> e@ == if witness_values@.len() == 0 {
            (
                BlackBoxFunc::Poseidon2Permutation,
                "PhaseBarrier: cannot derive challenge from empty witness list"@,
            )
        } else {
            (
                BlackBoxFunc::Poseidon2Permutation,
                "PhaseBarrier: must request at least one challenge"@,
            )
        },
{
    if witness_values.is_empty() {
        return Err(
            BlackBoxResolutionError::Failed(
                BlackBoxFunc::Poseidon2Permutation,
                "PhaseBarrier: cannot derive challenge from empty witness list".to_owned(),
            ),
        );
    }
    if num_challenges == 0 {
        return Err(
            BlackBoxResolutionError::Failed(
                BlackBoxFunc::Poseidon2Permutation,
                "PhaseBarrier: must request at least one challenge".to_owned(),
            ),
        );
    }
    Ok(())
}

/// Encodes a commitment and squeezes challenges out of the encoding.
pub fn challenges_from_commitment<S: BlackBoxFunctionSolver<FieldElement>>(
    solver: &S,
    commitment: &G1Point,
    num_challenges: usize,
) -> (challenges: Result<Vec<FieldElement>, BlackBoxResolutionError>)
    ensures
        solver::outcome(challenges) == transcript::transcript_challenges(
            solver,
            commitment::encoding(commitment@),
            num_challenges as nat,
        ),
        challenges matches Ok(c) ==> transcript::transcript_challenges(
            solver,
            commitment::encoding(commitment@),
            num_challenges as nat,
        ) == Ok::<Seq<FieldElement>, (BlackBoxFunc, Seq<char>)>(c@),
        challenges matches Err(e) ==> transcript::transcript_challenges(
            solver,
            commitment::encoding(commitment@),
            num_challenges as nat,
        ) == Err::<Seq<FieldElement>, (BlackBoxFunc, Seq<char>)>(e@),
        challenges matches Ok(c) ==> c@.len() == num_challenges,
        challenges matches Ok(c) ==> forall|j: int|
            0 <= j < c@.len() ==> (#[trigger] c@[j])@ < transcript::challenge_bound(),
        challenges matches Ok(c) ==> forall|j: int|
            0 <= j < c@.len() ==> (#[trigger] c@[j])@ < pow2(127),
{
    let commitment_frs = encode_g1_as_fr_elements(commitment);
    poseidon2_transcript_squeeze(solver, &commitment_frs, num_challenges)
}

/// Derive Fiat-Shamir challenge(s) by committing to witness values using KZG
/// and hashing the commitment via the Poseidon2 transcript.
///
/// `srs_data` holds the bytes of the SRS file. The challenges are the same in
/// every phase.
pub fn derive_phase_challenge<S: BlackBoxFunctionSolver<FieldElement>>(
    solver: &S,
    _phase_id: u32,
    witness_values: &[FieldElement],
    num_challenges: usize,
    srs_data: &[u8],
) -> (challenges: Result<Vec<FieldElement>, BlackBoxResolutionError>)
    ensures
        solver::outcome(challenges) == phase_challenges(
            solver,
            witness_values@,
            num_challenges as nat,
            srs_data@,
        ),
        challenges matches Ok(c) ==> phase_challenges(
            solver,
            witness_values@,
            num_challenges as nat,
            srs_data@,
        ) == Ok::<Seq<FieldElement>, (BlackBoxFunc, Seq<char>)>(c@),
        challenges matches Err(e) ==> phase_challenges(
            solver,
            witness_values@,
            num_challenges as nat,
            srs_data@,
        ) == Err::<Seq<FieldElement>, (BlackBoxFunc, Seq<char>)>(e@),
        challenges is Ok ==> 0 < witness_values@.len() && 64 * witness_values@.len()
            <= srs_data@.len() && num_challenges > 0,
        challenges matches Ok(c) ==> c@.len() == num_challenges,
        challenges matches Ok(c) ==> forall|j: int|
            0 <= j < c@.len() ==> (#[trigger] c@[j])@ < transcript::challenge_bound(),
        challenges matches Ok(c) ==> forall|j: int|
            0 <= j < c@.len() ==> (#[trigger] c@[j])@ < pow2(127),
        // A reference string of points on the curve is summed as the curve adds.
        ({
            &&& witness_values@.len() > 0
            &&& num_challenges > 0
            &&& witness_values@.len() <= srs::points_in(srs_data@)
            &&& curve::all_on_curve(srs::srs_points(srs_data@, witness_values@.len()))
        }) ==> solver::outcome(challenges) == transcript::transcript_challenges(
            solver,
            commitment::encoding(
                curve::linear_combination(
                    srs::srs_points(srs_data@, witness_values@.len()),
                    curve::scalar_views(witness_values@),
                ),
            ),
            num_challenges as nat,
        ),
{
    match check_phase_request(witness_values, num_challenges) {
        Ok(()) => {},
        Err(error) => return Err(error),
    }
    let srs_points = match parse_srs(srs_data, witness_values.len()) {
        Ok(points) => points,
        Err(error) => return Err(error),
    };
    proof {
        assert(curve::point_views(srs_points@).len() == witness_values@.len());
    }
    let commitment = match kzg_commit(witness_values, srs_points.as_slice()) {
        Ok(commitment) => commitment,
        Err(error) => return Err(error),
    };
    challenges_from_commitment(solver, &commitment, num_challenges)
}

/// A derivation reads one point of the SRS file for each witness value; what
/// follows in the file does not matter.
pub proof fn law_derivation_reads_needed_points<S: BlackBoxFunctionSolver<FieldElement>>(
    solver: &S,
    witness_values: Seq<FieldElement>,
    num_challenges: nat,
    srs_data: Seq<u8>,
    more: Seq<u8>,
)
    requires
        witness_values.len() <= srs::points_in(srs_data),
    ensures
        phase_challenges(solver, witness_values, num_challenges, srs_data + more)
            == phase_challenges(solver, witness_values, num_challenges, srs_data),
{
    srs::law_points_keep_their_place(srs_data, more, witness_values.len());
}

/// Asking for fewer challenges gives the first of those that asking for more gives.
pub proof fn law_derivation_is_stable<S: BlackBoxFunctionSolver<FieldElement>>(
    solver: &S,
    witness_values: Seq<FieldElement>,
    m: nat,
    n: nat,
    srs_data: Seq<u8>,
)
    requires
        0 < m <= n,
    ensures
        phase_challenges(solver, witness_values, n, srs_data) matches Ok(longer)
            ==> phase_challenges(solver, witness_values, m, srs_data) == Ok::<
            Seq<FieldElement>,
            (BlackBoxFunc, Seq<char>),
        >(longer.take(m as int)),
{
    let encoded = encoded_commitment(witness_values, srs_data);
    transcript::law_challenges_are_stable(solver, encoded, m, n);
}

/// Where the permutation never fails, a derivation succeeds exactly if it
/// commits to some value, asks for some challenge, and the SRS file holds a
/// point for each value.
pub proof fn law_derivation_succeeds<S: BlackBoxFunctionSolver<FieldElement>>(
    solver: &S,
    witness_values: Seq<FieldElement>,
    num_challenges: nat,
    srs_data: Seq<u8>,
)
    requires
        transcript::permutes_every_state(solver),
    ensures
        phase_challenges(solver, witness_values, num_challenges, srs_data) is Ok <==> (0
            < witness_values.len() <= srs::points_in(srs_data) && num_challenges > 0),
        phase_challenges(solver, witness_values, num_challenges, srs_data) is Ok <==> (0
            < witness_values.len() && 64 * witness_values.len() <= srs_data.len()
            && num_challenges > 0),
{
    let encoded = encoded_commitment(witness_values, srs_data);
    transcript::law_challenges_succeed(solver, encoded, num_challenges);
}

/// A derivation that is not refused is made of its steps: the points of the
/// SRS file, in their places, give the commitment to the values, and the
/// challenges are those of the transcript over the encoded commitment.
pub proof fn law_derivation_in_steps<S: BlackBoxFunctionSolver<FieldElement>>(
    solver: &S,
    witness_values: Seq<FieldElement>,
    num_challenges: nat,
    srs_data: Seq<u8>,
    points: Seq<G1Point>,
    commitment: G1Point,
)
    requires
        0 < witness_values.len(),
        0 < num_challenges,
        64 * witness_values.len() <= srs_data.len(),
        points.len() == witness_values.len(),
        forall|i: int|
            0 <= i < points.len() ==> (#[trigger] points[i])@ == srs::srs_points(
                srs_data,
                points.len(),
            )[i],
        commitment@ == curve::msm_result(
            curve::point_views(points),
            curve::scalar_views(witness_values),
        ),
    ensures
        phase_challenges(solver, witness_values, num_challenges, srs_data)
            == transcript::transcript_challenges(
            solver,
            commitment::encoding(commitment@),
            num_challenges,
        ),
{
    assert(curve::point_views(points) =~= srs::srs_points(srs_data, points.len()));
}

/// A derivation is refused, for the first reason that holds, if it commits to
/// nothing, if it asks for no challenge, or if the SRS file has fewer than
/// sixty-four bytes for each value.
pub proof fn law_derivation_is_refused<S: BlackBoxFunctionSolver<FieldElement>>(
    solver: &S,
    witness_values: Seq<FieldElement>,
    num_challenges: nat,
    srs_data: Seq<u8>,
)
    requires
        witness_values.len() == 0 || num_challenges == 0 || srs_data.len() < 64
            * witness_values.len(),
    ensures
        phase_challenges(solver, witness_values, num_challenges, srs_data) == Err::<
            Seq<FieldElement>,
            (BlackBoxFunc, Seq<char>),
        >(
            (
                BlackBoxFunc::Poseidon2Permutation,
                if witness_values.len() == 0 {
                    "PhaseBarrier: cannot derive challenge from empty witness list"@
                } else if num_challenges == 0 {
                    "PhaseBarrier: must request at least one challenge"@
                } else {
                    "PhaseBarrier: SRS file has "@ + text::decimal(srs_data.len() / 64)
                        + " points but "@ + text::decimal(witness_values.len()) + " are needed"@
                },
            ),
        ),
{
}

} // verus!
