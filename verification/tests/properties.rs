use phase_challenge::bigint::split_at_bit;
use phase_challenge::commitment::{encode_g1_as_fr_elements, kzg_commit, split_fq_to_fr_pair};
use phase_challenge::curve::{msm, G1Point};
use phase_challenge::field::{BaseFieldElement, FieldElement};
use phase_challenge::phase::{
    challenges_from_commitment, check_phase_request, derive_phase_challenge,
};
use phase_challenge::solver::{
    BlackBoxFunc, BlackBoxFunctionSolver, BlackBoxResolutionError, StubbedBlackBoxSolver,
};
use phase_challenge::srs::{first_off_curve, parse_srs, srs_file_path, srs_read_error};
use phase_challenge::text::{append_decimal, join};
use phase_challenge::transcript::{
    poseidon2_sponge_hash, poseidon2_transcript_squeeze, split_challenge,
};

/// The order of the scalar field less one, most significant byte first.
const LARGEST_SCALAR: [u8; 32] = [
    0x30, 0x64, 0x4e, 0x72, 0xe1, 0x31, 0xa0, 0x29, 0xb8, 0x50, 0x45, 0xb6, 0x81, 0x81, 0x58, 0x5d,
    0x28, 0x33, 0xe8, 0x48, 0x79, 0xb9, 0x70, 0x91, 0x43, 0xe1, 0xf5, 0x93, 0xf0, 0x00, 0x00, 0x00,
];

/// The order of the base field less one, most significant byte first.
const LARGEST_COORDINATE: [u8; 32] = [
    0x30, 0x64, 0x4e, 0x72, 0xe1, 0x31, 0xa0, 0x29, 0xb8, 0x50, 0x45, 0xb6, 0x81, 0x81, 0x58, 0x5d,
    0x97, 0x81, 0x6a, 0x91, 0x68, 0x71, 0xca, 0x8d, 0x3c, 0x20, 0x8c, 0x16, 0xd8, 0x7c, 0xfd, 0x46,
];

fn scalar(n: u128) -> FieldElement {
    FieldElement::from(n)
}

fn coordinate(n: u8) -> BaseFieldElement {
    BaseFieldElement::from_be_bytes_mod_order(&[n])
}

fn generator() -> G1Point {
    G1Point::new_unchecked(coordinate(1), coordinate(2))
}

/// A backend that turns the state by one place, and refuses states that begin with `refused`.
struct Turning {
    refused: Option<FieldElement>,
}

impl BlackBoxFunctionSolver<FieldElement> for Turning {
    fn multi_scalar_mul(
        &self,
        _points: &[FieldElement],
        _scalars_lo: &[FieldElement],
        _scalars_hi: &[FieldElement],
        _predicate: bool,
    ) -> Result<(FieldElement, FieldElement, FieldElement), BlackBoxResolutionError> {
        Err(StubbedBlackBoxSolver::fail(BlackBoxFunc::MultiScalarMul))
    }

    fn ec_add(
        &self,
        _input1_x: &FieldElement,
        _input1_y: &FieldElement,
        _input1_infinite: &FieldElement,
        _input2_x: &FieldElement,
        _input2_y: &FieldElement,
        _input2_infinite: &FieldElement,
        _predicate: bool,
    ) -> Result<(FieldElement, FieldElement, FieldElement), BlackBoxResolutionError> {
        Err(StubbedBlackBoxSolver::fail(BlackBoxFunc::EmbeddedCurveAdd))
    }

    fn poseidon2_permutation(
        &self,
        inputs: &[FieldElement],
    ) -> Result<Vec<FieldElement>, BlackBoxResolutionError> {
        assert_eq!(inputs.len(), 4);
        if self.refused == Some(inputs[0]) {
            return Err(BlackBoxResolutionError::Failed(
                BlackBoxFunc::Poseidon2Permutation,
                "refused".to_string(),
            ));
        }
        Ok(vec![inputs[3], inputs[0], inputs[1], inputs[2]])
    }
}

const TURNING: Turning = Turning { refused: None };

// Field elements

#[test]
fn scalars_wrap_at_their_order() {
    let largest = FieldElement::from_be_bytes_mod_order(&LARGEST_SCALAR);
    assert_eq!(largest.to_be_bytes(), LARGEST_SCALAR.to_vec());
    assert_eq!(largest + scalar(1), FieldElement::zero());
    assert_eq!(largest + scalar(5), scalar(4));
    assert_eq!(largest * largest, scalar(1));
    let mut order = LARGEST_SCALAR;
    order[31] = 1;
    assert_eq!(FieldElement::from_be_bytes_mod_order(&order), FieldElement::zero());
    assert_eq!(FieldElement::from_be_bytes_mod_order(&[]), FieldElement::zero());
    assert_eq!(FieldElement::from_be_bytes_mod_order(&[0, 1, 2]), scalar(258));
    assert_eq!(scalar(u128::MAX).into_repr(), [u64::MAX, u64::MAX, 0, 0]);
}

#[test]
fn coordinates_wrap_at_their_order() {
    let largest = BaseFieldElement::from_be_bytes_mod_order(&LARGEST_COORDINATE);
    assert_eq!(largest.to_be_bytes(), LARGEST_COORDINATE.to_vec());
    let mut above = LARGEST_COORDINATE;
    above[31] += 3;
    assert_eq!(BaseFieldElement::from_be_bytes_mod_order(&above), coordinate(2));
    assert_eq!(coordinate(7).into_repr(), [7, 0, 0, 0]);
    assert_eq!(coordinate(0), BaseFieldElement::zero());
}

// Bits

#[test]
fn numbers_are_cut_at_a_bit() {
    let (lo, hi) = split_at_bit(&[0xab, 0xcd, 0xef], 12);
    assert_eq!(FieldElement::from_be_bytes_mod_order(&lo), scalar(0xdef));
    assert_eq!(FieldElement::from_be_bytes_mod_order(&hi), scalar(0xabc));
    let (lo, hi) = split_at_bit(&[0xab], 0);
    assert_eq!(FieldElement::from_be_bytes_mod_order(&lo), scalar(0));
    assert_eq!(FieldElement::from_be_bytes_mod_order(&hi), scalar(0xab));
    let (lo, hi) = split_at_bit(&[], 9);
    assert_eq!(FieldElement::from_be_bytes_mod_order(&lo), scalar(0));
    assert_eq!(FieldElement::from_be_bytes_mod_order(&hi), scalar(0));
}

#[test]
fn largest_scalar_splits_into_two_challenges() {
    let largest = FieldElement::from_be_bytes_mod_order(&LARGEST_SCALAR);
    let (lo, hi) = split_challenge(&largest);
    assert_eq!(lo, scalar(0x2833e848_79b97091_43e1f593_f0000000));
    assert_eq!(hi, scalar(0x60c89ce5_c2634053_70a08b6d_0302b0ba));
    // Put together again: lo + hi * 2^127
    assert_eq!(lo + hi * scalar(1 << 127), largest);
}

#[test]
fn largest_coordinate_splits_into_two_limbs() {
    let largest = BaseFieldElement::from_be_bytes_mod_order(&LARGEST_COORDINATE);
    let (lo, hi) = split_fq_to_fr_pair(&largest);
    assert_eq!(
        lo,
        scalar(0x97816a91_6871ca8d_3c208c16_d87cfd46) + scalar(0x5d) * scalar(1 << 64) * scalar(1 << 64)
    );
    assert_eq!(hi, scalar(0x30644e_72e131a0_29b85045_b6818158));
}

// Points

#[test]
fn points_know_their_coordinates() {
    assert_eq!(G1Point::zero().xy(), None);
    assert_eq!(generator().xy(), Some((coordinate(1), coordinate(2))));
    assert!(G1Point::zero().is_on_curve());
    assert!(generator().is_on_curve());
    assert!(!G1Point::new_unchecked(coordinate(1), coordinate(3)).is_on_curve());
    assert!(!G1Point::new_unchecked(coordinate(0), coordinate(0)).is_on_curve());
}

#[test]
fn first_point_off_the_curve_is_found() {
    let off = G1Point::new_unchecked(coordinate(2), coordinate(1));
    assert_eq!(first_off_curve(&[]), None);
    assert_eq!(first_off_curve(&[generator(), G1Point::zero()]), None);
    assert_eq!(first_off_curve(&[generator(), off, off]), Some(1));
}

#[test]
fn points_of_the_curve_have_different_encodings() {
    let double = kzg_commit(&[scalar(2)], &[generator()]).unwrap();
    let encodings = [
        encode_g1_as_fr_elements(&G1Point::zero()),
        encode_g1_as_fr_elements(&generator()),
        encode_g1_as_fr_elements(&double),
    ];
    assert_ne!(encodings[0], encodings[1]);
    assert_ne!(encodings[0], encodings[2]);
    assert_ne!(encodings[1], encodings[2]);
}

#[test]
fn commitments_add_up() {
    let largest = FieldElement::from_be_bytes_mod_order(&LARGEST_SCALAR);
    // The sum over nothing, and sums that cancel out
    assert_eq!(kzg_commit(&[], &[]).unwrap(), G1Point::zero());
    assert_eq!(kzg_commit(&[scalar(0)], &[generator()]).unwrap(), G1Point::zero());
    assert_eq!(
        kzg_commit(&[scalar(1), largest], &[generator(), generator()]).unwrap(),
        G1Point::zero()
    );
    assert_eq!(kzg_commit(&[scalar(9)], &[G1Point::zero()]).unwrap(), G1Point::zero());
    // One more value adds its multiple of the next point
    let double = kzg_commit(&[scalar(2)], &[generator()]).unwrap();
    assert_eq!(
        kzg_commit(&[scalar(1), scalar(1)], &[generator(), generator()]).unwrap(),
        double
    );
    assert_eq!(
        kzg_commit(&[scalar(1), scalar(2)], &[generator(), double]).unwrap(),
        kzg_commit(&[scalar(5)], &[generator()]).unwrap()
    );
    assert!(double.is_on_curve());
}

#[test]
fn commitments_are_linear_in_the_values() {
    let largest = FieldElement::from_be_bytes_mod_order(&LARGEST_SCALAR);
    let double = kzg_commit(&[scalar(2)], &[generator()]).unwrap();
    let points = [generator(), double, G1Point::zero()];
    let u = [scalar(5), largest, scalar(9)];
    let v = [largest, scalar(1 << 100), scalar(2)];
    let commitment_u = kzg_commit(&u, &points).unwrap();
    let commitment_v = kzg_commit(&v, &points).unwrap();
    // The commitment to the sums is the sum of the commitments
    let sums = [u[0] + v[0], u[1] + v[1], u[2] + v[2]];
    assert_eq!(
        kzg_commit(&sums, &points).unwrap(),
        kzg_commit(&[scalar(1), scalar(1)], &[commitment_u, commitment_v]).unwrap()
    );
    // The commitment to multiples is the multiple of the commitment
    for factor in [scalar(0), scalar(1), scalar(7), largest] {
        assert_eq!(
            kzg_commit(&u.map(|value| factor * value), &points).unwrap(),
            kzg_commit(&[factor], &[commitment_u]).unwrap()
        );
    }
}

/// A backend that derives consecutive numbers, counted on from the first witness value.
struct Counting;

impl BlackBoxFunctionSolver<u64> for Counting {
    fn multi_scalar_mul(
        &self,
        _points: &[u64],
        _scalars_lo: &[u64],
        _scalars_hi: &[u64],
        _predicate: bool,
    ) -> Result<(u64, u64, u64), BlackBoxResolutionError> {
        Err(StubbedBlackBoxSolver::fail(BlackBoxFunc::MultiScalarMul))
    }

    fn ec_add(
        &self,
        _input1_x: &u64,
        _input1_y: &u64,
        _input1_infinite: &u64,
        _input2_x: &u64,
        _input2_y: &u64,
        _input2_infinite: &u64,
        _predicate: bool,
    ) -> Result<(u64, u64, u64), BlackBoxResolutionError> {
        Err(StubbedBlackBoxSolver::fail(BlackBoxFunc::EmbeddedCurveAdd))
    }

    fn poseidon2_permutation(&self, _inputs: &[u64]) -> Result<Vec<u64>, BlackBoxResolutionError> {
        Err(StubbedBlackBoxSolver::fail(BlackBoxFunc::Poseidon2Permutation))
    }

    fn derive_phase_challenge(
        &self,
        _phase_id: u32,
        witness_values: &[u64],
        num_challenges: usize,
    ) -> Result<Vec<u64>, BlackBoxResolutionError> {
        Ok((1..=num_challenges as u64).map(|i| witness_values[0] + i).collect())
    }
}

#[test]
fn backends_derive_as_many_challenges_as_asked_for() {
    let first = Counting.derive_phase_challenge(0, &[40], 3).unwrap();
    assert_eq!(first, vec![41, 42, 43]);
    assert_eq!(Counting.derive_phase_challenge(0, &[40], 3).unwrap(), first);
}

#[test]
fn commitments_need_a_point_for_each_value() {
    let error = kzg_commit(&[scalar(1), scalar(2)], &[generator()]).unwrap_err();
    assert_eq!(error.reason(), "PhaseBarrier: KZG commitment MSM failed: 1");
    let error = kzg_commit(&[], &[generator()]).unwrap_err();
    assert_eq!(error.reason(), "PhaseBarrier: KZG commitment MSM failed: 0");
    assert_eq!(msm(&[generator(), generator()], &[scalar(3)]), Err(1));
}

// The SRS file

fn encoded(x: u8, y: u8) -> Vec<u8> {
    let mut bytes = vec![0; 64];
    bytes[31] = x;
    bytes[63] = y;
    bytes
}

#[test]
fn srs_points_are_read_in_order() {
    let mut data = encoded(1, 2);
    data.extend([0xff; 64]);
    data.extend(encoded(3, 4));
    data.extend([0; 63]);
    let three = [
        generator(),
        G1Point::zero(),
        G1Point::new_unchecked(coordinate(3), coordinate(4)),
    ];
    assert_eq!(parse_srs(&data, 3).unwrap(), three.to_vec());
    assert_eq!(parse_srs(&data, 2).unwrap(), three[..2].to_vec());
    assert_eq!(parse_srs(&data, 0).unwrap(), vec![]);
    let error = parse_srs(&data, 4).unwrap_err();
    assert_eq!(error.reason(), "PhaseBarrier: SRS file has 3 points but 4 are needed");
}

#[test]
fn srs_coordinates_are_reduced() {
    // All bytes but the last are 0xFF: no point at infinity
    let mut data = vec![0xff; 64];
    data[63] = 0xfe;
    let points = parse_srs(&data, 1).unwrap();
    let ones = BaseFieldElement::from_be_bytes_mod_order(&[0xff; 32]);
    let (x, y) = points[0].xy().unwrap();
    assert_eq!(x, ones);
    assert_eq!(y.into_repr()[0], ones.into_repr()[0] - 1);
    // 2^256 - 1 modulo the order of the field
    assert_eq!(
        x.into_repr(),
        [0xd35d438dc58f0d9c, 0x0a78eb28f5c70b3d, 0x666ea36f7879462c, 0x0e0a77c19a07df2f]
    );
    // x is all ones, y is not
    let mut data = vec![0xff; 32];
    data.extend([0; 32]);
    assert_eq!(
        parse_srs(&data, 1).unwrap(),
        vec![G1Point::new_unchecked(ones, coordinate(0))]
    );
}

#[test]
fn srs_path_prefers_crs_path() {
    assert_eq!(srs_file_path(Some("/srs"), Some("/home/user")).unwrap(), "/srs/bn254_g1.dat");
    assert_eq!(srs_file_path(Some("/srs"), None).unwrap(), "/srs/bn254_g1.dat");
    assert_eq!(srs_file_path(Some(""), None).unwrap(), "/bn254_g1.dat");
    let error = srs_file_path(None, None).unwrap_err();
    assert_eq!(
        error.reason(),
        "PhaseBarrier: cannot determine SRS path (no HOME or CRS_PATH set)"
    );
}

#[test]
fn srs_read_error_names_file_and_cause() {
    assert_eq!(
        srs_read_error("/srs/bn254_g1.dat", "not found"),
        BlackBoxResolutionError::Failed(
            BlackBoxFunc::Poseidon2Permutation,
            "PhaseBarrier: failed to read BN254 SRS file at '/srs/bn254_g1.dat': not found"
                .to_string()
        )
    );
}

// The transcript

#[test]
fn sponge_absorbs_by_addition() {
    let two64 = scalar(1 << 64);
    // [a, b, c, 2 * 2^64] turns into [2 * 2^64, a, b, c]
    assert_eq!(
        poseidon2_sponge_hash(&TURNING, &[scalar(5), scalar(6)]).unwrap(),
        scalar(2) * two64
    );
    assert_eq!(poseidon2_sponge_hash(&TURNING, &[]).unwrap(), FieldElement::zero());
    // [5, 6, 7, iv] turns into [iv, 5, 6, 7], and without more input into [7, iv, 5, 6]
    let three = [scalar(5), scalar(6), scalar(7)];
    assert_eq!(poseidon2_sponge_hash(&TURNING, &three).unwrap(), scalar(7));
    // Six elements: [iv, 5, 6, 7] takes up 8, 9, 10, and is turned twice more
    let six = [scalar(5), scalar(6), scalar(7), scalar(8), scalar(9), scalar(10)];
    assert_eq!(poseidon2_sponge_hash(&TURNING, &six).unwrap(), scalar(6 + 10));
    // Five elements: the last two are added before the last turn
    assert_eq!(poseidon2_sponge_hash(&TURNING, &six[..5]).unwrap(), scalar(7));
}

#[test]
fn squeeze_takes_two_challenges_from_each_hash() {
    // Two elements hash to 2 * 2^64, which hashes on to 2^64
    let data = [scalar(5), scalar(6)];
    let expected =
        [2 << 64, 0, 1 << 64, 0, 1 << 64].map(|n: u128| FieldElement::from(n)).to_vec();
    for n in 0..6 {
        let challenges = poseidon2_transcript_squeeze(&TURNING, &data, n).unwrap();
        assert_eq!(challenges, expected[..n].to_vec());
    }
}

#[test]
fn refused_permutation_is_reported() {
    let refusing = Turning { refused: Some(scalar(2) * scalar(1 << 64)) };
    let data = [scalar(5), scalar(6)];
    // The first hash is made, the second is refused
    assert_eq!(poseidon2_transcript_squeeze(&refusing, &data, 2).unwrap().len(), 2);
    let error = poseidon2_transcript_squeeze(&refusing, &data, 3).unwrap_err();
    assert_eq!(error.reason(), "refused");
    // The first hash is made even where no challenge is asked for
    let refusing = Turning { refused: Some(scalar(5)) };
    let error = poseidon2_transcript_squeeze(&refusing, &data, 0).unwrap_err();
    assert_eq!(error.reason(), "refused");
    // The state is refused in the midst of the input
    let three = [scalar(5), scalar(6), scalar(7)];
    assert_eq!(poseidon2_sponge_hash(&refusing, &three).unwrap_err().reason(), "refused");
}

#[test]
fn derivation_fails_in_order() {
    let reason = |values: &[FieldElement], n: usize, data: &[u8]| {
        derive_phase_challenge(&StubbedBlackBoxSolver, 0, values, n, data)
            .unwrap_err()
            .reason()
            .to_string()
    };
    let one = [scalar(1)];
    assert_eq!(
        reason(&[], 0, &[]),
        "PhaseBarrier: cannot derive challenge from empty witness list"
    );
    assert_eq!(reason(&one, 0, &[]), "PhaseBarrier: must request at least one challenge");
    assert_eq!(
        reason(&one, 1, &[0; 63]),
        "PhaseBarrier: SRS file has 0 points but 1 are needed"
    );
    assert_eq!(reason(&one, 1, &encoded(1, 2)), "poseidon2_permutation is not supported");
}

#[test]
fn phase_requests_are_checked() {
    assert!(check_phase_request(&[scalar(0)], 1).is_ok());
    assert!(check_phase_request(&[], 1).unwrap_err().reason().contains("empty"));
    assert!(check_phase_request(&[], 0).unwrap_err().reason().contains("empty"));
    assert!(check_phase_request(&[scalar(0)], 0).unwrap_err().reason().contains("at least one"));
}

#[test]
fn derivation_runs_through_every_step() {
    let derived = derive_phase_challenge(&TURNING, 3, &[scalar(1)], 2, &encoded(1, 2)).unwrap();
    assert_eq!(derived, challenges_from_commitment(&TURNING, &generator(), 2).unwrap());
    // [1, 0, 2, 4 * 2^64] turns into [4 * 2^64, 1, 0, 2], takes up 0, and turns into [2, ..]
    assert_eq!(derived, vec![scalar(2), scalar(0)]);
}

// Solvers

#[test]
fn stub_supports_nothing() {
    let stub = StubbedBlackBoxSolver;
    let f = scalar(1);
    let error = stub.multi_scalar_mul(&[f], &[f], &[f], true).unwrap_err();
    assert_eq!(error, StubbedBlackBoxSolver::fail(BlackBoxFunc::MultiScalarMul));
    assert_eq!(error.reason(), "multi_scalar_mul is not supported");
    let error = stub.ec_add(&f, &f, &f, &f, &f, &f, true).unwrap_err();
    assert_eq!(error, StubbedBlackBoxSolver::fail(BlackBoxFunc::EmbeddedCurveAdd));
    assert_eq!(error.reason(), "embedded_curve_add is not supported");
    let error = stub.poseidon2_permutation(&[f, f, f, f]).unwrap_err();
    assert_eq!(error, StubbedBlackBoxSolver::fail(BlackBoxFunc::Poseidon2Permutation));
    assert_eq!(error.reason(), "poseidon2_permutation is not supported");
}

#[test]
fn phases_are_unsupported_by_default() {
    let error = StubbedBlackBoxSolver.derive_phase_challenge(0, &[scalar(1)], 1).unwrap_err();
    assert_eq!(
        error,
        BlackBoxResolutionError::Failed(
            BlackBoxFunc::Poseidon2Permutation,
            "Backend does not support multi-phase challenge derivation".to_string()
        )
    );
}

// Text

#[test]
fn decimal_notation() {
    for n in [0, 7, 9, 10, 99, 100, 1234567890, usize::MAX] {
        let mut text = "n = ".to_string();
        append_decimal(&mut text, n);
        assert_eq!(text, format!("n = {}", n));
    }
    assert_eq!(join("a", "b"), "ab");
}
