use ark_bn254::{Fr, G1Affine};
use ark_ec::{AffineRepr, CurveGroup};
use ark_ff::{BigInt, BigInteger, BigInteger256, Field, PrimeField};
use num_bigint::BigUint;
use phase_challenge::commitment::{encode_g1_as_fr_elements, kzg_commit, NUM_LIMB_BITS};
use phase_challenge::curve::G1Point;
use phase_challenge::field::{BaseFieldElement, FieldElement};
use phase_challenge::phase::{challenges_from_commitment, derive_phase_challenge};
use phase_challenge::solver::{BlackBoxFunc, BlackBoxFunctionSolver, BlackBoxResolutionError};
use phase_challenge::srs::srs_file_path;
use phase_challenge::transcript::{
    poseidon2_sponge_hash, poseidon2_transcript_squeeze, split_challenge,
};

// -----------------------------------------------------------------------
// A backend with the Poseidon2 permutation over BN254 of width 4
// -----------------------------------------------------------------------

struct Poseidon2Solver {
    round_constants: Vec<[Fr; 4]>,
}

const FULL_ROUNDS: usize = 8;
const PARTIAL_ROUNDS: usize = 56;

fn is_full_round(round: usize) -> bool {
    round < FULL_ROUNDS / 2 || round >= FULL_ROUNDS / 2 + PARTIAL_ROUNDS
}

/// The bits of the Grain generator that fixes the round constants.
struct Grain {
    state: u128,
}

impl Grain {
    fn new() -> Grain {
        let mut grain = Grain { state: 0xffff_fffc_7010_0801_fc02 };
        for _ in 0..160 {
            grain.step();
        }
        grain
    }

    fn step(&mut self) -> bool {
        let s = self.state;
        let bit = (s >> 62 ^ s >> 51 ^ s >> 38 ^ s >> 23 ^ s >> 13 ^ s) & 1;
        self.state = s >> 1 | bit << 79;
        bit == 1
    }

    fn bit(&mut self) -> bool {
        while !self.step() {
            self.step();
        }
        self.step()
    }

    fn element(&mut self) -> Fr {
        loop {
            let mut limbs = [0u64; 4];
            for i in (0..254).rev() {
                limbs[i / 64] |= (self.bit() as u64) << (i % 64);
            }
            if let Some(element) = Fr::from_bigint(BigInt(limbs)) {
                return element;
            }
        }
    }
}

fn external_layer(s: [Fr; 4]) -> [Fr; 4] {
    let t0 = s[0] + s[1];
    let t1 = s[2] + s[3];
    let t2 = s[1] + s[1] + t1;
    let t3 = s[3] + s[3] + t0;
    let t4 = Fr::from(4u64) * t1 + t3;
    let t5 = Fr::from(4u64) * t0 + t2;
    [t3 + t5, t5, t2 + t4, t4]
}

fn internal_layer(s: [Fr; 4]) -> [Fr; 4] {
    let diagonal = [
        [0xb56821fd19d3b6e7, 0x0d03f98929ca1d7f, 0x04b1e03b4bd9490c, 0x10dc6e9c006ea38b],
        [0xa86b38cfb45a740b, 0x99df9756d4dd9b84, 0x0149b3d0a30b3bb5, 0x0c28145b6a44df3e],
        [0x70067d00141cac15, 0xb21f75bb60e35961, 0xb2c7645a50392798, 0x00544b8338791518],
        [0x13bc534433ee428b, 0x52e105a3b8fa8526, 0x2e2e82eb122789e3, 0x222c01175718386f],
    ];
    let sum = s[0] + s[1] + s[2] + s[3];
    [0, 1, 2, 3].map(|i: usize| s[i] * Fr::from(BigInt(diagonal[i])) + sum)
}

impl Poseidon2Solver {
    fn new() -> Poseidon2Solver {
        let mut grain = Grain::new();
        let mut round_constants = Vec::new();
        for round in 0..FULL_ROUNDS + PARTIAL_ROUNDS {
            let mut constants = [Fr::from(0u64); 4];
            constants[0] = grain.element();
            if is_full_round(round) {
                for constant in constants.iter_mut().skip(1) {
                    *constant = grain.element();
                }
            }
            round_constants.push(constants);
        }
        Poseidon2Solver { round_constants }
    }

    fn permute(&self, state: [Fr; 4]) -> [Fr; 4] {
        let mut s = external_layer(state);
        for (round, constants) in self.round_constants.iter().enumerate() {
            for i in 0..4 {
                s[i] += constants[i];
            }
            if is_full_round(round) {
                s = external_layer(s.map(|x| x.pow([5u64])));
            } else {
                s[0] = s[0].pow([5u64]);
                s = internal_layer(s);
            }
        }
        s
    }
}

fn unsupported<T>(function: BlackBoxFunc) -> Result<T, BlackBoxResolutionError> {
    Err(BlackBoxResolutionError::Failed(function, "unsupported".to_string()))
}

impl BlackBoxFunctionSolver<FieldElement> for Poseidon2Solver {
    fn multi_scalar_mul(
        &self,
        _points: &[FieldElement],
        _scalars_lo: &[FieldElement],
        _scalars_hi: &[FieldElement],
        _predicate: bool,
    ) -> Result<(FieldElement, FieldElement, FieldElement), BlackBoxResolutionError> {
        unsupported(BlackBoxFunc::MultiScalarMul)
    }

    fn ec_add(
        &self,
        _input1_x: &FieldElement,
        _input1_y: &FieldElement,
        _input1_infinite: &FieldElement,
        _input2_x: &FieldElement,
        _input2_y: &FieldElement,
        _input2_infinite: &FieldElement,
        _predicate: bool,
    ) -> Result<(FieldElement, FieldElement, FieldElement), BlackBoxResolutionError> {
        unsupported(BlackBoxFunc::EmbeddedCurveAdd)
    }

    fn poseidon2_permutation(
        &self,
        inputs: &[FieldElement],
    ) -> Result<Vec<FieldElement>, BlackBoxResolutionError> {
        if inputs.len() != 4 {
            return unsupported(BlackBoxFunc::Poseidon2Permutation);
        }
        let state = [0, 1, 2, 3].map(|i: usize| Fr::from(BigInt(inputs[i].into_repr())));
        Ok(self.permute(state).iter().map(|x| element(*x)).collect())
    }
}

// -----------------------------------------------------------------------
// Conversions between the library's values and those of the outside crates
// -----------------------------------------------------------------------

fn element(x: Fr) -> FieldElement {
    FieldElement::from_be_bytes_mod_order(&x.into_bigint().to_bytes_be())
}

fn point(p: G1Affine) -> G1Point {
    match p.xy() {
        None => G1Point::zero(),
        Some((x, y)) => G1Point::new_unchecked(
            BaseFieldElement::from_be_bytes_mod_order(&x.into_bigint().to_bytes_be()),
            BaseFieldElement::from_be_bytes_mod_order(&y.into_bigint().to_bytes_be()),
        ),
    }
}

fn number(f: &FieldElement) -> BigUint {
    let bigint: BigInteger256 = BigInt(f.into_repr());
    BigUint::from_bytes_be(&bigint.to_bytes_be())
}

/// Generate synthetic SRS points for testing: [G, 2G, 3G, ...]
/// where G is the BN254 generator.
fn synthetic_srs(n: usize) -> Vec<G1Point> {
    let g = G1Affine::generator();
    (1..=n).map(|i| point((g * Fr::from(i as u64)).into_affine())).collect()
}

// -----------------------------------------------------------------------
// The permutation of the backend
// -----------------------------------------------------------------------

#[test]
fn permutation_of_zero_to_three() {
    let solver = Poseidon2Solver::new();
    let inputs: Vec<FieldElement> = (0u128..4).map(FieldElement::from).collect();
    let outputs = solver.poseidon2_permutation(&inputs).unwrap();
    let expected = [
        [0x9647cf8d76c01737, 0x8db3fe5b9a38629a, 0x5141b29e9ae240bf, 0x01bd538c2ee014ed],
        [0x14d9daa90cbac662, 0x7a35959aa6c70348, 0x2a8f6a0d2fa1709e, 0x239b62e7db98aa3a],
        [0x8245fa7515d5e3cb, 0x0c18d1e15a7b6dbc, 0x06808456bf758cbf, 0x04cbb44c61d928ed],
        [0x603f54794c30847a, 0x98eff1ab73163a35, 0xd01304b778d78f69, 0x2e11c5cff2a22c64],
    ];
    for i in 0..4 {
        assert_eq!(outputs[i].into_repr(), expected[i]);
    }
}

// -----------------------------------------------------------------------
// Splitting and encoding
// -----------------------------------------------------------------------

#[test]
fn test_split_challenge_zero() {
    let zero = FieldElement::zero();
    let (lo, hi) = split_challenge(&zero);
    assert_eq!(lo, FieldElement::zero());
    assert_eq!(hi, FieldElement::zero());
}

#[test]
fn test_split_challenge_small() {
    // A value that fits in 127 bits should have hi = 0
    let val = FieldElement::from(42u128);
    let (lo, hi) = split_challenge(&val);
    assert_eq!(lo, FieldElement::from(42u128));
    assert_eq!(hi, FieldElement::zero());
}

#[test]
fn test_split_challenge_large() {
    // Value with bits in both halves: 1 << 127 should give lo=0, hi=1
    let val = FieldElement::from(1u128)
        * FieldElement::from(1u128 << 64)
        * FieldElement::from(1u128 << 63);
    let (lo, hi) = split_challenge(&val);
    assert_eq!(lo, FieldElement::zero());
    assert_eq!(hi, FieldElement::from(1u128));
}

#[test]
fn test_encode_g1_identity() {
    let identity = point(G1Affine::zero());
    let encoded = encode_g1_as_fr_elements(&identity);
    for e in &encoded {
        assert_eq!(*e, FieldElement::zero());
    }
}

#[test]
fn test_encode_g1_generator() {
    // BN254 G1 generator is (1, 2)
    let generator = point(G1Affine::generator());
    let encoded = encode_g1_as_fr_elements(&generator);

    // x = 1, so x_lo = 1, x_hi = 0
    assert_eq!(encoded[0], FieldElement::from(1u128));
    assert_eq!(encoded[1], FieldElement::zero());
    // y = 2, so y_lo = 2, y_hi = 0
    assert_eq!(encoded[2], FieldElement::from(2u128));
    assert_eq!(encoded[3], FieldElement::zero());
}

#[test]
fn test_encode_g1_large_coordinates() {
    // Use a point with large coordinates (not the generator) to exercise
    // the limb splitting with nonzero hi parts.
    // 12345 * G should have large coordinates
    let large: G1Affine = (G1Affine::generator() * Fr::from(12345u64)).into_affine();
    let encoded = encode_g1_as_fr_elements(&point(large));

    // Reconstruct x from (x_lo, x_hi) and verify it matches
    let x = large.x().unwrap();
    let x_bigint: BigInteger256 = x.into();
    let x_full = BigUint::from_bytes_be(&x_bigint.to_bytes_be());

    let x_lo = number(&encoded[0]);
    let x_hi = number(&encoded[1]);

    let reconstructed = &x_lo + (&x_hi << NUM_LIMB_BITS);
    assert_eq!(reconstructed, x_full, "x coordinate should reconstruct from limbs");

    // Same for y
    let y = large.y().unwrap();
    let y_bigint: BigInteger256 = y.into();
    let y_full = BigUint::from_bytes_be(&y_bigint.to_bytes_be());

    let y_lo = number(&encoded[2]);
    let y_hi = number(&encoded[3]);

    let reconstructed_y = &y_lo + (&y_hi << NUM_LIMB_BITS);
    assert_eq!(reconstructed_y, y_full, "y coordinate should reconstruct from limbs");
}

// -----------------------------------------------------------------------
// The sponge
// -----------------------------------------------------------------------

#[test]
fn test_poseidon2_sponge_hash_matches_bb() {
    // Hash a single element (the simplest case):
    // Input: [1]
    // IV = 1 << 64
    // state = [0, 0, 0, IV]
    // After absorb: state = [1, 0, 0, IV]
    // Permute, output state[0]
    let solver = Poseidon2Solver::new();
    let input = [FieldElement::from(1u128)];
    let result = poseidon2_sponge_hash(&solver, &input);
    assert!(result.is_ok(), "Sponge hash should succeed");
    let result2 = poseidon2_sponge_hash(&solver, &input);
    assert_eq!(result.unwrap(), result2.unwrap());
}

#[test]
fn test_poseidon2_sponge_hash_different_inputs() {
    let solver = Poseidon2Solver::new();
    let input1 = [FieldElement::from(1u128)];
    let input2 = [FieldElement::from(2u128)];
    let result1 = poseidon2_sponge_hash(&solver, &input1).unwrap();
    let result2 = poseidon2_sponge_hash(&solver, &input2).unwrap();
    assert_ne!(result1, result2, "Different inputs should produce different hashes");
}

#[test]
fn sponge_hash_values() {
    let solver = Poseidon2Solver::new();
    let cases: [(&[u128], [u64; 4]); 5] = [
        (&[], [0x96785c698bc6732e, 0x1ce96d9d844236b4, 0xff974efefc8df78b, 0x18dfb8dc9b82229c]),
        (&[1], [0x02f09103eef5a373, 0x4590e06c44bce7f7, 0x13be8048c8011b45, 0x168758332d5b3e2d]),
        (
            &[1, 2, 3],
            [0x36a0a99e269c6972, 0xdf74da44c09058fe, 0x1bcdf29687e7908c, 0x16f5da1a6b40e7d7],
        ),
        (
            &[1, 0, 2, 0],
            [0x0df986ae5b7d83d4, 0x3ddec285fbff943e, 0x3d0a765fc6146e5c, 0x1298e6a6a1efdc8e],
        ),
        (
            &[1, 2, 3, 4, 5, 6, 7],
            [0x6eebda06a502d238, 0xf2b9791bd949ab92, 0xb05bdc44222463ed, 0x16f929bc0d216df4],
        ),
    ];
    for (input, expected) in cases {
        let input: Vec<FieldElement> = input.iter().map(|n| FieldElement::from(*n)).collect();
        let hash = poseidon2_sponge_hash(&solver, &input).unwrap();
        assert_eq!(hash.into_repr(), expected);
    }
}

#[test]
fn challenges_of_the_generator() {
    let solver = Poseidon2Solver::new();
    let generator = point(G1Affine::generator());
    let challenges = challenges_from_commitment(&solver, &generator, 5).unwrap();
    let expected = [
        0x3ddec285fbff943e0df986ae5b7d83d4u128,
        0x2531cd4d43dfb91c7a14ecbf8c28dcb8,
        0x1eb736fc7499a82858d99b3077181ca1,
        0x0589db6502fe45d11a58226b8423f3be,
        0x6cbb77ee958da745a92cdcc2aa6627e1,
    ];
    assert_eq!(challenges, expected.map(FieldElement::from).to_vec());
}

// -----------------------------------------------------------------------
// The path of the SRS file
// -----------------------------------------------------------------------

#[test]
fn test_srs_file_path_uses_home() {
    // When CRS_PATH is not set, srs_file_path should use $HOME/.bb-crs/
    let path = srs_file_path(None, Some("/home/user")).unwrap();
    assert!(
        path.ends_with("/bn254_g1.dat"),
        "SRS path should end with /bn254_g1.dat, got: {}",
        path
    );
    assert_eq!(path, "/home/user/.bb-crs/bn254_g1.dat");
}

// -----------------------------------------------------------------------
// Integration tests: full pipeline without SRS file
// -----------------------------------------------------------------------

#[test]
fn test_kzg_commit_single_value() {
    // commit([1], [G]) = 1 * G = G
    let srs = vec![point(G1Affine::generator())];
    let values = [FieldElement::from(1u128)];
    let commitment = kzg_commit(&values, &srs).unwrap();
    assert_eq!(commitment, point(G1Affine::generator()));
}

#[test]
fn test_kzg_commit_scalar_multiple() {
    // commit([5], [G]) = 5 * G
    let srs = vec![point(G1Affine::generator())];
    let values = [FieldElement::from(5u128)];
    let commitment = kzg_commit(&values, &srs).unwrap();
    let expected: G1Affine = (G1Affine::generator() * Fr::from(5u64)).into_affine();
    assert_eq!(commitment, point(expected));
}

#[test]
fn test_kzg_commit_multiple_values() {
    // commit([a, b], [G1, G2]) = a*G1 + b*G2
    let srs = synthetic_srs(2);
    let a = FieldElement::from(3u128);
    let b = FieldElement::from(7u128);
    let commitment = kzg_commit(&[a, b], &srs).unwrap();

    // Manual: 3 * G + 7 * (2G) = 3G + 14G = 17G
    let expected: G1Affine = (G1Affine::generator() * Fr::from(17u64)).into_affine();
    assert_eq!(commitment, point(expected));
}

#[test]
fn test_full_pipeline_deterministic() {
    // Full pipeline: kzg_commit → encode → hash → split
    // Verify determinism: same inputs → same output
    let solver = Poseidon2Solver::new();
    let srs = synthetic_srs(3);
    let values =
        [FieldElement::from(42u128), FieldElement::from(123u128), FieldElement::from(999u128)];

    let commitment1 = kzg_commit(&values, &srs).unwrap();
    let encoded1 = encode_g1_as_fr_elements(&commitment1);
    let challenges1 = poseidon2_transcript_squeeze(&solver, &encoded1, 1).unwrap();

    let commitment2 = kzg_commit(&values, &srs).unwrap();
    let encoded2 = encode_g1_as_fr_elements(&commitment2);
    let challenges2 = poseidon2_transcript_squeeze(&solver, &encoded2, 1).unwrap();

    assert_eq!(challenges1, challenges2, "Same inputs must produce same challenges");
}

#[test]
fn test_full_pipeline_different_inputs_different_challenges() {
    let solver = Poseidon2Solver::new();
    let srs = synthetic_srs(2);

    let values_a = [FieldElement::from(1u128), FieldElement::from(2u128)];
    let values_b = [FieldElement::from(3u128), FieldElement::from(4u128)];

    let commitment_a = kzg_commit(&values_a, &srs).unwrap();
    let encoded_a = encode_g1_as_fr_elements(&commitment_a);
    let ch_a = poseidon2_transcript_squeeze(&solver, &encoded_a, 1).unwrap();

    let commitment_b = kzg_commit(&values_b, &srs).unwrap();
    let encoded_b = encode_g1_as_fr_elements(&commitment_b);
    let ch_b = poseidon2_transcript_squeeze(&solver, &encoded_b, 1).unwrap();

    assert_ne!(ch_a, ch_b, "Different inputs must produce different challenges");
}

#[test]
fn test_multiple_challenges() {
    let solver = Poseidon2Solver::new();
    let srs = synthetic_srs(2);
    let values = [FieldElement::from(42u128), FieldElement::from(99u128)];
    let commitment = kzg_commit(&values, &srs).unwrap();
    let encoded = encode_g1_as_fr_elements(&commitment);

    // Request 1 challenge
    let ch1 = poseidon2_transcript_squeeze(&solver, &encoded, 1).unwrap();
    assert_eq!(ch1.len(), 1);

    // Request 2 challenges (split from single hash)
    let ch2 = poseidon2_transcript_squeeze(&solver, &encoded, 2).unwrap();
    assert_eq!(ch2.len(), 2);
    // First challenge should be the lo half of the hash, same as ch1[0]
    assert_eq!(ch2[0], ch1[0], "First challenge should match single-challenge result");
    assert_ne!(ch2[0], ch2[1], "Two challenges from same hash should differ");

    // Request 3 challenges (needs a second hash round)
    let ch3 = poseidon2_transcript_squeeze(&solver, &encoded, 3).unwrap();
    assert_eq!(ch3.len(), 3);
    assert_eq!(ch3[0], ch2[0], "First challenge stable across request sizes");
    assert_eq!(ch3[1], ch2[1], "Second challenge stable across request sizes");
    // Third challenge comes from hashing the previous hash output
    assert_ne!(ch3[2], ch3[0]);
    assert_ne!(ch3[2], ch3[1]);
}

#[test]
fn test_challenge_values_are_127_bits() {
    // Every challenge produced should fit in 127 bits (< 2^127)
    let solver = Poseidon2Solver::new();
    let srs = synthetic_srs(2);
    let values = [FieldElement::from(42u128), FieldElement::from(99u128)];
    let commitment = kzg_commit(&values, &srs).unwrap();
    let encoded = encode_g1_as_fr_elements(&commitment);
    let challenges = poseidon2_transcript_squeeze(&solver, &encoded, 4).unwrap();

    let bound_127 = BigUint::from(1u64) << 127u32;
    for (i, ch) in challenges.iter().enumerate() {
        let val = number(ch);
        assert!(val < bound_127, "Challenge {} should be < 2^127, got {} bits", i, val.bits());
    }
}

#[test]
fn test_derive_phase_challenge_errors_without_srs() {
    // When the SRS holds no points, derive_phase_challenge should return
    // a meaningful error (not panic).
    let solver = Poseidon2Solver::new();
    let values = [FieldElement::from(1u128)];
    let result = derive_phase_challenge(&solver, 0, &values, 1, &[]);
    let error = result.unwrap_err();
    let err_msg = error.reason();
    assert!(
        err_msg.contains("PhaseBarrier") || err_msg.contains("SRS"),
        "Error should mention PhaseBarrier or SRS, got: {}",
        err_msg
    );
}

#[test]
fn test_derive_phase_challenge_empty_witnesses_error() {
    let solver = Poseidon2Solver::new();
    let result = derive_phase_challenge(&solver, 0, &[], 1, &[]);
    assert!(result.is_err());
    let error = result.unwrap_err();
    assert!(error.reason().contains("empty"), "Error should mention empty witnesses");
}

#[test]
fn test_derive_phase_challenge_zero_challenges_error() {
    let solver = Poseidon2Solver::new();
    let values = [FieldElement::from(1u128)];
    let result = derive_phase_challenge(&solver, 0, &values, 0, &[]);
    assert!(result.is_err());
    let error = result.unwrap_err();
    assert!(
        error.reason().contains("at least one"),
        "Error should mention needing at least one challenge"
    );
}

#[test]
fn derivation_from_srs_bytes() {
    // The points G and 2G, as the SRS file holds them
    let g = G1Affine::generator();
    let mut data = Vec::new();
    for i in 1u64..=2 {
        let p = (g * Fr::from(i)).into_affine();
        data.extend(p.x.into_bigint().to_bytes_be());
        data.extend(p.y.into_bigint().to_bytes_be());
    }
    let solver = Poseidon2Solver::new();
    // (r - 1) * G + 1 * 2G = G
    let minus_one = element(-Fr::from(1u64));
    let values = [minus_one, FieldElement::from(1u128)];
    let derived = derive_phase_challenge(&solver, 0, &values, 5, &data).unwrap();
    let expected = challenges_from_commitment(&solver, &point(g), 5).unwrap();
    assert_eq!(derived, expected);

    // The phase does not matter, nor do bytes after the points that are needed
    data.extend([7u8; 100]);
    assert_eq!(derive_phase_challenge(&solver, 9, &values, 5, &data).unwrap(), expected);

    // A shorter request gives the first challenges of a longer one
    let fewer = derive_phase_challenge(&solver, 0, &values, 3, &data).unwrap();
    assert_eq!(fewer, expected[..3].to_vec());

    // A third value needs a third point
    let values = [minus_one, minus_one, minus_one, minus_one];
    let error = derive_phase_challenge(&solver, 0, &values, 5, &data).unwrap_err();
    assert_eq!(error.reason(), "PhaseBarrier: SRS file has 3 points but 4 are needed");
}
