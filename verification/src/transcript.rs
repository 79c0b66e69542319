//! The Poseidon2 sponge transcript, from which challenges are squeezed.

use crate::bigint;
use crate::field;
use crate::field::FieldElement;
use crate::number;
use crate::solver;
use crate::solver::{BlackBoxFunc, BlackBoxFunctionSolver, BlackBoxResolutionError};
use vstd::arithmetic::div_mod::*;
use vstd::arithmetic::mul::*;
use vstd::arithmetic::power2::*;
use vstd::prelude::*;

verus! {

/// Number of state elements that take up input before each permutation.
pub const RATE: usize = 3;

/// Number of bits in a challenge.
pub const CHALLENGE_BITS: u32 = 127;

/// The least number that does not fit into a challenge, 2^127.
pub open spec fn challenge_bound() -> nat {
    0x8000_0000_0000_0000_0000_0000_0000_0000nat
}

/// The bound of the challenges is a power of two.
pub proof fn lemma_challenge_bound()
    ensures
        challenge_bound() == pow2(CHALLENGE_BITS as nat),
{
    number::lemma_pow2_values();
}

/// A field element, or the failure that took its place.
pub open spec fn hash_outcome(result: Result<FieldElement, BlackBoxResolutionError>) -> Result<
    FieldElement,
    (BlackBoxFunc, Seq<char>),
> {
    match result {
        Ok(hash) => Ok(hash),
        Err(error) => Err(error@),
    }
}

/// The state before any input: zeros, and the input length times 2^64 in the
/// last place.
pub open spec fn initial_state(input_len: nat) -> Seq<FieldElement> {
    seq![
        field::field_of(0),
        field::field_of(0),
        field::field_of(0),
        field::field_of((input_len * number::limb_base()) % field::scalar_modulus()),
    ]
}

/// The state after a chunk of input is added to its first elements.
pub open spec fn absorb(state: Seq<FieldElement>, chunk: Seq<FieldElement>) -> Seq<FieldElement> {
    Seq::new(
        state.len(),
        |i: int|
            if i < chunk.len() {
                field::field_add(state[i], chunk[i])
            } else {
                state[i]
            },
    )
}

/// The hash that a sponge in the given state makes of the input that is left:
/// whole chunks are absorbed and permuted one after the other, then what
/// remains, and the first element of the last state comes out.
pub open spec fn sponge_from<S: BlackBoxFunctionSolver<FieldElement>>(
    solver: &S,
    state: Seq<FieldElement>,
    input: Seq<FieldElement>,
) -> Result<FieldElement, (BlackBoxFunc, Seq<char>)>
    decreases input.len(),
{
    if input.len() < RATE {
        match solver.permutation(absorb(state, input)) {
            Ok(last) => Ok(last[0]),
            Err(error) => Err(error),
        }
    } else {
        match solver.permutation(absorb(state, input.take(RATE as int))) {
            Ok(next) => sponge_from(solver, next, input.skip(RATE as int)),
            Err(error) => Err(error),
        }
    }
}

/// The sponge hash of `input`.
pub open spec fn sponge_hash<S: BlackBoxFunctionSolver<FieldElement>>(
    solver: &S,
    input: Seq<FieldElement>,
) -> Result<FieldElement, (BlackBoxFunc, Seq<char>)> {
    sponge_from(solver, initial_state(input.len()), input)
}

/// The `i`-th hash of a transcript: that of the data, then each time that of
/// the hash before. A failure ends the chain.
pub open spec fn hash_chain<S: BlackBoxFunctionSolver<FieldElement>>(
    solver: &S,
    data: Seq<FieldElement>,
    i: nat,
) -> Result<FieldElement, (BlackBoxFunc, Seq<char>)>
    decreases i,
{
    if i == 0 {
        sponge_hash(solver, data)
    } else {
        match hash_chain(solver, data, (i - 1) as nat) {
            Ok(hash) => sponge_hash(solver, seq![hash]),
            Err(error) => Err(error),
        }
    }
}

/// The lower bits of a hash, as a challenge.
pub open spec fn challenge_lo(hash: FieldElement) -> FieldElement {
    field::field_of(hash@ % challenge_bound())
}

/// The upper bits of a hash, as a challenge.
pub open spec fn challenge_hi(hash: FieldElement) -> FieldElement {
    field::field_of(hash@ / challenge_bound())
}

/// The `j`-th challenge of a transcript: each hash gives two, the lower bits first.
pub open spec fn challenge_at<S: BlackBoxFunctionSolver<FieldElement>>(
    solver: &S,
    data: Seq<FieldElement>,
    j: nat,
) -> FieldElement {
    let hash = hash_chain(solver, data, j / 2)->Ok_0;
    if j % 2 == 0 {
        challenge_lo(hash)
    } else {
        challenge_hi(hash)
    }
}

/// The place of the last hash that `n` challenges need; the first is always made.
pub open spec fn last_hash(n: nat) -> nat {
    if n == 0 {
        0
    } else {
        ((n - 1) / 2) as nat
    }
}

/// The first `n` challenges of a transcript, or the failure of a hash that they need.
pub open spec fn transcript_challenges<S: BlackBoxFunctionSolver<FieldElement>>(
    solver: &S,
    data: Seq<FieldElement>,
    n: nat,
) -> Result<Seq<FieldElement>, (BlackBoxFunc, Seq<char>)> {
    match hash_chain(solver, data, last_hash(n)) {
        Ok(_) => Ok(Seq::new(n, |j: int| challenge_at(solver, data, j as nat))),
        Err(error) => Err(error),
    }
}

/// Whether the permutation succeeds on every state of the sponge.
pub open spec fn permutes_every_state<S: BlackBoxFunctionSolver<FieldElement>>(solver: &S) -> bool {
    forall|state: Seq<FieldElement>|
        state.len() == 4 ==> (#[trigger] solver.permutation(state) matches Ok(next) && next.len()
            == 4)
}

fn absorb_cache(state: &mut [FieldElement; 4], cache: &[FieldElement])
    requires
        cache@.len() <= RATE,
    ensures
        final(state)@ == absorb(old(state)@, cache@),
{
    let ghost before = state@;
    for i in 0..cache.len()
        invariant
            cache@.len() <= RATE,
            before.len() == 4,
            state@ == absorb(before, cache@.take(i as int)),
    {
        state[i] = state[i] + cache[i];
        proof {
            assert(state@ =~= absorb(before, cache@.take(i + 1)));
        }
    }
    proof {
        assert(cache@.take(cache@.len() as int) =~= cache@);
    }
}

/// Split a 254-bit field element into two 127-bit challenges.
///
/// lo = bits [0..127), hi = bits [127..254)
pub fn split_challenge(challenge: &FieldElement) -> (halves: (FieldElement, FieldElement))
    ensures
        halves.0@ == challenge@ % challenge_bound(),
        halves.1@ == challenge@ / challenge_bound(),
        halves.0@ + challenge_bound() * halves.1@ == challenge@,
        halves.0@ < challenge_bound(),
        halves.1@ < challenge_bound(),
        halves == (challenge_lo(*challenge), challenge_hi(*challenge)),
        halves.0@ + pow2(127) * halves.1@ == challenge@,
        halves.0@ < pow2(127),
        halves.1@ < pow2(127),
{
    let bytes = challenge.to_be_bytes();
    let (lo, hi) = bigint::split_at_bit(bytes.as_slice(), CHALLENGE_BITS);
    proof {
        lemma_challenge_bound();
        lemma_fundamental_div_mod(challenge@ as int, challenge_bound() as int);
        lemma_small_mod(challenge@ % challenge_bound(), field::scalar_modulus());
        lemma_small_mod(challenge@ / challenge_bound(), field::scalar_modulus());
    }
    let lo_fr = FieldElement::from_be_bytes_mod_order(lo.as_slice());
    let hi_fr = FieldElement::from_be_bytes_mod_order(hi.as_slice());
    proof {
        field::lemma_field_of_view(lo_fr);
        field::lemma_field_of_view(hi_fr);
    }
    (lo_fr, hi_fr)
}

/// Poseidon2 sponge hash, with the permutation of `solver`.
///
/// State width t=4, rate=3, capacity=1.
/// IV = input_length << 64 in state[3] (capacity slot).
/// Absorption is additive (elements added to state, not overwriting).
pub fn poseidon2_sponge_hash<S: BlackBoxFunctionSolver<FieldElement>>(
    solver: &S,
    input: &[FieldElement],
) -> (hash: Result<FieldElement, BlackBoxResolutionError>)
    ensures
        hash_outcome(hash) == sponge_hash(solver, input@),
        hash matches Ok(h) ==> sponge_hash(solver, input@) == Ok::<
            FieldElement,
            (BlackBoxFunc, Seq<char>),
        >(h),
        hash matches Err(e) ==> sponge_hash(solver, input@) == Err::<
            FieldElement,
            (BlackBoxFunc, Seq<char>),
        >(e@),
{
    // Initialize state: [0, 0, 0, IV]
    let iv = FieldElement::from(input.len() as u128) * FieldElement::from(1u128 << 64);
    let zero = FieldElement::zero();
    let mut state: [FieldElement; 4] = [zero, zero, zero, iv];
    proof {
        assert(1u128 << 64 == 0x1_0000_0000_0000_0000u128) by (bit_vector);
        field::lemma_field_of(input@.len());
        field::lemma_field_of(number::limb_base());
        assert(state@ =~= initial_state(input@.len()));
        assert(input@.skip(0) =~= input@);
    }

    // Absorb input in chunks of RATE
    let mut cache: Vec<FieldElement> = Vec::with_capacity(RATE);
    for i in 0..input.len()
        invariant
            cache@.len() < RATE,
            cache@.len() <= i,
            cache@ == input@.subrange(i - cache@.len(), i as int),
            sponge_hash(solver, input@) == sponge_from(
                solver,
                state@,
                input@.skip(i - cache@.len()),
            ),
    {
        cache.push(input[i]);
        if cache.len() == RATE {
            let ghost rest = input@.skip(i + 1 - RATE);
            proof {
                assert(cache@ =~= rest.take(RATE as int));
                assert(rest.skip(RATE as int) =~= input@.skip(i + 1));
            }
            // Add cache to rate portion of state, then permute
            absorb_cache(&mut state, cache.as_slice());
            let permuted = match solver.poseidon2_permutation(&state) {
                Ok(permuted) => permuted,
                Err(error) => return Err(error),
            };
            state = [permuted[0], permuted[1], permuted[2], permuted[3]];
            proof {
                assert(state@ =~= permuted@);
            }
            cache.clear();
        }
    }

    // Final squeeze: absorb remaining cache elements and permute
    proof {
        assert(cache@ =~= input@.skip(input@.len() - cache@.len()));
    }
    absorb_cache(&mut state, cache.as_slice());
    match solver.poseidon2_permutation(&state) {
        Ok(permuted) => Ok(permuted[0]),
        Err(error) => Err(error),
    }
}

/// Hash field elements with the Poseidon2 sponge and extract challenges.
///
/// Each hash is split into two 127-bit challenges. For challenges beyond the
/// first pair, the previous hash is hashed in turn.
pub fn poseidon2_transcript_squeeze<S: BlackBoxFunctionSolver<FieldElement>>(
    solver: &S,
    data: &[FieldElement],
    num_challenges: usize,
) -> (challenges: Result<Vec<FieldElement>, BlackBoxResolutionError>)
    ensures
        solver::outcome(challenges) == transcript_challenges(solver, data@, num_challenges as nat),
        challenges matches Ok(c) ==> transcript_challenges(solver, data@, num_challenges as nat)
            == Ok::<Seq<FieldElement>, (BlackBoxFunc, Seq<char>)>(c@),
        challenges matches Err(e) ==> transcript_challenges(solver, data@, num_challenges as nat)
            == Err::<Seq<FieldElement>, (BlackBoxFunc, Seq<char>)>(e@),
        challenges matches Ok(c) ==> c@.len() == num_challenges,
        challenges matches Ok(c) ==> forall|j: int|
            0 <= j < c@.len() ==> (#[trigger] c@[j])@ < challenge_bound(),
        challenges matches Ok(c) ==> forall|j: int|
            0 <= j < c@.len() ==> (#[trigger] c@[j])@ < pow2(127),
{
    proof {
        lemma_challenge_bound();
    }
    // Compute the sponge hash of the data (this is the first challenge source)
    let hash_output = match poseidon2_sponge_hash(solver, data) {
        Ok(hash) => hash,
        Err(error) => {
            proof {
                lemma_chain_stops(solver, data@, 0, last_hash(num_challenges as nat));
            }
            return Err(error);
        },
    };

    let mut challenges: Vec<FieldElement> = Vec::new();
    let (lo, hi) = split_challenge(&hash_output);
    challenges.push(lo);
    if num_challenges > 1 {
        challenges.push(hi);
    }

    // For additional challenges beyond the first pair, hash the previous output
    let mut prev_challenge = hash_output;
    let ghost mut k: nat = 0;
    while challenges.len() < num_challenges
        invariant
            hash_chain(solver, data@, k) == Ok::<FieldElement, (BlackBoxFunc, Seq<char>)>(
                prev_challenge,
            ),
            k == 0 || 2 * k < num_challenges,
            challenges@.len() == if num_challenges <= 1 {
                1
            } else if 2 * k + 2 <= num_challenges {
                (2 * k + 2) as int
            } else {
                num_challenges as int
            },
            forall|j: int|
                0 <= j < challenges@.len() ==> #[trigger] challenges@[j] == challenge_at(
                    solver,
                    data@,
                    j as nat,
                ),
            forall|j: int|
                0 <= j < challenges@.len() ==> (#[trigger] challenges@[j])@ < challenge_bound(),
        decreases num_challenges - challenges@.len(),
    {
        let next_hash = match poseidon2_sponge_hash(solver, &[prev_challenge]) {
            Ok(hash) => hash,
            Err(error) => {
                proof {
                    assert([prev_challenge]@ =~= seq![prev_challenge]);
                    lemma_chain_stops(solver, data@, k + 1, last_hash(num_challenges as nat));
                }
                return Err(error);
            },
        };
        proof {
            assert([prev_challenge]@ =~= seq![prev_challenge]);
        }
        let (lo, hi) = split_challenge(&next_hash);
        challenges.push(lo);
        if challenges.len() < num_challenges {
            challenges.push(hi);
        }
        prev_challenge = next_hash;
        proof {
            k = k + 1;
        }
    }

    challenges.truncate(num_challenges);
    proof {
        assert(k == last_hash(num_challenges as nat));
        assert(challenges@ =~= Seq::new(
            num_challenges as nat,
            |j: int| challenge_at(solver, data@, j as nat),
        ));
    }
    Ok(challenges)
}

/// A failure in the chain of hashes is the failure of every later hash.
proof fn lemma_chain_stops<S: BlackBoxFunctionSolver<FieldElement>>(
    solver: &S,
    data: Seq<FieldElement>,
    i: nat,
    k: nat,
)
    requires
        i <= k,
    ensures
        hash_chain(solver, data, i) is Err ==> hash_chain(solver, data, k) == hash_chain(
            solver,
            data,
            i,
        ),
    decreases k,
{
    if i < k {
        lemma_chain_stops(solver, data, i, (k - 1) as nat);
    }
}

/// The challenges do not depend on how many are asked for: a shorter request
/// gives the first of those that a longer one gives, and it succeeds where the
/// longer one does.
pub proof fn law_challenges_are_stable<S: BlackBoxFunctionSolver<FieldElement>>(
    solver: &S,
    data: Seq<FieldElement>,
    m: nat,
    n: nat,
)
    requires
        m <= n,
    ensures
        transcript_challenges(solver, data, n) matches Ok(longer) ==> transcript_challenges(
            solver,
            data,
            m,
        ) == Ok::<Seq<FieldElement>, (BlackBoxFunc, Seq<char>)>(longer.take(m as int)),
        transcript_challenges(solver, data, m) is Err ==> transcript_challenges(solver, data, n)
            == transcript_challenges(solver, data, m),
{
    lemma_chain_stops(solver, data, last_hash(m), last_hash(n));
    if let Ok(longer) = transcript_challenges(solver, data, n) {
        assert(transcript_challenges(solver, data, m)->Ok_0 =~= longer.take(m as int));
    }
}

/// The two challenges of a hash hold all its bits, 127 each.
pub proof fn law_hash_from_challenges(hash: FieldElement)
    requires
        hash.well_formed(),
    ensures
        challenge_lo(hash)@ + challenge_bound() * challenge_hi(hash)@ == hash@,
        challenge_lo(hash)@ < challenge_bound(),
        challenge_hi(hash)@ < challenge_bound(),
        challenge_lo(hash)@ + pow2(127) * challenge_hi(hash)@ == hash@,
        challenge_lo(hash)@ < pow2(127),
        challenge_hi(hash)@ < pow2(127),
{
    lemma_challenge_bound();
    lemma_fundamental_div_mod(hash@ as int, challenge_bound() as int);
    field::lemma_field_of(hash@ % challenge_bound());
    field::lemma_field_of(hash@ / challenge_bound());
}

/// Whether each state of `after` is the permutation of that of `before` in its place.
spec fn permutes<S: BlackBoxFunctionSolver<FieldElement>>(
    solver: &S,
    before: Seq<Seq<FieldElement>>,
    after: Seq<Seq<FieldElement>>,
) -> bool {
    forall|k: int|
        0 <= k < after.len() ==> (#[trigger] before[k]).len() == 4 && solver.permutation(before[k])
            == Ok::<Seq<FieldElement>, (BlackBoxFunc, Seq<char>)>(after[k])
}

/// Whether the states of `before` take up the input in its order.
spec fn absorbs(
    input: Seq<FieldElement>,
    before: Seq<Seq<FieldElement>>,
    after: Seq<Seq<FieldElement>>,
) -> bool {
    &&& forall|k: int| 0 <= k < before.len() ==> (#[trigger] before[k]).len() == 4
    &&& forall|k: int| 0 <= k < after.len() ==> (#[trigger] after[k]).len() == 4
    &&& forall|k: int, j: int|
        0 <= k < after.len() && 0 <= j < 4 ==> (#[trigger] after[k][j])@ < field::scalar_modulus()
    &&& forall|k: int, j: int|
        0 <= k < before.len() && 0 <= j < 4 ==> (#[trigger] before[k][j])@ == ((if k > 0 {
            after[k - 1][j]@
        } else if j == 3 {
            input.len() * number::limb_base()
        } else {
            0nat
        }) + (if j < 3 && 3 * k + j < input.len() {
            input[3 * k + j]@
        } else {
            0nat
        })) % field::scalar_modulus()
}

/// The state to which the `k`-th chunk of an input is added.
spec fn state_at(input: Seq<FieldElement>, after: Seq<Seq<FieldElement>>, k: int) -> Seq<
    FieldElement,
> {
    if k == 0 {
        initial_state(input.len())
    } else {
        after[k - 1]
    }
}

/// The `k`-th chunk of an input; the last one may be short.
spec fn chunk_at(input: Seq<FieldElement>, k: int) -> Seq<FieldElement> {
    if input.len() < 3 * k + 3 {
        input.skip(3 * k)
    } else {
        input.skip(3 * k).take(3)
    }
}

/// The `k`-th state is the one before it with the `k`-th chunk added.
proof fn lemma_absorbed(
    input: Seq<FieldElement>,
    before: Seq<Seq<FieldElement>>,
    after: Seq<Seq<FieldElement>>,
    k: int,
)
    requires
        absorbs(input, before, after),
        0 <= k < before.len() <= after.len() + 1,
        3 * k <= input.len(),
    ensures
        before[k] == absorb(
            state_at(input, after, k),
            chunk_at(input, k),
        ),
{
    let m = field::scalar_modulus();
    let state = state_at(input, after, k);
    let iv = input.len() * number::limb_base();
    lemma_mod_bound(iv as int, m as int);
    lemma_small_mod(0, m);
    field::lemma_field_of(0);
    field::lemma_field_of(iv % m);
    assert forall|j: int| 0 <= j < 4 implies #[trigger] before[k][j] == absorb(
        state,
        chunk_at(input, k),
    )[j] by {
        let f = before[k][j];
        field::lemma_field_of_view(f);
        field::lemma_field_of_view(state[j]);
        if k > 0 {
            assert(after[k - 1][j]@ < m);
        }
        assert(state[j]@ < m);
        lemma_small_mod(state[j]@, m);
    }
    assert(before[k] =~= absorb(
        state,
        chunk_at(input, k),
    ));
}

/// After `k` permutations the hash is what the sponge makes of the rest.
proof fn lemma_run_so_far<S: BlackBoxFunctionSolver<FieldElement>>(
    solver: &S,
    input: Seq<FieldElement>,
    before: Seq<Seq<FieldElement>>,
    after: Seq<Seq<FieldElement>>,
    k: int,
)
    requires
        permutes(solver, before, after),
        absorbs(input, before, after),
        0 <= k <= after.len() <= before.len() <= after.len() + 1,
        3 * k <= input.len(),
    ensures
        sponge_hash(solver, input) == sponge_from(
            solver,
            state_at(input, after, k),
            input.skip(3 * k),
        ),
    decreases k,
{
    if k == 0 {
        assert(input.skip(0) =~= input);
    } else {
        let i = k - 1;
        lemma_run_so_far(solver, input, before, after, i);
        lemma_absorbed(input, before, after, i);
        assert(solver.permutation(before[i]) is Ok);
        assert(input.skip(3 * i).skip(3) =~= input.skip(3 * k));
    }
}

/// What a hash is made of: states `before` and `after` each permutation, one for
/// every three elements of the input and one for the rest. The first state holds
/// the input length times 2^64 in its last place; each state takes up the
/// next three elements in its first places, by addition; the hash is the first
/// element that the last permutation gives.
pub proof fn law_hash_absorbs_input<S: BlackBoxFunctionSolver<FieldElement>>(
    solver: &S,
    input: Seq<FieldElement>,
    before: Seq<Seq<FieldElement>>,
    after: Seq<Seq<FieldElement>>,
)
    requires
        before.len() == input.len() / 3 + 1,
        after.len() == before.len(),
        forall|k: int|
            0 <= k < before.len() ==> (#[trigger] before[k]).len() == 4 && solver.permutation(
                before[k],
            ) == Ok::<Seq<FieldElement>, (BlackBoxFunc, Seq<char>)>(after[k]),
        forall|k: int| 0 <= k < after.len() ==> (#[trigger] after[k]).len() == 4,
        forall|k: int, j: int|
            0 <= k < after.len() && 0 <= j < 4 ==> (#[trigger] after[k][j])@
                < field::scalar_modulus(),
        forall|k: int, j: int|
            0 <= k < before.len() && 0 <= j < 4 ==> (#[trigger] before[k][j])@ == ((if k > 0 {
                after[k - 1][j]@
            } else if j == 3 {
                input.len() * 0x1_0000_0000_0000_0000nat
            } else {
                0nat
            }) + (if j < 3 && 3 * k + j < input.len() {
                input[3 * k + j]@
            } else {
                0nat
            })) % field::scalar_modulus(),
    ensures
        sponge_hash(solver, input) == Ok::<FieldElement, (BlackBoxFunc, Seq<char>)>(
            after.last()[0],
        ),
{
    let last = (input.len() / 3) as int;
    lemma_run_so_far(solver, input, before, after, last);
    lemma_absorbed(input, before, after, last);
}

/// A hash fails exactly as the first permutation that fails: the states are those
/// of a hash that succeeds, up to the state on which the permutation fails.
pub proof fn law_hash_fails_as_permutation<S: BlackBoxFunctionSolver<FieldElement>>(
    solver: &S,
    input: Seq<FieldElement>,
    before: Seq<Seq<FieldElement>>,
    after: Seq<Seq<FieldElement>>,
    error: (BlackBoxFunc, Seq<char>),
)
    requires
        before.len() == after.len() + 1,
        after.len() <= input.len() / 3,
        before.last().len() == 4,
        solver.permutation(before.last()) == Err::<
            Seq<FieldElement>,
            (BlackBoxFunc, Seq<char>),
        >(error),
        forall|k: int|
            0 <= k < after.len() ==> (#[trigger] before[k]).len() == 4 && solver.permutation(
                before[k],
            ) == Ok::<Seq<FieldElement>, (BlackBoxFunc, Seq<char>)>(after[k]),
        forall|k: int| 0 <= k < after.len() ==> (#[trigger] after[k]).len() == 4,
        forall|k: int, j: int|
            0 <= k < after.len() && 0 <= j < 4 ==> (#[trigger] after[k][j])@
                < field::scalar_modulus(),
        forall|k: int, j: int|
            0 <= k < before.len() && 0 <= j < 4 ==> (#[trigger] before[k][j])@ == ((if k > 0 {
                after[k - 1][j]@
            } else if j == 3 {
                input.len() * 0x1_0000_0000_0000_0000nat
            } else {
                0nat
            }) + (if j < 3 && 3 * k + j < input.len() {
                input[3 * k + j]@
            } else {
                0nat
            })) % field::scalar_modulus(),
    ensures
        sponge_hash(solver, input) == Err::<FieldElement, (BlackBoxFunc, Seq<char>)>(error),
{
    let last = after.len() as int;
    lemma_run_so_far(solver, input, before, after, last);
    lemma_absorbed(input, before, after, last);
}

/// Every element of the input counts: under a permutation that keeps states
/// apart, two inputs that differ in one place are hashed out of different last states.
pub proof fn law_every_element_is_absorbed<S: BlackBoxFunctionSolver<FieldElement>>(
    solver: &S,
    a: Seq<FieldElement>,
    b: Seq<FieldElement>,
    place: int,
    before_a: Seq<Seq<FieldElement>>,
    after_a: Seq<Seq<FieldElement>>,
    before_b: Seq<Seq<FieldElement>>,
    after_b: Seq<Seq<FieldElement>>,
)
    requires
        a.len() == b.len(),
        0 <= place < a.len(),
        a[place] != b[place],
        a[place].well_formed(),
        b[place].well_formed(),
        forall|i: int| 0 <= i < a.len() && i != place ==> #[trigger] a[i] == b[i],
        forall|s: Seq<FieldElement>, t: Seq<FieldElement>|
            s.len() == 4 && t.len() == 4 && s != t ==> (#[trigger] solver.permutation(s))
                != #[trigger] solver.permutation(t),
        before_a.len() == a.len() / 3 + 1,
        after_a.len() == before_a.len(),
        forall|k: int|
            0 <= k < before_a.len() ==> (#[trigger] before_a[k]).len() == 4 && solver.permutation(
                before_a[k],
            ) == Ok::<Seq<FieldElement>, (BlackBoxFunc, Seq<char>)>(after_a[k]),
        forall|k: int| 0 <= k < after_a.len() ==> (#[trigger] after_a[k]).len() == 4,
        forall|k: int, j: int|
            0 <= k < after_a.len() && 0 <= j < 4 ==> (#[trigger] after_a[k][j])@
                < field::scalar_modulus(),
        forall|k: int, j: int|
            0 <= k < before_a.len() && 0 <= j < 4 ==> (#[trigger] before_a[k][j])@ == ((if k > 0 {
                after_a[k - 1][j]@
            } else if j == 3 {
                a.len() * 0x1_0000_0000_0000_0000nat
            } else {
                0nat
            }) + (if j < 3 && 3 * k + j < a.len() {
                a[3 * k + j]@
            } else {
                0nat
            })) % field::scalar_modulus(),
        before_b.len() == b.len() / 3 + 1,
        after_b.len() == before_b.len(),
        forall|k: int|
            0 <= k < before_b.len() ==> (#[trigger] before_b[k]).len() == 4 && solver.permutation(
                before_b[k],
            ) == Ok::<Seq<FieldElement>, (BlackBoxFunc, Seq<char>)>(after_b[k]),
        forall|k: int| 0 <= k < after_b.len() ==> (#[trigger] after_b[k]).len() == 4,
        forall|k: int, j: int|
            0 <= k < after_b.len() && 0 <= j < 4 ==> (#[trigger] after_b[k][j])@
                < field::scalar_modulus(),
        forall|k: int, j: int|
            0 <= k < before_b.len() && 0 <= j < 4 ==> (#[trigger] before_b[k][j])@ == ((if k > 0 {
                after_b[k - 1][j]@
            } else if j == 3 {
                b.len() * 0x1_0000_0000_0000_0000nat
            } else {
                0nat
            }) + (if j < 3 && 3 * k + j < b.len() {
                b[3 * k + j]@
            } else {
                0nat
            })) % field::scalar_modulus(),
    ensures
        after_a.last() != after_b.last(),
        sponge_hash(solver, a) == Ok::<FieldElement, (BlackBoxFunc, Seq<char>)>(
            after_a.last()[0],
        ),
        sponge_hash(solver, b) == Ok::<FieldElement, (BlackBoxFunc, Seq<char>)>(
            after_b.last()[0],
        ),
{
    law_hash_absorbs_input(solver, a, before_a, after_a);
    law_hash_absorbs_input(solver, b, before_b, after_b);
    lemma_states_stay_apart(
        solver,
        a,
        b,
        place,
        before_a,
        after_a,
        before_b,
        after_b,
        (a.len() / 3) as int,
    );
}

/// Two runs over inputs that differ in one place are in the same state up to
/// that place and in different states from there on.
proof fn lemma_states_stay_apart<S: BlackBoxFunctionSolver<FieldElement>>(
    solver: &S,
    a: Seq<FieldElement>,
    b: Seq<FieldElement>,
    place: int,
    before_a: Seq<Seq<FieldElement>>,
    after_a: Seq<Seq<FieldElement>>,
    before_b: Seq<Seq<FieldElement>>,
    after_b: Seq<Seq<FieldElement>>,
    k: int,
)
    requires
        a.len() == b.len(),
        0 <= place < a.len(),
        a[place] != b[place],
        a[place].well_formed(),
        b[place].well_formed(),
        forall|i: int| 0 <= i < a.len() && i != place ==> #[trigger] a[i] == b[i],
        forall|s: Seq<FieldElement>, t: Seq<FieldElement>|
            s.len() == 4 && t.len() == 4 && s != t ==> (#[trigger] solver.permutation(s))
                != #[trigger] solver.permutation(t),
        permutes(solver, before_a, after_a),
        permutes(solver, before_b, after_b),
        absorbs(a, before_a, after_a),
        absorbs(b, before_b, after_b),
        before_a.len() == after_a.len() == before_b.len() == after_b.len(),
        0 <= k < before_a.len(),
    ensures
        after_a[k] == after_b[k] <==> 3 * k + 2 < place,
    decreases k,
{
    let m = field::scalar_modulus();
    if k > 0 {
        lemma_states_stay_apart(
            solver,
            a,
            b,
            place,
            before_a,
            after_a,
            before_b,
            after_b,
            k - 1,
        );
    }
    assert(solver.permutation(before_a[k]) == Ok::<Seq<FieldElement>, (BlackBoxFunc, Seq<char>)>(
        after_a[k],
    ));
    assert(solver.permutation(before_b[k]) == Ok::<Seq<FieldElement>, (BlackBoxFunc, Seq<char>)>(
        after_b[k],
    ));
    if 3 * k + 2 < place {
        assert forall|j: int| 0 <= j < 4 implies before_a[k][j] == before_b[k][j] by {
            assert(before_a[k][j]@ == before_b[k][j]@);
            field::lemma_field_of_view(before_a[k][j]);
            field::lemma_field_of_view(before_b[k][j]);
        }
        assert(before_a[k] =~= before_b[k]);
    } else if 3 * k <= place {
        let j = place - 3 * k;
        let s = if k > 0 {
            after_a[k - 1][j]@
        } else {
            0nat
        };
        field::lemma_field_of_view(a[place]);
        field::lemma_field_of_view(b[place]);
        lemma_sums_differ(s, a[place]@, b[place]@, m);
        assert(before_a[k][j]@ == (s + a[place]@) % m);
        assert(before_b[k][j]@ == (s + b[place]@) % m);
        assert(before_a[k] != before_b[k]);
    } else {
        let (past_a, past_b) = (after_a[k - 1], after_b[k - 1]);
        assert(!(past_a =~= past_b));
        let j = choose|j: int| 0 <= j < 4 && #[trigger] past_a[j] != past_b[j];
        let v = if j < 3 && 3 * k + j < a.len() {
            a[3 * k + j]@
        } else {
            0nat
        };
        field::lemma_field_of_view(after_a[k - 1][j]);
        field::lemma_field_of_view(after_b[k - 1][j]);
        lemma_sums_differ(v, after_a[k - 1][j]@, after_b[k - 1][j]@, m);
        assert(before_a[k][j]@ == (v + after_a[k - 1][j]@) % m);
        assert(before_b[k][j]@ == (v + after_b[k - 1][j]@) % m);
        assert(before_a[k] != before_b[k]);
    }
}

/// Different summands below the modulus lead to different sums.
proof fn lemma_sums_differ(s: nat, x: nat, y: nat, m: nat)
    requires
        x < m,
        y < m,
        x != y,
    ensures
        (s + x) % m != (s + y) % m,
{
    if (s + x) % m == (s + y) % m {
        lemma_mod_equivalence((s + x) as int, (s + y) as int, m as int);
        if x > y {
            lemma_small_mod((x - y) as nat, m);
        } else {
            lemma_mod_equivalence((s + y) as int, (s + x) as int, m as int);
            lemma_small_mod((y - x) as nat, m);
        }
    }
}

/// The hash of one element: one permutation, of the element and the length.
pub proof fn law_hash_of_one<S: BlackBoxFunctionSolver<FieldElement>>(
    solver: &S,
    a: FieldElement,
    last: Seq<FieldElement>,
)
    requires
        a.well_formed(),
        solver.permutation(
            seq![
                a,
                field::field_of(0),
                field::field_of(0),
                field::field_of(0x1_0000_0000_0000_0000nat),
            ],
        ) == Ok::<Seq<FieldElement>, (BlackBoxFunc, Seq<char>)>(last),
    ensures
        sponge_hash(solver, seq![a]) == Ok::<FieldElement, (BlackBoxFunc, Seq<char>)>(last[0]),
{
    let m = field::scalar_modulus();
    lemma_small_mod(a@, m);
    lemma_small_mod(number::limb_base(), m);
    field::lemma_field_of(0);
    field::lemma_field_of_view(a);
    assert(absorb(initial_state(1), seq![a]) =~= seq![
        a,
        field::field_of(0),
        field::field_of(0),
        field::field_of(0x1_0000_0000_0000_0000nat),
    ]);
}

/// The hash of four elements, as many as encode a commitment: the first three
/// and the length are permuted, then the fourth is added to what comes first,
/// and all is permuted again.
pub proof fn law_hash_of_four<S: BlackBoxFunctionSolver<FieldElement>>(
    solver: &S,
    a: FieldElement,
    b: FieldElement,
    c: FieldElement,
    d: FieldElement,
    middle: Seq<FieldElement>,
    last: Seq<FieldElement>,
)
    requires
        a.well_formed(),
        b.well_formed(),
        c.well_formed(),
        solver.permutation(seq![a, b, c, field::field_of(0x4_0000_0000_0000_0000nat)]) == Ok::<
            Seq<FieldElement>,
            (BlackBoxFunc, Seq<char>),
        >(middle),
        middle.len() == 4,
        solver.permutation(
            seq![
                field::field_of((middle[0]@ + d@) % field::scalar_modulus()),
                middle[1],
                middle[2],
                middle[3],
            ],
        ) == Ok::<Seq<FieldElement>, (BlackBoxFunc, Seq<char>)>(last),
    ensures
        sponge_hash(solver, seq![a, b, c, d]) == Ok::<FieldElement, (BlackBoxFunc, Seq<char>)>(
            last[0],
        ),
{
    let m = field::scalar_modulus();
    let input = seq![a, b, c, d];
    lemma_small_mod(a@, m);
    lemma_small_mod(b@, m);
    lemma_small_mod(c@, m);
    lemma_small_mod(4 * number::limb_base(), m);
    field::lemma_field_of(0);
    field::lemma_field_of_view(a);
    field::lemma_field_of_view(b);
    field::lemma_field_of_view(c);
    reveal_with_fuel(sponge_from, 2);
    assert(absorb(initial_state(4), input.take(3)) =~= seq![
        a,
        b,
        c,
        field::field_of(0x4_0000_0000_0000_0000nat),
    ]);
    assert(absorb(middle, input.skip(3)) =~= seq![
        field::field_of((middle[0]@ + d@) % m),
        middle[1],
        middle[2],
        middle[3],
    ]);
}

/// A transcript whose data cannot be hashed gives no challenge, but that failure.
pub proof fn law_no_challenges_without_hash<S: BlackBoxFunctionSolver<FieldElement>>(
    solver: &S,
    data: Seq<FieldElement>,
    n: nat,
    error: (BlackBoxFunc, Seq<char>),
)
    requires
        sponge_hash(solver, data) == Err::<FieldElement, (BlackBoxFunc, Seq<char>)>(error),
    ensures
        transcript_challenges(solver, data, n) == Err::<
            Seq<FieldElement>,
            (BlackBoxFunc, Seq<char>),
        >(error),
{
    lemma_chain_stops(solver, data, 0, last_hash(n));
}

/// The first two challenges are the lower and the upper 127 bits of the hash of the
/// data; fewer are the first of them.
pub proof fn law_first_challenges<S: BlackBoxFunctionSolver<FieldElement>>(
    solver: &S,
    data: Seq<FieldElement>,
    n: nat,
    hash: FieldElement,
    lo: FieldElement,
    hi: FieldElement,
)
    requires
        sponge_hash(solver, data) == Ok::<FieldElement, (BlackBoxFunc, Seq<char>)>(hash),
        lo@ < pow2(127),
        lo@ + pow2(127) * hi@ == hash@,
        n <= 2,
    ensures
        transcript_challenges(solver, data, n) == Ok::<
            Seq<FieldElement>,
            (BlackBoxFunc, Seq<char>),
        >(seq![lo, hi].take(n as int)),
{
    lemma_halves(hash, lo, hi);
    assert(transcript_challenges(solver, data, n)->Ok_0 =~= seq![lo, hi].take(n as int));
}

/// Past the first two, the challenges of a transcript are those of the
/// transcript over the hash of its data, and over nothing else.
pub proof fn law_later_challenges<S: BlackBoxFunctionSolver<FieldElement>>(
    solver: &S,
    data: Seq<FieldElement>,
    n: nat,
    hash: FieldElement,
    lo: FieldElement,
    hi: FieldElement,
)
    requires
        sponge_hash(solver, data) == Ok::<FieldElement, (BlackBoxFunc, Seq<char>)>(hash),
        lo@ < pow2(127),
        lo@ + pow2(127) * hi@ == hash@,
        n > 0,
    ensures
        transcript_challenges(solver, data, n + 2) == match transcript_challenges(
            solver,
            seq![hash],
            n,
        ) {
            Ok(later) => Ok::<Seq<FieldElement>, (BlackBoxFunc, Seq<char>)>(
                seq![lo, hi] + later,
            ),
            Err(error) => Err(error),
        },
{
    lemma_halves(hash, lo, hi);
    lemma_chain_continues(solver, data, hash, last_hash(n));
    assert(last_hash(n + 2) == last_hash(n) + 1);
    if let Ok(later) = transcript_challenges(solver, seq![hash], n) {
        assert forall|j: int| 0 <= j < n implies #[trigger] later[j] == challenge_at(
            solver,
            data,
            (j + 2) as nat,
        ) by {
            lemma_chain_continues(solver, data, hash, (j / 2) as nat);
            assert((j + 2) / 2 == j / 2 + 1);
            assert((j + 2) % 2 == j % 2);
        }
        assert(transcript_challenges(solver, data, n + 2)->Ok_0 =~= seq![lo, hi] + later);
    }
}

/// Data with the same hash give the same challenges, whatever their length.
pub proof fn law_challenges_follow_hash<S: BlackBoxFunctionSolver<FieldElement>>(
    solver: &S,
    data: Seq<FieldElement>,
    other: Seq<FieldElement>,
    n: nat,
)
    requires
        sponge_hash(solver, data) == sponge_hash(solver, other),
    ensures
        transcript_challenges(solver, data, n) == transcript_challenges(solver, other, n),
{
    lemma_same_chain(solver, data, other, last_hash(n));
    if let Ok(challenges) = transcript_challenges(solver, data, n) {
        let others = transcript_challenges(solver, other, n)->Ok_0;
        assert forall|j: int| 0 <= j < n implies #[trigger] challenges[j] == others[j] by {
            lemma_same_chain(solver, data, other, (j / 2) as nat);
        }
        assert(challenges =~= others);
    }
}

/// Each hash of a transcript is the hash of the one before it alone.
pub proof fn law_chain_hashes_last_hash<S: BlackBoxFunctionSolver<FieldElement>>(
    solver: &S,
    data: Seq<FieldElement>,
    i: nat,
    hash: FieldElement,
)
    requires
        hash_chain(solver, data, i) == Ok::<FieldElement, (BlackBoxFunc, Seq<char>)>(hash),
    ensures
        hash_chain(solver, data, i + 1) == sponge_hash(solver, seq![hash]),
{
}

proof fn lemma_same_chain<S: BlackBoxFunctionSolver<FieldElement>>(
    solver: &S,
    data: Seq<FieldElement>,
    other: Seq<FieldElement>,
    i: nat,
)
    requires
        sponge_hash(solver, data) == sponge_hash(solver, other),
    ensures
        hash_chain(solver, data, i) == hash_chain(solver, other, i),
    decreases i,
{
    if i > 0 {
        lemma_same_chain(solver, data, other, (i - 1) as nat);
    }
}

/// The hashes after the first are those of the transcript over the first.
proof fn lemma_chain_continues<S: BlackBoxFunctionSolver<FieldElement>>(
    solver: &S,
    data: Seq<FieldElement>,
    hash: FieldElement,
    i: nat,
)
    requires
        sponge_hash(solver, data) == Ok::<FieldElement, (BlackBoxFunc, Seq<char>)>(hash),
    ensures
        hash_chain(solver, data, i + 1) == hash_chain(solver, seq![hash], i),
    decreases i,
{
    if i > 0 {
        lemma_chain_continues(solver, data, hash, (i - 1) as nat);
    } else {
        reveal_with_fuel(hash_chain, 2);
    }
}

/// A hash has one lower and one upper half.
proof fn lemma_halves(hash: FieldElement, lo: FieldElement, hi: FieldElement)
    requires
        lo@ < pow2(127),
        lo@ + pow2(127) * hi@ == hash@,
    ensures
        challenge_lo(hash) == lo,
        challenge_hi(hash) == hi,
{
    let bound = pow2(127) as int;
    lemma_challenge_bound();
    lemma_mul_is_commutative(bound, hi@ as int);
    lemma_fundamental_div_mod_converse(hash@ as int, bound, hi@ as int, lo@ as int);
    field::lemma_field_of_view(lo);
    field::lemma_field_of_view(hi);
}

/// The outcome of a hash is the element that it returned or the failure, unchanged.
pub proof fn law_hash_outcome_keeps_result(hash: FieldElement, error: BlackBoxResolutionError)
    ensures
        hash_outcome(Ok(hash)) == Ok::<FieldElement, (BlackBoxFunc, Seq<char>)>(hash),
        hash_outcome(Err(error)) == Err::<FieldElement, (BlackBoxFunc, Seq<char>)>(error@),
{
}

/// Inputs of different lengths are hashed from different initial states.
pub proof fn law_initial_state_tells_length(m: nat, n: nat)
    requires
        m < number::limb_base(),
        n < number::limb_base(),
        initial_state(m) == initial_state(n),
    ensures
        m == n,
{
    lemma_small_mod(m * number::limb_base(), field::scalar_modulus());
    lemma_small_mod(n * number::limb_base(), field::scalar_modulus());
    field::lemma_field_of(m * number::limb_base());
    field::lemma_field_of(n * number::limb_base());
    assert(initial_state(m)[3] == initial_state(n)[3]);
}

/// Where the permutation never fails, neither does the hash.
pub proof fn law_hash_succeeds<S: BlackBoxFunctionSolver<FieldElement>>(
    solver: &S,
    input: Seq<FieldElement>,
)
    requires
        permutes_every_state(solver),
    ensures
        sponge_hash(solver, input) is Ok,
{
    lemma_sponge_succeeds(solver, initial_state(input.len()), input);
}

proof fn lemma_sponge_succeeds<S: BlackBoxFunctionSolver<FieldElement>>(
    solver: &S,
    state: Seq<FieldElement>,
    input: Seq<FieldElement>,
)
    requires
        permutes_every_state(solver),
        state.len() == 4,
    ensures
        sponge_from(solver, state, input) is Ok,
    decreases input.len(),
{
    if input.len() >= RATE {
        let full = absorb(state, input.take(RATE as int));
        assert(solver.permutation(full) is Ok);
        lemma_sponge_succeeds(solver, solver.permutation(full)->Ok_0, input.skip(RATE as int));
    } else {
        assert(solver.permutation(absorb(state, input)) is Ok);
    }
}

/// Where the permutation never fails, every number of challenges can be had.
pub proof fn law_challenges_succeed<S: BlackBoxFunctionSolver<FieldElement>>(
    solver: &S,
    data: Seq<FieldElement>,
    n: nat,
)
    requires
        permutes_every_state(solver),
    ensures
        transcript_challenges(solver, data, n) matches Ok(challenges) && challenges.len() == n,
{
    lemma_chain_succeeds(solver, data, last_hash(n));
}

proof fn lemma_chain_succeeds<S: BlackBoxFunctionSolver<FieldElement>>(
    solver: &S,
    data: Seq<FieldElement>,
    i: nat,
)
    requires
        permutes_every_state(solver),
    ensures
        hash_chain(solver, data, i) is Ok,
    decreases i,
{
    if i == 0 {
        law_hash_succeeds(solver, data);
    } else {
        lemma_chain_succeeds(solver, data, (i - 1) as nat);
        law_hash_succeeds(solver, seq![hash_chain(solver, data, (i - 1) as nat)->Ok_0]);
    }
}

} // verus!
