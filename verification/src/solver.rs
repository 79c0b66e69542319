//! The functions that a proving backend answers for, and how it may fail.

use crate::text;
use vstd::prelude::*;

verus! {

/// A black box function: one that circuits call and backends compute.
#[derive(Clone, Copy, Debug, PartialEq, Eq, Structural)]
pub enum BlackBoxFunc {
    MultiScalarMul,
    EmbeddedCurveAdd,
    Poseidon2Permutation,
}

impl BlackBoxFunc {
    /// The name under which circuits call the function.
    pub open spec fn spec_name(self) -> Seq<char> {
        match self {
            BlackBoxFunc::MultiScalarMul => "multi_scalar_mul"@,
            BlackBoxFunc::EmbeddedCurveAdd => "embedded_curve_add"@,
            BlackBoxFunc::Poseidon2Permutation => "poseidon2_permutation"@,
        }
    }

    /// The name under which circuits call the function.
    pub fn name(&self) -> (name: &'static str)
        ensures
            name@ == self.spec_name(),
            *self is MultiScalarMul ==> name@ == "multi_scalar_mul"@,
            *self is EmbeddedCurveAdd ==> name@ == "embedded_curve_add"@,
            *self is Poseidon2Permutation ==> name@ == "poseidon2_permutation"@,
    {
        match self {
            BlackBoxFunc::MultiScalarMul => "multi_scalar_mul",
            BlackBoxFunc::EmbeddedCurveAdd => "embedded_curve_add",
            BlackBoxFunc::Poseidon2Permutation => "poseidon2_permutation",
        }
    }
}

/// Why a black box function gave no result.
#[derive(Clone, Debug, PartialEq, Eq)]
pub enum BlackBoxResolutionError {
    /// The function failed, for the reason that the text gives.
    Failed(BlackBoxFunc, String),
}

impl View for BlackBoxResolutionError {
    type V = (BlackBoxFunc, Seq<char>);

    open spec fn view(&self) -> (BlackBoxFunc, Seq<char>) {
        match self {
            BlackBoxResolutionError::Failed(func, reason) => (*func, reason@),
        }
    }
}

impl BlackBoxResolutionError {
    /// The reason for the failure.
    pub fn reason(&self) -> (reason: &str)
        ensures
            reason@ == self@.1,
    {
        match self {
            BlackBoxResolutionError::Failed(_, reason) => reason.as_str(),
        }
    }
}

/// A list of values, or the failure that took its place.
pub open spec fn outcome<F>(result: Result<Vec<F>, BlackBoxResolutionError>) -> Result<
    Seq<F>,
    (BlackBoxFunc, Seq<char>),
> {
    match result {
        Ok(values) => Ok(values@),
        Err(error) => Err(error@),
    }
}

/// This component will generate outputs for black box function calls that have
/// no canonical implementation of their own: the backend decides.
///
/// Returns a [`BlackBoxResolutionError`] if the backend does not support the
/// given [`BlackBoxFunc`].
pub trait BlackBoxFunctionSolver<F> {
    /// What [`BlackBoxFunctionSolver::poseidon2_permutation`] gives, a function of its inputs
    /// alone.
    ///
    /// A verified backend that permutes says here how. A backend in ordinary Rust says
    /// nothing here; it must answer as some function of its inputs all the same.
    open spec fn permutation(&self, inputs: Seq<F>) -> Result<Seq<F>, (BlackBoxFunc, Seq<char>)> {
        Err(unsupported(BlackBoxFunc::Poseidon2Permutation))
    }

    /// The challenges that [`BlackBoxFunctionSolver::derive_phase_challenge`] gives where it
    /// succeeds, a function of the witness values and the number of challenges alone.
    ///
    /// A verified backend that derives challenges says here which. A backend in ordinary
    /// Rust says nothing here; it must answer as some such function all the same.
    open spec fn phase_challenge(&self, witness_values: Seq<F>, num_challenges: nat) -> Seq<F> {
        Seq::empty()
    }

    fn multi_scalar_mul(
        &self,
        points: &[F],
        scalars_lo: &[F],
        scalars_hi: &[F],
        predicate: bool,
    ) -> Result<(F, F, F), BlackBoxResolutionError>;

    #[allow(clippy::too_many_arguments)]
    fn ec_add(
        &self,
        input1_x: &F,
        input1_y: &F,
        input1_infinite: &F,
        input2_x: &F,
        input2_y: &F,
        input2_infinite: &F,
        predicate: bool,
    ) -> Result<(F, F, F), BlackBoxResolutionError>;

    /// Permutes a state; the result has the width of the inputs.
    fn poseidon2_permutation(&self, inputs: &[F]) -> (result: Result<
        Vec<F>,
        BlackBoxResolutionError,
    >)
        ensures
            outcome(result) == self.permutation(inputs@),
            result matches Ok(state) ==> self.permutation(inputs@) == Ok::<
                Seq<F>,
                (BlackBoxFunc, Seq<char>),
            >(state@),
            result matches Err(error) ==> self.permutation(inputs@) == Err::<
                Seq<F>,
                (BlackBoxFunc, Seq<char>),
            >(error@),
            result matches Ok(state) ==> state@.len() == inputs@.len(),
    ;

    /// Commit to witness values and derive Fiat-Shamir challenge(s).
    ///
    /// The backend should:
    /// 1. Interpret `witness_values` as data to be committed
    /// 2. Commit using its native polynomial commitment scheme
    /// 3. Derive `num_challenges` challenge values from that commitment
    ///    according to the backend's phase-challenge protocol
    ///
    /// The challenge derivation must be deterministic: given the same
    /// `witness_values`, the same challenges are always produced. The
    /// verifier checks constraints that depend on these challenges in
    /// the same proof that binds the commitments.
    ///
    /// `phase_id` identifies which phase transition this is, allowing
    /// the backend to maintain ordered transcript state across multiple
    /// barriers in a single circuit.
    ///
    /// The default implementation returns an error for backends that
    /// do not support multi-phase proving.
    fn derive_phase_challenge(
        &self,
        _phase_id: u32,
        _witness_values: &[F],
        _num_challenges: usize,
    ) -> (result: Result<Vec<F>, BlackBoxResolutionError>)
        ensures
            result matches Ok(challenges) ==> {
                &&& challenges@ == self.phase_challenge(_witness_values@, _num_challenges as nat)
                &&& challenges@.len() == _num_challenges
            },
        default_ensures
            outcome(result) == Err::<Seq<F>, (BlackBoxFunc, Seq<char>)>(unsupported_phases()),
            result matches Err(error) && error@ == (
                BlackBoxFunc::Poseidon2Permutation,
                "Backend does not support multi-phase challenge derivation"@,
            ),
    {
        Err(
            BlackBoxResolutionError::Failed(
                BlackBoxFunc::Poseidon2Permutation,
                "Backend does not support multi-phase challenge derivation".to_owned(),
            ),
        )
    }
}

/// The failure of a backend that does not support multi-phase proving.
pub open spec fn unsupported_phases() -> (BlackBoxFunc, Seq<char>) {
    (
        BlackBoxFunc::Poseidon2Permutation,
        "Backend does not support multi-phase challenge derivation"@,
    )
}

/// The failure of a backend that does not support a black box function.
pub open spec fn unsupported(func: BlackBoxFunc) -> (BlackBoxFunc, Seq<char>) {
    (func, func.spec_name() + " is not supported"@)
}

/// The outcome of a call is the list that it returned or the failure, unchanged.
pub proof fn law_outcome_keeps_result<F>(values: Vec<F>, error: BlackBoxResolutionError)
    ensures
        outcome(Ok(values)) == Ok::<Seq<F>, (BlackBoxFunc, Seq<char>)>(values@),
        outcome(Err::<Vec<F>, BlackBoxResolutionError>(error)) == Err::<
            Seq<F>,
            (BlackBoxFunc, Seq<char>),
        >(error@),
{
}

/// A failure is seen as the function that failed and the reason, as they are.
pub proof fn law_failure_keeps_reason(func: BlackBoxFunc, reason: String)
    ensures
        BlackBoxResolutionError::Failed(func, reason)@ == (func, reason@),
{
}

/// Functions are told apart by their names.
pub proof fn law_names_differ(func: BlackBoxFunc, other: BlackBoxFunc)
    requires
        func.spec_name() == other.spec_name(),
    ensures
        func == other,
{
    reveal_strlit("multi_scalar_mul");
    reveal_strlit("embedded_curve_add");
    reveal_strlit("poseidon2_permutation");
    assert("multi_scalar_mul"@.len() == 16);
    assert("embedded_curve_add"@.len() == 18);
    assert("poseidon2_permutation"@.len() == 21);
}

/// A backend that supports no black box function.
pub struct StubbedBlackBoxSolver;

impl StubbedBlackBoxSolver {
    /// The failure of `black_box_function`.
    pub fn fail(black_box_function: BlackBoxFunc) -> (error: BlackBoxResolutionError)
        ensures
            error@ == unsupported(black_box_function),
            error@.0 == black_box_function,
            error@.1 == black_box_function.spec_name() + " is not supported"@,
    {
        BlackBoxResolutionError::Failed(
            black_box_function,
            text::join(black_box_function.name(), " is not supported"),
        )
    }
}

impl<F> BlackBoxFunctionSolver<F> for StubbedBlackBoxSolver {
    fn multi_scalar_mul(
        &self,
        _points: &[F],
        _scalars_lo: &[F],
        _scalars_hi: &[F],
        _predicate: bool,
    ) -> (result: Result<(F, F, F), BlackBoxResolutionError>)
        ensures
            result matches Err(error) && error@ == unsupported(BlackBoxFunc::MultiScalarMul),
    {
        Err(Self::fail(BlackBoxFunc::MultiScalarMul))
    }

    fn ec_add(
        &self,
        _input1_x: &F,
        _input1_y: &F,
        _input1_infinite: &F,
        _input2_x: &F,
        _input2_y: &F,
        _input2_infinite: &F,
        _predicate: bool,
    ) -> (result: Result<(F, F, F), BlackBoxResolutionError>)
        ensures
            result matches Err(error) && error@ == unsupported(BlackBoxFunc::EmbeddedCurveAdd),
    {
        Err(Self::fail(BlackBoxFunc::EmbeddedCurveAdd))
    }

    fn poseidon2_permutation(&self, _inputs: &[F]) -> (result: Result<
        Vec<F>,
        BlackBoxResolutionError,
    >)
        ensures
            result matches Err(error) && error@ == unsupported(BlackBoxFunc::Poseidon2Permutation),
    {
        Err(Self::fail(BlackBoxFunc::Poseidon2Permutation))
    }
}

} // verus!
