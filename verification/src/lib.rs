pub mod clock;
pub mod engine;
pub mod errors;
pub mod passage;

use vstd::prelude::*;
use crate::engine::TrialState;
use crate::errors::TrialError;
use crate::passage::{normalize, normalized_result, Passage};

verus! {

/// Prepares one trial from raw text and a target character count: the text
/// is normalized to the target length and paired with the initial state of
/// the trial machine. The caller then drives the state with key events and
/// reads the speed once the trial completes.
pub fn main0(text: Vec<char>, count: usize) -> (r: Result<(Passage, TrialState), TrialError>)
    ensures
        r is Ok <==> normalized_result(text@, count as nat) is Ok,
        r matches Ok(pair) ==> Ok::<Seq<char>, TrialError>(pair.0@) == normalized_result(
            text@,
            count as nat,
        ) && pair.1 == TrialState::AwaitingStart,
        r matches Err(e) ==> Err::<Seq<char>, TrialError>(e) == normalized_result(
            text@,
            count as nat,
        ),
{
    match normalize(Passage::new(text), count) {
        Ok(p) => Ok((p, TrialState::AwaitingStart)),
        Err(e) => Err(e),
    }
}

} // verus!
