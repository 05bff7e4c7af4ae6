//! The outcome of judging: a score, or a failure that scores nothing.

use vstd::prelude::*;
use crate::error::{JudgeError, JudgeErrorView};
use crate::input::{Input, InputView};
use crate::output::{parse_output, validate_stream};
use crate::score::{compute_score, in_score_range, score_of};
use crate::text::tokens;

verus! {

/// The outcome of judging: the score, and the message of the failure if
/// there was one.
#[derive(Clone, Debug, PartialEq, Eq)]
pub struct JudgeVerdict {
    pub score: i64,
    pub error_message: Option<String>,
}

/// The mathematical content of a `JudgeVerdict`.
pub struct JudgeVerdictView {
    pub score: int,
    pub error_message: Option<Seq<char>>,
}

impl View for JudgeVerdict {
    type V = JudgeVerdictView;

    open spec fn view(&self) -> JudgeVerdictView {
        JudgeVerdictView {
            score: self.score as int,
            error_message: match self.error_message {
                Some(m) => Some(m@),
                None => None,
            },
        }
    }
}

impl JudgeVerdictView {
    /// A verdict with a message scores 0.
    pub open spec fn wf(self) -> bool {
        self.error_message is Some ==> self.score == 0
    }
}

/// The verdict that an outcome amounts to: a score stands as it is and has
/// no message; a failure scores 0, whatever had been computed, and has the
/// message of the failure.
pub open spec fn verdict_of(outcome: Result<int, JudgeErrorView>) -> JudgeVerdictView {
    match outcome {
        Ok(score) => JudgeVerdictView { score, error_message: None },
        Err(error) => JudgeVerdictView { score: 0, error_message: Some(error.message()) },
    }
}

/// The outcome of judging a whole output against an instance: the score of
/// the table it denotes, or the failure of its validation.
pub open spec fn offline_outcome(input: InputView, text: Seq<char>) -> Result<int, JudgeErrorView> {
    match validate_stream(tokens(text), input.n) {
        Ok(table) => Ok(score_of(input, table)),
        Err(error) => Err(error),
    }
}

/// An output that fails validation scores 0 and comes with the message of
/// its failure; one that passes has the score of its table and no message.
pub proof fn lemma_failure_scores_zero(input: InputView, text: Seq<char>)
    ensures
        validate_stream(tokens(text), input.n) is Err ==> verdict_of(
            offline_outcome(input, text),
        ).score == 0 && verdict_of(offline_outcome(input, text)).error_message is Some,
        validate_stream(tokens(text), input.n) matches Ok(table) ==> verdict_of(
            offline_outcome(input, text),
        ) == (JudgeVerdictView { score: score_of(input, table), error_message: None }),
{
}

/// The verdict on a score.
pub fn scored(score: i64) -> (v: JudgeVerdict)
    ensures
        v@ == verdict_of(Ok(score as int)),
        v@.wf(),
{
    JudgeVerdict { score, error_message: None }
}

/// The verdict on a failure.
pub fn failed(error: &JudgeError) -> (v: JudgeVerdict)
    ensures
        v@ == verdict_of(Err(error@)),
        v@.wf(),
{
    JudgeVerdict { score: 0, error_message: Some(error.message()) }
}

/// Judges a contestant's whole output against an instance: the output is
/// validated, and a valid one is replayed and scored.
pub fn judge(input: &Input, f: &str) -> (v: JudgeVerdict)
    requires
        input@.wf(),
        in_score_range(input@),
    ensures
        v@ == verdict_of(offline_outcome(input@, f@)),
        v@.wf(),
{
    match parse_output(input, f) {
        Ok(out) => {
            let (score, _) = compute_score(input, &out);
            scored(score)
        },
        Err(error) => failed(&error),
    }
}

} // verus!
