//! The ways in which a contestant's output can fail.

use vstd::prelude::*;
use vstd::string::StringExecFns;
use crate::decimal::{decimal, push_decimal};

verus! {

/// A failure of validation or of the judging protocol. The first one met ends
/// the session; nothing is retried.
#[derive(Clone, Debug, PartialEq, Eq)]
pub enum JudgeError {
    /// A token that is not an integer.
    Parse { token: String },
    /// An integer outside the bounds `lb ..= ub` that were expected of it.
    Range { value: usize, lb: usize, ub: usize },
    /// The output ended where a token was still due.
    UnexpectedEof,
    /// More tokens than were asked for; `text` is the surplus token of a
    /// stream, or the whole line of an interactive answer.
    TooManyTokens { text: String },
    /// The contestant's program closed its output before all lines were read.
    ProcessTerminated,
}

/// The mathematical content of a `JudgeError`.
pub enum JudgeErrorView {
    Parse { token: Seq<char> },
    Range { value: usize, lb: usize, ub: usize },
    UnexpectedEof,
    TooManyTokens { text: Seq<char> },
    ProcessTerminated,
}

impl View for JudgeError {
    type V = JudgeErrorView;

    open spec fn view(&self) -> JudgeErrorView {
        match self {
            JudgeError::Parse { token } => JudgeErrorView::Parse { token: token@ },
            JudgeError::Range { value, lb, ub } => JudgeErrorView::Range {
                value: *value,
                lb: *lb,
                ub: *ub,
            },
            JudgeError::UnexpectedEof => JudgeErrorView::UnexpectedEof,
            JudgeError::TooManyTokens { text } => JudgeErrorView::TooManyTokens { text: text@ },
            JudgeError::ProcessTerminated => JudgeErrorView::ProcessTerminated,
        }
    }
}

impl JudgeErrorView {
    /// The message that describes the failure to a person.
    pub open spec fn message(self) -> Seq<char> {
        match self {
            JudgeErrorView::Parse { token } => "Parse error: "@ + token,
            JudgeErrorView::Range { value, lb, ub } => "Out of range: "@ + decimal(value as nat),
            JudgeErrorView::UnexpectedEof => "Unexpected EOF"@,
            JudgeErrorView::TooManyTokens { text } => "Too many output: "@ + text,
            JudgeErrorView::ProcessTerminated => "Your program has terminated unexpectedly"@,
        }
    }
}

impl JudgeError {
    /// The message that describes the failure to a person: the kind of
    /// failure, followed by the offending input where there is one.
    pub fn message(&self) -> (s: String)
        ensures
            s@ == self@.message(),
    {
        match self {
            JudgeError::Parse { token } => {
                let mut s = String::from_str("Parse error: ");
                s.append(token.as_str());
                s
            },
            JudgeError::Range { value, lb, ub } => {
                let mut s = String::from_str("Out of range: ");
                push_decimal(&mut s, *value);
                s
            },
            JudgeError::UnexpectedEof => String::from_str("Unexpected EOF"),
            JudgeError::TooManyTokens { text } => {
                let mut s = String::from_str("Too many output: ");
                s.append(text.as_str());
                s
            },
            JudgeError::ProcessTerminated => String::from_str(
                "Your program has terminated unexpectedly",
            ),
        }
    }
}

} // verus!
