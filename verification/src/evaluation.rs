use crate::result::{answer_view, SearchResultView};
use vstd::prelude::*;

verus! {

/// The value of an expression: one number, or several where the expression
/// has more than one value. Each number is written as plain decimal text.
#[derive(Debug, Clone, PartialEq, Eq)]
pub enum Answer {
    Single(String),
    Multiple(Vec<String>),
}

impl Answer {
    /// The numbers of the answer, in the order in which the evaluator gave them.
    pub open spec fn numbers(&self) -> Seq<Seq<char>> {
        match self {
            Answer::Single(number) => seq![number@],
            Answer::Multiple(numbers) => numbers@.map_values(|number: String| number@),
        }
    }
}

/// What became of a query on its way through the evaluator.
#[derive(Debug, Clone, PartialEq, Eq)]
pub enum Evaluation {
    /// The query is not a well-formed expression.
    ParseFailure,
    /// The query is an expression without a value, such as a division by zero.
    EvaluationFailure,
    /// The query is an expression, `term` in its canonical text, and `answer`
    /// is its value.
    Success { term: String, answer: Answer },
}

impl Evaluation {
    /// The results that the evaluation gives rise to, one for each number of
    /// the answer and in the same order; none where there is no answer.
    pub open spec fn candidates(&self) -> Seq<SearchResultView> {
        match self {
            Evaluation::Success { term, answer } => answer.numbers().map_values(
                |number: Seq<char>| answer_view(term@, number),
            ),
            _ => Seq::empty(),
        }
    }
}

} // verus!
