//! Deciding whether typed input is a complete query, and collecting the lines
//! of one query at an interactive prompt.

use vstd::prelude::*;
use vstd::string::StringExecFns;

verus! {

/// The verdict on the text typed so far.
#[derive(Clone, Copy, Debug, PartialEq, Eq, Structural)]
pub enum ValidationState {
    /// The text is a query: submit it.
    Valid,
    /// The text is no query, or not yet: keep reading.
    Incomplete,
}

/// Whether the SPARQL grammar accepts `input` as a query.
pub uninterp spec fn is_sparql_query(input: Seq<char>) -> bool;

/// Parses `input` with `spargebra::Query::parse`, without a base IRI, and
/// says whether that succeeded.
///
/// Trusted: the answer is the grammar's, and the same for the same text.
#[verifier::external_body]
fn parses_as_query(input: &str) -> (accepted: bool)
    ensures
        accepted == is_sparql_query(input@),
{
    spargebra::Query::parse(input, None).is_ok()
}

/// The verdict that follows from the outcome of parsing: any failure, whatever
/// its cause, counts as incomplete input.
pub open spec fn verdict_of(parses: bool) -> ValidationState {
    if parses {
        ValidationState::Valid
    } else {
        ValidationState::Incomplete
    }
}

/// The verdict that follows from the outcome of parsing.
pub fn verdict(parses: bool) -> (state: ValidationState)
    ensures
        state == verdict_of(parses),
{
    if parses {
        ValidationState::Valid
    } else {
        ValidationState::Incomplete
    }
}

/// The verdict on `input`: valid where it parses as a query, incomplete
/// otherwise.
pub fn validate_sparql_string(input: &str) -> (state: ValidationState)
    ensures
        state == verdict_of(is_sparql_query(input@)),
{
    verdict(parses_as_query(input))
}

/// A validator of typed queries. It keeps no state between calls.
#[derive(Clone, Copy, Debug)]
pub struct SparqlValidator {
    _priv: (),
}

impl SparqlValidator {
    /// The one value of this type.
    pub closed spec fn unit() -> Self {
        SparqlValidator { _priv: () }
    }

    /// A validator.
    #[must_use]
    pub fn new() -> (validator: Self)
        ensures
            validator == Self::unit(),
    {
        Self { _priv: () }
    }

    /// The verdict on the whole of `input`.
    pub fn validate(&self, input: &str) -> (state: ValidationState)
        ensures
            state == verdict_of(is_sparql_query(input@)),
    {
        validate_sparql_string(input)
    }
}

impl Default for SparqlValidator {
    fn default() -> (validator: Self)
        ensures
            validator == Self::unit(),
    {
        SparqlValidator::new()
    }
}

/// The state of a prompt that collects one query: the text of the lines read
/// so far, each followed by a line feed.
#[derive(Debug)]
pub struct Collecting {
    buffer: String,
}

/// What the line editor hands over.
#[derive(Debug)]
pub enum Input {
    /// One line of text, without its line end.
    Line(String),
    /// The editor failed or the input ended.
    Closed,
}

/// What follows one input.
#[derive(Debug)]
pub enum Step {
    /// The query is not complete: read another line in this state.
    Continue(Collecting),
    /// The query is complete: this is its text.
    Complete(String),
    /// No query was obtained.
    Aborted,
}

/// The model of an `Input`: the text of the line, or nothing.
pub type InputModel = Option<Seq<char>>;

/// The model of a `Step`.
pub enum StepModel {
    Continue(Seq<char>),
    Complete(Seq<char>),
    Aborted,
}

impl View for Collecting {
    type V = Seq<char>;

    closed spec fn view(&self) -> Seq<char> {
        self.buffer@
    }
}

impl View for Input {
    type V = InputModel;

    open spec fn view(&self) -> InputModel {
        match self {
            Input::Line(line) => Some(line@),
            Input::Closed => None,
        }
    }
}

impl View for Step {
    type V = StepModel;

    open spec fn view(&self) -> StepModel {
        match self {
            Step::Continue(state) => StepModel::Continue(state@),
            Step::Complete(query) => StepModel::Complete(query@),
            Step::Aborted => StepModel::Aborted,
        }
    }
}

/// The text that is put to the validator when `line` arrives: all that was
/// read before, then the line.
pub open spec fn candidate(buffer: Seq<char>, line: Seq<char>) -> Seq<char> {
    buffer + line
}

/// What follows a candidate text and its verdict. A valid text is the
/// finished query. Any other text stays in the buffer, and a line feed is put
/// behind it.
pub open spec fn settled(text: Seq<char>, state: ValidationState) -> StepModel {
    match state {
        ValidationState::Valid => StepModel::Complete(text),
        ValidationState::Incomplete => StepModel::Continue(text.push('\n')),
    }
}

/// What follows `input` in a state with this `buffer`, where `accepts` tells
/// which texts are queries.
pub open spec fn next_step(
    buffer: Seq<char>,
    input: InputModel,
    accepts: spec_fn(Seq<char>) -> bool,
) -> StepModel {
    match input {
        Some(line) => settled(
            candidate(buffer, line),
            verdict_of(accepts(candidate(buffer, line))),
        ),
        None => StepModel::Aborted,
    }
}

impl Collecting {
    /// The state before the first line.
    pub fn new() -> (state: Self)
        ensures
            state@ == Seq::<char>::empty(),
    {
        Collecting { buffer: String::new() }
    }

    /// The text to validate when `line` arrives.
    pub fn offer(&self, line: &str) -> (text: String)
        ensures
            text@ == candidate(self@, line@),
    {
        self.buffer.clone().concat(line)
    }

    /// What follows the candidate `text` and the verdict on it.
    pub fn settle(text: String, state: ValidationState) -> (step: Step)
        ensures
            step@ == settled(text@, state),
    {
        match state {
            ValidationState::Valid => Step::Complete(text),
            ValidationState::Incomplete => {
                let kept = text.concat("\n");
                proof {
                    reveal_strlit("\n");
                    assert("\n"@ =~= seq!['\n']);
                    assert(kept@ =~= text@.push('\n'));
                }
                Step::Continue(Collecting { buffer: kept })
            },
        }
    }

    /// Takes one input: the end of input aborts, a line that completes a
    /// query ends the collecting with that query, any other line is kept.
    pub fn step(self, input: Input) -> (step: Step)
        ensures
            step@ == next_step(self@, input@, |text: Seq<char>| is_sparql_query(text)),
    {
        match input {
            Input::Line(line) => {
                let text = self.offer(line.as_str());
                let state = validate_sparql_string(text.as_str());
                Collecting::settle(text, state)
            },
            Input::Closed => Step::Aborted,
        }
    }
}

} // verus!
