//! What the library asks of the program that drives it, and what it takes
//! back: arithmetic that rounds, the text of numbers with a fractional part,
//! and input and output.
use vstd::prelude::*;
use crate::stdlib::Builtin;
use crate::types::{VaderValue, ValueView, values_view};

verus! {

/// An arithmetic operation on two numbers. `SquareRoot` reads the left one.
#[derive(Debug, Clone, Copy, PartialEq, Eq, Structural)]
pub enum NumberOp {
    Add,
    Subtract,
    Multiply,
    Divide,
    Modulo,
    Power,
    SquareRoot,
}

/// A piece of the text of a value: literal text, or a finite number with a
/// fractional part, whose digits the driver writes.
#[derive(Debug, Clone, PartialEq)]
pub enum TextPiece {
    Plain(String),
    Fraction(u64),
}

pub enum PieceView {
    Plain(Seq<char>),
    Fraction(u64),
}

impl View for TextPiece {
    type V = PieceView;

    open spec fn view(&self) -> PieceView {
        match self {
            TextPiece::Plain(text) => PieceView::Plain(text@),
            TextPiece::Fraction(bits) => PieceView::Fraction(*bits),
        }
    }
}

/// The models of a sequence of pieces.
pub open spec fn pieces_view(pieces: Seq<TextPiece>) -> Seq<PieceView> {
    Seq::new(pieces.len(), |i: int| pieces[i]@)
}

/// The text of the pieces from `from` on, if all of them are literal text.
pub open spec fn plain_text(pieces: Seq<PieceView>, from: int) -> Option<Seq<char>>
    decreases pieces.len() - from,
{
    if from < 0 || from >= pieces.len() {
        Some(Seq::empty())
    } else {
        match (pieces[from], plain_text(pieces, from + 1)) {
            (PieceView::Plain(text), Some(rest)) => Some(text + rest),
            _ => None,
        }
    }
}

/// The text of the pieces, if all of them are literal text.
#[verifier::loop_isolation(false)]
pub fn plain(pieces: &Vec<TextPiece>) -> (text: Option<String>)
    ensures
        match text {
            Some(t) => plain_text(pieces_view(pieces@), 0) == Some(t@),
            None => plain_text(pieces_view(pieces@), 0) is None,
        },
{
    let mut at: usize = pieces.len();
    let mut text = String::new();
    assert(text@ =~= Seq::<char>::empty());
    while at > 0
        invariant
            at <= pieces.len(),
            plain_text(pieces_view(pieces@), at as int) == Some(text@),
        decreases at,
    {
        at = at - 1;
        match &pieces[at] {
            TextPiece::Plain(head) => {
                let mut joined = head.clone();
                joined.append(text.as_str());
                text = joined;
            },
            TextPiece::Fraction(_) => {
                proof {
                    lemma_fraction_is_not_plain(pieces_view(pieces@), at as int, 0);
                }
                return None;
            },
        }
    }
    Some(text)
}

/// From a piece that is not literal text backwards, no text is plain.
pub proof fn lemma_fraction_is_not_plain(pieces: Seq<PieceView>, at: int, from: int)
    requires
        0 <= from <= at < pieces.len(),
        pieces[at] is Fraction,
    ensures
        plain_text(pieces, from) is None,
    decreases at - from,
{
    if from < at {
        lemma_fraction_is_not_plain(pieces, at, from + 1);
    }
}

/// What the library asks of its driver.
#[derive(Debug, Clone, PartialEq)]
pub enum Request {
    /// Compute `left op right` in binary64 arithmetic; answered by `Number`.
    Arithmetic { op: NumberOp, left: u64, right: u64 },
    /// Join the pieces into one text, each number in its shortest decimal
    /// form; answered by `Text`.
    Render { pieces: Vec<TextPiece> },
    /// Write the text and a line break to standard output; answered by `Done`.
    Print { text: String },
    /// Write the prompt, if any, and read one line from standard input;
    /// answered by `Text` or `Failure`.
    Input { prompt: Option<String> },
    /// Read a whole file; answered by `Text` or `Failure`.
    ReadFile { path: String },
    /// Write a whole file; answered by `Done` or `Failure`.
    WriteFile { path: String, contents: String },
    /// A number in [0, 1); answered by `Number`.
    Random,
    /// The seconds since the Unix epoch; answered by `Number`.
    Time,
    /// End the process with this status.
    Exit { code: i32 },
}

pub enum RequestView {
    Arithmetic { op: NumberOp, left: u64, right: u64 },
    Render { pieces: Seq<PieceView> },
    Print { text: Seq<char> },
    Input { prompt: Option<Seq<char>> },
    ReadFile { path: Seq<char> },
    WriteFile { path: Seq<char>, contents: Seq<char> },
    Random,
    Time,
    Exit { code: i32 },
}

/// The text of an optional string.
pub open spec fn optional_text(text: Option<String>) -> Option<Seq<char>> {
    match text {
        Some(t) => Some(t@),
        None => None,
    }
}

impl View for Request {
    type V = RequestView;

    open spec fn view(&self) -> RequestView {
        match self {
            Request::Arithmetic { op, left, right } => RequestView::Arithmetic {
                op: *op,
                left: *left,
                right: *right,
            },
            Request::Render { pieces } => RequestView::Render { pieces: pieces_view(pieces@) },
            Request::Print { text } => RequestView::Print { text: text@ },
            Request::Input { prompt } => RequestView::Input { prompt: optional_text(*prompt) },
            Request::ReadFile { path } => RequestView::ReadFile { path: path@ },
            Request::WriteFile { path, contents } => RequestView::WriteFile {
                path: path@,
                contents: contents@,
            },
            Request::Random => RequestView::Random,
            Request::Time => RequestView::Time,
            Request::Exit { code } => RequestView::Exit { code: *code },
        }
    }
}

/// The driver's answer to a request.
#[derive(Debug, Clone, PartialEq)]
pub enum Answer {
    Number(u64),
    Text(String),
    Done,
    Failure(String),
}

pub enum AnswerView {
    Number(u64),
    Text(Seq<char>),
    Done,
    Failure(Seq<char>),
}

impl View for Answer {
    type V = AnswerView;

    open spec fn view(&self) -> AnswerView {
        match self {
            Answer::Number(bits) => AnswerView::Number(*bits),
            Answer::Text(text) => AnswerView::Text(text@),
            Answer::Done => AnswerView::Done,
            Answer::Failure(message) => AnswerView::Failure(message@),
        }
    }
}

/// How the answer to a request becomes a value.
#[derive(Debug, Clone, PartialEq)]
pub enum Completion {
    /// The answer's number is the value.
    Number,
    /// The answer is the difference of two numbers; the value is whether
    /// they are equal, or whether they differ if `negated`.
    Equality { negated: bool },
    /// The answer's text is the value.
    Text,
    /// The answer's text takes the place of argument `index`, and the
    /// builtin is called again.
    Argument { builtin: Builtin, arguments: Vec<VaderValue>, index: usize },
    /// Once the request is done, this is the value.
    Value { value: VaderValue },
    /// The answer is a line that was read; the value is its text without
    /// the line break.
    Line,
    /// The answer is what the file at `path` holds.
    FileRead { path: String },
    /// Once the file at `path` is written, the value is true.
    FileWritten { path: String },
    /// No answer is expected.
    Halt,
}

pub enum CompletionView {
    Number,
    Equality { negated: bool },
    Text,
    Argument { builtin: Builtin, arguments: Seq<ValueView>, index: usize },
    Value { value: ValueView },
    Line,
    FileRead { path: Seq<char> },
    FileWritten { path: Seq<char> },
    Halt,
}

impl View for Completion {
    type V = CompletionView;

    open spec fn view(&self) -> CompletionView {
        match self {
            Completion::Number => CompletionView::Number,
            Completion::Equality { negated } => CompletionView::Equality { negated: *negated },
            Completion::Text => CompletionView::Text,
            Completion::Argument { builtin, arguments, index } => CompletionView::Argument {
                builtin: *builtin,
                arguments: values_view(arguments@),
                index: *index,
            },
            Completion::Value { value } => CompletionView::Value { value: value@ },
            Completion::Line => CompletionView::Line,
            Completion::FileRead { path } => CompletionView::FileRead { path: path@ },
            Completion::FileWritten { path } => CompletionView::FileWritten { path: path@ },
            Completion::Halt => CompletionView::Halt,
        }
    }
}

/// The result of an operation: a value, or a request to the driver with the
/// way its answer becomes the value.
#[derive(Debug, Clone, PartialEq)]
pub enum Computed {
    Value(VaderValue),
    Pending { request: Request, completion: Completion },
}

pub enum ComputedView {
    Value(ValueView),
    Pending { request: RequestView, completion: CompletionView },
}

impl View for Computed {
    type V = ComputedView;

    open spec fn view(&self) -> ComputedView {
        match self {
            Computed::Value(value) => ComputedView::Value(value@),
            Computed::Pending { request, completion } => ComputedView::Pending {
                request: request@,
                completion: completion@,
            },
        }
    }
}

/// Whether a result has the given model: the same case, with the view of
/// what it holds.
pub open spec fn models<T: View, E: View>(result: Result<T, E>, model: Result<T::V, E::V>) -> bool {
    match result {
        Ok(value) => model == Ok::<T::V, E::V>(value@),
        Err(error) => model == Err::<T::V, E::V>(error@),
    }
}

} // verus!
