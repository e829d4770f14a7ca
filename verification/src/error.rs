//! What can go wrong, and how it is worded.

use crate::text::decimal;
use crate::text::decimal_text;
use vstd::prelude::*;
use vstd::string::StringExecFns;

verus! {

/// What can go wrong in a program, and in running it.
#[derive(Debug)]
pub enum RloxError {
    /// A lexical error: the line, the text it was found near, what is wrong.
    LexicalError(usize, String, String),
    /// Scanning met at least one lexical error.
    ScannerError,
    /// A violation of the grammar: the line, the offending lexeme, what was
    /// expected.
    SyntaxError(usize, String, String),
    /// An evaluation that failed.
    RuntimeError(String),
    /// A broken invariant of the interpreter itself, never the program's doing.
    InvariantViolation(String),
}

/// An error, with its texts as sequences of characters.
pub ghost enum ErrorView {
    LexicalError(usize, Seq<char>, Seq<char>),
    ScannerError,
    SyntaxError(usize, Seq<char>, Seq<char>),
    RuntimeError(Seq<char>),
    InvariantViolation(Seq<char>),
}

impl View for RloxError {
    type V = ErrorView;

    open spec fn view(&self) -> ErrorView {
        match self {
            RloxError::LexicalError(line, near, message) => ErrorView::LexicalError(
                *line,
                near@,
                message@,
            ),
            RloxError::ScannerError => ErrorView::ScannerError,
            RloxError::SyntaxError(line, near, message) => ErrorView::SyntaxError(
                *line,
                near@,
                message@,
            ),
            RloxError::RuntimeError(message) => ErrorView::RuntimeError(message@),
            RloxError::InvariantViolation(message) => ErrorView::InvariantViolation(message@),
        }
    }
}

impl Clone for RloxError {
    fn clone(&self) -> (r: Self)
        ensures
            r@ == self@,
    {
        match self {
            RloxError::LexicalError(line, near, message) => RloxError::LexicalError(
                *line,
                near.clone(),
                message.clone(),
            ),
            RloxError::ScannerError => RloxError::ScannerError,
            RloxError::SyntaxError(line, near, message) => RloxError::SyntaxError(
                *line,
                near.clone(),
                message.clone(),
            ),
            RloxError::RuntimeError(message) => RloxError::RuntimeError(message.clone()),
            RloxError::InvariantViolation(message) => RloxError::InvariantViolation(
                message.clone(),
            ),
        }
    }
}

/// The views of a run of errors.
pub open spec fn error_views(errors: Seq<RloxError>) -> Seq<ErrorView> {
    Seq::new(errors.len(), |i: int| errors[i]@)
}

/// `<kind> Error: [line: <line>, near: <near>, message: <message>].`
pub open spec fn located(kind: Seq<char>, line: usize, near: Seq<char>, message: Seq<char>) -> Seq<
    char,
> {
    kind + " Error: [line: "@ + decimal(line as nat) + ", near: "@ + near + ", message: "@ + message
        + "]."@
}

/// `<kind> Error: [message: <message>].`
pub open spec fn unlocated(kind: Seq<char>, message: Seq<char>) -> Seq<char> {
    kind + " Error: [message: "@ + message + "]."@
}

/// The line that reports an error.
pub open spec fn description(e: ErrorView) -> Seq<char> {
    match e {
        ErrorView::LexicalError(line, near, message) => located("Lexical"@, line, near, message),
        ErrorView::ScannerError => "Scanner Error."@,
        ErrorView::SyntaxError(line, near, message) => located("Syntax"@, line, near, message),
        ErrorView::RuntimeError(message) => unlocated("Runtime"@, message),
        ErrorView::InvariantViolation(message) => unlocated("Internal"@, message),
    }
}

fn located_text(kind: &str, line: usize, near: &String, message: &String) -> (r: String)
    ensures
        r@ == located(kind@, line, near@, message@),
{
    let mut out = String::from_str(kind);
    out.append(" Error: [line: ");
    out.append(decimal_text(line).as_str());
    out.append(", near: ");
    out.append(near.as_str());
    out.append(", message: ");
    out.append(message.as_str());
    out.append("].");
    out
}

fn unlocated_text(kind: &str, message: &String) -> (r: String)
    ensures
        r@ == unlocated(kind@, message@),
{
    let mut out = String::from_str(kind);
    out.append(" Error: [message: ");
    out.append(message.as_str());
    out.append("].");
    out
}

impl RloxError {
    /// The line that reports this error.
    pub fn describe(&self) -> (r: String)
        ensures
            r@ == description(self@),
    {
        match self {
            RloxError::LexicalError(line, near, message) => located_text(
                "Lexical",
                *line,
                near,
                message,
            ),
            RloxError::ScannerError => String::from_str("Scanner Error."),
            RloxError::SyntaxError(line, near, message) => located_text(
                "Syntax",
                *line,
                near,
                message,
            ),
            RloxError::RuntimeError(message) => unlocated_text("Runtime", message),
            RloxError::InvariantViolation(message) => unlocated_text("Internal", message),
        }
    }
}

} // verus!
