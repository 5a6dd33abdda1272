//! The errors that tokenizing, parsing and evaluating report.

use vstd::prelude::*;

verus! {

/// The stage at which an input was refused.
#[derive(Clone, Copy, Debug, PartialEq, Eq, Structural)]
pub enum ErrorLevel {
    /// A character that belongs to no token, or a numeral too large to hold.
    Lexicon,
    /// A token sequence that the grammar does not derive.
    Parse,
}

/// The name under which a level is shown.
pub open spec fn level_text(level: ErrorLevel) -> Seq<char> {
    match level {
        ErrorLevel::Lexicon => "Lexicon"@,
        ErrorLevel::Parse => "Parse"@,
    }
}

/// A refused input: what was wrong with it, and at which stage it was found.
///
/// An error is made once, where the input is found wrong, and handed on as it
/// is: nothing changes it afterwards.
#[derive(Debug)]
pub struct SyntaxError {
    message: String,
    level: ErrorLevel,
}

/// The mathematical content of a [`SyntaxError`].
pub struct SyntaxErrorView {
    pub message: Seq<char>,
    pub level: ErrorLevel,
}

impl SyntaxErrorView {
    /// A tokenizer error with the given message.
    pub open spec fn lexicon(message: Seq<char>) -> SyntaxErrorView {
        SyntaxErrorView { message, level: ErrorLevel::Lexicon }
    }

    /// A parser error with the given message.
    pub open spec fn parse(message: Seq<char>) -> SyntaxErrorView {
        SyntaxErrorView { message, level: ErrorLevel::Parse }
    }

    /// The error as one line of text: the level's name, the word `Error`, and
    /// the message, separated by single spaces.
    pub open spec fn rendered(self) -> Seq<char> {
        level_text(self.level) + " Error "@ + self.message
    }
}

impl View for SyntaxError {
    type V = SyntaxErrorView;

    closed spec fn view(&self) -> SyntaxErrorView {
        SyntaxErrorView { message: self.message@, level: self.level }
    }
}

impl SyntaxError {
    /// An error found while tokenizing.
    pub fn new_lex_error(message: String) -> (e: Self)
        ensures
            e@ == SyntaxErrorView::lexicon(message@),
    {
        SyntaxError { message, level: ErrorLevel::Lexicon }
    }

    /// An error found while parsing.
    pub fn new_parse_error(message: String) -> (e: Self)
        ensures
            e@ == SyntaxErrorView::parse(message@),
    {
        SyntaxError { message, level: ErrorLevel::Parse }
    }

    /// What was wrong with the input.
    pub fn message(&self) -> (message: &str)
        ensures
            message@ == self@.message,
    {
        self.message.as_str()
    }

    /// The stage at which the input was refused.
    pub fn level(&self) -> (level: ErrorLevel)
        ensures
            level == self@.level,
    {
        self.level
    }

    /// The error as one line of text, such as `Parse Error Unexpected token End`.
    pub fn to_string(&self) -> (line: String)
        ensures
            line@ == self@.rendered(),
    {
        let mut line = match self.level {
            ErrorLevel::Lexicon => "Lexicon".to_owned(),
            ErrorLevel::Parse => "Parse".to_owned(),
        };
        line.append(" Error ");
        line.append(self.message.as_str());
        line
    }
}

/// An evaluation that has no 64-bit result.
#[derive(Clone, Copy, Debug, PartialEq, Eq, Structural)]
pub enum ArithmeticError {
    /// A division whose divisor is zero.
    DivisionByZero,
    /// An operation whose exact result lies outside the range of `i64`.
    Overflow,
}

/// The name under which an arithmetic failure is shown.
pub open spec fn arithmetic_text(e: ArithmeticError) -> Seq<char> {
    match e {
        ArithmeticError::DivisionByZero => "Division by zero"@,
        ArithmeticError::Overflow => "Result out of range"@,
    }
}

/// Why an input string has no value.
#[derive(Debug)]
pub enum EvalError {
    /// The input is no expression.
    Syntax(SyntaxError),
    /// The input is an expression, and its evaluation fails.
    Arithmetic(ArithmeticError),
}

/// The mathematical content of an [`EvalError`].
pub enum EvalErrorView {
    Syntax(SyntaxErrorView),
    Arithmetic(ArithmeticError),
}

impl EvalErrorView {
    /// The error as one line of text: that of the syntax error, or the words
    /// `Arithmetic Error` and the name of the failure.
    pub open spec fn rendered(self) -> Seq<char> {
        match self {
            EvalErrorView::Syntax(e) => e.rendered(),
            EvalErrorView::Arithmetic(e) => "Arithmetic Error "@ + arithmetic_text(e),
        }
    }
}

impl EvalError {
    /// The error as one line of text, such as `Arithmetic Error Division by zero`.
    pub fn to_string(&self) -> (line: String)
        ensures
            line@ == self@.rendered(),
    {
        match self {
            EvalError::Syntax(e) => e.to_string(),
            EvalError::Arithmetic(e) => {
                let mut line = "Arithmetic Error ".to_owned();
                match e {
                    ArithmeticError::DivisionByZero => line.append("Division by zero"),
                    ArithmeticError::Overflow => line.append("Result out of range"),
                }
                line
            },
        }
    }
}

impl View for EvalError {
    type V = EvalErrorView;

    open spec fn view(&self) -> EvalErrorView {
        match self {
            EvalError::Syntax(e) => EvalErrorView::Syntax(e@),
            EvalError::Arithmetic(e) => EvalErrorView::Arithmetic(*e),
        }
    }
}

} // verus!
