//! Evaluation of arithmetic expressions written in a small letter alphabet.
//!
//! An input such as `3a2c4` is split into tokens, parsed into a syntax tree by
//! recursive descent and reduced to a 64-bit signed integer. The letters `a`
//! to `f` stand for `+`, `-`, `*`, `/`, `(` and `)`, so the input above is
//! `3 + 2 * 4`. Operators have no precedence and chain from the left, which
//! makes its value 20.
//!
//! [`eval_expr`] runs the three stages; [`lexicon`], [`Parser`] and
//! [`Expression::eval`] are the stages by themselves. Each of them is
//! specified by a function of the same stage on mathematical sequences
//! (`lexer::tokenize`, `parser::parse_tokens`, `Expression::value`), and the
//! modules `laws`, `balance`, `cutoff`, `unparse` and `spelling` prove what
//! holds of these functions for all inputs.
//!
//! An input that is refused is reported, never evaluated in part: a character
//! that belongs to no token and a numeral beyond `i64::MAX` by the tokenizer,
//! a token out of place by the parser, and a division by zero or a result
//! beyond the range of `i64` by the evaluation.

pub mod balance;
pub mod cutoff;
pub mod error;
pub mod evaluate;
pub mod expression;
pub mod laws;
pub mod lexer;
pub mod parser;
pub mod spelling;
pub mod text;
pub mod token;
pub mod unparse;

pub use error::{ArithmeticError, ErrorLevel, EvalError, SyntaxError};
pub use evaluate::eval_expr;
pub use expression::Expression;
pub use lexer::lexicon;
pub use parser::Parser;
pub use token::{Operator, Token};
