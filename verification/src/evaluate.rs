//! From an input string to its value: tokenize, parse, evaluate.

use vstd::prelude::*;
use crate::error::{EvalError, EvalErrorView};
use crate::lexer::{lexicon, tokenize};
use crate::parser::{parse_tokens, Parser};

verus! {

/// The value of an input string, or the first failure on the way to it: that
/// of the tokenizer, else that of the parser, else that of the evaluation.
pub open spec fn evaluate(s: Seq<char>) -> Result<i64, EvalErrorView> {
    match tokenize(s) {
        Ok(ts) => match parse_tokens(ts) {
            Ok(ast) => match ast.value() {
                Ok(v) => Ok(v),
                Err(e) => Err(EvalErrorView::Arithmetic(e)),
            },
            Err(e) => Err(EvalErrorView::Syntax(e)),
        },
        Err(e) => Err(EvalErrorView::Syntax(e)),
    }
}

/// The mathematical content of an evaluation result.
pub open spec fn evaluated_view(r: Result<i64, EvalError>) -> Result<i64, EvalErrorView> {
    match r {
        Ok(v) => Ok(v),
        Err(e) => Err(e@),
    }
}

/// Evaluates an expression such as `3a2c4`, which is `(3 + 2) * 4`.
///
/// The input is tokenized as a whole before any of it is parsed, and parsed
/// as a whole before any of it is evaluated.
pub fn eval_expr(expression: String) -> (r: Result<i64, EvalError>)
    ensures
        evaluated_view(r) == evaluate(expression@),
{
    let tokens = match lexicon(expression) {
        Ok(tokens) => tokens,
        Err(e) => {
            return Err(EvalError::Syntax(e));
        },
    };
    let mut parser = Parser::new(tokens.as_slice());
    let ast = match parser.parse() {
        Ok(ast) => ast,
        Err(e) => {
            return Err(EvalError::Syntax(e));
        },
    };
    match ast.eval() {
        Ok(v) => Ok(v),
        Err(e) => Err(EvalError::Arithmetic(e)),
    }
}

} // verus!
