//! The grammar of expressions and the recursive-descent parser for it.
//!
//! ```text
//! expression         := primary_expression ( operator primary_expression )*
//! primary_expression := Number
//!                     | LeftParen expression RightParen
//!                     | Dash primary_expression
//! ```
//!
//! The four binary operators bind alike and associate to the left, so that
//! `3 + 2 * 4` is `(3 + 2) * 4`.

use vstd::prelude::*;
use crate::error::{SyntaxError, SyntaxErrorView};
use crate::expression::Expression;
use crate::token::{binary_operator, token_text, Operator, Token};

verus! {

/// What one production makes of the tokens from some position on.
pub struct Parsed {
    /// The tree that is built, or the first error that is met.
    pub result: Result<Expression, SyntaxErrorView>,
    /// The number of tokens that are taken: on success those of the
    /// production, and on failure all up to the one that is refused, and that
    /// one too.
    pub consumed: nat,
}

/// The message for a token sequence that ends where a token is required.
pub open spec fn end_of_input_message() -> Seq<char> {
    "End of input unexpected"@
}

/// The message for a token that is not the required one.
pub open spec fn mismatch_message(expected: Token, actual: Token) -> Seq<char> {
    "Expected "@ + token_text(expected) + " but actual "@ + token_text(actual)
}

/// The message for a token that cannot begin a primary expression.
pub open spec fn unexpected_message(token: Token) -> Seq<char> {
    "Unexpected token "@ + token_text(token)
}

/// The number of tokens from `pos` to the end of `ts`.
pub open spec fn remaining_len(ts: Seq<Token>, pos: nat) -> nat {
    if pos <= ts.len() {
        (ts.len() - pos) as nat
    } else {
        0
    }
}

/// Whether `ts` holds a token at `pos` and ends with `End`.
pub open spec fn closed_from(ts: Seq<Token>, pos: nat) -> bool {
    pos < ts.len() && ts.last() == Token::End
}

/// The outcome of requiring `expected` at `pos`: success where it stands
/// there, a mismatch where another token does, and an unexpected end of input
/// where none does.
pub open spec fn expect_at(ts: Seq<Token>, pos: nat, expected: Token) -> Result<
    (),
    SyntaxErrorView,
> {
    if pos < ts.len() {
        if ts[pos as int] == expected {
            Ok(())
        } else {
            Err(SyntaxErrorView::parse(mismatch_message(expected, ts[pos as int])))
        }
    } else {
        Err(SyntaxErrorView::parse(end_of_input_message()))
    }
}

/// The number of tokens that requiring one at `pos` takes.
pub open spec fn expect_consumed(ts: Seq<Token>, pos: nat) -> nat {
    if pos < ts.len() {
        1
    } else {
        0
    }
}

/// A primary expression from `pos` on: a number, an expression in
/// parentheses, or the negation of a primary expression. Any other token is
/// refused; it is taken all the same.
///
/// The productions are made for token sequences that end with `End`, which
/// stops each of them. Where the tokens run out instead, a primary expression
/// is an unexpected end of input.
pub open spec fn primary_at(ts: Seq<Token>, pos: nat) -> Parsed
    decreases remaining_len(ts, pos), 0nat,
{
    if pos >= ts.len() {
        Parsed { result: Err(SyntaxErrorView::parse(end_of_input_message())), consumed: 0 }
    } else {
        match ts[pos as int] {
            Token::Number(n) => Parsed { result: Ok(Expression::Number(n)), consumed: 1 },
            Token::LeftParen => {
                let inner = expression_at(ts, pos + 1);
                let close = pos + 1 + inner.consumed;
                match inner.result {
                    Ok(e) => Parsed {
                        result: match expect_at(ts, close, Token::RightParen) {
                            Ok(_) => Ok(e),
                            Err(err) => Err(err),
                        },
                        consumed: 1 + inner.consumed + expect_consumed(ts, close),
                    },
                    Err(err) => Parsed { result: Err(err), consumed: 1 + inner.consumed },
                }
            },
            Token::Dash => {
                let operand = primary_at(ts, pos + 1);
                Parsed {
                    result: match operand.result {
                        Ok(e) => Ok(Expression::Unary(Operator::Negative, Box::new(e))),
                        Err(err) => Err(err),
                    },
                    consumed: 1 + operand.consumed,
                }
            },
            other => Parsed {
                result: Err(SyntaxErrorView::parse(unexpected_message(other))),
                consumed: 1,
            },
        }
    }
}

/// The chain of operators and primary expressions that continues `left` from
/// `pos` on. Each operator joins all that stands to its left with the one
/// primary expression to its right. The chain ends in front of the first
/// token that is no operator, which is looked at and not taken, and where the
/// tokens run out.
pub open spec fn chain_at(ts: Seq<Token>, left: Expression, pos: nat) -> Parsed
    decreases remaining_len(ts, pos), 0nat,
{
    if pos < ts.len() && binary_operator(ts[pos as int]) is Some {
        let op = binary_operator(ts[pos as int])->0;
        let right = primary_at(ts, pos + 1);
        match right.result {
            Ok(r) => {
                let joined = Expression::Binary(op, Box::new(left), Box::new(r));
                let rest = chain_at(ts, joined, pos + 1 + right.consumed);
                Parsed { result: rest.result, consumed: 1 + right.consumed + rest.consumed }
            },
            Err(err) => Parsed { result: Err(err), consumed: 1 + right.consumed },
        }
    } else {
        Parsed { result: Ok(left), consumed: 0 }
    }
}

/// An expression from `pos` on: a primary expression and the chain that
/// continues it.
pub open spec fn expression_at(ts: Seq<Token>, pos: nat) -> Parsed
    decreases remaining_len(ts, pos), 1nat,
{
    let first = primary_at(ts, pos);
    match first.result {
        Ok(e) => {
            let rest = chain_at(ts, e, pos + first.consumed);
            Parsed { result: rest.result, consumed: first.consumed + rest.consumed }
        },
        Err(err) => first,
    }
}

/// A complete input from `pos` on: an expression, and `End` behind it.
pub open spec fn parse_at(ts: Seq<Token>, pos: nat) -> Parsed {
    let whole = expression_at(ts, pos);
    let end = pos + whole.consumed;
    match whole.result {
        Ok(e) => Parsed {
            result: match expect_at(ts, end, Token::End) {
                Ok(_) => Ok(e),
                Err(err) => Err(err),
            },
            consumed: whole.consumed + expect_consumed(ts, end),
        },
        Err(err) => whole,
    }
}

/// The syntax tree of a token sequence, or the reason why it has none.
pub open spec fn parse_tokens(ts: Seq<Token>) -> Result<Expression, SyntaxErrorView> {
    parse_at(ts, 0).result
}

/// The parser builds well-formed trees only: a primary expression is one.
pub proof fn lemma_primary_well_formed(ts: Seq<Token>, pos: nat)
    ensures
        primary_at(ts, pos).result matches Ok(e) ==> e.well_formed(),
    decreases remaining_len(ts, pos), 0nat,
{
    if pos < ts.len() {
        match ts[pos as int] {
            Token::LeftParen => lemma_expression_well_formed(ts, pos + 1),
            Token::Dash => lemma_primary_well_formed(ts, pos + 1),
            _ => {},
        }
    }
}

/// The parser builds well-formed trees only: a chain that continues a
/// well-formed tree is one.
pub proof fn lemma_chain_well_formed(ts: Seq<Token>, left: Expression, pos: nat)
    requires
        left.well_formed(),
    ensures
        chain_at(ts, left, pos).result matches Ok(e) ==> e.well_formed(),
    decreases remaining_len(ts, pos), 0nat,
{
    if pos < ts.len() && binary_operator(ts[pos as int]) is Some {
        let op = binary_operator(ts[pos as int])->0;
        let right = primary_at(ts, pos + 1);
        lemma_primary_well_formed(ts, pos + 1);
        if let Ok(r) = right.result {
            let joined = Expression::Binary(op, Box::new(left), Box::new(r));
            lemma_chain_well_formed(ts, joined, pos + 1 + right.consumed);
        }
    }
}

/// The parser builds well-formed trees only: an expression is one.
pub proof fn lemma_expression_well_formed(ts: Seq<Token>, pos: nat)
    ensures
        expression_at(ts, pos).result matches Ok(e) ==> e.well_formed(),
    decreases remaining_len(ts, pos), 1nat,
{
    let first = primary_at(ts, pos);
    lemma_primary_well_formed(ts, pos);
    if let Ok(e) = first.result {
        lemma_chain_well_formed(ts, e, pos + first.consumed);
    }
}

/// The mathematical content of a result whose error is a [`SyntaxError`].
pub open spec fn error_view<T>(r: Result<T, SyntaxError>) -> Result<T, SyntaxErrorView> {
    match r {
        Ok(v) => Ok(v),
        Err(e) => Err(e@),
    }
}

/// The error for a token sequence that ends where a token is required.
fn end_of_input() -> (e: SyntaxError)
    ensures
        e@ == SyntaxErrorView::parse(end_of_input_message()),
{
    SyntaxError::new_parse_error("End of input unexpected".to_owned())
}

/// The error for a token that is not the required one.
fn mismatch(expected: Token, actual: Token) -> (e: SyntaxError)
    ensures
        e@ == SyntaxErrorView::parse(mismatch_message(expected, actual)),
{
    let mut message = "Expected ".to_owned();
    expected.push_text(&mut message);
    message.append(" but actual ");
    actual.push_text(&mut message);
    SyntaxError::new_parse_error(message)
}

/// The error for a token that cannot begin a primary expression.
fn unexpected(token: Token) -> (e: SyntaxError)
    ensures
        e@ == SyntaxErrorView::parse(unexpected_message(token)),
{
    let mut message = "Unexpected token ".to_owned();
    token.push_text(&mut message);
    SyntaxError::new_parse_error(message)
}

/// A cursor over a token sequence, which the productions of the grammar move
/// forward.
pub struct Parser<'a> {
    tokens: &'a [Token],
    cursor: usize,
}

impl<'a> Parser<'a> {
    /// The tokens that the parser reads.
    pub closed spec fn tokens(&self) -> Seq<Token> {
        self.tokens@
    }

    /// The number of tokens taken so far, which is the index of the next one.
    pub closed spec fn position(&self) -> nat {
        self.cursor as nat
    }

    #[verifier::type_invariant]
    spec fn within_tokens(&self) -> bool {
        self.cursor <= self.tokens@.len()
    }

    /// Whether a token is left and the sequence ends with `End`. The
    /// productions ask for this: they read on until `End` stops them.
    pub open spec fn has_sentinel(&self) -> bool {
        closed_from(self.tokens(), self.position())
    }

    /// A parser at the start of `tokens`.
    pub fn new(tokens: &'a [Token]) -> (parser: Self)
        ensures
            parser.tokens() == tokens@,
            parser.position() == 0,
    {
        Parser { tokens, cursor: 0 }
    }

    /// The number of tokens taken so far.
    pub fn consumed(&self) -> (n: usize)
        ensures
            n == self.position(),
            n <= self.tokens().len(),
    {
        proof {
            use_type_invariant(self);
        }
        self.cursor
    }

    /// Takes one token and requires it to be `token`.
    ///
    /// Fails where no token is left, and where the token taken is another.
    pub fn assert_next(&mut self, token: Token) -> (r: Result<(), SyntaxError>)
        ensures
            final(self).tokens() == old(self).tokens(),
            final(self).position() == old(self).position() + expect_consumed(
                old(self).tokens(),
                old(self).position(),
            ),
            error_view(r) == expect_at(old(self).tokens(), old(self).position(), token),
    {
        proof {
            use_type_invariant(&*self);
        }
        if self.cursor >= self.tokens.len() {
            return Err(end_of_input());
        }
        let next = self.tokens[self.cursor];
        self.cursor = self.cursor + 1;
        if next != token {
            return Err(mismatch(token, next));
        }
        Ok(())
    }

    /// Parses an expression: a primary expression, then operators with one
    /// primary expression each for as long as an operator follows.
    pub fn expression(&mut self) -> (r: Result<Expression, SyntaxError>)
        requires
            old(self).has_sentinel(),
        ensures
            final(self).tokens() == old(self).tokens(),
            final(self).position() == old(self).position() + expression_at(
                old(self).tokens(),
                old(self).position(),
            ).consumed,
            error_view(r) == expression_at(old(self).tokens(), old(self).position()).result,
            r is Ok ==> final(self).has_sentinel(),
            r matches Ok(e) ==> e.well_formed(),
        decreases remaining_len(old(self).tokens(), old(self).position()), 1nat,
    {
        let ghost ts = self.tokens();
        let ghost start = self.position();
        proof {
            lemma_expression_well_formed(ts, start);
        }
        let mut expr = match self.primary_expression() {
            Ok(e) => e,
            Err(e) => {
                return Err(e);
            },
        };
        loop
            invariant
                ts == old(self).tokens(),
                start == old(self).position(),
                self.tokens() == ts,
                self.has_sentinel(),
                start < self.position(),
                expression_at(ts, start).result == chain_at(ts, expr, self.position()).result,
                start + expression_at(ts, start).consumed == self.position() + chain_at(
                    ts,
                    expr,
                    self.position(),
                ).consumed,
            ensures
                self.tokens() == ts,
                self.has_sentinel(),
                expression_at(ts, start).result == Ok::<Expression, SyntaxErrorView>(expr),
                start + expression_at(ts, start).consumed == self.position(),
            decreases ts.len() - self.position(),
        {
            proof {
                use_type_invariant(&*self);
            }
            let next = self.tokens[self.cursor];
            match Operator::try_from(next) {
                Ok(op) => {
                    self.cursor = self.cursor + 1;
                    let rhs = match self.primary_expression() {
                        Ok(e) => e,
                        Err(e) => {
                            return Err(e);
                        },
                    };
                    expr = Expression::Binary(op, Box::new(expr), Box::new(rhs));
                },
                Err(_) => {
                    break ;
                },
            }
        }
        Ok(expr)
    }

    /// Parses a primary expression: a number, an expression in parentheses,
    /// or a minus sign and the primary expression that it negates.
    pub fn primary_expression(&mut self) -> (r: Result<Expression, SyntaxError>)
        requires
            old(self).has_sentinel(),
        ensures
            final(self).tokens() == old(self).tokens(),
            final(self).position() == old(self).position() + primary_at(
                old(self).tokens(),
                old(self).position(),
            ).consumed,
            error_view(r) == primary_at(old(self).tokens(), old(self).position()).result,
            r is Ok ==> final(self).has_sentinel(),
            r matches Ok(e) ==> e.well_formed(),
        decreases remaining_len(old(self).tokens(), old(self).position()), 0nat,
    {
        proof {
            use_type_invariant(&*self);
            lemma_primary_well_formed(self.tokens(), self.position());
        }
        let next = self.tokens[self.cursor];
        self.cursor = self.cursor + 1;
        match next {
            Token::Number(n) => Ok(Expression::Number(n)),
            Token::LeftParen => {
                let expr = match self.expression() {
                    Ok(e) => e,
                    Err(e) => {
                        return Err(e);
                    },
                };
                match self.assert_next(Token::RightParen) {
                    Ok(_) => Ok(expr),
                    Err(e) => Err(e),
                }
            },
            Token::Dash => {
                match self.primary_expression() {
                    Ok(e) => Ok(Expression::Unary(Operator::Negative, Box::new(e))),
                    Err(e) => Err(e),
                }
            },
            _ => Err(unexpected(next)),
        }
    }

    /// Parses a complete input: an expression, and `End` behind it. Tokens
    /// that follow the expression in place of `End` are an error.
    pub fn parse(&mut self) -> (r: Result<Expression, SyntaxError>)
        requires
            old(self).has_sentinel(),
        ensures
            final(self).tokens() == old(self).tokens(),
            final(self).position() == old(self).position() + parse_at(
                old(self).tokens(),
                old(self).position(),
            ).consumed,
            error_view(r) == parse_at(old(self).tokens(), old(self).position()).result,
            r matches Ok(e) ==> e.well_formed(),
    {
        let ast = match self.expression() {
            Ok(e) => e,
            Err(e) => {
                return Err(e);
            },
        };
        match self.assert_next(Token::End) {
            Ok(_) => Ok(ast),
            Err(e) => Err(e),
        }
    }
}

} // verus!
