//! Tokens and arithmetic operators.

use vstd::prelude::*;
use crate::text::{int_text, push_int};

verus! {

/// A lexical unit of an expression.
#[derive(Clone, Copy, Debug, PartialEq, Eq, Structural)]
pub enum Token {
    /// Written `a`, meaning `+`.
    Plus,
    /// Written `b`, meaning `-`.
    Dash,
    /// Written `c`, meaning `*`.
    Star,
    /// Written `d`, meaning `/`.
    Slash,
    /// Written `e`, meaning `(`.
    LeftParen,
    /// Written `f`, meaning `)`.
    RightParen,
    /// A run of decimal digits.
    Number(i64),
    /// The sentinel that closes every token sequence.
    End,
}

/// An arithmetic operation of the syntax tree.
#[derive(Clone, Copy, Debug, PartialEq, Eq, Structural)]
pub enum Operator {
    /// The sum of two operands.
    Add,
    /// The product of two operands.
    Multiply,
    /// The quotient of two operands, rounded towards zero.
    Divide,
    /// The difference of two operands.
    Subtract,
    /// The negative of one operand.
    Negative,
}

/// The binary operator that a token denotes, if it denotes one.
///
/// `Dash` denotes subtraction here; negation has no token of its own.
pub open spec fn binary_operator(token: Token) -> Option<Operator> {
    match token {
        Token::Plus => Some(Operator::Add),
        Token::Dash => Some(Operator::Subtract),
        Token::Star => Some(Operator::Multiply),
        Token::Slash => Some(Operator::Divide),
        _ => None,
    }
}

impl TryFrom<Token> for Operator {
    type Error = &'static str;

    /// Converts an operator token into the binary operator it denotes; every
    /// other token is refused with the text `Wrong operator`.
    fn try_from(token: Token) -> (r: Result<Self, Self::Error>) {
        match token {
            Token::Plus => Ok(Operator::Add),
            Token::Dash => Ok(Operator::Subtract),
            Token::Star => Ok(Operator::Multiply),
            Token::Slash => Ok(Operator::Divide),
            _ => Err("Wrong operator"),
        }
    }
}

impl vstd::std_specs::convert::TryFromSpecImpl<Token> for Operator {
    open spec fn obeys_try_from_spec() -> bool {
        true
    }

    open spec fn try_from_spec(token: Token) -> Result<Self, Self::Error> {
        match binary_operator(token) {
            Some(op) => Ok(op),
            None => Err("Wrong operator"),
        }
    }
}

/// The name of a token as it appears in messages: the variant's name, and
/// for a number its value in parentheses behind it, as in `Number(42)`.
pub open spec fn token_text(token: Token) -> Seq<char> {
    match token {
        Token::Plus => "Plus"@,
        Token::Dash => "Dash"@,
        Token::Star => "Star"@,
        Token::Slash => "Slash"@,
        Token::LeftParen => "LeftParen"@,
        Token::RightParen => "RightParen"@,
        Token::Number(n) => "Number("@ + int_text(n as int) + ")"@,
        Token::End => "End"@,
    }
}

impl Token {
    /// Appends the token's name to `s`.
    pub fn push_text(&self, s: &mut String)
        ensures
            final(s)@ == old(s)@ + token_text(*self),
    {
        match self {
            Token::Plus => s.append("Plus"),
            Token::Dash => s.append("Dash"),
            Token::Star => s.append("Star"),
            Token::Slash => s.append("Slash"),
            Token::LeftParen => s.append("LeftParen"),
            Token::RightParen => s.append("RightParen"),
            Token::Number(n) => {
                s.append("Number(");
                push_int(s, *n);
                s.append(")");
            },
            Token::End => s.append("End"),
        }
    }

    /// The token's name as a string of its own.
    pub fn describe(&self) -> (name: String)
        ensures
            name@ == token_text(*self),
    {
        let mut name = String::new();
        self.push_text(&mut name);
        name
    }
}

} // verus!
