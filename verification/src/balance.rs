//! Parentheses that are not balanced: such an input is never accepted.

use vstd::prelude::*;
use crate::error::{ErrorLevel, EvalErrorView};
use crate::evaluate::evaluate;
use crate::expression::Expression;
use crate::lexer::{
    digit_run_end, digits_value, is_digit, is_whitespace, lemma_digit_run,
    lemma_tokens_from_lexed, symbol_token, tokenize, tokens_from,
};
use crate::parser::{
    chain_at, expect_at, expression_at, parse_tokens, primary_at, remaining_len,
};
use crate::token::{binary_operator, Token};

verus! {

/// What a token adds to the number of open parentheses.
pub open spec fn paren_weight(token: Token) -> int {
    match token {
        Token::LeftParen => 1,
        Token::RightParen => -1,
        _ => 0,
    }
}

/// The number of `LeftParen` in `ts` less the number of `RightParen`.
pub open spec fn paren_excess(ts: Seq<Token>) -> int
    decreases ts.len(),
{
    if ts.len() == 0 {
        0
    } else {
        paren_weight(ts.first()) + paren_excess(ts.drop_first())
    }
}

/// The number of `e` in `s` from index `i` on, less the number of `f`.
pub open spec fn letter_excess(s: Seq<char>, i: int) -> int
    decreases s.len() - i,
{
    if i < 0 || i >= s.len() {
        0
    } else if s[i] == 'e' {
        1 + letter_excess(s, i + 1)
    } else if s[i] == 'f' {
        letter_excess(s, i + 1) - 1
    } else {
        letter_excess(s, i + 1)
    }
}

/// The tokens of `ts` from index `from` up to, not including, index `to`.
pub open spec fn tokens_between(ts: Seq<Token>, from: nat, to: nat) -> Seq<Token> {
    ts.subrange(from as int, to as int)
}

/// The excess of two sequences in a row is the sum of their excesses.
pub proof fn lemma_paren_excess_concat(a: Seq<Token>, b: Seq<Token>)
    ensures
        paren_excess(a + b) == paren_excess(a) + paren_excess(b),
    decreases a.len(),
{
    if a.len() == 0 {
        assert(a + b =~= b);
    } else {
        assert((a + b).drop_first() =~= a.drop_first() + b);
        lemma_paren_excess_concat(a.drop_first(), b);
    }
}

/// The excess of a stretch of tokens is that of its first part and of the
/// rest of it together.
proof fn lemma_excess_split(ts: Seq<Token>, from: nat, mid: nat, to: nat)
    requires
        from <= mid <= to <= ts.len(),
    ensures
        paren_excess(tokens_between(ts, from, to)) == paren_excess(tokens_between(ts, from, mid))
            + paren_excess(tokens_between(ts, mid, to)),
{
    assert(tokens_between(ts, from, to) =~= tokens_between(ts, from, mid) + tokens_between(
        ts,
        mid,
        to,
    ));
    lemma_paren_excess_concat(tokens_between(ts, from, mid), tokens_between(ts, mid, to));
}

/// The excess of a stretch of one token is the weight of that token.
proof fn lemma_excess_one(ts: Seq<Token>, at: nat)
    requires
        at < ts.len(),
    ensures
        paren_excess(tokens_between(ts, at, at + 1)) == paren_weight(ts[at as int]),
{
    let one = tokens_between(ts, at, at + 1);
    assert(one.drop_first() =~= Seq::<Token>::empty());
    assert(paren_excess(one.drop_first()) == 0);
}

/// A primary expression stays within the tokens; where it succeeds, its
/// parentheses are balanced; where it fails, the error is the parser's.
pub proof fn lemma_primary_balanced(ts: Seq<Token>, pos: nat)
    requires
        pos <= ts.len(),
    ensures
        pos + primary_at(ts, pos).consumed <= ts.len(),
        primary_at(ts, pos).result is Ok ==> paren_excess(
            tokens_between(ts, pos, pos + primary_at(ts, pos).consumed),
        ) == 0,
        primary_at(ts, pos).result matches Err(e) ==> e.level == ErrorLevel::Parse,
    decreases remaining_len(ts, pos), 0nat,
{
    if pos < ts.len() {
        lemma_excess_one(ts, pos);
        match ts[pos as int] {
            Token::LeftParen => {
                lemma_expression_balanced(ts, pos + 1);
                let inner = expression_at(ts, pos + 1);
                let close = pos + 1 + inner.consumed;
                if inner.result is Ok && expect_at(ts, close, Token::RightParen) is Ok {
                    lemma_excess_one(ts, close);
                    lemma_excess_split(ts, pos, pos + 1, close + 1);
                    lemma_excess_split(ts, pos + 1, close, close + 1);
                }
            },
            Token::Dash => {
                lemma_primary_balanced(ts, pos + 1);
                let operand = primary_at(ts, pos + 1);
                lemma_excess_split(ts, pos, pos + 1, pos + 1 + operand.consumed);
            },
            _ => {},
        }
    }
}

/// A chain stays within the tokens; where it succeeds, its parentheses are
/// balanced; where it fails, the error is the parser's.
pub proof fn lemma_chain_balanced(ts: Seq<Token>, left: Expression, pos: nat)
    requires
        pos <= ts.len(),
    ensures
        pos + chain_at(ts, left, pos).consumed <= ts.len(),
        chain_at(ts, left, pos).result is Ok ==> paren_excess(
            tokens_between(ts, pos, pos + chain_at(ts, left, pos).consumed),
        ) == 0,
        chain_at(ts, left, pos).result matches Err(e) ==> e.level == ErrorLevel::Parse,
    decreases remaining_len(ts, pos), 0nat,
{
    if pos < ts.len() && binary_operator(ts[pos as int]) is Some {
        let op = binary_operator(ts[pos as int])->0;
        let right = primary_at(ts, pos + 1);
        lemma_primary_balanced(ts, pos + 1);
        lemma_excess_one(ts, pos);
        if let Ok(r) = right.result {
            let joined = Expression::Binary(op, Box::new(left), Box::new(r));
            let next = pos + 1 + right.consumed;
            lemma_chain_balanced(ts, joined, next);
            let rest = chain_at(ts, joined, next);
            lemma_excess_split(ts, pos, pos + 1, next + rest.consumed);
            lemma_excess_split(ts, pos + 1, next, next + rest.consumed);
        }
    } else {
        assert(tokens_between(ts, pos, pos) =~= Seq::<Token>::empty());
    }
}

/// An expression stays within the tokens; where it succeeds, its parentheses
/// are balanced; where it fails, the error is the parser's.
pub proof fn lemma_expression_balanced(ts: Seq<Token>, pos: nat)
    requires
        pos <= ts.len(),
    ensures
        pos + expression_at(ts, pos).consumed <= ts.len(),
        expression_at(ts, pos).result is Ok ==> paren_excess(
            tokens_between(ts, pos, pos + expression_at(ts, pos).consumed),
        ) == 0,
        expression_at(ts, pos).result matches Err(e) ==> e.level == ErrorLevel::Parse,
    decreases remaining_len(ts, pos), 1nat,
{
    let first = primary_at(ts, pos);
    lemma_primary_balanced(ts, pos);
    if let Ok(e) = first.result {
        let next = pos + first.consumed;
        lemma_chain_balanced(ts, e, next);
        lemma_excess_split(ts, pos, next, next + chain_at(ts, e, next).consumed);
    }
}

/// Every error of the parser has the level `Parse`.
pub proof fn lemma_parse_error_level(ts: Seq<Token>)
    ensures
        parse_tokens(ts) matches Err(e) ==> e.level == ErrorLevel::Parse,
{
    lemma_expression_balanced(ts, 0);
}

/// A token sequence whose parentheses are not balanced, as when a closing
/// one is missing, has no syntax tree: the parser refuses it.
pub proof fn lemma_unbalanced_rejected(ts: Seq<Token>)
    requires
        forall|k: int| 0 <= k < ts.len() - 1 ==> #[trigger] ts[k] != Token::End,
        paren_excess(ts) != 0,
    ensures
        parse_tokens(ts) matches Err(e) && e.level == ErrorLevel::Parse,
{
    lemma_expression_balanced(ts, 0);
    let whole = expression_at(ts, 0);
    let end = whole.consumed;
    if whole.result is Ok && expect_at(ts, end, Token::End) is Ok {
        assert(end == ts.len() - 1);
        lemma_excess_one(ts, end);
        lemma_excess_split(ts, 0, end, ts.len());
        assert(tokens_between(ts, 0, ts.len()) =~= ts);
    }
}

/// The tokens of an input hold as many parentheses of each kind as the input
/// holds letters `e` and `f`.
pub proof fn lemma_excess_of_tokens(s: Seq<char>, i: int)
    requires
        0 <= i <= s.len(),
    ensures
        tokens_from(s, i) matches Ok(ts) ==> paren_excess(ts) == letter_excess(s, i),
    decreases s.len() - i,
{
    if i < s.len() {
        let c = s[i];
        if is_whitespace(c) {
            lemma_excess_of_tokens(s, i + 1);
        } else if symbol_token(c) is Some {
            lemma_excess_of_tokens(s, i + 1);
            if let Ok(more) = tokens_from(s, i + 1) {
                lemma_paren_excess_concat(seq![symbol_token(c)->0], more);
                lemma_excess_one(seq![symbol_token(c)->0], 0);
                assert(tokens_between(seq![symbol_token(c)->0], 0, 1) =~= seq![symbol_token(c)->0]);
            }
        } else if is_digit(c) {
            lemma_digit_run(s, i);
            let end = digit_run_end(s, i);
            let value = digits_value(s.subrange(i, end));
            lemma_excess_of_tokens(s, end);
            lemma_excess_of_digits(s, i, end);
            if value <= i64::MAX {
                if let Ok(more) = tokens_from(s, end) {
                    let number = seq![Token::Number(value as i64)];
                    lemma_paren_excess_concat(number, more);
                    lemma_excess_one(number, 0);
                    assert(tokens_between(number, 0, 1) =~= number);
                }
            }
        }
    } else {
        lemma_excess_one(seq![Token::End], 0);
        assert(tokens_between(seq![Token::End], 0, 1) =~= seq![Token::End]);
    }
}

/// Digits add nothing to the excess of letters.
proof fn lemma_excess_of_digits(s: Seq<char>, i: int, end: int)
    requires
        0 <= i <= end <= s.len(),
        forall|k: int| i <= k < end ==> is_digit(#[trigger] s[k]),
    ensures
        letter_excess(s, i) == letter_excess(s, end),
    decreases end - i,
{
    if i < end {
        assert(is_digit(s[i]));
        lemma_excess_of_digits(s, i + 1, end);
    }
}

/// An input that the tokenizer accepts and in which the letters `e` and `f`
/// are not equally many, as when a closing parenthesis is missing, has no
/// value: the parser refuses it.
pub proof fn lemma_unbalanced_input_rejected(s: Seq<char>)
    requires
        tokenize(s) is Ok,
        letter_excess(s, 0) != 0,
    ensures
        evaluate(s) matches Err(EvalErrorView::Syntax(e)) && e.level == ErrorLevel::Parse,
{
    lemma_excess_of_tokens(s, 0);
    lemma_tokens_from_lexed(s, 0);
    lemma_unbalanced_rejected(tokenize(s)->Ok_0);
}

} // verus!
