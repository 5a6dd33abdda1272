//! What holds of numerals and of unrecognized characters, in every input.

use vstd::prelude::*;
use crate::error::{ErrorLevel, EvalErrorView, SyntaxErrorView};
use crate::evaluate::evaluate;
use crate::expression::Expression;
use crate::lexer::{
    digit_run_end, digits_value, is_digit, is_recognized, is_whitespace, lemma_digit_run,
    symbol_token, tokenize, tokens_from,
};
use crate::parser::{chain_at, expect_at, expression_at, parse_tokens, primary_at};
use crate::token::Token;

verus! {

/// Whether `s` is a numeral: one digit or more, and nothing else.
pub open spec fn is_numeral(s: Seq<char>) -> bool {
    s.len() > 0 && forall|k: int| 0 <= k < s.len() ==> is_digit(#[trigger] s[k])
}

/// A numeral whose value fits in an `i64` gives one number token with that
/// value, and `End` behind it.
pub proof fn lemma_numeral_tokens(s: Seq<char>)
    requires
        is_numeral(s),
        digits_value(s) <= i64::MAX,
    ensures
        tokenize(s) == Ok::<Seq<Token>, SyntaxErrorView>(
            seq![Token::Number(digits_value(s) as i64), Token::End],
        ),
{
    lemma_digit_run(s, 0);
    let end = digit_run_end(s, 0);
    assert(end == s.len());
    assert(s.subrange(0, end) =~= s);
    assert(!is_whitespace(s[0]) && symbol_token(s[0]) is None);
    assert(tokens_from(s, end) == Ok::<Seq<Token>, SyntaxErrorView>(seq![Token::End]));
    assert(seq![Token::Number(digits_value(s) as i64)] + seq![Token::End] =~= seq![
        Token::Number(digits_value(s) as i64),
        Token::End,
    ]);
}

/// A number token and `End` behind it parse to that number.
pub proof fn lemma_number_parses(n: i64)
    ensures
        parse_tokens(seq![Token::Number(n), Token::End]) == Ok::<Expression, SyntaxErrorView>(
            Expression::Number(n),
        ),
{
    let ts = seq![Token::Number(n), Token::End];
    assert(primary_at(ts, 0).result == Ok::<Expression, SyntaxErrorView>(Expression::Number(n)));
    assert(primary_at(ts, 0).consumed == 1);
    assert(chain_at(ts, Expression::Number(n), 1).result == Ok::<Expression, SyntaxErrorView>(
        Expression::Number(n),
    ));
    assert(chain_at(ts, Expression::Number(n), 1).consumed == 0);
    assert(expression_at(ts, 0).consumed == 1);
    assert(expect_at(ts, 1, Token::End) is Ok);
}

/// A numeral without operators evaluates to the number that it writes.
pub proof fn lemma_numeral_value(s: Seq<char>)
    requires
        is_numeral(s),
        digits_value(s) <= i64::MAX,
    ensures
        evaluate(s) == Ok::<i64, EvalErrorView>(digits_value(s) as i64),
{
    lemma_numeral_tokens(s);
    lemma_number_parses(digits_value(s) as i64);
}

/// An input that holds a character which belongs to no token is refused by
/// the tokenizer, wherever the character stands.
pub proof fn lemma_unrecognized_rejected(s: Seq<char>, k: int)
    requires
        0 <= k < s.len(),
        !is_recognized(s[k]),
    ensures
        tokenize(s) matches Err(e) && e.level == ErrorLevel::Lexicon,
{
    lemma_unrecognized_rejected_from(s, 0, k);
}

/// An input that holds a character which belongs to no token has no value:
/// it is refused with the tokenizer's error, and none of it is parsed.
pub proof fn lemma_unrecognized_has_no_value(s: Seq<char>, k: int)
    requires
        0 <= k < s.len(),
        !is_recognized(s[k]),
    ensures
        tokenize(s) matches Err(e) && e.level == ErrorLevel::Lexicon && evaluate(s) == Err::<
            i64,
            EvalErrorView,
        >(EvalErrorView::Syntax(e)),
{
    lemma_unrecognized_rejected(s, k);
}

/// The tokenizer refuses what is left of an input from any index in front of
/// a character that belongs to no token.
proof fn lemma_unrecognized_rejected_from(s: Seq<char>, i: int, k: int)
    requires
        0 <= i <= k < s.len(),
        !is_recognized(s[k]),
    ensures
        tokens_from(s, i) matches Err(e) && e.level == ErrorLevel::Lexicon,
    decreases k - i,
{
    let c = s[i];
    if is_whitespace(c) || symbol_token(c) is Some {
        lemma_unrecognized_rejected_from(s, i + 1, k);
    } else if is_digit(c) {
        lemma_digit_run(s, i);
        let end = digit_run_end(s, i);
        if digits_value(s.subrange(i, end)) <= i64::MAX {
            lemma_unrecognized_rejected_from(s, end, k);
        }
    }
}

} // verus!
