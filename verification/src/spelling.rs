//! The characters that spell a token sequence, and the tokenizer as their
//! inverse.

use vstd::prelude::*;
use crate::error::{EvalErrorView, SyntaxErrorView};
use crate::evaluate::evaluate;
use crate::expression::Expression;
use crate::lexer::{
    digit_run_end, digit_value, digits_value, is_digit, is_whitespace, lemma_digit_run,
    lemma_digit_run_ends_at, symbol_token, tokenize, tokens_from,
};
use crate::text::{decimal_text, digit_char};
use crate::token::Token;
use crate::unparse::{lemma_parse_tokens_of, operand_tokens, operator_token, tokens_of};

verus! {

/// The characters that spell one token: its letter, or the decimal numeral of
/// a number and a blank that ends the numeral. `End` is spelt by nothing.
pub open spec fn token_chars(token: Token) -> Seq<char> {
    match token {
        Token::Plus => seq!['a'],
        Token::Dash => seq!['b'],
        Token::Star => seq!['c'],
        Token::Slash => seq!['d'],
        Token::LeftParen => seq!['e'],
        Token::RightParen => seq!['f'],
        Token::Number(n) => decimal_text(n as nat).push(' '),
        Token::End => Seq::empty(),
    }
}

/// The characters that spell a token sequence, token after token.
pub open spec fn chars_of(ts: Seq<Token>) -> Seq<char>
    decreases ts.len(),
{
    if ts.len() == 0 {
        Seq::empty()
    } else {
        token_chars(ts.first()) + chars_of(ts.drop_first())
    }
}

/// Whether a token can be spelt and read back: it is not `End`, and no
/// negative number.
pub open spec fn is_spellable(token: Token) -> bool {
    token != Token::End && (token matches Token::Number(n) ==> n >= 0)
}

/// A decimal numeral holds digits only, one at least, and writes its number.
pub proof fn lemma_decimal_text_reads_back(n: nat)
    ensures
        decimal_text(n).len() > 0,
        forall|k: int| 0 <= k < decimal_text(n).len() ==> is_digit(#[trigger] decimal_text(n)[k]),
        digits_value(decimal_text(n)) == n,
    decreases n,
{
    let last = digit_char((n % 10) as int);
    assert(is_digit(last) && digit_value(last) == n % 10);
    if n < 10 {
        let text = seq![last];
        assert(text.drop_last() =~= Seq::<char>::empty());
        assert(digits_value(text.drop_last()) == 0);
    } else {
        lemma_decimal_text_reads_back(n / 10);
        let front = decimal_text(n / 10);
        assert(front.push(last).drop_last() =~= front);
    }
}

/// What the tokenizer makes of the rest of an input does not depend on what
/// stands in front of it.
pub proof fn lemma_tokens_from_suffix(a: Seq<char>, b: Seq<char>, i: int)
    requires
        0 <= i <= b.len(),
    ensures
        tokens_from(a + b, a.len() + i) == tokens_from(b, i),
    decreases b.len() - i,
{
    let s = a + b;
    let at = a.len() + i;
    if i < b.len() {
        assert(s[at] == b[i]);
        let c = b[i];
        if is_whitespace(c) || symbol_token(c) is Some {
            lemma_tokens_from_suffix(a, b, i + 1);
        } else if is_digit(c) {
            lemma_digit_run(b, i);
            let end = digit_run_end(b, i);
            assert forall|k: int| at <= k < a.len() + end implies is_digit(#[trigger] s[k]) by {
                assert(s[k] == b[k - a.len()]);
            }
            if end < b.len() {
                assert(s[a.len() + end] == b[end]);
            }
            lemma_digit_run_ends_at(s, at, a.len() + end);
            assert(s.subrange(at, a.len() + end) =~= b.subrange(i, end));
            lemma_tokens_from_suffix(a, b, end);
        }
    }
}

/// Reading undoes spelling: the characters that spell a sequence of tokens
/// give these tokens back, with `End` behind them.
pub proof fn lemma_tokenize_chars_of(ts: Seq<Token>)
    requires
        all_spellable(ts),
    ensures
        tokenize(chars_of(ts)) == Ok::<Seq<Token>, SyntaxErrorView>(ts.push(Token::End)),
    decreases ts.len(),
{
    if ts.len() == 0 {
        assert(ts.push(Token::End) =~= seq![Token::End]);
    } else {
        let token = ts.first();
        let rest = ts.drop_first();
        let spelt = token_chars(token);
        let s = spelt + chars_of(rest);
        assert(is_spellable(ts[0]));
        assert forall|k: int| 0 <= k < rest.len() implies is_spellable(#[trigger] rest[k]) by {
            assert(rest[k] == ts[k + 1]);
        }
        lemma_tokenize_chars_of(rest);
        lemma_tokens_from_suffix(spelt, chars_of(rest), 0);
        assert(seq![token] + rest.push(Token::End) =~= ts.push(Token::End));
        match token {
            Token::Number(n) => {
                let numeral = decimal_text(n as nat);
                let m = numeral.len() as int;
                lemma_decimal_text_reads_back(n as nat);
                assert(s[0] == numeral[0]);
                assert forall|k: int| 0 <= k < m implies is_digit(#[trigger] s[k]) by {
                    assert(s[k] == numeral[k]);
                }
                assert(s[m] == ' ');
                lemma_digit_run_ends_at(s, 0, m);
                assert(s.subrange(0, m) =~= numeral);
                assert(tokens_from(s, m) == tokens_from(s, m + 1));
            },
            _ => {
                assert(s[0] == spelt[0]);
            },
        }
    }
}

impl Expression {
    /// Whether no number of the tree is negative.
    pub open spec fn is_spellable(self) -> bool
        decreases self,
    {
        match self {
            Expression::Number(n) => n >= 0,
            Expression::Unary(_, operand) => operand.is_spellable(),
            Expression::Binary(_, left, right) => left.is_spellable() && right.is_spellable(),
        }
    }
}

/// Whether every token of a sequence can be spelt and read back.
pub open spec fn all_spellable(ts: Seq<Token>) -> bool {
    forall|k: int| 0 <= k < ts.len() ==> is_spellable(#[trigger] ts[k])
}

/// Two sequences that can be spelt can be spelt in a row.
proof fn lemma_all_spellable_concat(a: Seq<Token>, b: Seq<Token>)
    requires
        all_spellable(a),
        all_spellable(b),
    ensures
        all_spellable(a + b),
{
    assert forall|k: int| 0 <= k < (a + b).len() implies is_spellable(#[trigger] (a + b)[k]) by {
        if k < a.len() {
            assert((a + b)[k] == a[k]);
        } else {
            assert((a + b)[k] == b[k - a.len()]);
        }
    }
}

/// The tokens of a tree without negative numbers can all be spelt, as they
/// are and as an operand.
pub proof fn lemma_tokens_of_spellable(e: Expression)
    requires
        e.is_spellable(),
    ensures
        all_spellable(tokens_of(e)),
        all_spellable(operand_tokens(e, tokens_of(e))),
    decreases e,
{
    match e {
        Expression::Number(n) => {
            assert(is_spellable(Token::Number(n)));
        },
        Expression::Unary(_, operand) => {
            lemma_tokens_of_spellable(*operand);
            lemma_all_spellable_concat(
                seq![Token::Dash],
                operand_tokens(*operand, tokens_of(*operand)),
            );
        },
        Expression::Binary(op, left, right) => {
            lemma_tokens_of_spellable(*left);
            lemma_tokens_of_spellable(*right);
            let sign = seq![operator_token(op)];
            lemma_all_spellable_concat(tokens_of(*left), sign);
            lemma_all_spellable_concat(
                tokens_of(*left) + sign,
                operand_tokens(*right, tokens_of(*right)),
            );
            lemma_all_spellable_concat(seq![Token::LeftParen], tokens_of(e));
            lemma_all_spellable_concat(
                seq![Token::LeftParen] + tokens_of(e),
                seq![Token::RightParen],
            );
        },
    }
}

/// The value of a tree is the value of the input that spells it: evaluating
/// undoes writing, for every well-formed tree without negative numbers.
pub proof fn lemma_evaluate_written(e: Expression)
    requires
        e.well_formed(),
        e.is_spellable(),
    ensures
        evaluate(chars_of(tokens_of(e))) == match e.value() {
            Ok(v) => Ok::<i64, EvalErrorView>(v),
            Err(failure) => Err::<i64, EvalErrorView>(EvalErrorView::Arithmetic(failure)),
        },
{
    lemma_tokens_of_spellable(e);
    lemma_tokenize_chars_of(tokens_of(e));
    lemma_parse_tokens_of(e);
}

} // verus!
