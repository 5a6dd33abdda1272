//! What the parser makes of an input that is cut off in front of a closing
//! parenthesis.

use vstd::prelude::*;
use crate::error::{EvalErrorView, SyntaxErrorView};
use crate::evaluate::evaluate;
use crate::expression::Expression;
use crate::lexer::{
    digit_run_end, digits_value, is_digit, is_whitespace, lemma_digit_run,
    lemma_digit_run_ends_at, lemma_tokens_from_lexed, symbol_token, tokenize, tokens_from,
};
use crate::parser::{
    chain_at, expect_at, expression_at, mismatch_message, parse_tokens, primary_at, remaining_len,
    Parsed,
};
use crate::token::{binary_operator, Token};

verus! {

/// The tokens of `full` in front of index `at`, closed by `End`.
pub open spec fn cut_at(full: Seq<Token>, at: nat) -> Seq<Token> {
    full.take(at as int).push(Token::End)
}

/// The error of a parenthesis that is still open where the input ends.
pub open spec fn open_at_end() -> SyntaxErrorView {
    SyntaxErrorView::parse(mismatch_message(Token::RightParen, Token::End))
}

/// How a production that succeeds on `full` fares on the input cut at `at`:
/// the same where it ends in front of `at`, and with the error of the open
/// parenthesis where it reaches beyond.
pub open spec fn fares_when_cut(whole: Parsed, cut: Parsed, pos: nat, at: nat) -> bool {
    whole.result is Ok ==> if pos + whole.consumed <= at {
        cut == whole
    } else {
        cut.result == Err::<Expression, SyntaxErrorView>(open_at_end())
    }
}

/// A primary expression on an input cut in front of a closing parenthesis.
pub proof fn lemma_primary_when_cut(full: Seq<Token>, at: nat, pos: nat)
    requires
        at < full.len(),
        full[at as int] == Token::RightParen,
        pos <= at,
    ensures
        fares_when_cut(primary_at(full, pos), primary_at(cut_at(full, at), pos), pos, at),
    decreases remaining_len(full, pos), 0nat,
{
    let ts = cut_at(full, at);
    if pos < at {
        assert(ts[pos as int] == full[pos as int]);
        match full[pos as int] {
            Token::LeftParen => {
                lemma_expression_when_cut(full, at, pos + 1);
                let inner = expression_at(full, pos + 1);
                let close = pos + 1 + inner.consumed;
                if inner.result is Ok && close < at {
                    assert(ts[close as int] == full[close as int]);
                }
            },
            Token::Dash => {
                lemma_primary_when_cut(full, at, pos + 1);
            },
            _ => {},
        }
    }
}

/// A chain on an input cut in front of a closing parenthesis.
pub proof fn lemma_chain_when_cut(full: Seq<Token>, at: nat, left: Expression, pos: nat)
    requires
        at < full.len(),
        full[at as int] == Token::RightParen,
        pos <= at,
    ensures
        fares_when_cut(chain_at(full, left, pos), chain_at(cut_at(full, at), left, pos), pos, at),
    decreases remaining_len(full, pos), 0nat,
{
    let ts = cut_at(full, at);
    if pos < at {
        assert(ts[pos as int] == full[pos as int]);
        if binary_operator(full[pos as int]) is Some {
            let op = binary_operator(full[pos as int])->0;
            lemma_primary_when_cut(full, at, pos + 1);
            let right = primary_at(full, pos + 1);
            if let Ok(r) = right.result {
                let next = pos + 1 + right.consumed;
                if next <= at {
                    let joined = Expression::Binary(op, Box::new(left), Box::new(r));
                    lemma_chain_when_cut(full, at, joined, next);
                }
            }
        }
    } else {
        assert(ts[pos as int] == Token::End);
    }
}

/// An expression on an input cut in front of a closing parenthesis.
pub proof fn lemma_expression_when_cut(full: Seq<Token>, at: nat, pos: nat)
    requires
        at < full.len(),
        full[at as int] == Token::RightParen,
        pos <= at,
    ensures
        fares_when_cut(expression_at(full, pos), expression_at(cut_at(full, at), pos), pos, at),
    decreases remaining_len(full, pos), 1nat,
{
    lemma_primary_when_cut(full, at, pos);
    let first = primary_at(full, pos);
    if let Ok(e) = first.result {
        let next = pos + first.consumed;
        if next <= at {
            lemma_chain_when_cut(full, at, e, next);
        }
    }
}

/// An input that parses, cut off in front of one of its closing parentheses,
/// is refused: the parser meets `End` where it requires `RightParen`.
pub proof fn lemma_cut_before_right_paren(full: Seq<Token>, at: nat)
    requires
        at < full.len(),
        full[at as int] == Token::RightParen,
        forall|k: int| 0 <= k < at ==> #[trigger] full[k] != Token::End,
        parse_tokens(full) is Ok,
    ensures
        parse_tokens(cut_at(full, at)) == Err::<Expression, SyntaxErrorView>(open_at_end()),
{
    lemma_expression_when_cut(full, at, 0);
    let whole = expression_at(full, 0);
    let end = whole.consumed;
    assert(expect_at(full, end, Token::End) is Ok);
    if end < at {
        assert(full[end as int] != Token::End);
    }
}

/// The tokens of an input that is cut off in front of a letter `f` are those
/// of the whole input, cut in front of the `RightParen` that the letter gives.
pub proof fn lemma_tokens_when_cut(s: Seq<char>, at: int, i: int)
    requires
        0 <= i <= at < s.len(),
        s[at] == 'f',
        tokens_from(s, i) is Ok,
    ensures
        tokens_from(s.take(at), i) matches Ok(front) && ({
            let ts = tokens_from(s, i)->Ok_0;
            let last = (front.len() - 1) as nat;
            &&& 0 < front.len() <= ts.len()
            &&& ts[last as int] == Token::RightParen
            &&& front == cut_at(ts, last)
        }),
    decreases at - i,
{
    let cut = s.take(at);
    if i < at {
        let c = s[i];
        assert(cut[i] == c);
        if is_whitespace(c) {
            lemma_tokens_when_cut(s, at, i + 1);
        } else if symbol_token(c) is Some {
            lemma_tokens_when_cut(s, at, i + 1);
            let more = tokens_from(s, i + 1)->Ok_0;
            let front = tokens_from(cut, i + 1)->Ok_0;
            lemma_cut_prepend(symbol_token(c)->0, more, front);
        } else {
            lemma_digit_run(s, i);
            let end = digit_run_end(s, i);
            assert(end <= at) by {
                if end > at {
                    assert(is_digit(s[at]));
                }
            }
            assert forall|k: int| i <= k < end implies is_digit(#[trigger] cut[k]) by {
                assert(cut[k] == s[k]);
            }
            if end < at {
                assert(cut[end] == s[end]);
            }
            lemma_digit_run_ends_at(cut, i, end);
            assert(cut.subrange(i, end) =~= s.subrange(i, end));
            lemma_tokens_when_cut(s, at, end);
            let value = digits_value(s.subrange(i, end));
            let more = tokens_from(s, end)->Ok_0;
            let front = tokens_from(cut, end)->Ok_0;
            lemma_cut_prepend(Token::Number(value as i64), more, front);
        }
    } else {
        let more = tokens_from(s, at + 1)->Ok_0;
        let ts = seq![Token::RightParen] + more;
        assert(cut_at(ts, 0) =~= seq![Token::End]);
    }
}

/// A token in front of a sequence and of its cut is in front of the cut of
/// both together.
proof fn lemma_cut_prepend(token: Token, more: Seq<Token>, front: Seq<Token>)
    requires
        0 < front.len() <= more.len(),
        more[front.len() - 1] == Token::RightParen,
        front == cut_at(more, (front.len() - 1) as nat),
    ensures
        ({
            let ts = seq![token] + more;
            let longer = seq![token] + front;
            &&& ts[longer.len() - 1] == Token::RightParen
            &&& longer == cut_at(ts, (longer.len() - 1) as nat)
        }),
{
    let ts = seq![token] + more;
    let longer = seq![token] + front;
    assert(ts[longer.len() - 1] == more[front.len() - 1]);
    assert(longer =~= cut_at(ts, (longer.len() - 1) as nat));
}

/// An input that is an expression, cut off in front of one of its closing
/// parentheses, has no value: the parser meets the end of the input where it
/// requires the parenthesis, and says so.
pub proof fn lemma_input_cut_before_closing(s: Seq<char>, at: int)
    requires
        0 <= at < s.len(),
        s[at] == 'f',
        tokenize(s) matches Ok(ts) && parse_tokens(ts) is Ok,
    ensures
        evaluate(s.take(at)) == Err::<i64, EvalErrorView>(EvalErrorView::Syntax(open_at_end())),
{
    lemma_tokens_when_cut(s, at, 0);
    lemma_tokens_from_lexed(s, 0);
    let ts = tokenize(s)->Ok_0;
    let front = tokenize(s.take(at))->Ok_0;
    lemma_cut_before_right_paren(ts, (front.len() - 1) as nat);
}

} // verus!
