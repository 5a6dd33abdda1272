//! The tokenizer: from a string of characters to a sequence of tokens.

use vstd::prelude::*;
use std::str::Chars;
use vstd::std_specs::iter::IteratorSpec;
use crate::error::{SyntaxError, SyntaxErrorView};
use crate::text::push_char;
use crate::token::Token;

verus! {

/// Whether a character is white space: one of the characters to which Unicode
/// gives the property `White_Space`.
pub open spec fn spec_is_whitespace(c: char) -> bool {
    ||| '\u{9}' <= c <= '\u{d}'
    ||| c == ' '
    ||| c == '\u{85}'
    ||| c == '\u{a0}'
    ||| c == '\u{1680}'
    ||| '\u{2000}' <= c <= '\u{200a}'
    ||| c == '\u{2028}'
    ||| c == '\u{2029}'
    ||| c == '\u{202f}'
    ||| c == '\u{205f}'
    ||| c == '\u{3000}'
}

/// Whether a character is one of the ten ASCII decimal digits.
pub open spec fn spec_is_digit(c: char) -> bool {
    '0' <= c <= '9'
}

/// The number that a decimal digit stands for.
pub open spec fn digit_value(c: char) -> nat
    recommends
        is_digit(c),
{
    (c as int - '0' as int) as nat
}

/// The token that a letter stands for: `a` to `f`, in this order, for
/// `+`, `-`, `*`, `/`, `(` and `)`.
pub open spec fn spec_symbol_token(c: char) -> Option<Token> {
    if c == 'a' {
        Some(Token::Plus)
    } else if c == 'b' {
        Some(Token::Dash)
    } else if c == 'c' {
        Some(Token::Star)
    } else if c == 'd' {
        Some(Token::Slash)
    } else if c == 'e' {
        Some(Token::LeftParen)
    } else if c == 'f' {
        Some(Token::RightParen)
    } else {
        None
    }
}

/// Tells whether a character is white space.
#[verifier::when_used_as_spec(spec_is_whitespace)]
pub fn is_whitespace(c: char) -> (b: bool)
    ensures
        b == spec_is_whitespace(c),
{
    (c >= '\u{9}' && c <= '\u{d}') || c == ' ' || c == '\u{85}' || c == '\u{a0}' || c == '\u{1680}'
        || (c >= '\u{2000}' && c <= '\u{200a}') || c == '\u{2028}' || c == '\u{2029}' || c
        == '\u{202f}' || c == '\u{205f}' || c == '\u{3000}'
}

/// Tells whether a character is a decimal digit.
#[verifier::when_used_as_spec(spec_is_digit)]
pub fn is_digit(c: char) -> (b: bool)
    ensures
        b == spec_is_digit(c),
{
    c >= '0' && c <= '9'
}

/// The token that a letter stands for, if it stands for one.
#[verifier::when_used_as_spec(spec_symbol_token)]
pub fn symbol_token(c: char) -> (t: Option<Token>)
    ensures
        t == spec_symbol_token(c),
{
    match c {
        'a' => Some(Token::Plus),
        'b' => Some(Token::Dash),
        'c' => Some(Token::Star),
        'd' => Some(Token::Slash),
        'e' => Some(Token::LeftParen),
        'f' => Some(Token::RightParen),
        _ => None,
    }
}

/// Whether a character may occur in an expression at all.
pub open spec fn is_recognized(c: char) -> bool {
    is_whitespace(c) || symbol_token(c) is Some || is_digit(c)
}

/// The number that a run of decimal digits writes in base ten.
pub open spec fn digits_value(digits: Seq<char>) -> nat
    decreases digits.len(),
{
    if digits.len() == 0 {
        0
    } else {
        digits_value(digits.drop_last()) * 10 + digit_value(digits.last())
    }
}

/// The index at which the run of digits that begins at `i` ends: the first
/// index from `i` on that holds no digit, or the length of `s`.
pub open spec fn digit_run_end(s: Seq<char>, i: int) -> int
    decreases s.len() - i,
{
    if 0 <= i < s.len() && is_digit(s[i]) {
        digit_run_end(s, i + 1)
    } else {
        i
    }
}

/// The message for a character that belongs to no token.
pub open spec fn unrecognized_message(c: char) -> Seq<char> {
    "Unrecognized character "@.push(c) + ". Skipping it."@
}

/// The message for a numeral whose value does not fit in an `i64`.
pub open spec fn number_too_large_message() -> Seq<char> {
    "Number too large"@
}

/// `tokens` in front of what the rest of the input gives, or the error that
/// the rest of the input gives.
pub open spec fn prepend_tokens(
    tokens: Seq<Token>,
    rest: Result<Seq<Token>, SyntaxErrorView>,
) -> Result<Seq<Token>, SyntaxErrorView> {
    match rest {
        Ok(more) => Ok(tokens + more),
        Err(e) => Err(e),
    }
}

/// The tokens of `s` from index `i` on, closed by `End`; or the first error
/// met from there, reading left to right.
pub open spec fn tokens_from(s: Seq<char>, i: int) -> Result<Seq<Token>, SyntaxErrorView>
    decreases s.len() - i,
    via tokens_from_terminates
{
    if i < 0 || i >= s.len() {
        Ok(seq![Token::End])
    } else if is_whitespace(s[i]) {
        tokens_from(s, i + 1)
    } else if symbol_token(s[i]) is Some {
        prepend_tokens(seq![symbol_token(s[i])->0], tokens_from(s, i + 1))
    } else if is_digit(s[i]) {
        let end = digit_run_end(s, i);
        let value = digits_value(s.subrange(i, end));
        if value > i64::MAX {
            Err(SyntaxErrorView::lexicon(number_too_large_message()))
        } else {
            prepend_tokens(seq![Token::Number(value as i64)], tokens_from(s, end))
        }
    } else {
        Err(SyntaxErrorView::lexicon(unrecognized_message(s[i])))
    }
}

#[via_fn]
proof fn tokens_from_terminates(s: Seq<char>, i: int) {
    if 0 <= i < s.len() {
        lemma_digit_run(s, i);
    }
}

/// A run of digits lies within the input, holds digits only, and cannot be
/// made longer.
pub proof fn lemma_digit_run(s: Seq<char>, i: int)
    requires
        0 <= i <= s.len(),
    ensures
        i <= digit_run_end(s, i) <= s.len(),
        i < s.len() && is_digit(s[i]) ==> i < digit_run_end(s, i),
        forall|k: int| i <= k < digit_run_end(s, i) ==> is_digit(#[trigger] s[k]),
        digit_run_end(s, i) < s.len() ==> !is_digit(s[digit_run_end(s, i)]),
    decreases s.len() - i,
{
    if i < s.len() && is_digit(s[i]) {
        lemma_digit_run(s, i + 1);
    }
}

/// A run of digits ends where the first character that is no digit stands.
pub proof fn lemma_digit_run_ends_at(s: Seq<char>, i: int, end: int)
    requires
        0 <= i <= end <= s.len(),
        forall|k: int| i <= k < end ==> is_digit(#[trigger] s[k]),
        end < s.len() ==> !is_digit(s[end]),
    ensures
        digit_run_end(s, i) == end,
    decreases end - i,
{
    if i < end {
        assert(is_digit(s[i]));
        lemma_digit_run_ends_at(s, i + 1, end);
    }
}

/// The tokens of a whole input.
pub open spec fn tokenize(s: Seq<char>) -> Result<Seq<Token>, SyntaxErrorView> {
    tokens_from(s, 0)
}

/// Whether a token sequence ends with `End` and holds it nowhere else, and
/// holds no negative number.
pub open spec fn is_lexed(ts: Seq<Token>) -> bool {
    &&& ts.len() > 0
    &&& ts.last() == Token::End
    &&& forall|k: int| 0 <= k < ts.len() - 1 ==> #[trigger] ts[k] != Token::End
    &&& forall|k: int| 0 <= k < ts.len() ==> (#[trigger] ts[k] matches Token::Number(n) ==> n >= 0)
}

/// Every token sequence that the tokenizer gives ends with the one `End` in
/// it, and its numbers are not negative.
pub proof fn lemma_tokens_from_lexed(s: Seq<char>, i: int)
    requires
        0 <= i <= s.len(),
    ensures
        tokens_from(s, i) matches Ok(ts) ==> is_lexed(ts),
    decreases s.len() - i,
{
    if i < s.len() {
        let c = s[i];
        if is_whitespace(c) {
            lemma_tokens_from_lexed(s, i + 1);
        } else if symbol_token(c) is Some {
            lemma_tokens_from_lexed(s, i + 1);
            if let Ok(more) = tokens_from(s, i + 1) {
                lemma_lexed_prepend(symbol_token(c)->0, more);
            }
        } else if is_digit(c) {
            lemma_digit_run(s, i);
            let end = digit_run_end(s, i);
            let value = digits_value(s.subrange(i, end));
            lemma_tokens_from_lexed(s, end);
            if value <= i64::MAX {
                if let Ok(more) = tokens_from(s, end) {
                    lemma_lexed_prepend(Token::Number(value as i64), more);
                }
            }
        }
    }
}

/// A token in front of a tokenizer's sequence leaves it one, unless the
/// token is `End` or a negative number.
proof fn lemma_lexed_prepend(token: Token, more: Seq<Token>)
    requires
        is_lexed(more),
        token != Token::End,
        token matches Token::Number(n) ==> n >= 0,
    ensures
        is_lexed(seq![token] + more),
{
    let ts = seq![token] + more;
    assert forall|k: int| 0 <= k < ts.len() - 1 implies #[trigger] ts[k] != Token::End by {
        if k > 0 {
            assert(ts[k] == more[k - 1]);
        }
    }
    assert forall|k: int| 0 <= k < ts.len() implies (#[trigger] ts[k] matches Token::Number(n)
        ==> n >= 0) by {
        if k > 0 {
            assert(ts[k] == more[k - 1]);
        }
    }
}

/// The mathematical content of a tokenizer result.
pub open spec fn lexed_view(r: Result<Vec<Token>, SyntaxError>) -> Result<
    Seq<Token>,
    SyntaxErrorView,
> {
    match r {
        Ok(tokens) => Ok(tokens@),
        Err(e) => Err(e@),
    }
}

/// The value of a run of digits does not shrink when the run is made longer.
pub proof fn lemma_digits_value_monotone(digits: Seq<char>, k: int)
    requires
        0 <= k <= digits.len(),
    ensures
        digits_value(digits.take(k)) <= digits_value(digits),
    decreases digits.len(),
{
    if k < digits.len() {
        lemma_digits_value_monotone(digits.drop_last(), k);
        assert(digits.drop_last().take(k) =~= digits.take(k));
    } else {
        assert(digits.take(k) =~= digits);
    }
}

/// The character at index `i`, if there is one.
spec fn char_at(s: Seq<char>, i: int) -> Option<char> {
    if 0 <= i < s.len() {
        Some(s[i])
    } else {
        None
    }
}

/// What is left of `s` once the character at index `i` has been taken.
spec fn rest_after(s: Seq<char>, i: int) -> Seq<char> {
    if i < s.len() {
        s.skip(i + 1)
    } else {
        s.skip(s.len() as int)
    }
}

/// Takes the next character from the iterator.
fn next_char(iter: &mut Chars<'_>, Ghost(s): Ghost<Seq<char>>, Ghost(i): Ghost<int>) -> (c: Option<
    char,
>)
    requires
        0 <= i <= s.len(),
        (*old(iter)).remaining() == s.skip(i),
    ensures
        c == char_at(s, i),
        (*final(iter)).remaining() == rest_after(s, i),
{
    let c = iter.next();
    proof {
        if i < s.len() {
            assert(s.skip(i).drop_first() =~= s.skip(i + 1));
        }
    }
    c
}

/// Splits an expression into its tokens.
///
/// White space separates tokens and gives none. The letters `a` to `f` give
/// one token each, and a run of decimal digits gives one number. Any other
/// character ends the scan with an error that names it, and so does a numeral
/// whose value exceeds `i64::MAX`. A sequence that is returned ends with
/// `End`, which occurs nowhere else in it.
pub fn lexicon(expression: String) -> (r: Result<Vec<Token>, SyntaxError>)
    ensures
        lexed_view(r) == tokenize(expression@),
        r matches Ok(tokens) ==> is_lexed(tokens@),
{
    let ghost s = expression@;
    proof {
        lemma_tokens_from_lexed(s, 0);
    }
    let text = expression.as_str();
    let mut iter = text.chars();
    let mut tokens: Vec<Token> = Vec::new();
    proof {
        vstd::string::axiom_spec_iter(text);
        assert(s.skip(0) =~= s);
    }
    let mut lookahead = next_char(&mut iter, Ghost(s), Ghost(0));
    let ghost mut i: int = 0;
    while lookahead.is_some()
        invariant
            s == expression@,
            0 <= i <= s.len(),
            lookahead == char_at(s, i),
            iter.remaining() == rest_after(s, i),
            tokenize(s) == prepend_tokens(tokens@, tokens_from(s, i)),
        decreases s.len() - i,
    {
        let ch = lookahead.unwrap();
        if is_whitespace(ch) {
            lookahead = next_char(&mut iter, Ghost(s), Ghost(i + 1));
            proof {
                i = i + 1;
            }
        } else if let Some(token) = symbol_token(ch) {
            proof {
                lemma_prepend_push(tokens@, token, tokens_from(s, i + 1));
            }
            tokens.push(token);
            lookahead = next_char(&mut iter, Ghost(s), Ghost(i + 1));
            proof {
                i = i + 1;
            }
        } else if is_digit(ch) {
            let ghost start = i;
            let mut value: i64 = (ch as u8 - '0' as u8) as i64;
            lookahead = next_char(&mut iter, Ghost(s), Ghost(i + 1));
            proof {
                i = i + 1;
                let first = s.subrange(start, i);
                assert(first.drop_last() =~= Seq::<char>::empty());
                assert(digits_value(first.drop_last()) == 0);
                assert(first.last() == ch);
                assert(digits_value(first) == digit_value(ch));
            }
            while lookahead.is_some() && is_digit(lookahead.unwrap())
                invariant
                    s == expression@,
                    0 <= start < i <= s.len(),
                    lookahead == char_at(s, i),
                    iter.remaining() == rest_after(s, i),
                    digit_run_end(s, start) == digit_run_end(s, i),
                    0 <= value == digits_value(s.subrange(start, i)),
                    !is_whitespace(s[start]),
                    symbol_token(s[start]) is None,
                    is_digit(s[start]),
                    tokenize(s) == prepend_tokens(tokens@, tokens_from(s, start)),
                decreases s.len() - i,
            {
                let digit: i64 = (lookahead.unwrap() as u8 - '0' as u8) as i64;
                proof {
                    assert(s.subrange(start, i + 1).drop_last() =~= s.subrange(start, i));
                    lemma_digit_run(s, i + 1);
                    lemma_digits_value_monotone(
                        s.subrange(start, digit_run_end(s, start)),
                        i + 1 - start,
                    );
                    assert(s.subrange(start, digit_run_end(s, start)).take(i + 1 - start)
                        =~= s.subrange(start, i + 1));
                }
                let scaled = match value.checked_mul(10) {
                    Some(v) => v,
                    None => {
                        return Err(number_too_large());
                    },
                };
                value = match scaled.checked_add(digit) {
                    Some(v) => v,
                    None => {
                        return Err(number_too_large());
                    },
                };
                lookahead = next_char(&mut iter, Ghost(s), Ghost(i + 1));
                proof {
                    i = i + 1;
                }
            }
            proof {
                lemma_prepend_push(tokens@, Token::Number(value), tokens_from(s, i));
            }
            tokens.push(Token::Number(value));
        } else {
            return Err(unrecognized(ch));
        }
    }
    proof {
        lemma_prepend_push(tokens@, Token::End, Ok(Seq::<Token>::empty()));
        assert(seq![Token::End] + Seq::<Token>::empty() =~= seq![Token::End]);
    }
    tokens.push(Token::End);
    Ok(tokens)
}

/// Putting a token at the end of what was read, or in front of what follows,
/// gives the same sequence.
proof fn lemma_prepend_push(
    tokens: Seq<Token>,
    token: Token,
    rest: Result<Seq<Token>, SyntaxErrorView>,
)
    ensures
        prepend_tokens(tokens, prepend_tokens(seq![token], rest)) == prepend_tokens(
            tokens.push(token),
            rest,
        ),
{
    if let Ok(more) = rest {
        assert(tokens + (seq![token] + more) =~= tokens.push(token) + more);
    }
}

/// The error for a character that belongs to no token.
fn unrecognized(c: char) -> (e: SyntaxError)
    ensures
        e@ == SyntaxErrorView::lexicon(unrecognized_message(c)),
{
    let mut message = "Unrecognized character ".to_owned();
    push_char(&mut message, c);
    message.append(". Skipping it.");
    SyntaxError::new_lex_error(message)
}

/// The error for a numeral that does not fit in an `i64`.
fn number_too_large() -> (e: SyntaxError)
    ensures
        e@ == SyntaxErrorView::lexicon(number_too_large_message()),
{
    SyntaxError::new_lex_error("Number too large".to_owned())
}

} // verus!
