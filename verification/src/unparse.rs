//! The tokens that write a syntax tree, and the parser as their inverse.

use vstd::prelude::*;
use crate::error::SyntaxErrorView;
use crate::expression::{in_range, Expression};
use crate::parser::{chain_at, expression_at, parse_tokens, primary_at};
use crate::token::{binary_operator, Operator, Token};

verus! {

/// The token that writes an operator.
pub open spec fn operator_token(op: Operator) -> Token {
    match op {
        Operator::Add => Token::Plus,
        Operator::Subtract => Token::Dash,
        Operator::Multiply => Token::Star,
        Operator::Divide => Token::Slash,
        Operator::Negative => Token::Dash,
    }
}

/// The tokens `ts` of the tree `e` as an operand: in parentheses where `e` is
/// a binary operation, as they are where it is not.
pub open spec fn operand_tokens(e: Expression, ts: Seq<Token>) -> Seq<Token> {
    if e is Binary {
        seq![Token::LeftParen] + ts + seq![Token::RightParen]
    } else {
        ts
    }
}

/// The tokens that write a tree, with no parentheses but those that the
/// grammar needs: around a binary operation that is negated or that stands
/// to the right of an operator.
pub open spec fn tokens_of(e: Expression) -> Seq<Token>
    decreases e,
{
    match e {
        Expression::Number(n) => seq![Token::Number(n)],
        Expression::Unary(_, operand) => seq![Token::Dash] + operand_tokens(
            *operand,
            tokens_of(*operand),
        ),
        Expression::Binary(op, left, right) => tokens_of(*left) + seq![operator_token(op)]
            + operand_tokens(*right, tokens_of(*right)),
    }
}

/// Whether the tokens `part` stand in `ts` from index `pos` on.
pub open spec fn occurs_at(ts: Seq<Token>, pos: nat, part: Seq<Token>) -> bool {
    &&& pos + part.len() <= ts.len()
    &&& forall|k: int| 0 <= k < part.len() ==> ts[pos + k] == #[trigger] part[k]
}

/// Where two sequences in a row stand, each of them stands.
proof fn lemma_occurs_split(ts: Seq<Token>, pos: nat, a: Seq<Token>, b: Seq<Token>)
    requires
        occurs_at(ts, pos, a + b),
    ensures
        occurs_at(ts, pos, a),
        occurs_at(ts, pos + a.len(), b),
{
    assert forall|k: int| 0 <= k < a.len() implies ts[pos + k] == #[trigger] a[k] by {
        assert((a + b)[k] == a[k]);
    }
    assert forall|k: int| 0 <= k < b.len() implies ts[pos + a.len() + k] == #[trigger] b[k] by {
        assert((a + b)[a.len() + k] == b[k]);
    }
}

/// Where the tokens of a tree stand, an expression is read up to their end
/// and goes on as the chain that continues the tree from there.
pub proof fn lemma_expression_reads_tokens(ts: Seq<Token>, pos: nat, e: Expression)
    requires
        e.well_formed(),
        occurs_at(ts, pos, tokens_of(e)),
    ensures
        expression_at(ts, pos).result == chain_at(ts, e, pos + tokens_of(e).len()).result,
        expression_at(ts, pos).consumed == tokens_of(e).len() + chain_at(
            ts,
            e,
            pos + tokens_of(e).len(),
        ).consumed,
    decreases e, 0nat,
{
    match e {
        Expression::Number(n) => {
            assert(ts[pos as int] == tokens_of(e)[0]);
        },
        Expression::Unary(op, operand) => {
            let rest = operand_tokens(*operand, tokens_of(*operand));
            lemma_occurs_split(ts, pos, seq![Token::Dash], rest);
            assert(ts[pos as int] == seq![Token::Dash][0]);
            lemma_primary_reads_tokens(ts, pos + 1, *operand);
        },
        Expression::Binary(op, left, right) => {
            let first = tokens_of(*left);
            let sign = seq![operator_token(op)];
            let last = operand_tokens(*right, tokens_of(*right));
            lemma_occurs_split(ts, pos, first + sign, last);
            lemma_occurs_split(ts, pos, first, sign);
            let at = pos + first.len();
            assert(ts[at as int] == sign[0]);
            lemma_expression_reads_tokens(ts, pos, *left);
            lemma_primary_reads_tokens(ts, at + 1, *right);
            assert(binary_operator(operator_token(op)) == Some(op));
        },
    }
}

/// Where the tokens of a tree stand as an operand, a primary expression reads
/// them all and gives the tree.
pub proof fn lemma_primary_reads_tokens(ts: Seq<Token>, pos: nat, e: Expression)
    requires
        e.well_formed(),
        occurs_at(ts, pos, operand_tokens(e, tokens_of(e))),
    ensures
        primary_at(ts, pos).result == Ok::<Expression, SyntaxErrorView>(e),
        primary_at(ts, pos).consumed == operand_tokens(e, tokens_of(e)).len(),
    decreases e, 1nat,
{
    match e {
        Expression::Number(n) => {
            assert(ts[pos as int] == tokens_of(e)[0]);
        },
        Expression::Unary(op, operand) => {
            let rest = operand_tokens(*operand, tokens_of(*operand));
            lemma_occurs_split(ts, pos, seq![Token::Dash], rest);
            assert(ts[pos as int] == seq![Token::Dash][0]);
            lemma_primary_reads_tokens(ts, pos + 1, *operand);
        },
        Expression::Binary(op, left, right) => {
            let inner = tokens_of(e);
            lemma_occurs_split(ts, pos, seq![Token::LeftParen] + inner, seq![Token::RightParen]);
            lemma_occurs_split(ts, pos, seq![Token::LeftParen], inner);
            assert(ts[pos as int] == seq![Token::LeftParen][0]);
            let close = pos + 1 + inner.len();
            assert(ts[close as int] == seq![Token::RightParen][0]);
            lemma_expression_reads_tokens(ts, pos + 1, e);
        },
    }
}

/// Parsing undoes writing: the tokens of a well-formed tree, closed by `End`,
/// parse to that tree.
pub proof fn lemma_parse_tokens_of(e: Expression)
    requires
        e.well_formed(),
    ensures
        parse_tokens(tokens_of(e).push(Token::End)) == Ok::<Expression, SyntaxErrorView>(e),
{
    let ts = tokens_of(e).push(Token::End);
    assert(occurs_at(ts, 0, tokens_of(e)));
    lemma_expression_reads_tokens(ts, 0, e);
}

/// Operators chain from the left whatever they are: of two operators in a
/// row of three operands, the first joins the first two operands, and the
/// second joins that with the third.
pub proof fn lemma_operators_chain_left(
    a: Expression,
    first_op: Operator,
    b: Expression,
    second_op: Operator,
    c: Expression,
)
    requires
        a.well_formed(),
        b.well_formed(),
        c.well_formed(),
        first_op != Operator::Negative,
        second_op != Operator::Negative,
    ensures
        parse_tokens(
            (tokens_of(a) + seq![operator_token(first_op)] + operand_tokens(b, tokens_of(b))
                + seq![operator_token(second_op)] + operand_tokens(c, tokens_of(c))).push(Token::End),
        ) == Ok::<Expression, SyntaxErrorView>(
            Expression::Binary(
                second_op,
                Box::new(Expression::Binary(first_op, Box::new(a), Box::new(b))),
                Box::new(c),
            ),
        ),
{
    let first = Expression::Binary(first_op, Box::new(a), Box::new(b));
    let whole = Expression::Binary(second_op, Box::new(first), Box::new(c));
    assert(first.well_formed());
    assert(whole.well_formed());
    assert(tokens_of(first) == tokens_of(a) + seq![operator_token(first_op)] + operand_tokens(
        b,
        tokens_of(b),
    ));
    lemma_parse_tokens_of(whole);
}

/// Parentheses around a whole expression change nothing: the tree is that of
/// the expression.
pub proof fn lemma_group_parses(e: Expression)
    requires
        e.well_formed(),
    ensures
        parse_tokens(
            (seq![Token::LeftParen] + tokens_of(e) + seq![Token::RightParen]).push(Token::End),
        ) == Ok::<Expression, SyntaxErrorView>(e),
{
    let ts = (seq![Token::LeftParen] + tokens_of(e) + seq![Token::RightParen]).push(Token::End);
    assert(occurs_at(ts, 1, tokens_of(e)));
    lemma_expression_reads_tokens(ts, 1, e);
}

/// An expression in parentheses is one operand of the operator behind it:
/// `( l ) op r` joins all of `l` with `r`.
pub proof fn lemma_group_is_operand(l: Expression, op: Operator, r: Expression)
    requires
        l.well_formed(),
        r.well_formed(),
        op != Operator::Negative,
    ensures
        parse_tokens(
            (seq![Token::LeftParen] + tokens_of(l) + seq![Token::RightParen, operator_token(op)]
                + operand_tokens(r, tokens_of(r))).push(Token::End),
        ) == Ok::<Expression, SyntaxErrorView>(Expression::Binary(op, Box::new(l), Box::new(r))),
{
    let right = operand_tokens(r, tokens_of(r));
    let ts = (seq![Token::LeftParen] + tokens_of(l) + seq![Token::RightParen, operator_token(op)]
        + right).push(Token::End);
    let n = tokens_of(l).len() as int;
    assert(occurs_at(ts, 1, tokens_of(l)));
    lemma_expression_reads_tokens(ts, 1, l);
    assert(ts[n + 1] == Token::RightParen);
    assert(ts[n + 2] == operator_token(op));
    assert(occurs_at(ts, (n + 3) as nat, right)) by {
        assert forall|k: int| 0 <= k < right.len() implies ts[n + 3 + k] == #[trigger] right[k] by {}
    }
    lemma_primary_reads_tokens(ts, (n + 3) as nat, r);
    assert(binary_operator(operator_token(op)) == Some(op));
    assert(ts[n + 3 + right.len()] == Token::End);
    assert(ts[0] == Token::LeftParen);
    assert(primary_at(ts, 0).result == Ok::<Expression, SyntaxErrorView>(l));
    assert(primary_at(ts, 0).consumed == n + 2);
    let joined = Expression::Binary(op, Box::new(l), Box::new(r));
    let end = (n + 3 + right.len()) as nat;
    assert(chain_at(ts, joined, end).result == Ok::<Expression, SyntaxErrorView>(joined));
    assert(chain_at(ts, l, (n + 2) as nat).result == Ok::<Expression, SyntaxErrorView>(joined));
}

/// Negating twice gives the value back, unless the value is the one whose
/// negative does not fit.
pub proof fn lemma_double_negation(e: Expression)
    requires
        e.value() matches Ok(v) && v != i64::MIN,
    ensures
        Expression::Unary(
            Operator::Negative,
            Box::new(Expression::Unary(Operator::Negative, Box::new(e))),
        ).value() == e.value(),
{
    let once = Expression::Unary(Operator::Negative, Box::new(e));
    assert(once.value() == in_range(-(e.value()->Ok_0)));
}

} // verus!
