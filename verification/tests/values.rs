use expr_eval::text::{push_decimal, push_int};
use expr_eval::{
    eval_expr, ArithmeticError, ErrorLevel, EvalError, Expression, Operator, SyntaxError, Token,
};

fn number(n: i64) -> Box<Expression> {
    Box::new(Expression::Number(n))
}

fn binary(op: Operator, a: i64, b: i64) -> Expression {
    Expression::Binary(op, number(a), number(b))
}

#[test]
fn operator_tokens_convert() {
    assert_eq!(Operator::try_from(Token::Plus), Ok(Operator::Add));
    assert_eq!(Operator::try_from(Token::Dash), Ok(Operator::Subtract));
    assert_eq!(Operator::try_from(Token::Star), Ok(Operator::Multiply));
    assert_eq!(Operator::try_from(Token::Slash), Ok(Operator::Divide));
}

#[test]
fn other_tokens_do_not_convert() {
    for token in [Token::LeftParen, Token::RightParen, Token::Number(1), Token::End] {
        assert_eq!(Operator::try_from(token), Err("Wrong operator"));
    }
}

#[test]
fn tokens_describe_themselves() {
    assert_eq!(Token::Plus.describe(), "Plus");
    assert_eq!(Token::Dash.describe(), "Dash");
    assert_eq!(Token::Star.describe(), "Star");
    assert_eq!(Token::Slash.describe(), "Slash");
    assert_eq!(Token::LeftParen.describe(), "LeftParen");
    assert_eq!(Token::RightParen.describe(), "RightParen");
    assert_eq!(Token::End.describe(), "End");
    assert_eq!(Token::Number(0).describe(), "Number(0)");
    assert_eq!(Token::Number(42).describe(), "Number(42)");
    assert_eq!(Token::Number(-5).describe(), "Number(-5)");
    assert_eq!(Token::Number(i64::MAX).describe(), "Number(9223372036854775807)");
    assert_eq!(Token::Number(i64::MIN).describe(), "Number(-9223372036854775808)");
}

#[test]
fn descriptions_are_the_debug_names() {
    for token in [
        Token::Plus,
        Token::Dash,
        Token::Star,
        Token::Slash,
        Token::LeftParen,
        Token::RightParen,
        Token::End,
        Token::Number(0),
        Token::Number(1234567890),
        Token::Number(-1),
        Token::Number(i64::MIN),
    ] {
        assert_eq!(token.describe(), format!("{:?}", token));
    }
}

#[test]
fn push_text_appends() {
    let mut s = String::from("got ");
    Token::Number(10).push_text(&mut s);
    s.push(' ');
    Token::End.push_text(&mut s);
    assert_eq!(s, "got Number(10) End");
}

#[test]
fn decimal_numerals() {
    for n in [0u64, 1, 9, 10, 11, 99, 100, 101, 12345, 1000000, u64::MAX] {
        let mut s = String::from("n=");
        push_decimal(&mut s, n);
        assert_eq!(s, format!("n={}", n));
    }
}

#[test]
fn signed_numerals() {
    for n in [0i64, 1, -1, 10, -10, 907, -907, i64::MAX, i64::MIN, i64::MIN + 1] {
        let mut s = String::new();
        push_int(&mut s, n);
        assert_eq!(s, format!("{}", n));
    }
}

#[test]
fn errors_carry_message_and_level() {
    let e = SyntaxError::new_lex_error("bad letter".to_string());
    assert_eq!(e.message(), "bad letter");
    assert_eq!(e.level(), ErrorLevel::Lexicon);
    assert_eq!(e.to_string(), "Lexicon Error bad letter");

    let e = SyntaxError::new_parse_error("bad order".to_string());
    assert_eq!(e.message(), "bad order");
    assert_eq!(e.level(), ErrorLevel::Parse);
    assert_eq!(e.to_string(), "Parse Error bad order");

    let e = SyntaxError::new_parse_error(String::new());
    assert_eq!(e.to_string(), "Parse Error ");
}

#[test]
fn a_number_evaluates_to_itself() {
    for n in [0, 1, -1, i64::MAX, i64::MIN] {
        assert_eq!(Expression::Number(n).eval(), Ok(n));
    }
}

#[test]
fn negation_changes_the_sign() {
    assert_eq!(Expression::Unary(Operator::Negative, number(5)).eval(), Ok(-5));
    assert_eq!(Expression::Unary(Operator::Negative, number(-5)).eval(), Ok(5));
    assert_eq!(Expression::Unary(Operator::Negative, number(0)).eval(), Ok(0));
    assert_eq!(Expression::Unary(Operator::Negative, number(i64::MAX)).eval(), Ok(i64::MIN + 1));
    assert_eq!(
        Expression::Unary(Operator::Negative, number(i64::MIN)).eval(),
        Err(ArithmeticError::Overflow)
    );
}

#[test]
fn double_negation_gives_the_value_back() {
    for n in [0, 5, -5, i64::MAX, i64::MIN + 1] {
        let twice = Expression::Unary(
            Operator::Negative,
            Box::new(Expression::Unary(Operator::Negative, number(n))),
        );
        assert_eq!(twice.eval(), Ok(n));
    }
}

#[test]
fn the_four_operations() {
    assert_eq!(binary(Operator::Add, 3, 4).eval(), Ok(7));
    assert_eq!(binary(Operator::Subtract, 3, 4).eval(), Ok(-1));
    assert_eq!(binary(Operator::Multiply, 3, 4).eval(), Ok(12));
    assert_eq!(binary(Operator::Divide, 12, 4).eval(), Ok(3));
    assert_eq!(binary(Operator::Add, i64::MAX, i64::MIN).eval(), Ok(-1));
    assert_eq!(binary(Operator::Subtract, i64::MIN, -1).eval(), Ok(i64::MIN + 1));
    assert_eq!(binary(Operator::Multiply, i64::MIN, 1).eval(), Ok(i64::MIN));
    assert_eq!(binary(Operator::Multiply, -3, -4).eval(), Ok(12));
}

#[test]
fn quotients_round_towards_zero() {
    assert_eq!(binary(Operator::Divide, 7, 2).eval(), Ok(3));
    assert_eq!(binary(Operator::Divide, -7, 2).eval(), Ok(-3));
    assert_eq!(binary(Operator::Divide, 7, -2).eval(), Ok(-3));
    assert_eq!(binary(Operator::Divide, -7, -2).eval(), Ok(3));
    assert_eq!(binary(Operator::Divide, 1, 2).eval(), Ok(0));
    assert_eq!(binary(Operator::Divide, -1, 2).eval(), Ok(0));
    assert_eq!(binary(Operator::Divide, 0, -3).eval(), Ok(0));
    assert_eq!(binary(Operator::Divide, i64::MIN, 1).eval(), Ok(i64::MIN));
    assert_eq!(binary(Operator::Divide, i64::MIN, 2).eval(), Ok(i64::MIN / 2));
    assert_eq!(binary(Operator::Divide, i64::MAX, -1).eval(), Ok(-i64::MAX));
    assert_eq!(binary(Operator::Divide, i64::MIN, i64::MAX).eval(), Ok(-1));
    assert_eq!(binary(Operator::Divide, i64::MAX, i64::MIN).eval(), Ok(0));
}

#[test]
fn division_by_zero() {
    assert_eq!(binary(Operator::Divide, 1, 0).eval(), Err(ArithmeticError::DivisionByZero));
    assert_eq!(binary(Operator::Divide, 0, 0).eval(), Err(ArithmeticError::DivisionByZero));
    assert_eq!(binary(Operator::Divide, i64::MIN, 0).eval(), Err(ArithmeticError::DivisionByZero));
}

#[test]
fn results_out_of_range() {
    assert_eq!(binary(Operator::Add, i64::MAX, 1).eval(), Err(ArithmeticError::Overflow));
    assert_eq!(binary(Operator::Add, i64::MIN, -1).eval(), Err(ArithmeticError::Overflow));
    assert_eq!(binary(Operator::Subtract, i64::MIN, 1).eval(), Err(ArithmeticError::Overflow));
    assert_eq!(binary(Operator::Subtract, 0, i64::MIN).eval(), Err(ArithmeticError::Overflow));
    assert_eq!(binary(Operator::Multiply, i64::MAX, 2).eval(), Err(ArithmeticError::Overflow));
    assert_eq!(binary(Operator::Multiply, i64::MIN, -1).eval(), Err(ArithmeticError::Overflow));
    assert_eq!(binary(Operator::Divide, i64::MIN, -1).eval(), Err(ArithmeticError::Overflow));
}

#[test]
fn failures_of_operands_pass_upwards() {
    let bad = Expression::Binary(Operator::Divide, number(1), number(0));
    let around = Expression::Binary(Operator::Add, number(1), Box::new(bad));
    assert_eq!(around.eval(), Err(ArithmeticError::DivisionByZero));
    let bad = Expression::Binary(Operator::Add, number(i64::MAX), number(1));
    let around = Expression::Unary(Operator::Negative, Box::new(bad));
    assert_eq!(around.eval(), Err(ArithmeticError::Overflow));
}

#[test]
fn nested_trees_evaluate_inside_out() {
    // ((3 * 4) / 2 + ((2 + 4 * 41) * 4)) is 990 when chained from the left
    let product = Expression::Binary(Operator::Multiply, number(3), number(4));
    let half = Expression::Binary(Operator::Divide, Box::new(product), number(2));
    let sum = Expression::Binary(Operator::Add, number(2), number(4));
    let scaled = Expression::Binary(Operator::Multiply, Box::new(sum), number(41));
    let group = Expression::Binary(Operator::Multiply, Box::new(scaled), number(4));
    let total = Expression::Binary(Operator::Add, Box::new(half), Box::new(group));
    assert_eq!(total.eval(), Ok(990));
}

#[test]
fn evaluation_errors_render_as_one_line() {
    assert_eq!(
        EvalError::Arithmetic(ArithmeticError::DivisionByZero).to_string(),
        "Arithmetic Error Division by zero"
    );
    assert_eq!(
        EvalError::Arithmetic(ArithmeticError::Overflow).to_string(),
        "Arithmetic Error Result out of range"
    );
    assert_eq!(
        EvalError::Syntax(SyntaxError::new_parse_error("Unexpected token End".to_string()))
            .to_string(),
        "Parse Error Unexpected token End"
    );
    assert_eq!(
        eval_expr("2d0".to_string()).unwrap_err().to_string(),
        "Arithmetic Error Division by zero"
    );
    assert_eq!(
        eval_expr("2 $".to_string()).unwrap_err().to_string(),
        "Lexicon Error Unrecognized character $. Skipping it."
    );
    assert_eq!(
        eval_expr("e2".to_string()).unwrap_err().to_string(),
        "Parse Error Expected RightParen but actual End"
    );
}
