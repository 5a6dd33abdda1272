use expr_eval::{lexicon, ErrorLevel, Expression, Operator, Parser, Token};

fn number(n: i64) -> Box<Expression> {
    Box::new(Expression::Number(n))
}

#[test]
fn new_parser_stands_at_the_start() {
    let tokens = vec![Token::Number(1), Token::End];
    let parser = Parser::new(&tokens);
    assert_eq!(parser.consumed(), 0);
}

#[test]
fn assert_next_takes_the_expected_token() {
    let tokens = vec![Token::RightParen, Token::End];
    let mut parser = Parser::new(&tokens);
    assert!(parser.assert_next(Token::RightParen).is_ok());
    assert_eq!(parser.consumed(), 1);
    assert!(parser.assert_next(Token::End).is_ok());
    assert_eq!(parser.consumed(), 2);
}

#[test]
fn assert_next_refuses_another_token_and_takes_it() {
    let tokens = vec![Token::Number(4), Token::End];
    let mut parser = Parser::new(&tokens);
    let e = parser.assert_next(Token::RightParen).unwrap_err();
    assert_eq!(e.level(), ErrorLevel::Parse);
    assert_eq!(e.message(), "Expected RightParen but actual Number(4)");
    assert_eq!(parser.consumed(), 1);
    let e = parser.assert_next(Token::Plus).unwrap_err();
    assert_eq!(e.message(), "Expected Plus but actual End");
    assert_eq!(parser.consumed(), 2);
}

#[test]
fn assert_next_compares_the_values_of_numbers() {
    let tokens = vec![Token::Number(4), Token::Number(5)];
    let mut parser = Parser::new(&tokens);
    assert!(parser.assert_next(Token::Number(4)).is_ok());
    let e = parser.assert_next(Token::Number(4)).unwrap_err();
    assert_eq!(e.message(), "Expected Number(4) but actual Number(5)");
}

#[test]
fn assert_next_fails_at_the_end_of_the_tokens() {
    let tokens: Vec<Token> = Vec::new();
    let mut parser = Parser::new(&tokens);
    let e = parser.assert_next(Token::End).unwrap_err();
    assert_eq!(e.level(), ErrorLevel::Parse);
    assert_eq!(e.message(), "End of input unexpected");
    assert_eq!(e.to_string(), "Parse Error End of input unexpected");
    assert_eq!(parser.consumed(), 0);

    let tokens = vec![Token::End];
    let mut parser = Parser::new(&tokens);
    assert!(parser.assert_next(Token::End).is_ok());
    let e = parser.assert_next(Token::End).unwrap_err();
    assert_eq!(e.message(), "End of input unexpected");
    assert_eq!(parser.consumed(), 1);
}

#[test]
fn primary_expression_reads_a_number() {
    let tokens = vec![Token::Number(7), Token::Plus, Token::Number(1), Token::End];
    let mut parser = Parser::new(&tokens);
    assert_eq!(parser.primary_expression().unwrap(), Expression::Number(7));
    assert_eq!(parser.consumed(), 1);
}

#[test]
fn primary_expression_reads_a_group() {
    // ( 2 + 3 ) * 4
    let tokens = lexicon("e2a3fc4".to_string()).unwrap();
    let mut parser = Parser::new(&tokens);
    assert_eq!(
        parser.primary_expression().unwrap(),
        Expression::Binary(Operator::Add, number(2), number(3))
    );
    assert_eq!(parser.consumed(), 5);
}

#[test]
fn primary_expression_reads_nested_negations() {
    let tokens = vec![Token::Dash, Token::Dash, Token::Number(5), Token::End];
    let mut parser = Parser::new(&tokens);
    assert_eq!(
        parser.primary_expression().unwrap(),
        Expression::Unary(
            Operator::Negative,
            Box::new(Expression::Unary(Operator::Negative, number(5)))
        )
    );
    assert_eq!(parser.consumed(), 3);
}

#[test]
fn primary_expression_refuses_other_tokens() {
    for (token, message) in [
        (Token::Plus, "Unexpected token Plus"),
        (Token::Star, "Unexpected token Star"),
        (Token::Slash, "Unexpected token Slash"),
        (Token::RightParen, "Unexpected token RightParen"),
        (Token::End, "Unexpected token End"),
    ] {
        let tokens = vec![token, Token::End];
        let mut parser = Parser::new(&tokens);
        let e = parser.primary_expression().unwrap_err();
        assert_eq!(e.level(), ErrorLevel::Parse);
        assert_eq!(e.message(), message);
        assert_eq!(parser.consumed(), 1);
    }
}

#[test]
fn expression_chains_to_the_left() {
    // 3 * 4 + 2
    let tokens = lexicon("3c4a2".to_string()).unwrap();
    let mut parser = Parser::new(&tokens);
    assert_eq!(
        parser.expression().unwrap(),
        Expression::Binary(
            Operator::Add,
            Box::new(Expression::Binary(Operator::Multiply, number(3), number(4))),
            number(2)
        )
    );
    // `End` is looked at and left in place
    assert_eq!(parser.consumed(), 5);
    assert!(parser.assert_next(Token::End).is_ok());
}

#[test]
fn expression_has_no_precedence() {
    // 3 + 2 * 4 - 1 / 5
    let tokens = lexicon("3a2c4b1d5".to_string()).unwrap();
    let mut parser = Parser::new(&tokens);
    let sum = Expression::Binary(Operator::Add, number(3), number(2));
    let product = Expression::Binary(Operator::Multiply, Box::new(sum), number(4));
    let difference = Expression::Binary(Operator::Subtract, Box::new(product), number(1));
    let quotient = Expression::Binary(Operator::Divide, Box::new(difference), number(5));
    assert_eq!(parser.expression().unwrap(), quotient);
}

#[test]
fn expression_stops_before_a_token_that_is_no_operator() {
    let tokens = vec![Token::Number(1), Token::RightParen, Token::Number(2), Token::End];
    let mut parser = Parser::new(&tokens);
    assert_eq!(parser.expression().unwrap(), Expression::Number(1));
    assert_eq!(parser.consumed(), 1);
}

#[test]
fn minus_is_negation_in_front_and_subtraction_behind() {
    // - 3 - - 2
    let tokens = lexicon("b3bb2".to_string()).unwrap();
    let mut parser = Parser::new(&tokens);
    assert_eq!(
        parser.parse().unwrap(),
        Expression::Binary(
            Operator::Subtract,
            Box::new(Expression::Unary(Operator::Negative, number(3))),
            Box::new(Expression::Unary(Operator::Negative, number(2)))
        )
    );
}

#[test]
fn parse_takes_the_whole_input() {
    let tokens = lexicon("3ae4c66fb32".to_string()).unwrap();
    let mut parser = Parser::new(&tokens);
    let group = Expression::Binary(Operator::Multiply, number(4), number(66));
    let sum = Expression::Binary(Operator::Add, number(3), Box::new(group));
    assert_eq!(
        parser.parse().unwrap(),
        Expression::Binary(Operator::Subtract, Box::new(sum), number(32))
    );
    assert_eq!(parser.consumed(), tokens.len());
}

#[test]
fn parse_refuses_tokens_behind_the_expression() {
    for (input, message) in [
        ("1 2", "Expected End but actual Number(2)"),
        ("1f", "Expected End but actual RightParen"),
        ("e1fe2f", "Expected End but actual LeftParen"),
    ] {
        let tokens = lexicon(input.to_string()).unwrap();
        let mut parser = Parser::new(&tokens);
        let e = parser.parse().unwrap_err();
        assert_eq!(e.level(), ErrorLevel::Parse);
        assert_eq!(e.message(), message);
    }
}

#[test]
fn parse_refuses_an_operator_without_operand() {
    for (input, message, taken) in [
        ("3a", "Unexpected token End", 3),
        ("3ac4", "Unexpected token Star", 3),
        ("a3", "Unexpected token Plus", 1),
        ("ef", "Unexpected token RightParen", 2),
        ("b", "Unexpected token End", 2),
    ] {
        let tokens = lexicon(input.to_string()).unwrap();
        let mut parser = Parser::new(&tokens);
        let e = parser.parse().unwrap_err();
        assert_eq!(e.level(), ErrorLevel::Parse);
        assert_eq!(e.message(), message);
        assert_eq!(parser.consumed(), taken);
    }
}

#[test]
fn parse_refuses_an_open_group() {
    let tokens = lexicon("e3".to_string()).unwrap();
    let mut parser = Parser::new(&tokens);
    let e = parser.parse().unwrap_err();
    assert_eq!(e.level(), ErrorLevel::Parse);
    assert_eq!(e.message(), "Expected RightParen but actual End");
    assert_eq!(parser.consumed(), 3);

    let tokens = lexicon("e3 4f".to_string()).unwrap();
    let mut parser = Parser::new(&tokens);
    let e = parser.parse().unwrap_err();
    assert_eq!(e.message(), "Expected RightParen but actual Number(4)");
}

#[test]
fn parse_stops_at_the_first_end() {
    let tokens = vec![Token::Number(1), Token::End, Token::Plus, Token::End];
    let mut parser = Parser::new(&tokens);
    assert_eq!(parser.parse().unwrap(), Expression::Number(1));
    assert_eq!(parser.consumed(), 2);
}

#[test]
fn parse_keeps_the_sign_of_a_number_token() {
    let tokens = vec![Token::Number(-5), Token::End];
    let mut parser = Parser::new(&tokens);
    assert_eq!(parser.parse().unwrap(), Expression::Number(-5));
}

#[test]
fn written_trees_parse_back() {
    // a tree with a group on the right and a negated group
    let right = Expression::Binary(Operator::Divide, number(8), number(2));
    let negated = Expression::Unary(
        Operator::Negative,
        Box::new(Expression::Binary(Operator::Add, number(1), number(2))),
    );
    let tree = Expression::Binary(Operator::Subtract, Box::new(negated), Box::new(right));
    // - ( 1 + 2 ) - ( 8 / 2 )
    let tokens = vec![
        Token::Dash,
        Token::LeftParen,
        Token::Number(1),
        Token::Plus,
        Token::Number(2),
        Token::RightParen,
        Token::Dash,
        Token::LeftParen,
        Token::Number(8),
        Token::Slash,
        Token::Number(2),
        Token::RightParen,
        Token::End,
    ];
    let mut parser = Parser::new(&tokens);
    assert_eq!(parser.parse().unwrap(), tree);
}
