use expr_eval::lexer::{is_digit, is_whitespace, symbol_token};
use expr_eval::{lexicon, ErrorLevel, Token};

#[test]
fn empty_input_gives_end_alone() {
    assert_eq!(lexicon(String::new()).unwrap(), vec![Token::End]);
    assert_eq!(lexicon("   ".to_string()).unwrap(), vec![Token::End]);
}

#[test]
fn each_letter_gives_its_token() {
    assert_eq!(
        lexicon("abcdef".to_string()).unwrap(),
        vec![
            Token::Plus,
            Token::Dash,
            Token::Star,
            Token::Slash,
            Token::LeftParen,
            Token::RightParen,
            Token::End
        ]
    );
}

#[test]
fn digits_alone_give_one_number_and_end() {
    assert_eq!(lexicon("7".to_string()).unwrap(), vec![Token::Number(7), Token::End]);
    assert_eq!(lexicon("12345".to_string()).unwrap(), vec![Token::Number(12345), Token::End]);
    assert_eq!(lexicon("000".to_string()).unwrap(), vec![Token::Number(0), Token::End]);
    assert_eq!(lexicon("0042".to_string()).unwrap(), vec![Token::Number(42), Token::End]);
    assert_eq!(
        lexicon("9223372036854775807".to_string()).unwrap(),
        vec![Token::Number(i64::MAX), Token::End]
    );
    assert_eq!(
        lexicon("00000000000000000000009223372036854775807".to_string()).unwrap(),
        vec![Token::Number(i64::MAX), Token::End]
    );
}

#[test]
fn a_run_of_digits_is_taken_whole() {
    assert_eq!(
        lexicon("500a10b66c32".to_string()).unwrap(),
        vec![
            Token::Number(500),
            Token::Plus,
            Token::Number(10),
            Token::Dash,
            Token::Number(66),
            Token::Star,
            Token::Number(32),
            Token::End
        ]
    );
    assert_eq!(
        lexicon("12 34".to_string()).unwrap(),
        vec![Token::Number(12), Token::Number(34), Token::End]
    );
}

#[test]
fn end_stands_last_and_only_there() {
    for input in ["", "7", "3a2c4", " e 1 f ", "ffff", "1 2 3"] {
        let tokens = lexicon(input.to_string()).unwrap();
        assert_eq!(tokens.last(), Some(&Token::End));
        assert_eq!(tokens.iter().filter(|t| **t == Token::End).count(), 1);
    }
}

#[test]
fn white_space_of_every_kind_is_skipped() {
    let input = "1\u{9}\u{a}\u{b}\u{c}\u{d} \u{85}\u{a0}\u{1680}\u{2000}\u{2005}\u{200a}\u{2028}\u{2029}\u{202f}\u{205f}\u{3000}2";
    assert_eq!(
        lexicon(input.to_string()).unwrap(),
        vec![Token::Number(1), Token::Number(2), Token::End]
    );
}

#[test]
fn white_space_is_what_the_standard_library_calls_so() {
    let mut code = 0u32;
    while code <= 0x10ffff {
        if let Some(c) = char::from_u32(code) {
            assert_eq!(is_whitespace(c), c.is_whitespace(), "U+{:04X}", code);
            assert_eq!(is_digit(c), c.is_ascii_digit(), "U+{:04X}", code);
        }
        code += 1;
    }
}

#[test]
fn only_six_letters_are_symbols() {
    assert_eq!(symbol_token('a'), Some(Token::Plus));
    assert_eq!(symbol_token('b'), Some(Token::Dash));
    assert_eq!(symbol_token('c'), Some(Token::Star));
    assert_eq!(symbol_token('d'), Some(Token::Slash));
    assert_eq!(symbol_token('e'), Some(Token::LeftParen));
    assert_eq!(symbol_token('f'), Some(Token::RightParen));
    for c in ['g', 'A', 'F', '+', '-', '*', '/', '(', ')', '0', ' '] {
        assert_eq!(symbol_token(c), None);
    }
}

#[test]
fn unrecognized_character_is_named_in_the_message() {
    let e = lexicon("3a2 x 4".to_string()).unwrap_err();
    assert_eq!(e.level(), ErrorLevel::Lexicon);
    assert_eq!(e.message(), "Unrecognized character x. Skipping it.");
    assert_eq!(e.to_string(), "Lexicon Error Unrecognized character x. Skipping it.");

    let e = lexicon("+".to_string()).unwrap_err();
    assert_eq!(e.message(), "Unrecognized character +. Skipping it.");

    let e = lexicon("12\u{e9}".to_string()).unwrap_err();
    assert_eq!(e.message(), "Unrecognized character \u{e9}. Skipping it.");
}

#[test]
fn the_first_unrecognized_character_ends_the_scan() {
    let e = lexicon("1x2y3".to_string()).unwrap_err();
    assert_eq!(e.message(), "Unrecognized character x. Skipping it.");
    let e = lexicon("g".to_string()).unwrap_err();
    assert_eq!(e.message(), "Unrecognized character g. Skipping it.");
    let e = lexicon("A".to_string()).unwrap_err();
    assert_eq!(e.message(), "Unrecognized character A. Skipping it.");
}

#[test]
fn numeral_beyond_the_range_is_refused() {
    for input in [
        "9223372036854775808",
        "9223372036854775810",
        "10000000000000000000",
        "99999999999999999999999999999999",
        "1a92233720368547758070",
    ] {
        let e = lexicon(input.to_string()).unwrap_err();
        assert_eq!(e.level(), ErrorLevel::Lexicon);
        assert_eq!(e.message(), "Number too large");
        assert_eq!(e.to_string(), "Lexicon Error Number too large");
    }
}

#[test]
fn the_leftmost_failure_is_reported() {
    let e = lexicon("99999999999999999999x".to_string()).unwrap_err();
    assert_eq!(e.message(), "Number too large");
    let e = lexicon("x99999999999999999999".to_string()).unwrap_err();
    assert_eq!(e.message(), "Unrecognized character x. Skipping it.");
}
