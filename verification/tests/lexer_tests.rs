use kaleidoscope::lexer::{Lexer, Token};

fn approx_equal(a: f64, b: f64, decimal_places: u8) -> bool {
    let factor = 10.0f64.powi(-(decimal_places as i32));
    (a - b).abs() < factor
}

fn lexer_for(text: &str) -> Lexer {
    Lexer::new(text.as_bytes().to_vec())
}

fn number_value(t: &Token) -> f64 {
    match t {
        Token::Number(s) => s.parse::<f64>().unwrap(),
        _ => panic!("expected a number token, got {:?}", t),
    }
}

#[test]
fn tests_test_tok_number_valid_integer() {
    let mut lexer = lexer_for("23456789");
    lexer.char_buffer = '1'.into();
    let result = lexer.tok_number();

    match result {
        Some(t) => assert!(approx_equal(number_value(&t), 123456789.0, 15)),
        _ => assert!(false, "{:?}", result),
    }
}

#[test]
fn tests_test_tok_number_valid_decimal() {
    let mut lexer = lexer_for("23456789.3798901");
    lexer.char_buffer = '1'.into();
    let result = lexer.tok_number();

    match result {
        Some(t) => assert!(approx_equal(number_value(&t), 123456789.3798901, 15)),
        _ => assert!(false, "{:?}", result),
    }
}

#[test]
fn tests_test_tok_number_too_many_decimal_points() {
    let mut lexer = lexer_for("23456789.37989.01");
    lexer.char_buffer = '1'.into();
    let result = lexer.tok_number();
    assert!(result.is_none());
}

#[test]
fn tests_test_tok_valid_def() {
    let mut lexer = lexer_for("ef");
    lexer.char_buffer = 'd'.into();
    let result = lexer.tok_def_extern_or_ident();

    match result {
        Some(Token::Def) => (),
        _ => assert!(false, "{:?}", result),
    }
}

#[test]
fn tests_test_tok_valid_extern() {
    let mut lexer = lexer_for("xtern");
    lexer.char_buffer = 'e'.into();
    let result = lexer.tok_def_extern_or_ident();

    match result {
        Some(Token::Extern) => (),
        _ => assert!(false, "{:?}", result),
    }
}

#[test]
fn tests_test_tok_comment_with_newline_then_eof() {
    let mut lexer = lexer_for("# Some text like def extern\n");
    let result = lexer.tok_comment();

    match result {
        Some(Token::EOF) => (),
        _ => assert!(false, "{:?}", result),
    }
}

#[test]
fn tests_test_tok_comment_with_no_newline_then_eof() {
    let mut lexer = lexer_for("# Some text like def extern");
    let result = lexer.tok_comment();

    match result {
        Some(Token::EOF) => (),
        _ => assert!(false, "{:?}", result),
    }
}

#[test]
fn tests_test_get_token_valid_integer() {
    let mut lexer = lexer_for("123456789");
    let result = lexer.get_token();

    match result {
        Some(t) => assert!(approx_equal(number_value(&t), 123456789.0, 15)),
        _ => assert!(false, "{:?}", result),
    }
}

#[test]
fn tests_test_get_token_valid_decimal() {
    let mut lexer = lexer_for("123456789.3798901");
    let result = lexer.get_token();

    match result {
        Some(t) => assert!(approx_equal(number_value(&t), 123456789.3798901, 15)),
        _ => assert!(false, "{:?}", result),
    }
}

#[test]
fn tests_test_get_token_too_many_decimal_points() {
    let mut lexer = lexer_for("123456789.37989.01");
    let result = lexer.get_token();
    assert!(result.is_none());
}

#[test]
fn tests_test_get_token_def() {
    let mut lexer = lexer_for("def");
    let result = lexer.get_token();

    match result {
        Some(Token::Def) => (),
        _ => assert!(false, "{:?}", result),
    }
}

#[test]
fn tests_test_get_token_extern() {
    let mut lexer = lexer_for("extern");
    let result = lexer.get_token();

    match result {
        Some(Token::Extern) => (),
        _ => assert!(false, "{:?}", result),
    }
}

#[test]
fn tests_test_get_token_with_comment_newline_then_eof() {
    let mut lexer = lexer_for("# Some text like def extern\n");
    let result = lexer.get_token();

    match result {
        Some(Token::EOF) => (),
        _ => assert!(false, "{:?}", result),
    }
}

#[test]
fn tests_test_get_token_with_comment_no_newline_then_eof() {
    let mut lexer = lexer_for("# Some text like def extern");
    let result = lexer.get_token();

    match result {
        Some(Token::EOF) => (),
        _ => assert!(false, "{:?}", result),
    }
}

#[test]
fn tests_test_get_token_alpha_ident() {
    let mut lexer = lexer_for("someident");
    let result = lexer.get_token();

    match result {
        Some(Token::Identifier(s)) => assert_eq!(s, "someident".to_string()),
        _ => assert!(false, "Expected Identifier but got {:?}", result),
    }
}

#[test]
fn tests_test_get_token_alphanumeric_ident() {
    let mut lexer = lexer_for("someident78");
    let result = lexer.get_token();

    match result {
        Some(Token::Identifier(s)) => assert_eq!(s, "someident78".to_string()),
        _ => assert!(false, "Expected Identifier but got {:?}", result),
    }
}

#[test]
fn tests_test_get_token_integration_all_tokens() {
    let mut lexer = lexer_for("def extern someident3 77.03 + # some stuff\n\ry");
    let mut result = lexer.get_token();

    match result {
        Some(Token::Def) => (),
        _ => assert!(false, "Expected Def but got {:?}", result),
    }

    result = lexer.get_token();
    match result {
        Some(Token::Extern) => (),
        _ => assert!(false, "Expected Extern but got {:?}", result),
    }

    result = lexer.get_token();
    match result {
        Some(Token::Identifier(s)) => assert_eq!(s, "someident3".to_string()),
        _ => assert!(false, "Expected an identifier but got {:?}", result),
    }

    result = lexer.get_token();
    match result {
        Some(ref t @ Token::Number(_)) => assert!(
            approx_equal(number_value(t), 77.03, 8),
            "Expected 77.03 but got {:?}",
            t
        ),
        _ => assert!(false, "Expected a number but got {:?}", result),
    }

    result = lexer.get_token();
    match result {
        Some(Token::Misc(c)) => assert_eq!(c, '+'),
        _ => assert!(false, "Expected '+' but got {:?}", result),
    }

    result = lexer.get_token();
    match result {
        Some(Token::Identifier(s)) => assert_eq!(s, "y".to_string()),
        _ => assert!(false, "Expected identifier y but got {:?}", result),
    }

    result = lexer.get_token();
    match result {
        Some(Token::EOF) => (),
        _ => assert!(false, "Expected EOF but got {:?}", result),
    }
}

#[test]
fn test_lex_if_then_else() {
    let mut lexer = lexer_for("if then else");
    assert_eq!(lexer.get_next_token(), &Some(Token::If));
    assert_eq!(lexer.get_next_token(), &Some(Token::Then));
    assert_eq!(lexer.get_next_token(), &Some(Token::Else));
}

#[test]
fn test_get_token_lone_dot_is_invalid_number() {
    let mut lexer = lexer_for(". x");
    let result = lexer.get_token();
    assert!(result.is_none());
}

#[test]
fn test_get_token_leading_dot_number() {
    let mut lexer = lexer_for(".5");
    let result = lexer.get_token();
    match result {
        Some(t) => assert!(approx_equal(number_value(&t), 0.5, 10)),
        _ => assert!(false, "{:?}", result),
    }
}

#[test]
fn test_get_token_trailing_dot_number() {
    let mut lexer = lexer_for("1.");
    let result = lexer.get_token();
    match result {
        Some(t) => assert!(approx_equal(number_value(&t), 1.0, 10)),
        _ => assert!(false, "{:?}", result),
    }
}

#[test]
fn test_get_token_empty_input_is_eof() {
    let mut lexer = lexer_for("");
    assert_eq!(lexer.get_token(), Some(Token::EOF));
    assert_eq!(lexer.get_token(), Some(Token::EOF));
}
