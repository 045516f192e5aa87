use kaleidoscope::ast::{Expr, ExprKind};
use kaleidoscope::lexer::{Lexer, Token};
use kaleidoscope::parser::Parser;

fn approx_equal(a: f64, b: f64, decimal_places: u8) -> bool {
    let factor = 10.0f64.powi(-(decimal_places as i32));
    (a - b).abs() < factor
}

fn setup_parser_lexer(text: &str) -> (Parser, Lexer) {
    let mut lexer = Lexer::new(text.as_bytes().to_vec());
    lexer.get_next_token();
    (Parser::new(), lexer)
}

fn number(text: &str) -> Expr {
    Expr { kind: ExprKind::Number(text.to_string()) }
}

fn binary(operator: char, lhs: Expr, rhs: Expr) -> Expr {
    Expr { kind: ExprKind::Binary { operator, lhs: Box::new(lhs), rhs: Box::new(rhs) } }
}

#[test]
fn test_new_sets_up_operator_precedences() {
    let parser = Parser::new();

    assert_eq!(parser.environment.get_operator_precedence('<'), 10.into());
    assert_eq!(parser.environment.get_operator_precedence('+'), 20.into());
    assert_eq!(parser.environment.get_operator_precedence('-'), 30.into());
    assert_eq!(parser.environment.get_operator_precedence('*'), 40.into());
}

#[test]
fn test_parse_number_expr_creates_number_expr() {
    let (mut parser, mut lexer) = setup_parser_lexer("64 + 3");

    let result = parser.parse_number_expr(&mut lexer);

    match result {
        Expr { kind: ExprKind::Number(val) } => {
            assert!(approx_equal(64.0, val.parse::<f64>().unwrap(), 5))
        }
        _ => assert!(false, "Expected a number expression"),
    }
}

#[test]
fn test_parse_number_expr_consumes_token() {
    let (mut parser, mut lexer) = setup_parser_lexer("64 + 3");

    let current_token: Option<Token> = lexer.current_token().clone();

    match current_token {
        Some(Token::Number(num)) => {
            parser.parse_number_expr(&mut lexer);
            assert!(approx_equal(64.0, num.parse::<f64>().unwrap(), 5))
        }
        _ => assert!(false, "Expected the number 64"),
    }

    match lexer.current_token() {
        Some(Token::Misc('+')) => (),
        _ => assert!(false, "Expected '+'"),
    }
}

#[test]
fn test_parse_paren_expr() {
    let (mut parser, mut lexer) = setup_parser_lexer("(78)");

    let result = parser.parse_paren_expr(&mut lexer);

    match result {
        Some(Expr { kind: ExprKind::Number(val) }) => {
            assert!(approx_equal(val.parse::<f64>().unwrap(), 78.0, 5))
        }
        _ => assert!(false, "Expected the number 78"),
    }
}

#[test]
fn test_parse_identifier_prefixed_expr_parses_variable() {
    let (mut parser, mut lexer) = setup_parser_lexer("ident42");

    let result = parser.parse_identifier_prefixed_expr("ident42".into(), &mut lexer);
    let expected_value = Expr { kind: ExprKind::Variable { name: "ident42".into() } };
    match result {
        Some(expr) if expr == expected_value => (),
        _ => assert!(false, "Expected {:?}", expected_value),
    }
}

#[test]
fn test_parse_identifier_prefixed_expr_parses_call() {
    let (mut parser, mut lexer) = setup_parser_lexer("ident42(30)");

    let result = parser.parse_identifier_prefixed_expr("ident42".into(), &mut lexer);
    let expected_value = Expr {
        kind: ExprKind::Call { callee: "ident42".into(), args: vec![number("30")] },
    };
    match result {
        Some(expr) if expr == expected_value => (),
        _ => assert!(false, "Expected {:?}", expected_value),
    }
}

#[test]
fn test_parse_identifier_prefixed_expr_parsed_call_multiple_args() {
    let (mut parser, mut lexer) = setup_parser_lexer("ident66(30, 60, 90)");

    let result = parser.parse_identifier_prefixed_expr("ident42".into(), &mut lexer);
    let expected_value = Expr {
        kind: ExprKind::Call {
            callee: "ident42".into(),
            args: vec![number("30"), number("60"), number("90")],
        },
    };
    match result {
        Some(expr) if expr == expected_value => (),
        _ => assert!(false, "Expected {:?}", expected_value),
    }
}

#[test]
fn test_parse_primary_expr_parses_number() {
    let (mut parser, mut lexer) = setup_parser_lexer("657");

    let result = parser.parse_primary_expr(&mut lexer);

    assert_eq!(result, Some(number("657")));
}

#[test]
fn test_parse_primary_expr_parses_ident_prefix_into_variable() {
    let (mut parser, mut lexer) = setup_parser_lexer("suwooooo");

    let result = parser.parse_primary_expr(&mut lexer);
    assert_eq!(
        result,
        Some(Expr { kind: ExprKind::Variable { name: "suwooooo".into() } })
    );
}

#[test]
fn test_parse_primary_expr_parses_ident_prefix_into_call() {
    let (mut parser, mut lexer) = setup_parser_lexer("suwooooo()");

    let result = parser.parse_primary_expr(&mut lexer);
    assert_eq!(
        result,
        Some(Expr { kind: ExprKind::Call { callee: "suwooooo".into(), args: vec![] } })
    );
}

#[test]
fn test_parse_primary_expr_parses_paren_expr() {
    let (mut parser, mut lexer) = setup_parser_lexer("(5 + yar())");

    let result = parser.parse_primary_expr(&mut lexer);
    let expected_result = Some(binary(
        '+',
        number("5"),
        Expr { kind: ExprKind::Call { callee: "yar".into(), args: vec![] } },
    ));

    assert_eq!(result, expected_result);
}

#[test]
fn test_parse_primary_expr_logs_error() {
    let (mut parser, mut lexer) = setup_parser_lexer("def");

    let result = parser.parse_primary_expr(&mut lexer);
    assert_eq!(result, None);
}

#[test]
fn test_parse_multiple_ops() {
    let (mut parser, mut lexer) = setup_parser_lexer("3 + 2 - 4 * 7 < 3");

    let result = parser.parse_expression(&mut lexer);
    // (3 + (2 - (4 * 7))) < 3
    let expected_result = Some(binary(
        '<',
        binary('+', number("3"), binary('-', number("2"), binary('*', number("4"), number("7")))),
        number("3"),
    ));

    assert_eq!(result, expected_result);
}

#[test]
fn test_parse_multiple_add_ops() {
    let (mut parser, mut lexer) = setup_parser_lexer("1+2+3+4");

    let result = parser.parse_expression(&mut lexer);
    let expected_result = Some(binary(
        '+',
        binary('+', binary('+', number("1"), number("2")), number("3")),
        number("4"),
    ));

    assert_eq!(result, expected_result);
}

#[test]
fn test_parse_function_proto_legal() {
    let (mut parser, mut lexer) = setup_parser_lexer("fn(three, four, five)");

    let result = parser.parse_function_prototype(&mut lexer);
    let expected_result = Some(Expr {
        kind: ExprKind::Prototype {
            name: "fn".to_owned(),
            args: vec!["three".to_string(), "four".to_string(), "five".to_string()],
        },
    });

    assert_eq!(result, expected_result);
}

#[test]
fn test_parse_function_proto_legal_no_args() {
    let (mut parser, mut lexer) = setup_parser_lexer("fn()");

    let result = parser.parse_function_prototype(&mut lexer);
    let expected_result = Some(Expr {
        kind: ExprKind::Prototype { name: "fn".to_owned(), args: vec![] },
    });

    assert_eq!(result, expected_result);
}

#[test]
fn test_parse_function_proto_legal_trailing_comma_after_args() {
    let (mut parser, mut lexer) = setup_parser_lexer("fn(seven,)");

    let result = parser.parse_function_prototype(&mut lexer);
    let expected_result = Some(Expr {
        kind: ExprKind::Prototype { name: "fn".to_owned(), args: vec!["seven".to_string()] },
    });

    assert_eq!(result, expected_result);
}

#[test]
fn test_parse_function_proto_illegal_no_fn_name() {
    let (mut parser, mut lexer) = setup_parser_lexer("(three, four, five)");

    let result = parser.parse_function_prototype(&mut lexer);
    let expected_result = None;

    assert_eq!(result, expected_result);
}

#[test]
fn test_parse_function_proto_illegal_no_opening_brace() {
    let (mut parser, mut lexer) = setup_parser_lexer("fUNKthree, four, five)");

    let result = parser.parse_function_prototype(&mut lexer);
    let expected_result = None;
    assert_eq!(result, expected_result);
}

#[test]
fn test_parse_function_proto_illegal_no_closing_brace() {
    let (mut parser, mut lexer) = setup_parser_lexer("FuN(three, four, five");

    let result = parser.parse_function_prototype(&mut lexer);
    let expected_result = None;

    assert_eq!(result, expected_result);
}

#[test]
fn test_parse_unbalanced_paren_yields_no_value() {
    let (mut parser, mut lexer) = setup_parser_lexer("(3 + 4");

    let result = parser.parse_expression(&mut lexer);
    assert_eq!(result, None);
}

#[test]
fn test_parse_function_definition_wraps_prototype_and_body() {
    let (mut parser, mut lexer) = setup_parser_lexer("def f(x,y) x + y");

    let result = parser.parse_function_definition(&mut lexer);
    let expected = Some(Expr {
        kind: ExprKind::Function {
            prototype: Box::new(Expr {
                kind: ExprKind::Prototype {
                    name: "f".to_string(),
                    args: vec!["x".to_string(), "y".to_string()],
                },
            }),
            body: Box::new(binary(
                '+',
                Expr { kind: ExprKind::Variable { name: "x".to_string() } },
                Expr { kind: ExprKind::Variable { name: "y".to_string() } },
            )),
        },
    });
    assert_eq!(result, expected);
}

#[test]
fn test_parse_extern_yields_prototype() {
    let (mut parser, mut lexer) = setup_parser_lexer("extern sin(x)");

    let result = parser.parse_extern(&mut lexer);
    let expected = Some(Expr {
        kind: ExprKind::Prototype { name: "sin".to_string(), args: vec!["x".to_string()] },
    });
    assert_eq!(result, expected);
}

#[test]
fn test_parse_top_level_expression_wraps_anonymous_function() {
    let (mut parser, mut lexer) = setup_parser_lexer("4 < 5");

    let result = parser.parse_top_level_expression(&mut lexer);
    let expected = Some(Expr {
        kind: ExprKind::Function {
            prototype: Box::new(Expr {
                kind: ExprKind::Prototype { name: "__anon".to_string(), args: vec![] },
            }),
            body: Box::new(binary('<', number("4"), number("5"))),
        },
    });
    assert_eq!(result, expected);
}

#[test]
fn test_unregistered_operator_terminates_expression() {
    let (mut parser, mut lexer) = setup_parser_lexer("3 # 4");

    // `#` opens a comment, so only the leading number is parsed.
    let result = parser.parse_expression(&mut lexer);
    assert_eq!(result, Some(number("3")));

    // An unregistered one-character operator also ends the expression.
    let (mut parser2, mut lexer2) = setup_parser_lexer("3 ! 4");
    let result2 = parser2.parse_expression(&mut lexer2);
    assert_eq!(result2, Some(number("3")));
    assert_eq!(lexer2.current_token(), &Some(Token::Misc('!')));
}

#[test]
fn test_environment_override_replaces_precedence() {
    let mut parser = Parser::new();
    parser.environment.add_operator_precedence(('+', 99));
    assert_eq!(parser.environment.get_operator_precedence('+'), Some(99));
    assert_eq!(parser.environment.get_operator_precedence('%'), None);
}
