use inkwell::context::Context;
use inkwell::values::AnyValue;

use kaleidoscope::ast::{Expr, ExprKind};
use kaleidoscope::codegen::CodeGen;
use kaleidoscope::lexer::Lexer;
use kaleidoscope::parser::Parser;

fn parse_definition(text: &str) -> Expr {
    let mut lexer = Lexer::new(text.as_bytes().to_vec());
    lexer.get_next_token();
    let mut parser = Parser::new();
    parser.parse_function_definition(&mut lexer).unwrap()
}

fn generate_definition<'ctx>(generator: &mut CodeGen<'ctx>, text: &str) -> bool {
    let expr = parse_definition(text);
    match expr.kind {
        ExprKind::Function { prototype, body } => {
            generator.codegen_function(&prototype, &body).is_some()
        }
        _ => false,
    }
}

fn number(text: &str) -> Expr {
    Expr { kind: ExprKind::Number(text.to_string()) }
}

fn fresh_generator(context: &Context) -> CodeGen {
    let module = context.create_module("pipeline");
    CodeGen::new(context, module)
}

#[test]
fn test_round_trip_addition_definition() {
    let context = Context::create();
    let mut generator = fresh_generator(&context);

    assert!(generate_definition(&mut generator, "def f(x,y) x + y"));

    // The function is callable with two arguments.
    let args = vec![number("67"), number("67")];
    let result = generator.codegen_call("f", &args);
    assert!(result.is_some());

    // The backend evaluates the same addition to 134 when both operands
    // are constants.
    let sum = generator
        .codegen_binary('+', &number("67"), &number("67"))
        .unwrap();
    assert_eq!(sum.get_constant().unwrap().0, 134.0);
}

#[test]
fn test_round_trip_doubling_definition() {
    let context = Context::create();
    let mut generator = fresh_generator(&context);

    assert!(generate_definition(&mut generator, "def g(x) x * 2"));

    let args = vec![number("67")];
    let result = generator.codegen_call("g", &args);
    assert!(result.is_some());

    let product = generator
        .codegen_binary('*', &number("67"), &number("2"))
        .unwrap();
    assert_eq!(product.get_constant().unwrap().0, 134.0);
}

#[test]
fn test_redefinition_fails_and_first_stays_callable() {
    let context = Context::create();
    let mut generator = fresh_generator(&context);

    assert!(generate_definition(&mut generator, "def dup(x) x * 2"));
    let first = generator.module.get_function("dup").unwrap();
    let first_text = first.print_to_string().to_string();

    // A second non-trivial body for the same name must be refused.
    assert!(!generate_definition(&mut generator, "def dup(x) x + 1"));

    // The first definition is untouched and still callable.
    let after = generator.module.get_function("dup").unwrap();
    assert_eq!(after.print_to_string().to_string(), first_text);
    let args = vec![number("10")];
    assert!(generator.codegen_call("dup", &args).is_some());
}

#[test]
fn test_anonymous_function_is_redefinable() {
    let context = Context::create();
    let mut generator = fresh_generator(&context);

    // The reserved name cannot be spelled in source text; the parser
    // produces it for bare top-level expressions.
    let anon_def = |lhs: &str, rhs: &str| Expr {
        kind: ExprKind::Function {
            prototype: Box::new(Expr {
                kind: ExprKind::Prototype { name: "__anon".to_string(), args: vec![] },
            }),
            body: Box::new(Expr {
                kind: ExprKind::Binary {
                    operator: '+',
                    lhs: Box::new(number(lhs)),
                    rhs: Box::new(number(rhs)),
                },
            }),
        },
    };

    for text in ["1 + 2", "3 + 4"] {
        let mut lexer = Lexer::new(text.as_bytes().to_vec());
        lexer.get_next_token();
        let mut parser = Parser::new();
        let wrapped = parser.parse_top_level_expression(&mut lexer).unwrap();
        match wrapped.kind {
            ExprKind::Function { ref prototype, .. } => match prototype.kind {
                ExprKind::Prototype { ref name, .. } => assert_eq!(name, "__anon"),
                _ => panic!("expected a prototype"),
            },
            _ => panic!("expected a function"),
        }
    }

    let first = anon_def("1", "2");
    let second = anon_def("3", "4");
    match (first.kind, second.kind) {
        (
            ExprKind::Function { prototype: p1, body: b1 },
            ExprKind::Function { prototype: p2, body: b2 },
        ) => {
            assert!(generator.codegen_function(&p1, &b1).is_some());
            assert!(generator.codegen_function(&p2, &b2).is_some());
        }
        _ => panic!("expected functions"),
    }

    let body = generator.module.get_function("__anon").unwrap();
    let text = body.print_to_string().to_string();
    assert!(text.contains("7.000000e+00"), "{}", text);
}

#[test]
fn test_failed_definition_leaves_registry_clean() {
    let context = Context::create();
    let mut generator = fresh_generator(&context);

    // The body names an unknown variable, so the definition fails...
    assert!(!generate_definition(&mut generator, "def bad(x) y"));

    // ...and the name is unknown again: a call to it fails code
    // generation instead of reaching a body-less function.
    let args = vec![number("1")];
    assert_eq!(generator.codegen_call("bad", &args), None);

    // The statement can be retried and then succeeds, completing the very
    // symbol the failed attempt declared rather than a renamed one.
    assert!(generate_definition(&mut generator, "def bad(x) x"));
    assert!(generator.codegen_call("bad", &args).is_some());
    let function = generator.module.get_function("bad").unwrap();
    let text = function.print_to_string().to_string();
    assert!(text.contains("define double @bad(double %x)"), "{}", text);
}

#[test]
fn test_failed_extern_completion_keeps_declaration() {
    let context = Context::create();
    let mut generator = fresh_generator(&context);

    // Declare first, then fail to complete the declaration with a body.
    let params = vec!["x".to_string()];
    assert!(generator.codegen_prototype(&params, "declared").is_some());
    assert!(!generate_definition(&mut generator, "def declared(x) y"));

    // The declaration survives: a body that calls it still generates.
    assert!(generate_definition(&mut generator, "def caller(x) declared(x)"));

    // And it can still be completed later.
    assert!(generate_definition(&mut generator, "def declared(x) x"));
}

#[test]
fn test_malformed_inputs_yield_no_value() {
    let mut lexer = Lexer::new("(3 + 4".as_bytes().to_vec());
    lexer.get_next_token();
    let mut parser = Parser::new();
    assert_eq!(parser.parse_expression(&mut lexer), None);

    let mut lexer2 = Lexer::new("def fn(three, four, five".as_bytes().to_vec());
    lexer2.get_next_token();
    let mut parser2 = Parser::new();
    assert_eq!(parser2.parse_function_definition(&mut lexer2), None);
}

#[test]
fn test_unknown_operator_yields_no_value_from_codegen() {
    let context = Context::create();
    let mut generator = fresh_generator(&context);
    assert!(generate_definition(&mut generator, "def setup() 0"));

    let result = generator.codegen_binary('#', &number("3"), &number("4"));
    assert_eq!(result, None);
}

#[test]
fn test_unknown_variable_yields_no_value() {
    let context = Context::create();
    let generator = fresh_generator(&context);
    assert_eq!(generator.codegen_variable("nowhere"), None);
}

#[test]
fn test_unknown_function_yields_no_value() {
    let context = Context::create();
    let mut generator = fresh_generator(&context);
    assert!(generate_definition(&mut generator, "def setup() 0"));

    let args = vec![number("1")];
    assert_eq!(generator.codegen_call("missing", &args), None);
}

#[test]
fn test_arity_mismatch_yields_no_value() {
    let context = Context::create();
    let mut generator = fresh_generator(&context);
    assert!(generate_definition(&mut generator, "def one(x) x"));

    let args = vec![number("1"), number("2")];
    assert_eq!(generator.codegen_call("one", &args), None);

    let no_args: Vec<Expr> = vec![];
    assert_eq!(generator.codegen_call("one", &no_args), None);
}

#[test]
fn test_if_outside_function_yields_no_value() {
    let context = Context::create();
    let mut generator = fresh_generator(&context);
    assert!(generate_definition(&mut generator, "def setup() 0"));
    generator.current_function = None;

    let if_expr = kaleidoscope::ast::IfVal {
        if_boolish_test: Box::new(number("1")),
        then_branch: Box::new(number("2")),
        elves: Box::new(number("3")),
    };
    assert_eq!(generator.codegen_if(&if_expr), None);
}

#[test]
fn test_prototype_registers_callable_signature() {
    let context = Context::create();
    let mut generator = fresh_generator(&context);
    assert!(generate_definition(&mut generator, "def setup() 0"));

    let args = vec!["a".to_string(), "b".to_string(), "c".to_string()];
    let f = generator.codegen_prototype(&args, "triple").unwrap();
    assert_eq!(f.get_params().len(), 3);

    // Declaring the same name again is idempotent.
    let again = generator.codegen_prototype(&args, "triple").unwrap();
    assert_eq!(again.get_name().to_str().unwrap(), "triple");

    let call_args = vec![number("1"), number("2"), number("3")];
    assert!(generator.codegen_call("triple", &call_args).is_some());
}

#[test]
fn test_number_codegen_parses_literal_text() {
    let context = Context::create();
    let generator = fresh_generator(&context);

    assert_eq!(generator.codegen_number("77.03").get_constant().unwrap().0, 77.03);
    assert_eq!(generator.codegen_number(".5").get_constant().unwrap().0, 0.5);
    assert_eq!(generator.codegen_number("1.").get_constant().unwrap().0, 1.0);
}

#[test]
fn test_parse_diagnostics_are_logged() {
    let mut lexer = Lexer::new("(3".as_bytes().to_vec());
    lexer.get_next_token();
    let mut parser = Parser::new();
    assert_eq!(parser.parse_expression(&mut lexer), None);
    assert!(parser.log.len() > 0);
}
