use inkwell::context::Context;
use inkwell::values::AnyValue;

use kaleidoscope::ast::{Expr, ExprKind, IfVal};
use kaleidoscope::codegen::{CodeGen, GenValue};

fn number(text: &str) -> Expr {
    Expr { kind: ExprKind::Number(text.to_string()) }
}

fn variable(name: &str) -> Expr {
    Expr { kind: ExprKind::Variable { name: name.to_string() } }
}

fn binary(operator: char, lhs: Expr, rhs: Expr) -> Expr {
    Expr { kind: ExprKind::Binary { operator, lhs: Box::new(lhs), rhs: Box::new(rhs) } }
}

fn call(callee: &str, args: Vec<Expr>) -> Expr {
    Expr { kind: ExprKind::Call { callee: callee.to_string(), args } }
}

fn prototype(name: &str, args: Vec<&str>) -> Expr {
    Expr {
        kind: ExprKind::Prototype {
            name: name.to_string(),
            args: args.into_iter().map(|a| a.to_string()).collect(),
        },
    }
}

/// A generator whose builder is positioned, obtained by generating one
/// bootstrap function first.
fn make_generator(context: &Context) -> CodeGen {
    let module = context.create_module("Test");
    let mut generator = CodeGen::new(context, module);
    let setup = generator.codegen_function(&prototype("bootstrap", vec![]), &number("0"));
    assert!(setup.is_some());
    generator
}

#[test]
fn test_codegen_number() {
    let context = Context::create();
    let module = context.create_module("Test");
    let generator = CodeGen::new(&context, module);
    let result = generator.codegen_number("32.0");

    assert_eq!(result.get_constant().unwrap().0, 32.0);
}

#[test]
fn test_codegen_var() {
    let context = Context::create();
    let module = context.create_module("Test");
    let mut generator = CodeGen::new(&context, module);

    // codegen_variable must hand back exactly the value bound to the name.
    let float_value = context.f64_type().const_float(30.0);
    generator.named_values.push(("x".to_owned(), float_value));

    let result = generator.codegen_variable("x").unwrap();
    assert_eq!(result, float_value);
}

#[test]
fn test_codegen_bin_plus() {
    let context = Context::create();
    let mut generator = make_generator(&context);

    let lhs = number("14");
    let rhs = number("41");

    let result = generator.codegen_binary('+', &lhs, &rhs).unwrap();
    assert_eq!(result.get_constant().unwrap().0, 55.0);
}

#[test]
fn test_codegen_bin_minus() {
    let context = Context::create();
    let mut generator = make_generator(&context);

    let lhs = number("14");
    let rhs = number("41");

    let result = generator.codegen_binary('-', &lhs, &rhs).unwrap();
    assert_eq!(result.get_constant().unwrap().0, -27.0);
}

#[test]
fn test_codegen_bin_mult() {
    let context = Context::create();
    let mut generator = make_generator(&context);

    let lhs = number("14");
    let rhs = number("41");

    let result = generator.codegen_binary('*', &lhs, &rhs).unwrap();
    assert_eq!(result.get_constant().unwrap().0, 574.0);
}

#[test]
fn test_codegen_bin_less_than_true() {
    let context = Context::create();
    let mut generator = make_generator(&context);

    let lhs = number("14");
    let rhs = number("41");

    let result = generator.codegen_binary('<', &lhs, &rhs).unwrap();
    assert_eq!(result.get_constant().unwrap().0, 1.0);
}

#[test]
fn test_codegen_bin_less_than_false() {
    let context = Context::create();
    let mut generator = make_generator(&context);

    let lhs = number("41");
    let rhs = number("41");

    let result = generator.codegen_binary('<', &lhs, &rhs).unwrap();
    assert_eq!(result.get_constant().unwrap().0, 0.0);
}

#[test]
fn test_codegen_bin_unknown() {
    let context = Context::create();
    let mut generator = make_generator(&context);

    let lhs = number("41");
    let rhs = number("41");

    let result = generator.codegen_binary('#', &lhs, &rhs);
    assert_eq!(result, None);
}

#[test]
fn test_codegen_call_with_gened_prototype() {
    let context = Context::create();
    let mut generator = make_generator(&context);

    assert!(generator
        .codegen_prototype(&vec!["x".to_string(), "y".to_string()], "flint")
        .is_some());

    let callee = "flint";
    let args = vec![number("67"), number("67")];
    let result = generator.codegen_call(callee, &args);

    let result_as_string = result.map(|r| r.print_to_string().to_string()).unwrap();
    let expected = "%call_tmp = call double @flint(double 6.700000e+01, double 6.700000e+01)";
    assert_eq!(result_as_string.trim(), expected);
}

#[test]
fn test_codegen_call_with_gened_function() {
    let context = Context::create();
    let mut generator = make_generator(&context);

    let proto = prototype("Juwan", vec!["x", "y"]);
    let body = binary('+', variable("x"), variable("y"));

    assert!(generator.codegen_function(&proto, &body).is_some());

    let callee = "Juwan";
    let args = vec![number("67"), number("67")];
    let result = generator.codegen_call(callee, &args);

    let result_as_string = result.map(|r| r.print_to_string().to_string()).unwrap();
    let expected = "%call_tmp = call double @Juwan(double 6.700000e+01, double 6.700000e+01)";
    assert_eq!(result_as_string.trim(), expected);
}

#[test]
fn test_codegen_fn_prototype() {
    let context = Context::create();
    let module = context.create_module("Test");
    let mut generator = CodeGen::new(&context, module);

    let args = vec!["x".to_string(), "y".to_string()];
    let name = "Moonlight";
    let result = generator.codegen_prototype(&args, name).unwrap();

    assert_eq!(result.get_params().len(), 2);
    assert!(result.get_type().get_return_type().unwrap().is_float_type());
    assert!(result
        .get_type()
        .get_param_types()
        .into_iter()
        .all(|ty| ty.is_float_type()));

    let param_names: Vec<String> = result
        .get_param_iter()
        .filter_map(|param| {
            param
                .into_float_value()
                .get_name()
                .to_str()
                .ok()
                .map(|n| n.to_string())
        })
        .collect();

    assert_eq!(param_names, vec!["x".to_string(), "y".to_string()]);
    assert_eq!(result.get_name().to_str().unwrap(), "Moonlight");
}

#[test]
fn test_codegen_function() {
    let context = Context::create();
    let mut generator = make_generator(&context);

    let proto = prototype("Juwan", vec!["x", "y"]);
    let body = binary('+', variable("x"), variable("y"));

    let result = generator.codegen_function(&proto, &body);
    assert!(result.is_some());
    let result = result.unwrap();
    let expected = "define double @Juwan(double %x, double %y) {\nentry:\n  %addtmp = fadd double %x, %y\n  ret double %addtmp\n}\n";

    assert_eq!(result.print_to_string().to_string(), expected);
}

#[test]
fn test_codegen_function_two_calls() {
    let context = Context::create();
    let mut generator = make_generator(&context);

    let juwan_proto = prototype("Juwan", vec!["x"]);
    let juwan_body = binary('*', variable("x"), number("2"));

    let howard_proto = prototype("Howard", vec!["y"]);
    let howard_body = binary('+', variable("y"), number("4"));

    assert!(generator.codegen_function(&juwan_proto, &juwan_body).is_some());
    assert!(generator.codegen_function(&howard_proto, &howard_body).is_some());

    let juwan_howard_proto = prototype("JuwanHoward", vec!["x", "y"]);
    let juwan_howard_body = binary(
        '+',
        call("Juwan", vec![variable("x")]),
        call("Howard", vec![variable("y")]),
    );

    let result = generator.codegen_function(&juwan_howard_proto, &juwan_howard_body);
    assert!(result.is_some());
    let result = result.unwrap();

    // Later calls must not clobber earlier `call_tmp` names.
    let expected = "define double @JuwanHoward(double %x, double %y) {\nentry:\n  %call_tmp = call double @Juwan(double %x)\n  %call_tmp1 = call double @Howard(double %y)\n  %addtmp = fadd double %call_tmp, %call_tmp1\n  ret double %addtmp\n}\n";

    assert_eq!(result.print_to_string().to_string(), expected);
}

#[test]
fn test_codegen_if_then_else() {
    let context = Context::create();
    let mut generator = make_generator(&context);

    let fib_body = Expr {
        kind: ExprKind::If(IfVal {
            if_boolish_test: Box::new(binary('<', variable("x"), number("2"))),
            then_branch: Box::new(call("fib", vec![binary('-', variable("x"), number("1"))])),
            elves: Box::new(call("fib", vec![binary('+', variable("x"), number("1"))])),
        }),
    };
    let fib = Expr {
        kind: ExprKind::Function {
            prototype: Box::new(prototype("fib", vec!["x"])),
            body: Box::new(fib_body),
        },
    };

    let result = generator.codegen(&fib).unwrap();
    let function = match result {
        GenValue::Func(f) => f,
        GenValue::Float(_) => panic!("expected a function"),
    };

    let result_string = function.print_to_string().to_string();
    let expected_string = "define double @fib(double %x) {\nentry:\n  %cmptmp = fcmp ult double %x, 2.000000e+00\n  %booltmp = uitofp i1 %cmptmp to double\n  %comp = fcmp one double %booltmp, 0.000000e+00\n  br i1 %comp, label %then, label %else\n\nthen:                                             ; preds = %entry\n  %subtmp = fsub double %x, 1.000000e+00\n  %call_tmp = call double @fib(double %subtmp)\n  br label %cont\n\nelse:                                             ; preds = %entry\n  %addtmp = fadd double %x, 1.000000e+00\n  %call_tmp1 = call double @fib(double %addtmp)\n  br label %cont\n\ncont:                                             ; preds = %else, %then\n  %iftmp = phi double [ %call_tmp, %then ], [ %call_tmp1, %else ]\n  ret double %iftmp\n}";
    assert_eq!(result_string.trim(), expected_string);
}
