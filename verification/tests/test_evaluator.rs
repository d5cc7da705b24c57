use interpreter::ast::{
    CallExpression, Expression, ExpressionStatement, FunctionLiteral, If, Infix, IntegerLiteral,
    Prefix, ProgramStatement, ReturnStatement, Statement,
};
use interpreter::environment::Environment;
use interpreter::evaluator::{
    apply_function, eval, eval_bang_operator_expression, eval_boolean_infix_expression,
    eval_expression, eval_infix_expression, eval_integer_infix_expression,
    eval_minus_prefix_operator_expression, eval_prefix_expression, eval_program,
    extend_function_env, is_error, is_truthy, new_error, settle, unwrap_return_value,
};
use interpreter::lexer::Lexer;
use interpreter::object::{object_type, Object};
use interpreter::parser::Parser;
use interpreter::token::{Token, TokenType};

fn run(source: &str) -> String {
    let mut parser = Parser::new(Lexer::new(source.bytes().collect()));
    let program = parser.parse();
    assert!(parser.errors.is_empty(), "{:?}", parser.errors);
    let mut env = Environment::new();
    eval(&program, &mut env).to_string()
}

#[test]
fn let_yields_null() {
    assert_eq!(run("let x = 10;"), "null");
}

#[test]
fn return_yields_its_value() {
    assert_eq!(run("return 10;"), "10");
}

#[test]
fn bang_of_an_integer_is_false() {
    assert_eq!(run("!10;"), "false");
}

#[test]
fn product_binds_more_strongly_than_sum() {
    assert_eq!(run("5 + 5 * 2;"), "15");
}

#[test]
fn conditional_takes_the_first_block() {
    assert_eq!(run("if (1 < 2) { 10 } else { 20 };"), "10");
}

#[test]
fn conditional_takes_the_second_block() {
    assert_eq!(run("if (1 > 2) { 10 } else { 20 };"), "20");
}

#[test]
fn conditional_without_alternative_is_null() {
    assert_eq!(run("if (false) { 10 }"), "null");
}

#[test]
fn function_call_binds_parameters() {
    assert_eq!(run("let add = fn(a,b){ a+b }; add(2,3);"), "5");
}

#[test]
fn closure_sees_the_scope_it_was_made_in() {
    assert_eq!(
        run("let makeAdder = fn(x){ fn(y){ x+y } }; let addTwo = makeAdder(2); addTwo(40);"),
        "42"
    );
}

#[test]
fn closure_sees_later_bindings_of_its_scope() {
    assert_eq!(run("let f = fn() { g() }; let g = fn() { 7 }; f();"), "7");
}

#[test]
fn unknown_identifier_is_an_error() {
    assert_eq!(run("foobar;"), "ERROR: identifier not found: foobar");
}

#[test]
fn booleans_cannot_be_added() {
    assert_eq!(run("true + false;"), "ERROR: unknown operator: BOOLEAN + BOOLEAN");
}

#[test]
fn integer_and_boolean_cannot_be_added() {
    assert_eq!(run("5 + true;"), "ERROR: type mismatch: INTEGER + BOOLEAN");
}

#[test]
fn minus_of_a_boolean_is_an_error() {
    assert_eq!(run("-true;"), "ERROR: unknown operator: -BOOLEAN");
}

#[test]
fn calling_an_integer_is_an_error() {
    assert_eq!(run("let x = 5; x(1);"), "ERROR: not a function: INTEGER");
}

#[test]
fn integer_arithmetic() {
    assert_eq!(run("7 - 10;"), "-3");
    assert_eq!(run("6 * 7;"), "42");
    assert_eq!(run("7 / 2;"), "3");
    assert_eq!(run("-7 / 2;"), "-3");
    assert_eq!(run("7 / -2;"), "-3");
    assert_eq!(run("-7 / -2;"), "3");
    assert_eq!(run("-5;"), "-5");
    assert_eq!(run("0;"), "0");
    assert_eq!(run("1 / 0;"), "ERROR: division by zero");
}

#[test]
fn integer_arithmetic_wraps_around() {
    assert_eq!(run("9223372036854775807 + 1;"), "-9223372036854775808");
    assert_eq!(run("-9223372036854775807 - 2;"), "9223372036854775807");
    assert_eq!(run("9223372036854775807 * 2;"), "-2");
    assert_eq!(run("(-9223372036854775807 - 1) / -1;"), "-9223372036854775808");
    assert_eq!(run("-(-9223372036854775807 - 1);"), "-9223372036854775808");
}

#[test]
fn comparisons() {
    assert_eq!(run("1 < 2;"), "true");
    assert_eq!(run("1 > 2;"), "false");
    assert_eq!(run("1 == 1;"), "true");
    assert_eq!(run("1 != 1;"), "false");
    assert_eq!(run("true == true;"), "true");
    assert_eq!(run("true != false;"), "true");
    assert_eq!(run("1 == true;"), "false");
    assert_eq!(run("1 != true;"), "true");
    assert_eq!(run("true < false;"), "ERROR: unknown operator: BOOLEAN < BOOLEAN");
}

#[test]
fn null_compares_with_null() {
    assert_eq!(run("if (false) { 1 } == if (false) { 2 };"), "true");
    assert_eq!(run("if (false) { 1 } != if (false) { 2 };"), "false");
    assert_eq!(
        run("if (false) { 1 } + if (false) { 2 };"),
        "ERROR: unknown operator: NULL + NULL"
    );
}

#[test]
fn truthiness() {
    assert_eq!(run("!true;"), "false");
    assert_eq!(run("!false;"), "true");
    assert_eq!(run("!!5;"), "true");
    assert_eq!(run("!if (false) { 1 };"), "true");
    assert_eq!(run("if (5) { 1 } else { 2 };"), "1");
    assert_eq!(run("if (if (false) { 1 }) { 1 } else { 2 };"), "2");
}

#[test]
fn return_unwinds_nested_blocks() {
    assert_eq!(
        run("let f = fn(x) { if (x > 0) { if (x > 1) { return 10; } return 1; } 0 }; f(2);"),
        "10"
    );
    assert_eq!(run("if (true) { if (true) { return 10; } return 1; }"), "10");
    assert_eq!(run("return 1; 2;"), "1");
}

#[test]
fn return_without_a_value_is_null() {
    assert_eq!(run("return; 2;"), "null");
    assert_eq!(run("return"), "null");
    assert_eq!(run("let f = fn() { return; 1 }; f()"), "null");
}

fn value(source: &str, env: &mut Environment) -> Object {
    let mut parser = Parser::new(Lexer::new(source.bytes().collect()));
    let program = parser.parse();
    assert!(parser.errors.is_empty(), "{:?}", parser.errors);
    eval(&program, env)
}

#[test]
fn a_program_never_yields_a_returned_value() {
    let mut env = Environment::new();
    assert!(matches!(value("return if (true) { return 1; };", &mut env), Object::Integer(1)));
    assert!(matches!(value("return 2;", &mut env), Object::Integer(2)));
    assert!(matches!(value("if (true) { return 3; }", &mut env), Object::Integer(3)));
    assert!(matches!(
        value("let f = fn() { return if (true) { return 4; }; }; f();", &mut env),
        Object::Integer(4)
    ));
    assert!(matches!(
        value("let x = if (true) { return 5; }; return x;", &mut env),
        Object::Integer(5)
    ));
    assert!(matches!(value("return;", &mut env), Object::Null));
    assert!(matches!(value("return nope;", &mut env), Object::Error(_)));

    let twice = Object::ReturnValue(Box::new(Object::ReturnValue(Box::new(Object::Integer(6)))));
    env.set(0, "deep".to_string(), twice);
    assert!(matches!(value("deep", &mut env), Object::Integer(6)));
    assert!(matches!(value("return deep;", &mut env), Object::Integer(6)));
    assert!(matches!(value("if (true) { deep }", &mut env), Object::Integer(6)));
}

#[test]
fn settling_takes_off_every_wrapper() {
    assert!(matches!(settle(Object::Integer(1)), Object::Integer(1)));
    assert!(matches!(settle(Object::ReturnValue(Box::new(Object::Null))), Object::Null));
    assert!(matches!(
        settle(Object::ReturnValue(Box::new(Object::ReturnValue(Box::new(Object::Boolean(
            true
        )))))),
        Object::Boolean(true)
    ));
    assert!(matches!(settle(new_error("x".to_string())), Object::Error(_)));
}

#[test]
fn errors_propagate() {
    assert_eq!(run("-(true + false);"), "ERROR: unknown operator: BOOLEAN + BOOLEAN");
    assert_eq!(run("(1 + true) + 2;"), "ERROR: type mismatch: INTEGER + BOOLEAN");
    assert_eq!(run("2 + (1 + true);"), "ERROR: type mismatch: INTEGER + BOOLEAN");
    assert_eq!(run("if (nope) { 1 };"), "ERROR: identifier not found: nope");
    assert_eq!(run("if (true) { nope; 2 };"), "ERROR: identifier not found: nope");
    assert_eq!(run("let f = fn(a) { a }; f(nope);"), "ERROR: identifier not found: nope");
    assert_eq!(run("let f = fn() { nope }; f();"), "ERROR: identifier not found: nope");
    assert_eq!(run("nope(1);"), "ERROR: identifier not found: nope");
    assert_eq!(run("let x = nope; 5;"), "ERROR: identifier not found: nope");
    assert_eq!(run("return nope; 5;"), "ERROR: identifier not found: nope");
    assert_eq!(run("let f = fn(a, b) { 1 }; f(nope, other);"), "ERROR: identifier not found: nope");
}

#[test]
fn extra_arguments_are_ignored() {
    assert_eq!(run("let f = fn(a) { a }; f(1, 2);"), "1");
}

#[test]
fn missing_arguments_leave_parameters_unbound() {
    assert_eq!(run("let f = fn(a, b) { b }; f(1);"), "ERROR: identifier not found: b");
}

#[test]
fn parameters_shadow_outer_bindings() {
    assert_eq!(run("let x = 1; let f = fn(x) { x }; f(2);"), "2");
    assert_eq!(run("let x = 1; let f = fn(x) { x }; f(2); x;"), "1");
}

#[test]
fn let_in_a_function_binds_in_its_own_scope() {
    assert_eq!(run("let x = 1; let f = fn() { let x = 2; x }; f();"), "2");
    assert_eq!(run("let x = 1; let f = fn() { let x = 2; x }; f(); x;"), "1");
}

#[test]
fn let_rebinds_a_name() {
    assert_eq!(run("let x = 1; let x = 2; x;"), "2");
}

#[test]
fn recursion_ends() {
    assert_eq!(
        run("let down = fn(n) { if (n == 0) { return 0; } down(n - 1) }; down(20);"),
        "0"
    );
    assert_eq!(
        run("let sum = fn(n) { if (n == 0) { 0 } else { n + sum(n - 1) } }; sum(10);"),
        "55"
    );
}

#[test]
fn calls_nested_too_deeply_are_an_error() {
    let mut parser = Parser::new(Lexer::new("let f = fn() { f() }; f();".bytes().collect()));
    let program = parser.parse();
    assert!(parser.errors.is_empty());
    let mut env = Environment::new();
    let value = eval_program(&program, &mut env, 0, 8);
    assert_eq!(value.to_string(), "ERROR: call depth exceeded");

    let mut parser = Parser::new(Lexer::new("let f = fn() { 1 }; f();".bytes().collect()));
    let program = parser.parse();
    let mut env = Environment::new();
    assert_eq!(eval_program(&program, &mut env, 0, 0).to_string(), "ERROR: call depth exceeded");
    let mut env = Environment::new();
    assert_eq!(eval_program(&program, &mut env, 0, 1).to_string(), "1");
}

#[test]
fn endless_recursion_is_an_error() {
    assert_eq!(run("let f = fn() { f() }; f();"), "ERROR: call depth exceeded");
    assert_eq!(
        run("let f = fn(n) { if (n == 0) { 0 } else { 1 + f(n - 1) } }; f(255);"),
        "255"
    );
    assert_eq!(
        run("let f = fn(n) { if (n == 0) { 0 } else { 1 + f(n - 1) } }; f(256);"),
        "ERROR: call depth exceeded"
    );
}

#[test]
fn functions_print_their_parameters() {
    assert_eq!(run("fn(a, b) { a }"), "fn(a, b) { ... }");
    assert_eq!(run("fn() { 1 }"), "fn() { ... }");
    assert_eq!(run("fn(x) { 1 }"), "fn(x) { ... }");
}

#[test]
fn empty_program_is_null() {
    assert_eq!(run(""), "null");
}

#[test]
fn environment_keeps_bindings_between_programs() {
    let mut env = Environment::new();
    let mut parser = Parser::new(Lexer::new("let x = 5;".bytes().collect()));
    let first = parser.parse();
    assert_eq!(eval(&first, &mut env).to_string(), "null");
    let mut parser = Parser::new(Lexer::new("x + 1;".bytes().collect()));
    let second = parser.parse();
    assert_eq!(eval(&second, &mut env).to_string(), "6");
}

#[test]
fn environment_get_and_set() {
    let mut env = Environment::new();
    assert!(env.get(0, "x").is_none());
    let stored = env.set(0, "x".to_string(), Object::Integer(3));
    assert_eq!(stored.to_string(), "3");
    let inner = env.new_enclosed(0);
    assert_eq!(inner, 1);
    assert_eq!(env.get(inner, "x").unwrap().to_string(), "3");
    env.set(inner, "x".to_string(), Object::Boolean(true));
    assert_eq!(env.get(inner, "x").unwrap().to_string(), "true");
    assert_eq!(env.get(0, "x").unwrap().to_string(), "3");
    env.set(0, "y".to_string(), Object::Null);
    assert_eq!(env.get(inner, "y").unwrap().to_string(), "null");
    assert!(env.get(inner, "z").is_none());
    assert!(env.get(7, "x").is_none());
}

fn token(kind: TokenType) -> Token {
    Token::new(kind, None)
}

fn number(value: i64) -> Option<Box<Expression>> {
    Some(Box::new(Expression::IntegerLiteral(IntegerLiteral {
        token: Token::new(TokenType::Int, Some(value.to_string())),
        value,
    })))
}

fn value_of(expression: Expression) -> String {
    let mut env = Environment::new();
    eval_expression(&expression, &mut env, 0, 4).to_string()
}

#[test]
fn operators_that_the_parser_never_makes_are_errors() {
    assert_eq!(
        value_of(Expression::Prefix(Prefix {
            token: token(TokenType::Illegal),
            operator: "~".to_string(),
            right: number(1),
        })),
        "ERROR: unknown operator: ~INTEGER"
    );
    assert_eq!(
        value_of(Expression::Infix(Infix {
            token: token(TokenType::Illegal),
            operator: "%".to_string(),
            left: number(1),
            right: number(2),
        })),
        "ERROR: unknown operator: INTEGER % INTEGER"
    );
}

#[test]
fn missing_parts_are_errors() {
    assert_eq!(
        value_of(Expression::Prefix(Prefix {
            token: token(TokenType::Bang),
            operator: "!".to_string(),
            right: None,
        })),
        "ERROR: missing right expression"
    );
    assert_eq!(
        value_of(Expression::Infix(Infix {
            token: token(TokenType::Plus),
            operator: "+".to_string(),
            left: None,
            right: number(1),
        })),
        "ERROR: missing left expression"
    );
    assert_eq!(
        value_of(Expression::Infix(Infix {
            token: token(TokenType::Plus),
            operator: "+".to_string(),
            left: number(1),
            right: None,
        })),
        "ERROR: missing right expression"
    );
    assert_eq!(
        value_of(Expression::If(If {
            token: token(TokenType::If),
            condition: None,
            first: None,
            second: None,
        })),
        "ERROR: missing if condition"
    );
    assert_eq!(
        value_of(Expression::If(If {
            token: token(TokenType::If),
            condition: number(1),
            first: None,
            second: None,
        })),
        "null"
    );
    assert_eq!(
        value_of(Expression::FunctionLiteral(FunctionLiteral {
            token: token(TokenType::Function),
            parameters: None,
            body: None,
        })),
        "ERROR: missing function body"
    );
    assert_eq!(
        value_of(Expression::Call(CallExpression {
            token: token(TokenType::LParen),
            function: None,
            arguments: None,
        })),
        "ERROR: missing function expression"
    );
    assert_eq!(
        value_of(Expression::Call(CallExpression {
            token: token(TokenType::LParen),
            function: number(1),
            arguments: None,
        })),
        "ERROR: not a function: INTEGER"
    );
}

#[test]
fn statements_without_an_expression_are_null() {
    let program = ProgramStatement {
        body: vec![Statement::Expression(ExpressionStatement {
            token: token(TokenType::Semicolon),
            expression: None,
        })],
    };
    let mut env = Environment::new();
    assert_eq!(eval(&program, &mut env).to_string(), "null");
    let program = ProgramStatement {
        body: vec![
            Statement::Return(ReturnStatement {
                token: token(TokenType::Return),
                return_value: None,
            }),
            Statement::Expression(ExpressionStatement {
                token: token(TokenType::Int),
                expression: number(1),
            }),
        ],
    };
    assert_eq!(eval(&program, &mut env).to_string(), "null");
}

#[test]
fn values_and_their_helpers() {
    assert_eq!(new_error("boom".to_string()).to_string(), "ERROR: boom");
    assert!(is_error(&new_error("boom".to_string())));
    assert!(!is_error(&Object::Null));
    assert!(!is_error(&Object::ReturnValue(Box::new(new_error("x".to_string())))));
    assert!(is_truthy(&Object::Integer(0)));
    assert!(is_truthy(&Object::Boolean(true)));
    assert!(!is_truthy(&Object::Boolean(false)));
    assert!(!is_truthy(&Object::Null));
    assert!(is_truthy(&new_error("x".to_string())));
    assert_eq!(
        unwrap_return_value(Object::ReturnValue(Box::new(Object::Integer(5)))).to_string(),
        "5"
    );
    assert_eq!(unwrap_return_value(Object::Integer(6)).to_string(), "6");
    assert_eq!(
        unwrap_return_value(Object::ReturnValue(Box::new(Object::ReturnValue(Box::new(
            Object::Integer(7)
        )))))
        .to_string(),
        "7"
    );
    assert_eq!(object_type(&Object::Integer(1)), "INTEGER");
    assert_eq!(object_type(&Object::Boolean(true)), "BOOLEAN");
    assert_eq!(object_type(&Object::Null), "NULL");
    assert_eq!(object_type(&Object::ReturnValue(Box::new(Object::Null))), "RETURN_VALUE");
    assert_eq!(object_type(&new_error("x".to_string())), "ERROR");
    assert_eq!(eval_bang_operator_expression(Object::Integer(0)).to_string(), "false");
    assert_eq!(eval_bang_operator_expression(Object::Null).to_string(), "true");
    assert_eq!(eval_minus_prefix_operator_expression(Object::Integer(3)).to_string(), "-3");
    assert_eq!(
        eval_minus_prefix_operator_expression(Object::Null).to_string(),
        "ERROR: unknown operator: -NULL"
    );
    assert_eq!(eval_prefix_expression("-", Object::Integer(3)).to_string(), "-3");
    assert_eq!(eval_prefix_expression("!", Object::Boolean(true)).to_string(), "false");
    assert_eq!(eval_integer_infix_expression("*", 6, 7).to_string(), "42");
    assert_eq!(eval_integer_infix_expression("/", i64::MIN, -1).to_string(), i64::MIN.to_string());
    assert_eq!(eval_boolean_infix_expression("==", true, false).to_string(), "false");
    assert_eq!(
        eval_infix_expression("+", Object::Integer(1), Object::Null).to_string(),
        "ERROR: type mismatch: INTEGER + NULL"
    );
    assert_eq!(
        eval_infix_expression(
            "-",
            Object::ReturnValue(Box::new(Object::Null)),
            new_error("x".to_string())
        )
        .to_string(),
        "ERROR: type mismatch: RETURN_VALUE - ERROR"
    );
    let mut env = Environment::new();
    assert_eq!(
        apply_function(Object::Boolean(true), Vec::new(), &mut env, 3).to_string(),
        "ERROR: not a function: BOOLEAN"
    );
}

#[test]
fn function_values() {
    let mut parser = Parser::new(Lexer::new("fn(a, b) { a - b }".bytes().collect()));
    let program = parser.parse();
    let mut env = Environment::new();
    let function = eval(&program, &mut env);
    assert_eq!(object_type(&function), "FUNCTION");
    let copy = function.clone();
    assert_eq!(copy.to_string(), "fn(a, b) { ... }");
    let result = apply_function(
        function,
        vec![Object::Integer(10), Object::Integer(4), Object::Integer(99)],
        &mut env,
        2,
    );
    assert_eq!(result.to_string(), "6");
    match copy {
        Object::Function(f) => {
            assert_eq!(f.parameters, vec!["a".to_string(), "b".to_string()]);
            assert_eq!(f.env, 0);
            let scope = extend_function_env(&f, vec![Object::Integer(1)], &mut env);
            assert_eq!(env.get(scope, "a").unwrap().to_string(), "1");
            assert!(env.get(scope, "b").is_none());
            let same = f.clone();
            assert_eq!(same.parameters, f.parameters);
        }
        _ => panic!("no function"),
    }
}

#[test]
fn an_error_is_never_bound() {
    let mut env = Environment::new();
    let mut parser = Parser::new(Lexer::new("let x = nope; let y = 1;".bytes().collect()));
    let first = parser.parse();
    assert_eq!(eval(&first, &mut env).to_string(), "ERROR: identifier not found: nope");
    assert!(env.get(0, "x").is_none());
    assert!(env.get(0, "y").is_none());
    let mut parser = Parser::new(Lexer::new("let f = fn(a) { a }; f(nope); a".bytes().collect()));
    let second = parser.parse();
    assert_eq!(eval(&second, &mut env).to_string(), "ERROR: identifier not found: nope");
}

#[test]
fn scoping_is_lexical() {
    assert_eq!(
        run("let x = 1; let f = fn() { x }; let g = fn() { let x = 2; f() }; g()"),
        "1"
    );
    assert_eq!(
        run("let x = 1; let f = fn() { x }; let g = fn(x) { f() }; g(2)"),
        "1"
    );
    assert_eq!(
        run("let f = fn() { y }; let g = fn() { let y = 2; f() }; g()"),
        "ERROR: identifier not found: y"
    );
    assert_eq!(run("let f = fn() { y }; let y = 3; f()"), "3");
}

#[test]
fn a_function_over_a_scope_that_is_not_there_sees_its_parameters_only() {
    let mut parser = Parser::new(Lexer::new("let x = 1; fn(a) { a + x }".bytes().collect()));
    let program = parser.parse();
    let mut env = Environment::new();
    match eval(&program, &mut env) {
        Object::Function(mut f) => {
            f.env = 99;
            let result = apply_function(Object::Function(f), vec![Object::Integer(2)], &mut env, 3);
            assert_eq!(result.to_string(), "ERROR: identifier not found: x");
        }
        _ => panic!("no function"),
    }
}
