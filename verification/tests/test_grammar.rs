use interpreter::ast::{Expression, Node, ProgramStatement, Statement};
use interpreter::lexer::Lexer;
use interpreter::parser::{infix_equal, prefix_equal, Parser};
use interpreter::token::TokenType;

fn parse(source: &str) -> (ProgramStatement, Vec<String>) {
    let mut parser = Parser::new(Lexer::new(source.bytes().collect()));
    let program = parser.parse();
    (program, parser.errors)
}

fn clean(source: &str) -> ProgramStatement {
    let (program, errors) = parse(source);
    assert!(errors.is_empty(), "{:?}", errors);
    program
}

/// An expression with every operation in parentheses.
fn show(e: &Expression) -> String {
    match e {
        Expression::Identifier(n) => n.value.clone(),
        Expression::IntegerLiteral(n) => n.value.to_string(),
        Expression::Bool(n) => n.value.to_string(),
        Expression::Prefix(n) => format!("({}{})", n.operator, show_optional(&n.right)),
        Expression::Infix(n) => format!(
            "({} {} {})",
            show_optional(&n.left),
            n.operator,
            show_optional(&n.right)
        ),
        Expression::If(n) => format!(
            "if {} {{{}}}{}",
            show_optional(&n.condition),
            n.first.as_ref().map(|b| show_statements(&b.statements)).unwrap_or("?".to_string()),
            n.second
                .as_ref()
                .map(|b| format!(" else {{{}}}", show_statements(&b.statements)))
                .unwrap_or_default()
        ),
        Expression::FunctionLiteral(n) => format!(
            "fn({}) {{{}}}",
            n.parameters
                .as_ref()
                .map(|p| p.iter().map(|i| i.value.clone()).collect::<Vec<String>>().join(", "))
                .unwrap_or("?".to_string()),
            n.body.as_ref().map(|b| show_statements(&b.statements)).unwrap_or("?".to_string())
        ),
        Expression::Call(n) => format!(
            "{}({})",
            show_optional(&n.function),
            n.arguments
                .as_ref()
                .map(|a| a.iter().map(show).collect::<Vec<String>>().join(", "))
                .unwrap_or("?".to_string())
        ),
    }
}

fn show_optional(e: &Option<Box<Expression>>) -> String {
    match e {
        Some(inner) => show(inner),
        None => "?".to_string(),
    }
}

fn show_statement(s: &Statement) -> String {
    match s {
        Statement::Let(n) => format!("let {} = {};", n.name.value, show_optional(&n.value)),
        Statement::Return(n) => match &n.return_value {
            Some(e) => format!("return {};", show(e)),
            None => "return;".to_string(),
        },
        Statement::Expression(n) => format!("{};", show_optional(&n.expression)),
    }
}

fn show_statements(list: &[Statement]) -> String {
    list.iter().map(show_statement).collect::<Vec<String>>().join(" ")
}

fn grouped(source: &str) -> String {
    show_statements(&clean(source).body)
}

#[test]
fn operators_of_one_binding_power_group_to_the_left() {
    assert_eq!(grouped("1 + 2 + 3"), "((1 + 2) + 3);");
    assert_eq!(grouped("1 - 2 - 3;"), "((1 - 2) - 3);");
    assert_eq!(grouped("1 * 2 * 3;"), "((1 * 2) * 3);");
    assert_eq!(grouped("1 / 2 / 3;"), "((1 / 2) / 3);");
    assert_eq!(grouped("1 + 2 - 3;"), "((1 + 2) - 3);");
    assert_eq!(grouped("1 * 2 / 3;"), "((1 * 2) / 3);");
    assert_eq!(grouped("a == b != c"), "((a == b) != c);");
    assert_eq!(grouped("a < b > c"), "((a < b) > c);");
}

#[test]
fn stronger_operators_bind_first() {
    assert_eq!(grouped("-a * b"), "((-a) * b);");
    assert_eq!(grouped("!a == b"), "((!a) == b);");
    assert_eq!(grouped("a + b * c"), "(a + (b * c));");
    assert_eq!(grouped("a * b + c"), "((a * b) + c);");
    assert_eq!(grouped("!f(x)"), "(!f(x));");
    assert_eq!(grouped("-f(x)"), "(-f(x));");
    assert_eq!(grouped("a + b * c + d / e - f"), "(((a + (b * c)) + (d / e)) - f);");
    assert_eq!(grouped("5 > 4 == 3 < 4"), "((5 > 4) == (3 < 4));");
    assert_eq!(grouped("3 + 4 * 5 == 3 * 1 + 4 * 5"), "((3 + (4 * 5)) == ((3 * 1) + (4 * 5)));");
    assert_eq!(grouped("a + f(b * c) + d"), "((a + f((b * c))) + d);");
    assert_eq!(grouped("!-a"), "(!(-a));");
}

#[test]
fn parentheses_group() {
    assert_eq!(grouped("(a + b) * c"), "((a + b) * c);");
    assert_eq!(grouped("a * (b + c)"), "(a * (b + c));");
    assert_eq!(grouped("-(a + b)"), "(-(a + b));");
    assert_eq!(grouped("((a))"), "a;");
}

#[test]
fn calls_chain_to_the_left() {
    assert_eq!(grouped("f(g(h))"), "f(g(h));");
    assert_eq!(grouped("f(a)(b)"), "f(a)(b);");
    assert_eq!(grouped("f()"), "f();");
    assert_eq!(grouped("f(a, b + c, g(d))"), "f(a, (b + c), g(d));");
    assert_eq!(grouped("fn(x) { x }(5)"), "fn(x) {x;}(5);");
}

#[test]
fn conditionals_and_functions() {
    assert_eq!(grouped("if (x < y) { x }"), "if (x < y) {x;};");
    assert_eq!(grouped("if (x < y) { x } else { y }"), "if (x < y) {x;} else {y;};");
    assert_eq!(grouped("if (x) { }"), "if x {};");
    assert_eq!(grouped("fn() { }"), "fn() {};");
    assert_eq!(grouped("fn(a) { a; }"), "fn(a) {a;};");
    assert_eq!(grouped("fn(a, b, c) { a + b; return c; }"), "fn(a, b, c) {(a + b); return c;};");
    assert_eq!(
        grouped("fn(x) { if (x) { return 1; } 0 }"),
        "fn(x) {if x {return 1;}; 0;};"
    );
}

#[test]
fn statements() {
    assert_eq!(grouped("let x = 1; let y = x + 2; y;"), "let x = 1; let y = (x + 2); y;");
    assert_eq!(grouped("let x = 1"), "let x = 1;");
    assert_eq!(grouped("return;"), "return;");
    assert_eq!(grouped("return 1 + 2;"), "return (1 + 2);");
    assert_eq!(grouped("return x"), "return x;");
    assert_eq!(grouped("a; b; c"), "a; b; c;");
    assert_eq!(grouped("a b"), "a; b;");
    assert_eq!(grouped(""), "");
    assert_eq!(grouped("true; false;"), "true; false;");
}

#[test]
fn a_return_may_go_without_a_value() {
    assert_eq!(grouped("return"), "return;");
    assert_eq!(grouped("return;"), "return;");
    assert_eq!(grouped("return; 1"), "return; 1;");
    assert_eq!(grouped("x; return"), "x; return;");
    assert_eq!(grouped("fn() { return; }"), "fn() {return;};");
    assert_eq!(
        grouped("if (a) { return; } else { return 1; }"),
        "if a {return;} else {return 1;};"
    );
}

#[test]
fn a_return_without_value_and_semicolon_moves_on_by_one_more() {
    assert_eq!(grouped("return , 1"), "return;");
    assert_eq!(grouped("return , 1 2"), "return; 2;");
    assert_eq!(grouped("return + 1 2"), "return; 2;");
}

#[test]
fn let_and_return_may_go_without_semicolon_at_the_end_of_input() {
    assert_eq!(grouped("let x = 5"), "let x = 5;");
    assert_eq!(grouped("let y = 1; let x = y + 5"), "let y = 1; let x = (y + 5);");
    assert_eq!(grouped("return 5"), "return 5;");
    assert_eq!(grouped("x; return f(x)"), "x; return f(x);");
}

#[test]
fn a_let_without_semicolon_takes_the_next_token() {
    let (program, errors) = parse("let x = 1 let y = 2;");
    assert_eq!(show_statements(&program.body), "let x = 1; y; 2;");
    assert_eq!(errors, vec!["no prefix parse fn for Token::Assign".to_string()]);
}

#[test]
fn a_missing_token_is_reported() {
    let (program, errors) = parse("let 5;");
    assert!(program.body.len() <= 1);
    assert_eq!(errors[0], "Expected Token::Ident but got Token::Int(5) instead");

    let (_, errors) = parse("let x 5;");
    assert_eq!(errors[0], "Expected Token::Assign but got Token::Int(5) instead");

    let (_, errors) = parse("(1 + 2;");
    assert_eq!(errors[0], "Expected Token::RParen but got Token::Semicolon instead");

    let (_, errors) = parse("if x { 1 }");
    assert_eq!(errors[0], "Expected Token::LParen but got Token::Ident(x) instead");

    let (_, errors) = parse("if (x { 1 }");
    assert_eq!(errors[0], "Expected Token::RParen but got Token::LBrace instead");

    let (_, errors) = parse("if (x) 1");
    assert_eq!(errors[0], "Expected Token::LBrace but got Token::Int(1) instead");

    let (_, errors) = parse("if (x) { 1 } else 2");
    assert_eq!(errors[0], "Expected Token::LBrace but got Token::Int(2) instead");

    let (_, errors) = parse("fn x");
    assert_eq!(errors[0], "Expected Token::LParen but got Token::Ident(x) instead");

    let (_, errors) = parse("fn(1) { }");
    assert_eq!(errors[0], "Expected Token::Ident but got Token::Int(1) instead");

    let (_, errors) = parse("fn(a,) { }");
    assert_eq!(errors[0], "Expected Token::Ident but got Token::RParen instead");

    let (_, errors) = parse("fn(a b) { }");
    assert_eq!(errors[0], "Expected Token::RParen but got Token::Ident(b) instead");

    let (_, errors) = parse("fn(a) a");
    assert_eq!(errors[0], "Expected Token::LBrace but got Token::Ident(a) instead");

    let (_, errors) = parse("f(1 2)");
    assert_eq!(errors[0], "Expected Token::RParen but got Token::Int(2) instead");

    let (_, errors) = parse("f(1,");
    assert_eq!(errors[0], "no prefix parse fn for Token::Eof");
}

#[test]
fn a_token_that_starts_no_expression_is_reported() {
    let (program, errors) = parse("+");
    assert!(program.body.is_empty());
    assert_eq!(errors, vec!["no prefix parse fn for Token::Plus".to_string()]);

    let (_, errors) = parse("1 + ;");
    assert_eq!(errors[0], "no prefix parse fn for Token::Semicolon");

    let (_, errors) = parse("@");
    assert_eq!(errors, vec!["no prefix parse fn for Token::Illegal".to_string()]);

    let (_, errors) = parse("let x = ;");
    assert_eq!(errors[0], "no prefix parse fn for Token::Semicolon");
}

#[test]
fn an_integer_that_does_not_fit_is_reported() {
    let (program, errors) = parse("9223372036854775808");
    assert!(program.body.is_empty());
    assert_eq!(errors, vec!["could not parse 9223372036854775808 as integer".to_string()]);
    let (program, errors) = parse("1 + 9223372036854775808; 2");
    assert_eq!(show_statements(&program.body), "(1 + ?); 2;");
    assert_eq!(errors[0], "could not parse 9223372036854775808 as integer");
    assert_eq!(grouped("9223372036854775807;"), "9223372036854775807;");
}

#[test]
fn recorded_errors_are_the_errors() {
    let mut parser = Parser::new(Lexer::new("let 1; )".bytes().collect()));
    parser.parse();
    assert_eq!(parser.recorded_errors(), &parser.errors);
    assert_eq!(parser.recorded_errors().len(), 2);
}

#[test]
fn parsing_goes_on_behind_an_error() {
    let (program, errors) = parse("let = 1; let y = 2; + ; y");
    assert!(!errors.is_empty());
    assert!(show_statements(&program.body).contains("let y = 2;"));
    assert!(show_statements(&program.body).ends_with("y;"));
}

#[test]
fn a_block_ends_at_its_closing_brace_or_at_the_end_of_input() {
    assert_eq!(grouped("if (a) { b } c"), "if a {b;}; c;");
    assert_eq!(grouped("if (a) { b"), "if a {b;};");
}

#[test]
fn nodes_are_known_by_their_token() {
    let program = clean("let x = 1; return 2; x + 3; !y; f(z); if (a) { b }; fn() { }; true; 7");
    assert_eq!(program.token_literal(), "[Program]");
    let literals: Vec<String> = program.body.iter().map(|s| s.token_literal()).collect();
    assert_eq!(
        literals,
        vec![
            "[Token::Let]",
            "[Token::Return]",
            "[Token::Ident(x)]",
            "[Token::Bang]",
            "[Token::Ident(f)]",
            "[Token::If]",
            "[Token::Function]",
            "[Token::True]",
            "[Token::Int(7)]",
        ]
    );
    let expressions: Vec<String> = program
        .body
        .iter()
        .map(|s| match s {
            Statement::Let(n) => n.value.as_ref().unwrap().token_literal(),
            Statement::Return(n) => n.return_value.as_ref().unwrap().token_literal(),
            Statement::Expression(n) => n.expression.as_ref().unwrap().token_literal(),
        })
        .collect();
    assert_eq!(
        expressions,
        vec![
            "[Token::Int(1)]",
            "[Token::Int(2)]",
            "[Token::Plus]",
            "[Token::Bang]",
            "[Token::LParen]",
            "[Token::If]",
            "[Token::Function]",
            "[Token::True]",
            "[Token::Int(7)]",
        ]
    );
    match &program.body[0] {
        Statement::Let(n) => {
            assert_eq!(n.token_literal(), "[Token::Let]");
            assert_eq!(n.name.token_literal(), "[Token::Ident(x)]");
        }
        _ => panic!("no let statement"),
    }
}

#[test]
fn operators_are_spelled_as_their_tokens() {
    let program = clean("a + b; a - b; a * b; a / b; a < b; a > b; a == b; a != b; !a; -a");
    let operators: Vec<String> = program
        .body
        .iter()
        .map(|s| match s {
            Statement::Expression(n) => match n.expression.as_deref() {
                Some(Expression::Infix(i)) => i.operator.clone(),
                Some(Expression::Prefix(p)) => p.operator.clone(),
                _ => panic!("no operator"),
            },
            _ => panic!("no expression statement"),
        })
        .collect();
    assert_eq!(operators, vec!["+", "-", "*", "/", "<", ">", "==", "!=", "!", "-"]);
}

#[test]
fn placeholder_nodes() {
    match *prefix_equal() {
        Expression::Identifier(n) => {
            assert_eq!(n.token.token_type, TokenType::Eq);
            assert_eq!(n.value, "");
        }
        _ => panic!("no identifier"),
    }
    match *infix_equal() {
        Expression::Identifier(n) => {
            assert_eq!(n.token.token_type, TokenType::Assign);
            assert_eq!(n.value, "");
        }
        _ => panic!("no identifier"),
    }
}

#[test]
fn a_parser_can_start_behind_tokens_already_read() {
    let mut lexer = Lexer::new("1; 2 + 3".bytes().collect());
    lexer.next_token();
    lexer.next_token();
    let mut parser = Parser::new(lexer);
    let program = parser.parse();
    assert!(parser.errors.is_empty());
    assert_eq!(show_statements(&program.body), "(2 + 3);");
}

#[test]
fn programs_in_canonical_spelling_parse_without_error() {
    assert_eq!(grouped("x;"), "x;");
    assert_eq!(grouped("let x = (1 + 2) * 3;"), "let x = ((1 + 2) * 3);");
    assert_eq!(grouped("return (-a) - (!b);"), "return ((-a) - (!b));");
    assert_eq!(grouped("return;"), "return;");
    assert_eq!(grouped("(f)(a, (b + c), (g(d)));"), "f(a, (b + c), g(d));");
    assert_eq!(
        grouped("if ((x) < (y)) { let z = x; return z; } else { y; };"),
        "if (x < y) {let z = x; return z;} else {y;};"
    );
    assert_eq!(
        grouped("let f = fn(a, b) { return (a) + (b); };"),
        "let f = fn(a, b) {return (a + b);};"
    );
    assert_eq!(grouped("(fn() { 1; })();"), "fn() {1;}();");
    assert_eq!(grouped("-(-(x));"), "(-(-x));");
}

#[test]
fn a_parse_without_error_yields_a_complete_tree() {
    for source in [
        "let x = 1; x + 2",
        "fn(a) { if (a) { return 1 } a }(2)",
        "!-f(1, 2)(3)",
        "if (a) { } else { }",
    ] {
        let program = clean(source);
        assert!(!show_statements(&program.body).contains('?'), "{}", source);
    }
    for source in ["1 +", "let x = ;", "f(1,", "if (", "fn(", "-", "(1"] {
        let (_, errors) = parse(source);
        assert!(!errors.is_empty(), "{}", source);
    }
}

#[test]
fn trees_are_equal_if_they_have_equal_parts() {
    assert_eq!(clean("a + b * c"), clean("a+(b*c);"));
    assert_eq!(clean("if (a) { b } else { c }"), clean("if(a){b;}else{c;};"));
    assert_eq!(clean("fn(x, y) { x(y) }"), clean("fn(x,y){x(y)}"));
    assert_ne!(clean("a + b"), clean("a - b"));
    assert_ne!(clean("a + b"), clean("b + a"));
    assert_ne!(clean("a"), clean("a; a"));
    assert_ne!(clean("1"), clean("01"));
    assert_ne!(clean("f(a)"), clean("f(a, a)"));
    assert_ne!(clean("f()"), clean("f"));
    assert_ne!(clean("fn(x) { x }"), clean("fn(y) { x }"));
    assert_ne!(clean("fn(x) { x }"), clean("fn(x) { y }"));
    assert_ne!(clean("if (a) { b }"), clean("if (a) { b } else { }"));
    assert_ne!(clean("let x = 1;"), clean("let y = 1;"));
    assert_ne!(clean("let x = 1;"), clean("let x = 2;"));
    assert_ne!(clean("return 1;"), clean("return;"));
    assert_ne!(clean("return 1;"), clean("1;"));
    assert_ne!(clean("true"), clean("false"));
    assert_ne!(clean("!a"), clean("-a"));
    assert_ne!(clean("(a + b) * c"), clean("a + b * c"));
}
