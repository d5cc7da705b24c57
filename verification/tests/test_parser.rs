use interpreter::ast::{
    Expression, ExpressionStatement, Identifier, Infix, IntegerLiteral, LetStatement, Node,
    Prefix, ProgramStatement, ReturnStatement, Statement,
};
use interpreter::lexer::Lexer;
use interpreter::parser::Parser;
use interpreter::token::{Token, TokenType};

fn string_to_parser(string: &str) -> Parser {
    let v: Vec<u8> = string.bytes().collect();
    let lex = Lexer::new(v);
    let parser = Parser::new(lex);
    return parser;
}

/// Whether two programs have the same statements by their token literals.
fn same_statements(left: &ProgramStatement, right: &ProgramStatement) -> bool {
    left.body.len() == right.body.len()
        && left
            .body
            .iter()
            .zip(right.body.iter())
            .all(|(a, b)| a.token_literal() == b.token_literal())
}

fn integer(text: &str, value: i64) -> Option<Box<Expression>> {
    Some(Box::new(Expression::IntegerLiteral(IntegerLiteral {
        token: Token::new(TokenType::Int, Some(text.to_string())),
        value,
    })))
}

#[test]
fn parse_let() {
    let mut parser = string_to_parser("let x = 10;");
    let parsed_statement = parser.parse();

    let expected = ProgramStatement {
        body: vec![Statement::Let(LetStatement {
            token: Token::new(TokenType::Let, None),
            name: Identifier {
                token: Token::new(TokenType::Ident, Some(String::new())),
                value: String::new(),
            },
            value: None,
        })],
    };
    assert!(same_statements(&parsed_statement, &expected));

    let whole = ProgramStatement {
        body: vec![Statement::Let(LetStatement {
            token: Token::new(TokenType::Let, None),
            name: Identifier {
                token: Token::new(TokenType::Ident, Some("x".to_string())),
                value: "x".to_string(),
            },
            value: integer("10", 10),
        })],
    };
    assert_eq!(parsed_statement, whole);
    assert!(parser.errors.is_empty());
}

#[test]
fn parse_return() {
    let mut parser = string_to_parser("return 10;");
    let parsed_statement = parser.parse();

    let expected = ProgramStatement {
        body: vec![Statement::Return(ReturnStatement {
            token: Token::new(TokenType::Return, None),
            return_value: None,
        })],
    };
    assert!(same_statements(&parsed_statement, &expected));

    let whole = ProgramStatement {
        body: vec![Statement::Return(ReturnStatement {
            token: Token::new(TokenType::Return, None),
            return_value: integer("10", 10),
        })],
    };
    assert_eq!(parsed_statement, whole);
    assert!(parser.errors.is_empty());
}

#[test]
fn parse_identifier_token() {
    let mut parser = string_to_parser("test_identifier;");
    let parsed_statement = parser.parse();

    let expected = ProgramStatement {
        body: vec![Statement::Expression(ExpressionStatement {
            token: Token::new(TokenType::Ident, Some("test_identifier".to_string())),
            expression: None,
        })],
    };

    if parser.errors.len() > 0 {
        panic!("Failed")
    }
    assert!(same_statements(&parsed_statement, &expected));

    let whole = ProgramStatement {
        body: vec![Statement::Expression(ExpressionStatement {
            token: Token::new(TokenType::Ident, Some("test_identifier".to_string())),
            expression: Some(Box::new(Expression::Identifier(Identifier {
                token: Token::new(TokenType::Ident, Some("test_identifier".to_string())),
                value: "test_identifier".to_string(),
            }))),
        })],
    };
    assert_eq!(parsed_statement, whole);
}

#[test]
fn parse_prefix_expression() {
    let mut parser = string_to_parser("!10;");
    let parsed_statement = parser.parse();

    let expected = ProgramStatement {
        body: vec![Statement::Expression(ExpressionStatement {
            token: Token::new(TokenType::Bang, None),
            expression: Some(Box::new(Expression::Prefix(Prefix {
                token: Token::new(TokenType::Bang, None),
                operator: "!".to_string(),
                right: Some(Box::new(Expression::IntegerLiteral(IntegerLiteral {
                    token: Token::new(TokenType::Int, Some("10".to_string())),
                    value: 10,
                }))),
            }))),
        })],
    };

    if parser.errors.len() > 0 {
        panic!("Failed")
    }
    assert_eq!(parsed_statement, expected);
}

#[test]
fn parse_integer_literal_expression() {
    let mut parser = string_to_parser("10;");
    let parsed_statement = parser.parse();

    let expected = ProgramStatement {
        body: vec![Statement::Expression(ExpressionStatement {
            token: Token::new(TokenType::Int, Some("10".to_string())),
            expression: Some(Box::new(Expression::IntegerLiteral(IntegerLiteral {
                token: Token::new(TokenType::Int, Some("10".to_string())),
                value: 10,
            }))),
        })],
    };
    if parser.errors.len() > 0 {
        panic!("Failed")
    }
    assert_eq!(parsed_statement, expected);
}

#[test]
fn parse_infix_expression() {
    struct TestInput {
        input: String,
        left_value: i64,
        operator: String,
        right_value: i64,
        token: Token,
    }
    let test_inputs: Vec<TestInput> = vec![
        TestInput {
            input: "5 + 5;".to_string(),
            left_value: 5,
            operator: "+".to_string(),
            right_value: 5,
            token: Token::new(TokenType::Plus, None),
        },
        TestInput {
            input: "5 - 3;".to_string(),
            left_value: 5,
            operator: "-".to_string(),
            right_value: 3,
            token: Token::new(TokenType::Minus, None),
        },
        TestInput {
            input: "2 * 5;".to_string(),
            left_value: 2,
            operator: "*".to_string(),
            right_value: 5,
            token: Token::new(TokenType::Asterisk, None),
        },
        TestInput {
            input: "5 / 5;".to_string(),
            left_value: 5,
            operator: "/".to_string(),
            right_value: 5,
            token: Token::new(TokenType::Slash, None),
        },
        TestInput {
            input: "5 > 5;".to_string(),
            left_value: 5,
            operator: ">".to_string(),
            right_value: 5,
            token: Token::new(TokenType::RT, None),
        },
        TestInput {
            input: "5 < 5;".to_string(),
            left_value: 5,
            operator: "<".to_string(),
            right_value: 5,
            token: Token::new(TokenType::LT, None),
        },
        TestInput {
            input: "5 == 5;".to_string(),
            left_value: 5,
            operator: "==".to_string(),
            right_value: 5,
            token: Token::new(TokenType::Eq, None),
        },
        TestInput {
            input: "5 != 5;".to_string(),
            left_value: 5,
            operator: "!=".to_string(),
            right_value: 5,
            token: Token::new(TokenType::NotEq, None),
        },
    ];

    for test_input in test_inputs.iter() {
        let mut parser = string_to_parser(&test_input.input);
        let parsed_statement = parser.parse();

        let expected = ProgramStatement {
            body: vec![Statement::Expression(ExpressionStatement {
                token: Token::new(TokenType::Int, Some(test_input.left_value.to_string())),
                expression: Some(Box::new(Expression::Infix(Infix {
                    token: test_input.token.clone(),
                    operator: test_input.operator.clone(),
                    left: Some(Box::new(Expression::IntegerLiteral(IntegerLiteral {
                        token: Token::new(TokenType::Int, Some(test_input.left_value.to_string())),
                        value: 5,
                    }))),
                    right: Some(Box::new(Expression::IntegerLiteral(IntegerLiteral {
                        token: Token::new(TokenType::Int, Some(test_input.right_value.to_string())),
                        value: 5,
                    }))),
                }))),
            })],
        };
        if parser.errors.len() > 0 {
            println!("Errors:");
            for err in parser.errors.iter() {
                println!("{}", err);
            }
            panic!("Failed")
        }
        assert!(same_statements(&parsed_statement, &expected));

        let whole = ProgramStatement {
            body: vec![Statement::Expression(ExpressionStatement {
                token: Token::new(TokenType::Int, Some(test_input.left_value.to_string())),
                expression: Some(Box::new(Expression::Infix(Infix {
                    token: test_input.token.clone(),
                    operator: test_input.operator.clone(),
                    left: integer(&test_input.left_value.to_string(), test_input.left_value),
                    right: integer(&test_input.right_value.to_string(), test_input.right_value),
                }))),
            })],
        };
        assert_eq!(parsed_statement, whole);
    }
}
