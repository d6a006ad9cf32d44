use monke::ast::{Expression, Identifier, LetStatement, Program, Statement};
use monke::parser::ParseError;
use monke::lexer::Lexer;
use monke::parser::Parser;
use monke::token::Token;

fn parse(input: &str) -> Program {
    let lexer = Lexer::new(String::from(input));
    let mut parser = Parser::new(lexer);
    let program = parser.parse_program();
    if let Err(err) = &program {
        println!("{:?}", err);
    }
    assert!(program.is_ok());
    program.unwrap()
}

#[test]
fn let_statements_test() {
    let input = "let x = 5;\nlet y = 10;\nlet foobar = 838383;";
    let program = parse(input);

    assert!(program.statements.len() == 3);

    let expected_identifiers = vec![
        Token::Ident(String::from("x")),
        Token::Ident(String::from("y")),
        Token::Ident(String::from("foobar")),
    ];

    for (expected_token, statement) in expected_identifiers.iter().zip(program.statements) {
        match statement {
            Statement::Let(let_statement) => {
                assert_eq!(let_statement.token, Token::Let);
                assert_eq!(&let_statement.name.token, expected_token);
            }
            _ => panic!("expected let statement"),
        }
    }
}

#[test]
fn return_statements_test() {
    let input = "\nreturn 5;\nreturn 10;\nreturn 993322;\n";
    let program = parse(input);

    assert!(program.statements.len() == 3);

    for statement in program.statements {
        match statement {
            Statement::Return(return_statement) => {
                assert_eq!(return_statement.token, Token::Return);
            }
            _ => panic!("expected let statement"),
        }
    }
}

#[test]
fn pretty_print_test() {
    let program = Program {
        statements: vec![Statement::Let(LetStatement {
            token: Token::Let,
            name: Identifier {
                token: Token::Ident(String::from("myVar")),
            },
            value: Box::new(Expression::Identifier(Identifier {
                token: Token::Ident(String::from("anotherVar")),
            })),
        })],
    };

    assert_eq!(
        program.pretty_print(),
        String::from("let myVar = anotherVar;")
    );
}

#[test]
fn identifier_expression_test() {
    let program = parse("foobar;");

    assert!(program.statements.len() == 1);
    let expression_statement = match program.statements.first().unwrap() {
        Statement::Expression(e) => e,
        _ => panic!("expected expression statement"),
    };

    let identifier = match expression_statement.expression.as_ref() {
        Expression::Identifier(ident) => ident,
        _ => panic!("expected identifier expresssion"),
    };

    assert_eq!(identifier.token, Token::Ident(String::from("foobar")));
}

#[test]
fn integer_literal_expression_test() {
    let program = parse("5;");

    assert!(program.statements.len() == 1);
    let expression_statement = match program.statements.first().unwrap() {
        Statement::Expression(e) => e,
        _ => panic!("expected expression statement"),
    };

    let integer_literal = match expression_statement.expression.as_ref() {
        Expression::IntegerLiteral(int) => int,
        _ => panic!("expected integer literal expression"),
    };

    assert_eq!(integer_literal.token, Token::Int(String::from("5")));
    assert_eq!(integer_literal.value, 5);
}

#[test]
fn prefix_expression_test() {
    let expected_expressions = vec![("!5;", Token::Bang, 5), ("-15;", Token::Minus, 15)];

    for (input, expected_token, expected_number) in expected_expressions {
        let program = parse(input);

        assert!(program.statements.len() == 1);
        let expression_statement = match program.statements.first().unwrap() {
            Statement::Expression(e) => e,
            _ => panic!("expected expression statement"),
        };

        let prefix_expression = match expression_statement.expression.as_ref() {
            Expression::Prefix(p) => p,
            _ => panic!("expected prefix expression"),
        };

        assert_eq!(prefix_expression.token, expected_token);

        let integer_literal = match prefix_expression.right.as_ref() {
            Expression::IntegerLiteral(int) => int,
            _ => panic!("expected integer literal expression"),
        };

        assert_eq!(integer_literal.value, expected_number);
    }
}

#[test]
fn infix_expression_test() {
    let expected_expressions = vec![
        ("5 + 5;", 5, Token::Plus, 5),
        ("5 - 5;", 5, Token::Minus, 5),
        ("5 * 5;", 5, Token::Asterisk, 5),
        ("5 / 5;", 5, Token::Slash, 5),
        ("5 > 5;", 5, Token::Gt, 5),
        ("5 < 5;", 5, Token::Lt, 5),
        ("5 == 5;", 5, Token::Eq, 5),
        ("5 != 5;", 5, Token::Ne, 5),
    ];

    for (input, left, expected_token, right) in expected_expressions {
        let program = parse(input);

        assert!(program.statements.len() == 1);
        let expression_statement = match program.statements.first().unwrap() {
            Statement::Expression(e) => e,
            _ => panic!("expected expression statement"),
        };

        let infix_expression = match expression_statement.expression.as_ref() {
            Expression::Infix(i) => i,
            _ => panic!("expected infix expression"),
        };

        assert_eq!(infix_expression.token, expected_token);

        let left_integer_literal = match infix_expression.left.as_ref() {
            Expression::IntegerLiteral(int) => int,
            _ => panic!("expected integer literal expression"),
        };
        let right_integer_literal = match infix_expression.right.as_ref() {
            Expression::IntegerLiteral(int) => int,
            _ => panic!("expected integer literal expression"),
        };

        assert_eq!(left_integer_literal.value, left);
        assert_eq!(right_integer_literal.value, right);
    }
}

#[test]
fn operator_precedence_test() {
    let expected_expressions = vec![
        ("-a * b", "((-a) * b)"),
        ("!-a", "(!(-a))"),
        ("a + b + c", "((a + b) + c)"),
        ("a + b - c", "((a + b) - c)"),
        ("a * b * c", "((a * b) * c)"),
        ("a * b / c", "((a * b) / c)"),
        ("a + b / c", "(a + (b / c))"),
        ("a + b * c + d / e - f", "(((a + (b * c)) + (d / e)) - f)"),
        ("3 + 4; -5 * 5", "(3 + 4)((-5) * 5)"),
        ("5 > 4 == 3 < 4", "((5 > 4) == (3 < 4))"),
        ("5 < 4 != 3 > 4", "((5 < 4) != (3 > 4))"),
        (
            "3 + 4 * 5 == 3 * 1 + 4 * 5",
            "((3 + (4 * 5)) == ((3 * 1) + (4 * 5)))",
        ),
        (
            "3 + 4 * 5 == 3 * 1 + 4 * 5",
            "((3 + (4 * 5)) == ((3 * 1) + (4 * 5)))",
        ),
    ];
    for (input, expected) in expected_expressions {
        let program = parse(input);
        assert_eq!(program.pretty_print(), expected);
    }
}

#[test]
fn parse_error_test() {
    let cases = vec![
        ("let = 5;", ParseError::LetIdentifierExpected),
        ("let x 5;", ParseError::LetAssignExpected),
        ("let x = 5", ParseError::StatementEndMissing),
        ("return 5", ParseError::StatementEndMissing),
        ("=", ParseError::UnsupportedPrefixToken),
        ("(1 + 2", ParseError::GroupUnclosed),
        ("if true { 1 }", ParseError::IfParenExpected),
        ("if (true { 1 }", ParseError::IfParenUnclosed),
        ("if (true) 1", ParseError::BlockBraceExpected),
        ("if (true) { 1", ParseError::BlockUnclosed),
        ("99999999999999999999;", ParseError::IntegerLiteralInvalid),
    ];

    for (input, expected) in cases {
        let lexer = Lexer::new(String::from(input));
        let mut parser = Parser::new(lexer);
        match parser.parse_program() {
            Err(err) => assert_eq!(err, expected),
            Ok(_) => panic!("expected a parse error"),
        }
    }
}
