use monke::evaluator::{eval, EvalError};
use monke::lexer::Lexer;
use monke::object::Object;
use monke::parser::Parser;

fn evaluate_input(input: String) -> Object {
    let lexer = Lexer::new(input);
    let mut parser = Parser::new(lexer);

    let program = parser.parse_program();

    if let Err(err) = &program {
        println!("{:?}", err);
    }

    assert!(program.is_ok());
    let program = program.unwrap();

    let result = eval(&program);

    if let Err(err) = &result {
        println!("{:?}", err);
    }

    assert!(result.is_ok());

    result.unwrap()
}

#[test]
fn integer_expression_evaluation_test() {
    let expected = vec![
        ("5", 5),
        ("10", 10),
        ("-5", -5),
        ("-10", -10),
        ("5 + 5 + 5 + 5 - 10", 10),
        ("2 * 2 * 2 * 2 * 2", 32),
        ("-50 + 100 + -50", 0),
        ("5 * 2 + 10", 20),
        ("5 + 2 * 10", 25),
        ("20 + 2 * -10", 0),
        ("50 / 2 * 2 + 10", 60),
        ("2 * (5 + 10)", 30),
        ("3 * 3 * 3 + 10", 37),
        ("3 * (3 * 3) + 10", 37),
        ("(5 + 10 * 2 + 15 / 3) * 2 + -10", 50),
    ];

    for (input, expected_result) in expected {
        let result = evaluate_input(input.to_string());

        match result {
            Object::Integer(int) => assert_eq!(int.value, expected_result),
            actual => panic!("integer expected, but got {:?}", actual),
        }
    }
}

#[test]
fn boolean_expression_evaluation_test() {
    let expected = vec![
        ("true", true),
        ("false", false),
        ("1 < 2", true),
        ("1 > 2", false),
        ("1 < 1", false),
        ("1 > 1", false),
        ("1 == 1", true),
        ("1 != 1", false),
        ("1 == 2", false),
        ("1 != 2", true),
        ("true == true", true),
        ("false == false", true),
        ("true == false", false),
        ("true != false", true),
        ("false != true", true),
        ("(1 < 2) == true", true),
        ("(1 < 2) == false", false),
        ("(1 > 2) == true", false),
        ("(1 > 2) == false", true),
    ];

    for (input, expected_result) in expected {
        let result = evaluate_input(input.to_string());

        match result {
            Object::Boolean(b) => assert_eq!(b.value, expected_result),
            actual => panic!("integer expected, but got {:?}", actual),
        }
    }
}

#[test]
fn bang_operator_evaluation_test() {
    let expected = vec![
        ("!true", false),
        ("!false", true),
        ("!5", false),
        ("!!true", true),
        ("!!false", false),
        ("!!5", true),
    ];

    for (input, expected_result) in expected {
        let result = evaluate_input(input.to_string());

        match result {
            Object::Boolean(b) => assert_eq!(b.value, expected_result),
            actual => panic!("integer expected, but got {:?}", actual),
        }
    }
}

#[test]
fn evaluation_error_test() {
    let cases = vec![
        ("let x = 5;", EvalError::Unsupported),
        ("-true", EvalError::PrefixMinusTypeMismatch),
        ("true + 1", EvalError::InfixTypeMismatch),
        ("true * false", EvalError::InfixOperatorUnsupported),
        ("1 / 0", EvalError::DivisionByZero),
        ("5 / (3 - 3)", EvalError::DivisionByZero),
    ];

    for (input, expected) in cases {
        let lexer = Lexer::new(String::from(input));
        let mut parser = Parser::new(lexer);
        let program = parser.parse_program().unwrap();
        match eval(&program) {
            Err(err) => assert_eq!(err, expected),
            Ok(v) => panic!("expected an evaluation error, got {:?}", v),
        }
    }
}

#[test]
fn evaluation_wrapping_test() {
    // Arithmetic wraps in two's complement; the smallest value negates and
    // divides by minus one to itself.
    let max = i64::MAX.to_string();
    let program_text = format!("{} + 1", max);
    let lexer = Lexer::new(program_text);
    let mut parser = Parser::new(lexer);
    let program = parser.parse_program().unwrap();
    match eval(&program).unwrap() {
        Object::Integer(int) => assert_eq!(int.value, i64::MIN),
        actual => panic!("integer expected, but got {:?}", actual),
    }
}
