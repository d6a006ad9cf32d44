use monke::code::Instructions;
use monke::compiler::{ByteCode, Compiler};
use monke::lexer::Lexer;
use monke::object::Object;
use monke::parser::Parser;
use monke::vm::{Vm, VmError};

fn run_input(input: &str) -> Object {
    let lexer = Lexer::new(String::from(input));
    let mut parser = Parser::new(lexer);

    let program = parser.parse_program();

    if let Err(err) = &program {
        panic!("{:?}", err);
    }

    let program = program.unwrap();

    let mut compiler = Compiler::new();

    if let Err(err) = compiler.compile(&program) {
        panic!("{:?}", err);
    }

    let byte_code = compiler.byte_code();
    let mut vm = Vm::new(byte_code);

    if let Err(err) = vm.run() {
        panic!("{:?}", err);
    }

    let stack_elem = vm.last_popped_stack_elem();
    assert!(stack_elem.is_ok());
    stack_elem.unwrap()
}

fn expect_int(input: &str, expected: i64) {
    match run_input(input) {
        Object::Integer(int) => assert_eq!(int.value, expected),
        not_int => panic!("integer expected, got {:?}", not_int),
    }
}

fn expect_bool(input: &str, expected: bool) {
    match run_input(input) {
        Object::Boolean(b) => assert_eq!(b.value, expected),
        not_bool => panic!("integer expected, got {:?}", not_bool),
    }
}

#[test]
fn vm_integer_arithmetic_test() {
    let expected = vec![
        ("1", 1),
        ("2", 2),
        ("1 + 2", 3),
        ("1 - 2", -1),
        ("1 * 2", 2),
        ("4 / 2", 2),
        ("50 / 2 * 2 + 10 - 5", 55),
        ("5 + 5 + 5 + 5 - 10", 10),
        ("2 * 2 * 2 * 2 * 2", 32),
        ("5 * 2 + 10", 20),
        ("5 + 2 * 10", 25),
        ("5 * (2 + 10)", 60),
        ("-5", -5),
        ("-10", -10),
        ("-50 + 100 + -50", 0),
        ("(5 + 10 * 2 + 15 / 3) * 2 + -10", 50),
    ];

    for (input, expected_result) in expected {
        expect_int(input, expected_result);
    }
}

#[test]
fn vm_boolean_expression_test() {
    let expected = vec![
        ("true", true),
        ("false", false),
        ("1 < 2", true),
        ("1 > 2", false),
        ("1 < 1", false),
        ("1 > 1", false),
        ("1 == 1", true),
        ("1 != 1", false),
        ("1 == 2", false),
        ("1 != 2", true),
        ("true == true", true),
        ("false == false", true),
        ("true == false", false),
        ("true != false", true),
        ("false != true", true),
        ("(1 < 2) == true", true),
        ("(1 < 2) == false", false),
        ("(1 > 2) == true", false),
        ("(1 > 2) == false", true),
        ("!true", false),
        ("!false", true),
        ("!5", false),
        ("!!true", true),
        ("!!false", false),
        ("!!5", true),
    ];

    for (input, expected_result) in expected {
        expect_bool(input, expected_result);
    }
}

#[test]
fn vm_conditional_test() {
    // The end-to-end conditional scenarios: the branch value survives on
    // the stack and the following statement's value is popped last.
    expect_int("if (true) { 10 }; 3333;", 3333);
    expect_int("if (true) { 10 } else { 20 }; 3333;", 3333);
    expect_int("if (true) { 10 }", 10);
    expect_int("if (true) { 10 } else { 20 }", 10);
    expect_int("if (false) { 10 } else { 20 }", 20);
    expect_bool("!5", false);
    expect_int("-50 + 100 + -50", 0);
}

#[test]
fn vm_stack_balance_test() {
    // After a successful run of expression statements, the stack pointer
    // is back at the bottom and the last popped slot holds the final value.
    let lexer = Lexer::new(String::from("1; 2; 3;"));
    let mut parser = Parser::new(lexer);
    let program = parser.parse_program().unwrap();
    let mut compiler = Compiler::new();
    compiler.compile(&program).unwrap();
    let mut vm = Vm::new(compiler.byte_code());
    vm.run().unwrap();
    assert!(vm.stack_top().is_none());
    match vm.last_popped_stack_elem().unwrap() {
        Object::Integer(int) => assert_eq!(int.value, 3),
        not_int => panic!("integer expected, got {:?}", not_int),
    }
}

#[test]
fn vm_error_test() {
    // Malformed streams and runtime type errors each report their error.
    let cases: Vec<(Vec<u8>, Vec<Object>, VmError)> = vec![
        // A byte outside the opcode set.
        (vec![99], vec![], VmError::UnknownOpcode),
        // A constant operand cut off by the end of the stream.
        (vec![0, 0], vec![], VmError::TruncatedOperand),
        // A constants index with no entry.
        (vec![0, 0, 0], vec![], VmError::ConstantOutOfRange),
        // A pop from an empty stack.
        (vec![1], vec![], VmError::StackUnderflow),
        // Addition with one operand missing.
        (vec![6, 2], vec![], VmError::StackUnderflow),
        // Addition of two booleans.
        (vec![6, 6, 2], vec![], VmError::BinaryTypeMismatch),
        // Comparison of a boolean with an integer.
        (
            vec![6, 0, 0, 0, 8],
            vec![Object::Integer(monke::object::Integer { value: 1 })],
            VmError::ComparisonTypeMismatch,
        ),
        // Negation of a boolean.
        (vec![6, 11], vec![], VmError::NegationTypeMismatch),
        // A jump that does not move forward.
        (vec![14, 0, 0], vec![], VmError::BackwardJump),
    ];

    for (bytes, constants, expected) in cases {
        let byte_code = ByteCode {
            instructions: Instructions(bytes),
            constants,
        };
        let mut vm = Vm::new(byte_code);
        match vm.run() {
            Err(err) => assert_eq!(err, expected),
            Ok(()) => panic!("expected a run error"),
        }
    }
}

#[test]
fn vm_division_by_zero_test() {
    let lexer = Lexer::new(String::from("1 / 0"));
    let mut parser = Parser::new(lexer);
    let program = parser.parse_program().unwrap();
    let mut compiler = Compiler::new();
    compiler.compile(&program).unwrap();
    let mut vm = Vm::new(compiler.byte_code());
    match vm.run() {
        Err(err) => assert_eq!(err, VmError::DivisionByZero),
        Ok(()) => panic!("expected a run error"),
    }
}

#[test]
fn vm_stack_overflow_test() {
    // 2049 pushes of `true` exceed the 2048-slot stack.
    let byte_code = ByteCode {
        instructions: Instructions(vec![6; 2049]),
        constants: vec![],
    };
    let mut vm = Vm::new(byte_code);
    match vm.run() {
        Err(err) => assert_eq!(err, VmError::StackOverflow),
        Ok(()) => panic!("expected a run error"),
    }
}

#[test]
fn vm_evaluator_agreement_test() {
    // The machine and the tree-walking evaluator produce the same final
    // value for every accepted program.
    let inputs = vec![
        "5",
        "-5",
        "1 + 2",
        "1 - 2",
        "2 * 3",
        "7 / 2",
        "50 / 2 * 2 + 10 - 5",
        "(5 + 10 * 2 + 15 / 3) * 2 + -10",
        "1 < 2",
        "2 < 1",
        "1 > 2",
        "1 == 1",
        "1 != 2",
        "true == true",
        "true != false",
        "!true",
        "!!5",
        "1; 2; 3 * 4",
        "9223372036854775807 + 1",
    ];

    for input in inputs {
        let lexer = Lexer::new(String::from(input));
        let mut parser = Parser::new(lexer);
        let program = parser.parse_program().unwrap();

        let evaluated = monke::evaluator::eval(&program).unwrap();

        let mut compiler = Compiler::new();
        compiler.compile(&program).unwrap();
        let mut vm = Vm::new(compiler.byte_code());
        vm.run().unwrap();
        let ran = vm.last_popped_stack_elem().unwrap();

        match (&evaluated, &ran) {
            (Object::Integer(a), Object::Integer(b)) => assert_eq!(a.value, b.value),
            (Object::Boolean(a), Object::Boolean(b)) => assert_eq!(a.value, b.value),
            _ => panic!("mismatched values: {:?} vs {:?}", evaluated, ran),
        }
    }
}
