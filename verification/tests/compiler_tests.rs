use monke::code::{make, Instructions, OpCodeType};
use monke::compiler::{ByteCode, Compiler, CompileError};
use monke::lexer::Lexer;
use monke::object::Object;
use monke::parser::Parser;

struct TestCase {
    input: String,
    expected_constants: Vec<i64>,
    expected_instructions: Vec<Instructions>,
}

fn compile_input(input: &str) -> ByteCode {
    let lexer = Lexer::new(String::from(input));
    let mut parser = Parser::new(lexer);

    let program = parser.parse_program();

    if let Err(err) = &program {
        println!("{:?}", err);
    }

    assert!(program.is_ok());
    let program = program.unwrap();

    let mut compiler = Compiler::new();

    if let Err(err) = compiler.compile(&program) {
        panic!("{:?}", err);
    }

    compiler.byte_code()
}

fn run_compiler_tests(cases: Vec<TestCase>) {
    for case in cases {
        let byte_code = compile_input(&case.input);
        test_instructions(&byte_code, &case);
        test_constants(&byte_code, &case);
    }
}

fn test_constants(byte_code: &ByteCode, expected: &TestCase) {
    assert_eq!(byte_code.constants.len(), expected.expected_constants.len());

    for (idx, constant) in expected.expected_constants.iter().enumerate() {
        match &byte_code.constants[idx] {
            Object::Integer(int) => assert_eq!(int.value, *constant),
            not_int => panic!("integer expected, got {:?}", not_int),
        }
    }
}

fn test_instructions(byte_code: &ByteCode, expected: &TestCase) {
    let mut flat: Vec<u8> = Vec::new();
    for ins in &expected.expected_instructions {
        flat.extend_from_slice(&ins.0);
    }

    assert_eq!(
        Instructions(flat).disassemble(),
        byte_code.instructions.disassemble()
    );
}

#[test]
fn compiler_integer_arithmetic_test() {
    let expected = vec![
        TestCase {
            input: String::from("1 + 2"),
            expected_constants: vec![1, 2],
            expected_instructions: vec![
                make(OpCodeType::Constant, &vec![0]),
                make(OpCodeType::Constant, &vec![1]),
                make(OpCodeType::Add, &vec![]),
                make(OpCodeType::Pop, &vec![]),
            ],
        },
        TestCase {
            input: String::from("1; 2"),
            expected_constants: vec![1, 2],
            expected_instructions: vec![
                make(OpCodeType::Constant, &vec![0]),
                make(OpCodeType::Pop, &vec![]),
                make(OpCodeType::Constant, &vec![1]),
                make(OpCodeType::Pop, &vec![]),
            ],
        },
        TestCase {
            input: String::from("1 - 2"),
            expected_constants: vec![1, 2],
            expected_instructions: vec![
                make(OpCodeType::Constant, &vec![0]),
                make(OpCodeType::Constant, &vec![1]),
                make(OpCodeType::Sub, &vec![]),
                make(OpCodeType::Pop, &vec![]),
            ],
        },
        TestCase {
            input: String::from("1 * 2"),
            expected_constants: vec![1, 2],
            expected_instructions: vec![
                make(OpCodeType::Constant, &vec![0]),
                make(OpCodeType::Constant, &vec![1]),
                make(OpCodeType::Mul, &vec![]),
                make(OpCodeType::Pop, &vec![]),
            ],
        },
        TestCase {
            input: String::from("2 / 1"),
            expected_constants: vec![2, 1],
            expected_instructions: vec![
                make(OpCodeType::Constant, &vec![0]),
                make(OpCodeType::Constant, &vec![1]),
                make(OpCodeType::Div, &vec![]),
                make(OpCodeType::Pop, &vec![]),
            ],
        },
        TestCase {
            input: String::from("-1"),
            expected_constants: vec![1],
            expected_instructions: vec![
                make(OpCodeType::Constant, &vec![0]),
                make(OpCodeType::Minus, &vec![]),
                make(OpCodeType::Pop, &vec![]),
            ],
        },
    ];

    run_compiler_tests(expected);
}

#[test]
fn compiler_boolean_expression_test() {
    let expected = vec![
        TestCase {
            input: String::from("true"),
            expected_constants: vec![],
            expected_instructions: vec![
                make(OpCodeType::True, &vec![]),
                make(OpCodeType::Pop, &vec![]),
            ],
        },
        TestCase {
            input: String::from("false"),
            expected_constants: vec![],
            expected_instructions: vec![
                make(OpCodeType::False, &vec![]),
                make(OpCodeType::Pop, &vec![]),
            ],
        },
        TestCase {
            input: String::from("1 > 2"),
            expected_constants: vec![1, 2],
            expected_instructions: vec![
                make(OpCodeType::Constant, &vec![0]),
                make(OpCodeType::Constant, &vec![1]),
                make(OpCodeType::GreaterThan, &vec![]),
                make(OpCodeType::Pop, &vec![]),
            ],
        },
        TestCase {
            input: String::from("1 < 2"),
            expected_constants: vec![2, 1],
            expected_instructions: vec![
                make(OpCodeType::Constant, &vec![0]),
                make(OpCodeType::Constant, &vec![1]),
                make(OpCodeType::GreaterThan, &vec![]),
                make(OpCodeType::Pop, &vec![]),
            ],
        },
        TestCase {
            input: String::from("1 == 2"),
            expected_constants: vec![1, 2],
            expected_instructions: vec![
                make(OpCodeType::Constant, &vec![0]),
                make(OpCodeType::Constant, &vec![1]),
                make(OpCodeType::Equal, &vec![]),
                make(OpCodeType::Pop, &vec![]),
            ],
        },
        TestCase {
            input: String::from("1 != 2"),
            expected_constants: vec![1, 2],
            expected_instructions: vec![
                make(OpCodeType::Constant, &vec![0]),
                make(OpCodeType::Constant, &vec![1]),
                make(OpCodeType::NotEqual, &vec![]),
                make(OpCodeType::Pop, &vec![]),
            ],
        },
        TestCase {
            input: String::from("true == false"),
            expected_constants: vec![],
            expected_instructions: vec![
                make(OpCodeType::True, &vec![]),
                make(OpCodeType::False, &vec![]),
                make(OpCodeType::Equal, &vec![]),
                make(OpCodeType::Pop, &vec![]),
            ],
        },
        TestCase {
            input: String::from("true != false"),
            expected_constants: vec![],
            expected_instructions: vec![
                make(OpCodeType::True, &vec![]),
                make(OpCodeType::False, &vec![]),
                make(OpCodeType::NotEqual, &vec![]),
                make(OpCodeType::Pop, &vec![]),
            ],
        },
        TestCase {
            input: String::from("!true"),
            expected_constants: vec![],
            expected_instructions: vec![
                make(OpCodeType::True, &vec![]),
                make(OpCodeType::Bang, &vec![]),
                make(OpCodeType::Pop, &vec![]),
            ],
        },
    ];

    run_compiler_tests(expected);
}

#[test]
fn conditionals_test() {
    let expected = vec![
        TestCase {
            input: String::from("if (true) { 10 }; 3333;"),
            expected_constants: vec![10, 3333],
            expected_instructions: vec![
                make(OpCodeType::True, &vec![]),
                make(OpCodeType::JumpNotTruthy, &vec![7]),
                make(OpCodeType::Constant, &vec![0]),
                make(OpCodeType::Pop, &vec![]),
                make(OpCodeType::Constant, &vec![1]),
                make(OpCodeType::Pop, &vec![]),
            ],
        },
        TestCase {
            input: String::from("if (true) { 10 } else { 20 }; 3333;"),
            expected_constants: vec![10, 20, 3333],
            expected_instructions: vec![
                make(OpCodeType::True, &vec![]),
                make(OpCodeType::JumpNotTruthy, &vec![10]),
                make(OpCodeType::Constant, &vec![0]),
                make(OpCodeType::Jump, &vec![13]),
                make(OpCodeType::Constant, &vec![1]),
                make(OpCodeType::Pop, &vec![]),
                make(OpCodeType::Constant, &vec![2]),
                make(OpCodeType::Pop, &vec![]),
            ],
        },
    ];

    run_compiler_tests(expected);
}

#[test]
fn lt_lowering_test() {
    // `a < b` compiles to the same stream as `b > a`.
    let lt = compile_input("1 < 2");
    let gt = compile_input("2 > 1");
    assert_eq!(
        lt.instructions.disassemble(),
        gt.instructions.disassemble()
    );
    assert_eq!(lt.constants.len(), gt.constants.len());
    for (a, b) in lt.constants.iter().zip(gt.constants.iter()) {
        match (a, b) {
            (Object::Integer(x), Object::Integer(y)) => assert_eq!(x.value, y.value),
            _ => panic!("integer constants expected"),
        }
    }
}

#[test]
fn trailing_pop_elision_test() {
    // A branch arm holding one expression statement ends with the
    // expression's own instruction, never with a pop.
    let byte_code = compile_input("if (true) { 10 }");
    let text = byte_code.instructions.disassemble();
    assert_eq!(text, "0000 OpTrue\n0001 OpJumpNotTruthy 7\n0004 OpConstant 0\n0007 OpPop\n");
}

#[test]
fn compile_error_test() {
    let cases = vec![
        ("let x = 5;", CompileError::Unsupported),
        ("return 5;", CompileError::Unsupported),
        ("foobar", CompileError::Unsupported),
    ];

    for (input, expected) in cases {
        let lexer = Lexer::new(String::from(input));
        let mut parser = Parser::new(lexer);
        let program = parser.parse_program().unwrap();
        let mut compiler = Compiler::new();
        match compiler.compile(&program) {
            Err(err) => assert_eq!(err, expected),
            Ok(()) => panic!("expected a compile error"),
        }
    }
}
