use monke::code::{
    make, opcode_from_byte, opcode_to_byte, read_u16, Instructions, OpCodeType,
};

#[test]
fn encoding_round_trip_test() {
    // Decoding the first byte of an encoded instruction recovers the
    // opcode, and decoding the operand slots recovers the operands.
    let with_operand = vec![
        (OpCodeType::Constant, 65534u16),
        (OpCodeType::Jump, 0u16),
        (OpCodeType::JumpNotTruthy, 9999u16),
    ];
    for (op, operand) in with_operand {
        let ins = make(op, &vec![operand]);
        assert_eq!(ins.0.len(), 3);
        assert_eq!(opcode_from_byte(ins.0[0]), Some(op));
        assert_eq!(read_u16(&ins, 1), operand);
    }

    let without_operand = vec![
        OpCodeType::Pop,
        OpCodeType::Add,
        OpCodeType::Sub,
        OpCodeType::Mul,
        OpCodeType::Div,
        OpCodeType::True,
        OpCodeType::False,
        OpCodeType::Equal,
        OpCodeType::NotEqual,
        OpCodeType::GreaterThan,
        OpCodeType::Minus,
        OpCodeType::Bang,
    ];
    for op in without_operand {
        let ins = make(op, &vec![]);
        assert_eq!(ins.0.len(), 1);
        assert_eq!(opcode_from_byte(ins.0[0]), Some(op));
    }

    assert_eq!(opcode_from_byte(255), None);
    assert_eq!(opcode_to_byte(OpCodeType::Constant), 0);
}

#[test]
fn disassembly_format_test() {
    // One line per instruction, each headed by the 4-digit zero-padded
    // byte offset of its opcode.
    let mut bytes: Vec<u8> = Vec::new();
    bytes.extend_from_slice(&make(OpCodeType::Constant, &vec![1]).0);
    bytes.extend_from_slice(&make(OpCodeType::Constant, &vec![2]).0);
    bytes.extend_from_slice(&make(OpCodeType::Constant, &vec![65535]).0);
    let ins = Instructions(bytes);

    assert_eq!(
        ins.disassemble(),
        "0000 OpConstant 1\n0003 OpConstant 2\n0006 OpConstant 65535\n"
    );

    let mut more: Vec<u8> = Vec::new();
    more.extend_from_slice(&make(OpCodeType::Add, &vec![]).0);
    more.extend_from_slice(&make(OpCodeType::Constant, &vec![2]).0);
    more.extend_from_slice(&make(OpCodeType::Pop, &vec![]).0);
    assert_eq!(
        Instructions(more).disassemble(),
        "0000 OpAdd\n0001 OpConstant 2\n0004 OpPop\n"
    );

    // Each instruction occupies exactly one line.
    let text = ins.disassemble();
    assert_eq!(text.lines().count(), 3);
    for (line, offset) in text.lines().zip(["0000", "0003", "0006"]) {
        assert!(line.starts_with(offset));
    }
}
