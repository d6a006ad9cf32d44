//! Instruction encoding: the opcode catalog, the `make` encoder for single
//! instructions, big-endian operand decoding, and the textual disassembler.

use vstd::prelude::*;

verus! {

/// The opcode set.  Each opcode is identified by the byte given by
/// [`op_byte`], assigned in catalog order starting at zero.
#[derive(Clone, Copy, PartialEq, Eq, Structural, Debug)]
pub enum OpCodeType {
    Constant,
    Pop,
    Add,
    Sub,
    Mul,
    Div,
    True,
    False,
    Equal,
    NotEqual,
    GreaterThan,
    Minus,
    Bang,
    JumpNotTruthy,
    Jump,
}

/// The byte that encodes an opcode.
pub open spec fn op_byte(op: OpCodeType) -> u8 {
    match op {
        OpCodeType::Constant => 0,
        OpCodeType::Pop => 1,
        OpCodeType::Add => 2,
        OpCodeType::Sub => 3,
        OpCodeType::Mul => 4,
        OpCodeType::Div => 5,
        OpCodeType::True => 6,
        OpCodeType::False => 7,
        OpCodeType::Equal => 8,
        OpCodeType::NotEqual => 9,
        OpCodeType::GreaterThan => 10,
        OpCodeType::Minus => 11,
        OpCodeType::Bang => 12,
        OpCodeType::JumpNotTruthy => 13,
        OpCodeType::Jump => 14,
    }
}

/// The opcode a byte stands for, or `None` outside the defined set.
pub open spec fn op_of_byte(b: u8) -> Option<OpCodeType> {
    if b == 0 {
        Some(OpCodeType::Constant)
    } else if b == 1 {
        Some(OpCodeType::Pop)
    } else if b == 2 {
        Some(OpCodeType::Add)
    } else if b == 3 {
        Some(OpCodeType::Sub)
    } else if b == 4 {
        Some(OpCodeType::Mul)
    } else if b == 5 {
        Some(OpCodeType::Div)
    } else if b == 6 {
        Some(OpCodeType::True)
    } else if b == 7 {
        Some(OpCodeType::False)
    } else if b == 8 {
        Some(OpCodeType::Equal)
    } else if b == 9 {
        Some(OpCodeType::NotEqual)
    } else if b == 10 {
        Some(OpCodeType::GreaterThan)
    } else if b == 11 {
        Some(OpCodeType::Minus)
    } else if b == 12 {
        Some(OpCodeType::Bang)
    } else if b == 13 {
        Some(OpCodeType::JumpNotTruthy)
    } else if b == 14 {
        Some(OpCodeType::Jump)
    } else {
        None
    }
}

/// Byte-to-opcode conversion is the inverse of opcode-to-byte conversion.
pub proof fn lemma_op_byte_round_trip(op: OpCodeType)
    ensures
        op_of_byte(op_byte(op)) == Some(op),
{
}

/// How many operands an opcode takes.  Every operand of the defined set is
/// two bytes wide and big-endian.
pub open spec fn op_operand_count(op: OpCodeType) -> nat {
    match op {
        OpCodeType::Constant => 1,
        OpCodeType::JumpNotTruthy => 1,
        OpCodeType::Jump => 1,
        _ => 0,
    }
}

/// Total encoded width of an instruction: the opcode byte plus two bytes for
/// each operand.
pub open spec fn instr_width(op: OpCodeType) -> nat {
    1 + 2 * op_operand_count(op)
}

pub fn opcode_to_byte(op: OpCodeType) -> (r: u8)
    ensures
        r == op_byte(op),
{
    match op {
        OpCodeType::Constant => 0,
        OpCodeType::Pop => 1,
        OpCodeType::Add => 2,
        OpCodeType::Sub => 3,
        OpCodeType::Mul => 4,
        OpCodeType::Div => 5,
        OpCodeType::True => 6,
        OpCodeType::False => 7,
        OpCodeType::Equal => 8,
        OpCodeType::NotEqual => 9,
        OpCodeType::GreaterThan => 10,
        OpCodeType::Minus => 11,
        OpCodeType::Bang => 12,
        OpCodeType::JumpNotTruthy => 13,
        OpCodeType::Jump => 14,
    }
}

pub fn opcode_from_byte(b: u8) -> (r: Option<OpCodeType>)
    ensures
        r == op_of_byte(b),
{
    if b == 0 {
        Some(OpCodeType::Constant)
    } else if b == 1 {
        Some(OpCodeType::Pop)
    } else if b == 2 {
        Some(OpCodeType::Add)
    } else if b == 3 {
        Some(OpCodeType::Sub)
    } else if b == 4 {
        Some(OpCodeType::Mul)
    } else if b == 5 {
        Some(OpCodeType::Div)
    } else if b == 6 {
        Some(OpCodeType::True)
    } else if b == 7 {
        Some(OpCodeType::False)
    } else if b == 8 {
        Some(OpCodeType::Equal)
    } else if b == 9 {
        Some(OpCodeType::NotEqual)
    } else if b == 10 {
        Some(OpCodeType::GreaterThan)
    } else if b == 11 {
        Some(OpCodeType::Minus)
    } else if b == 12 {
        Some(OpCodeType::Bang)
    } else if b == 13 {
        Some(OpCodeType::JumpNotTruthy)
    } else if b == 14 {
        Some(OpCodeType::Jump)
    } else {
        None
    }
}

pub fn operand_count(op: OpCodeType) -> (r: usize)
    ensures
        r == op_operand_count(op),
{
    match op {
        OpCodeType::Constant => 1,
        OpCodeType::JumpNotTruthy => 1,
        OpCodeType::Jump => 1,
        _ => 0,
    }
}

/// The two big-endian bytes of a 16-bit operand.
pub open spec fn be_bytes(x: u16) -> Seq<u8> {
    seq![(x / 256) as u8, (x % 256) as u8]
}

/// The encoding of a list of 16-bit operands, in order.
pub open spec fn operands_bytes(operands: Seq<u16>) -> Seq<u8>
    decreases operands.len(),
{
    if operands.len() == 0 {
        Seq::empty()
    } else {
        be_bytes(operands[0]) + operands_bytes(operands.drop_first())
    }
}

/// The encoding of one whole instruction: the opcode byte, then each operand
/// in its declared width, big-endian.
pub open spec fn make_spec(op: OpCodeType, operands: Seq<u16>) -> Seq<u8> {
    seq![op_byte(op)] + operands_bytes(operands)
}

/// The 16-bit big-endian value stored at `pos`.
pub open spec fn read_u16_spec(code: Seq<u8>, pos: int) -> u16 {
    (code[pos] * 256 + code[pos + 1]) as u16
}

/// A flat, position-addressed instruction stream.
#[derive(Debug)]
pub struct Instructions(pub Vec<u8>);

impl View for Instructions {
    type V = Seq<u8>;

    open spec fn view(&self) -> Seq<u8> {
        self.0@
    }
}

impl Instructions {
    pub fn len(&self) -> (r: usize)
        ensures
            r == self@.len(),
    {
        self.0.len()
    }
}

/// Encodes one instruction.  Handing `make` the wrong number of operands is
/// a programmer error, so it is ruled out up front.
pub fn make(op: OpCodeType, operands: &Vec<u16>) -> (r: Instructions)
    requires
        operands@.len() == op_operand_count(op),
    ensures
        r@ == make_spec(op, operands@),
        r@.len() == instr_width(op),
{
    let mut out: Vec<u8> = Vec::new();
    out.push(opcode_to_byte(op));
    let mut i: usize = 0;
    while i < operands.len()
        invariant
            i <= operands@.len(),
            operands@.len() == op_operand_count(op),
            out@ == seq![op_byte(op)] + operands_bytes(operands@.take(i as int)),
        decreases operands@.len() - i,
    {
        let x: u16 = operands[i];
        out.push((x / 256) as u8);
        out.push((x % 256) as u8);
        proof {
            lemma_operands_bytes_push(operands@.take(i as int), x);
            assert(operands@.take(i + 1) == operands@.take(i as int).push(x));
        }
        i = i + 1;
    }
    proof {
        assert(operands@.take(operands@.len() as int) == operands@);
        lemma_operands_bytes_len(operands@);
    }
    Instructions(out)
}

/// The encoding of a list of operands is two bytes per operand.
pub proof fn lemma_operands_bytes_len(operands: Seq<u16>)
    ensures
        operands_bytes(operands).len() == 2 * operands.len(),
    decreases operands.len(),
{
    if operands.len() > 0 {
        lemma_operands_bytes_len(operands.drop_first());
    }
}

/// Appending an operand appends its two big-endian bytes.
proof fn lemma_operands_bytes_push(operands: Seq<u16>, x: u16)
    ensures
        operands_bytes(operands.push(x)) == operands_bytes(operands) + be_bytes(x),
    decreases operands.len(),
{
    if operands.len() == 0 {
        assert(operands.push(x).drop_first() == operands);
        assert(operands_bytes(operands.push(x)) =~= operands_bytes(operands) + be_bytes(x));
    } else {
        assert(operands.push(x).drop_first() == operands.drop_first().push(x));
        lemma_operands_bytes_push(operands.drop_first(), x);
        assert(operands_bytes(operands.push(x)) =~= operands_bytes(operands) + be_bytes(x));
    }
}

/// Reads the 2-byte big-endian operand stored at `pos`.
pub fn read_u16(ins: &Instructions, pos: usize) -> (r: u16)
    requires
        pos + 1 < ins@.len(),
    ensures
        r == read_u16_spec(ins@, pos as int),
{
    let n: usize = ins.0.len();
    proof {
        assert(pos + 1 < n);
    }
    let hi: u8 = ins.0[pos];
    let lo: u8 = ins.0[pos + 1];
    (hi as u16) * 256 + (lo as u16)
}

/// The disassembly name of an opcode.
pub open spec fn op_name(op: OpCodeType) -> Seq<char> {
    match op {
        OpCodeType::Constant => "OpConstant"@,
        OpCodeType::Pop => "OpPop"@,
        OpCodeType::Add => "OpAdd"@,
        OpCodeType::Sub => "OpSub"@,
        OpCodeType::Mul => "OpMul"@,
        OpCodeType::Div => "OpDiv"@,
        OpCodeType::True => "OpTrue"@,
        OpCodeType::False => "OpFalse"@,
        OpCodeType::Equal => "OpEqual"@,
        OpCodeType::NotEqual => "OpNotEqual"@,
        OpCodeType::GreaterThan => "OpGreaterThan"@,
        OpCodeType::Minus => "OpMinus"@,
        OpCodeType::Bang => "OpBang"@,
        OpCodeType::JumpNotTruthy => "OpJumpNotTruthy"@,
        OpCodeType::Jump => "OpJump"@,
    }
}

/// The decimal digit characters.
pub open spec fn dec_digit(d: int) -> char {
    if d == 0 {
        '0'
    } else if d == 1 {
        '1'
    } else if d == 2 {
        '2'
    } else if d == 3 {
        '3'
    } else if d == 4 {
        '4'
    } else if d == 5 {
        '5'
    } else if d == 6 {
        '6'
    } else if d == 7 {
        '7'
    } else if d == 8 {
        '8'
    } else {
        '9'
    }
}

/// The decimal digits of a non-negative number, most significant first.
pub open spec fn dec_chars(n: int) -> Seq<char>
    decreases n,
{
    if n < 10 {
        seq![dec_digit(n)]
    } else {
        dec_chars(n / 10) + seq![dec_digit(n % 10)]
    }
}

/// A byte offset as printed at the head of a disassembly line: decimal,
/// zero-padded on the left to at least four digits.
pub open spec fn offset_chars(n: int) -> Seq<char> {
    let d = dec_chars(n);
    if d.len() >= 4 {
        d
    } else {
        Seq::new((4 - d.len()) as nat, |i: int| '0') + d
    }
}

/// The decimal rendering of a list of operands, each preceded by a space.
pub open spec fn operands_chars(operands: Seq<u16>) -> Seq<char>
    decreases operands.len(),
{
    if operands.len() == 0 {
        Seq::empty()
    } else {
        " "@ + dec_chars(operands[0] as int) + operands_chars(operands.drop_first())
    }
}

/// One disassembly line: offset, opcode name, operands, newline.
pub open spec fn instr_line(pos: int, op: OpCodeType, operands: Seq<u16>) -> Seq<char> {
    offset_chars(pos) + " "@ + op_name(op) + operands_chars(operands) + "\n"@
}

/// The operands encoded starting at `pos`: `count` big-endian 16-bit values.
pub open spec fn decode_operands(code: Seq<u8>, pos: int, count: nat) -> Seq<u16>
    decreases count,
{
    if count == 0 {
        Seq::empty()
    } else {
        seq![read_u16_spec(code, pos)] + decode_operands(code, pos + 2, (count - 1) as nat)
    }
}

/// The textual disassembly of the stream from byte offset `pos` on.  A byte
/// outside the opcode set yields an `Unknown` line; a truncated operand ends
/// the walk after a line with the bare opcode name.
pub open spec fn disasm_spec(code: Seq<u8>, pos: int) -> Seq<char>
    decreases code.len() - pos,
{
    if pos < 0 || pos >= code.len() {
        Seq::empty()
    } else {
        match op_of_byte(code[pos]) {
            None => offset_chars(pos) + " Unknown\n"@ + disasm_spec(code, pos + 1),
            Some(op) => {
                let w = instr_width(op) as int;
                if pos + w <= code.len() {
                    instr_line(pos, op, decode_operands(code, pos + 1, op_operand_count(op)))
                        + disasm_spec(code, pos + w)
                } else {
                    offset_chars(pos) + " "@ + op_name(op) + "\n"@
                }
            },
        }
    }
}

/// Appends one decimal digit character.
fn push_digit(s: &mut String, d: u64)
    requires
        d < 10,
    ensures
        final(s)@ == old(s)@ + seq![dec_digit(d as int)],
{
    if d == 0 {
        s.append("0");
        proof {
            reveal_strlit("0");
            assert(s@ =~= old(s)@ + seq![dec_digit(d as int)]);
        }
    } else if d == 1 {
        s.append("1");
        proof {
            reveal_strlit("1");
            assert(s@ =~= old(s)@ + seq![dec_digit(d as int)]);
        }
    } else if d == 2 {
        s.append("2");
        proof {
            reveal_strlit("2");
            assert(s@ =~= old(s)@ + seq![dec_digit(d as int)]);
        }
    } else if d == 3 {
        s.append("3");
        proof {
            reveal_strlit("3");
            assert(s@ =~= old(s)@ + seq![dec_digit(d as int)]);
        }
    } else if d == 4 {
        s.append("4");
        proof {
            reveal_strlit("4");
            assert(s@ =~= old(s)@ + seq![dec_digit(d as int)]);
        }
    } else if d == 5 {
        s.append("5");
        proof {
            reveal_strlit("5");
            assert(s@ =~= old(s)@ + seq![dec_digit(d as int)]);
        }
    } else if d == 6 {
        s.append("6");
        proof {
            reveal_strlit("6");
            assert(s@ =~= old(s)@ + seq![dec_digit(d as int)]);
        }
    } else if d == 7 {
        s.append("7");
        proof {
            reveal_strlit("7");
            assert(s@ =~= old(s)@ + seq![dec_digit(d as int)]);
        }
    } else if d == 8 {
        s.append("8");
        proof {
            reveal_strlit("8");
            assert(s@ =~= old(s)@ + seq![dec_digit(d as int)]);
        }
    } else {
        s.append("9");
        proof {
            reveal_strlit("9");
            assert(s@ =~= old(s)@ + seq![dec_digit(d as int)]);
        }
    }
}

/// Appends the decimal digits of `n`.
pub fn push_dec(s: &mut String, n: u64)
    ensures
        final(s)@ == old(s)@ + dec_chars(n as int),
    decreases n,
{
    if n < 10 {
        push_digit(s, n);
    } else {
        push_dec(s, n / 10);
        push_digit(s, n % 10);
        proof {
            assert(s@ =~= old(s)@ + dec_chars(n as int));
        }
    }
}

/// Appends the zero-padded offset form of `n`.
fn push_offset(s: &mut String, n: u64)
    ensures
        final(s)@ == old(s)@ + offset_chars(n as int),
{
    proof {
        lemma_dec_chars_len(n as int);
        reveal_strlit("0");
        reveal_strlit("00");
        reveal_strlit("000");
    }
    if n < 10 {
        s.append("000");
    } else if n < 100 {
        s.append("00");
    } else if n < 1000 {
        s.append("0");
    }
    push_dec(s, n);
    proof {
        assert(s@ =~= old(s)@ + offset_chars(n as int));
    }
}

/// How many digits a number prints with.
pub proof fn lemma_dec_chars_len(n: int)
    requires
        n >= 0,
    ensures
        dec_chars(n).len() >= 1,
        n < 10 ==> dec_chars(n).len() == 1,
        10 <= n < 100 ==> dec_chars(n).len() == 2,
        100 <= n < 1000 ==> dec_chars(n).len() == 3,
        n >= 1000 ==> dec_chars(n).len() >= 4,
    decreases n,
{
    if n >= 10 {
        lemma_dec_chars_len(n / 10);
    }
}

fn push_op_name(s: &mut String, op: OpCodeType)
    ensures
        final(s)@ == old(s)@ + op_name(op),
{
    match op {
        OpCodeType::Constant => s.append("OpConstant"),
        OpCodeType::Pop => s.append("OpPop"),
        OpCodeType::Add => s.append("OpAdd"),
        OpCodeType::Sub => s.append("OpSub"),
        OpCodeType::Mul => s.append("OpMul"),
        OpCodeType::Div => s.append("OpDiv"),
        OpCodeType::True => s.append("OpTrue"),
        OpCodeType::False => s.append("OpFalse"),
        OpCodeType::Equal => s.append("OpEqual"),
        OpCodeType::NotEqual => s.append("OpNotEqual"),
        OpCodeType::GreaterThan => s.append("OpGreaterThan"),
        OpCodeType::Minus => s.append("OpMinus"),
        OpCodeType::Bang => s.append("OpBang"),
        OpCodeType::JumpNotTruthy => s.append("OpJumpNotTruthy"),
        OpCodeType::Jump => s.append("OpJump"),
    }
}

impl Instructions {
    /// Renders the stream, one instruction per line, as
    /// `NNNN OpName operand ...` with `NNNN` the zero-padded byte offset of
    /// the opcode.
    pub fn disassemble(&self) -> (r: String)
        ensures
            r@ == disasm_spec(self@, 0),
    {
        let mut out = String::new();
        let n: usize = self.0.len();
        let mut pos: usize = 0;
        while pos < n
            invariant
                n == self@.len(),
                pos <= n,
                out@ + disasm_spec(self@, pos as int) == disasm_spec(self@, 0),
            decreases n - pos,
        {
            let ghost prefix = out@;
            let ghost rest = disasm_spec(self@, pos as int);
            match opcode_from_byte(self.0[pos]) {
                None => {
                    push_offset(&mut out, pos as u64);
                    out.append(" Unknown\n");
                    proof {
                        assert(out@ + disasm_spec(self@, pos + 1) =~= disasm_spec(self@, 0));
                    }
                    pos = pos + 1;
                },
                Some(op) => {
                    let count = operand_count(op);
                    proof {
                        assert(count <= 1);
                    }
                    if 1 + 2 * count <= n - pos {
                        push_offset(&mut out, pos as u64);
                        out.append(" ");
                        push_op_name(&mut out, op);
                        let ghost base = out@;
                        let mut k: usize = 0;
                        while k < count
                            invariant
                                k <= count,
                                pos + 1 + 2 * count <= n,
                                n == self@.len(),
                                count == op_operand_count(op),
                                out@ == base + operands_chars(
                                    decode_operands(self@, pos + 1, count as nat).take(k as int),
                                ),
                            decreases count - k,
                        {
                            let x = read_u16(self, pos + 1 + 2 * k);
                            out.append(" ");
                            push_dec(&mut out, x as u64);
                            proof {
                                lemma_decode_operands_index(self@, pos + 1, count as nat, k as int);
                                lemma_operands_chars_push(
                                    decode_operands(self@, pos + 1, count as nat).take(k as int),
                                    x,
                                );
                                assert(decode_operands(self@, pos + 1, count as nat).take(k + 1)
                                    == decode_operands(self@, pos + 1, count as nat).take(
                                    k as int,
                                ).push(x));
                            }
                            k = k + 1;
                        }
                        out.append("\n");
                        proof {
                            let ops = decode_operands(self@, pos + 1, count as nat);
                            lemma_decode_operands_len(self@, pos + 1, count as nat);
                            assert(ops.take(count as int) == ops);
                            assert(out@ =~= prefix + instr_line(pos as int, op, ops));
                            assert(out@ + disasm_spec(self@, pos + instr_width(op))
                                =~= disasm_spec(self@, 0));
                        }
                        pos = pos + 1 + 2 * count;
                    } else {
                        push_offset(&mut out, pos as u64);
                        out.append(" ");
                        push_op_name(&mut out, op);
                        out.append("\n");
                        proof {
                            assert(out@ =~= disasm_spec(self@, 0));
                        }
                        pos = n;
                    }
                },
            }
        }
        out
    }
}

/// The number of decoded operands.
pub proof fn lemma_decode_operands_len(code: Seq<u8>, pos: int, count: nat)
    ensures
        decode_operands(code, pos, count).len() == count,
    decreases count,
{
    if count > 0 {
        lemma_decode_operands_len(code, pos + 2, (count - 1) as nat);
    }
}

/// Each decoded operand is the big-endian value at its slot.
pub proof fn lemma_decode_operands_index(code: Seq<u8>, pos: int, count: nat, i: int)
    requires
        0 <= i < count,
    ensures
        decode_operands(code, pos, count)[i] == read_u16_spec(code, pos + 2 * i),
    decreases count,
{
    lemma_decode_operands_len(code, pos, count);
    if i > 0 {
        lemma_decode_operands_index(code, pos + 2, (count - 1) as nat, i - 1);
    }
}

/// Appending an operand appends its rendering.
proof fn lemma_operands_chars_push(operands: Seq<u16>, x: u16)
    ensures
        operands_chars(operands.push(x)) == operands_chars(operands) + " "@ + dec_chars(x as int),
    decreases operands.len(),
{
    if operands.len() == 0 {
        assert(operands.push(x).drop_first() == operands);
        assert(operands_chars(operands.push(x)) =~= operands_chars(operands) + " "@ + dec_chars(
            x as int,
        ));
    } else {
        assert(operands.push(x).drop_first() == operands.drop_first().push(x));
        lemma_operands_chars_push(operands.drop_first(), x);
        assert(operands_chars(operands.push(x)) =~= operands_chars(operands) + " "@ + dec_chars(
            x as int,
        ));
    }
}

/// An instruction list is well formed when each entry carries exactly the
/// operands its opcode declares.
pub open spec fn instrs_wf(l: Seq<(OpCodeType, Seq<u16>)>) -> bool {
    forall|i: int| 0 <= i < l.len() ==> (#[trigger] l[i]).1.len() == op_operand_count(l[i].0)
}

/// The byte stream of a list of instructions, in order.
pub open spec fn assemble(l: Seq<(OpCodeType, Seq<u16>)>) -> Seq<u8>
    decreases l.len(),
{
    if l.len() == 0 {
        Seq::empty()
    } else {
        make_spec(l[0].0, l[0].1) + assemble(l.drop_first())
    }
}

/// The disassembly a list of instructions ought to produce when its first
/// opcode sits at byte offset `base`: one line per instruction, each headed
/// by the cumulative byte offset of the prior instructions.
pub open spec fn disasm_lines(l: Seq<(OpCodeType, Seq<u16>)>, base: int) -> Seq<char>
    decreases l.len(),
{
    if l.len() == 0 {
        Seq::empty()
    } else {
        instr_line(base, l[0].0, l[0].1) + disasm_lines(
            l.drop_first(),
            base + instr_width(l[0].0),
        )
    }
}

/// How often a character occurs in a sequence.
pub open spec fn count_char(s: Seq<char>, c: char) -> nat
    decreases s.len(),
{
    if s.len() == 0 {
        0
    } else {
        (if s[0] == c {
            1nat
        } else {
            0nat
        }) + count_char(s.drop_first(), c)
    }
}

proof fn lemma_count_char_concat(a: Seq<char>, b: Seq<char>, c: char)
    ensures
        count_char(a + b, c) == count_char(a, c) + count_char(b, c),
    decreases a.len(),
{
    if a.len() == 0 {
        assert(a + b =~= b);
    } else {
        assert((a + b).drop_first() =~= a.drop_first() + b);
        lemma_count_char_concat(a.drop_first(), b, c);
    }
}

proof fn lemma_count_char_none(s: Seq<char>, c: char)
    requires
        forall|j: int| 0 <= j < s.len() ==> s[j] != c,
    ensures
        count_char(s, c) == 0,
    decreases s.len(),
{
    if s.len() > 0 {
        lemma_count_char_none(s.drop_first(), c);
    }
}

proof fn lemma_dec_chars_digits(n: int)
    requires
        n >= 0,
    ensures
        forall|j: int| 0 <= j < dec_chars(n).len() ==> '0' <= #[trigger] dec_chars(n)[j] <= '9',
    decreases n,
{
    if n >= 10 {
        lemma_dec_chars_digits(n / 10);
        assert forall|j: int| 0 <= j < dec_chars(n).len() implies '0' <= #[trigger] dec_chars(n)[j]
            <= '9' by {
            if j < dec_chars(n / 10).len() {
                assert(dec_chars(n)[j] == dec_chars(n / 10)[j]);
            } else {
                assert(dec_chars(n)[j] == dec_digit(n % 10));
            }
        }
    }
}

proof fn lemma_op_name_no_newline(op: OpCodeType)
    ensures
        count_char(op_name(op), '\n') == 0,
        op_name(op).len() >= 1,
{
    reveal_strlit("OpConstant");
    reveal_strlit("OpPop");
    reveal_strlit("OpAdd");
    reveal_strlit("OpSub");
    reveal_strlit("OpMul");
    reveal_strlit("OpDiv");
    reveal_strlit("OpTrue");
    reveal_strlit("OpFalse");
    reveal_strlit("OpEqual");
    reveal_strlit("OpNotEqual");
    reveal_strlit("OpGreaterThan");
    reveal_strlit("OpMinus");
    reveal_strlit("OpBang");
    reveal_strlit("OpJumpNotTruthy");
    reveal_strlit("OpJump");
    lemma_count_char_none(op_name(op), '\n');
}

proof fn lemma_operands_chars_no_newline(operands: Seq<u16>)
    ensures
        count_char(operands_chars(operands), '\n') == 0,
    decreases operands.len(),
{
    reveal_strlit(" ");
    if operands.len() == 0 {
    } else {
        lemma_dec_chars_digits(operands[0] as int);
        lemma_count_char_none(dec_chars(operands[0] as int), '\n');
        lemma_count_char_none(" "@, '\n');
        lemma_operands_chars_no_newline(operands.drop_first());
        lemma_count_char_concat(" "@, dec_chars(operands[0] as int), '\n');
        lemma_count_char_concat(
            " "@ + dec_chars(operands[0] as int),
            operands_chars(operands.drop_first()),
            '\n',
        );
        assert(operands_chars(operands) =~= (" "@ + dec_chars(operands[0] as int))
            + operands_chars(operands.drop_first()));
    }
}

/// The shape of one disassembly line: it begins with the zero-padded decimal
/// byte offset (at least four digits), and its one and only newline is its
/// final character.
pub proof fn lemma_instr_line_shape(pos: int, op: OpCodeType, operands: Seq<u16>)
    requires
        pos >= 0,
    ensures
        instr_line(pos, op, operands).take(offset_chars(pos).len() as int) == offset_chars(pos),
        offset_chars(pos).len() >= 4,
        forall|j: int|
            0 <= j < offset_chars(pos).len() ==> '0' <= #[trigger] offset_chars(pos)[j] <= '9',
        count_char(instr_line(pos, op, operands), '\n') == 1,
        instr_line(pos, op, operands).last() == '\n',
{
    reveal_strlit(" ");
    reveal_strlit("\n");
    let line = instr_line(pos, op, operands);
    let off = offset_chars(pos);
    lemma_dec_chars_len(pos);
    lemma_dec_chars_digits(pos);
    assert(forall|j: int| 0 <= j < off.len() ==> '0' <= #[trigger] off[j] <= '9');
    assert(line.take(off.len() as int) =~= off);
    lemma_count_char_none(off, '\n');
    lemma_count_char_none(" "@, '\n');
    lemma_op_name_no_newline(op);
    lemma_operands_chars_no_newline(operands);
    assert(count_char("\n"@, '\n') == 1) by {
        assert("\n"@.drop_first() =~= Seq::<char>::empty());
        lemma_count_char_none("\n"@.drop_first(), '\n');
    }
    lemma_count_char_concat(off, " "@, '\n');
    lemma_count_char_concat(off + " "@, op_name(op), '\n');
    lemma_count_char_concat(off + " "@ + op_name(op), operands_chars(operands), '\n');
    lemma_count_char_concat(off + " "@ + op_name(op) + operands_chars(operands), "\n"@, '\n');
}

/// Disassembling an assembled instruction list yields exactly the expected
/// lines: the walk decodes each instruction in turn and labels it with the
/// cumulative byte offset.
proof fn lemma_disasm_assembled(code: Seq<u8>, l: Seq<(OpCodeType, Seq<u16>)>, base: int)
    requires
        instrs_wf(l),
        0 <= base <= code.len(),
        code.subrange(base, code.len() as int) == assemble(l),
    ensures
        disasm_spec(code, base) == disasm_lines(l, base),
    decreases l.len(),
{
    let suffix = code.subrange(base, code.len() as int);
    if l.len() == 0 {
        assert(suffix.len() == 0);
    } else {
        let op = l[0].0;
        let operands = l[0].1;
        let w = instr_width(op) as int;
        let enc = make_spec(op, operands);
        lemma_operands_bytes_len(operands);
        lemma_encoding_round_trip(op, operands);
        assert(assemble(l) == enc + assemble(l.drop_first()));
        assert(suffix.len() == code.len() - base);
        assert(suffix.len() == enc.len() + assemble(l.drop_first()).len());
        assert(enc.len() == w);
        assert(base + w <= code.len());
        assert forall|j: int| 0 <= j < enc.len() implies code[base + j] == #[trigger] enc[j] by {
            assert(suffix[j] == code[base + j]);
            assert(suffix[j] == (enc + assemble(l.drop_first()))[j]);
        }
        assert(code[base] == enc[0]);
        assert(op_of_byte(code[base]) == Some(op));
        let count = op_operand_count(op);
        let decoded = decode_operands(code, base + 1, count);
        lemma_decode_operands_len(code, base + 1, count);
        assert(decoded =~= operands) by {
            if count == 1 {
                lemma_decode_operands_index(code, base + 1, count, 0);
                assert(code[base + 1] == enc[1]);
                assert(code[base + 2] == enc[2]);
                assert(enc =~= seq![op_byte(op), (operands[0] / 256) as u8, (operands[0]
                    % 256) as u8]) by {
                    assert(operands.drop_first().len() == 0);
                    assert(operands_bytes(operands.drop_first()) =~= Seq::empty());
                }
                assert((operands[0] / 256) * 256 + operands[0] % 256 == operands[0]) by {
                    vstd::arithmetic::div_mod::lemma_fundamental_div_mod(operands[0] as int, 256);
                }
            }
        }
        assert forall|j: int| 0 <= j < code.len() - base - w implies #[trigger] code.subrange(
            base + w,
            code.len() as int,
        )[j] == assemble(l.drop_first())[j] by {
            assert(suffix[j + w] == (enc + assemble(l.drop_first()))[j + w]);
        }
        assert(code.subrange(base + w, code.len() as int) =~= assemble(l.drop_first()));
        assert(instrs_wf(l.drop_first())) by {
            assert(forall|i: int|
                0 <= i < l.drop_first().len() ==> #[trigger] l.drop_first()[i] == l[i + 1]);
        }
        lemma_disasm_assembled(code, l.drop_first(), base + w);
        assert(disasm_spec(code, base) == instr_line(base, op, decoded) + disasm_spec(
            code,
            base + w,
        ));
    }
}

/// Disassembly format: the textual form of any well-formed instruction
/// sequence is the concatenation of one line per instruction, each line
/// headed by the zero-padded byte offset that equals the cumulative byte
/// length of the prior instructions, and the text holds exactly one newline
/// per instruction.
pub proof fn lemma_disassembly_format(l: Seq<(OpCodeType, Seq<u16>)>)
    requires
        instrs_wf(l),
    ensures
        disasm_spec(assemble(l), 0) == disasm_lines(l, 0),
        count_char(disasm_spec(assemble(l), 0), '\n') == l.len(),
{
    let code = assemble(l);
    assert(code.subrange(0, code.len() as int) =~= code);
    lemma_disasm_assembled(code, l, 0);
    lemma_disasm_lines_newlines(l, 0);
}

proof fn lemma_disasm_lines_newlines(l: Seq<(OpCodeType, Seq<u16>)>, base: int)
    requires
        base >= 0,
    ensures
        count_char(disasm_lines(l, base), '\n') == l.len(),
    decreases l.len(),
{
    if l.len() > 0 {
        lemma_instr_line_shape(base, l[0].0, l[0].1);
        lemma_disasm_lines_newlines(l.drop_first(), base + instr_width(l[0].0));
        lemma_count_char_concat(
            instr_line(base, l[0].0, l[0].1),
            disasm_lines(l.drop_first(), base + instr_width(l[0].0)),
            '\n',
        );
    }
}

/// Encoding round-trip: decoding the first byte of `make(op, operands)`
/// recovers `op`, and decoding each operand slot per the opcode definition
/// recovers the operands.
pub proof fn lemma_encoding_round_trip(op: OpCodeType, operands: Seq<u16>)
    requires
        operands.len() == op_operand_count(op),
    ensures
        make_spec(op, operands).len() == instr_width(op),
        op_of_byte(make_spec(op, operands)[0]) == Some(op),
        forall|i: int|
            0 <= i < operands.len() ==> read_u16_spec(make_spec(op, operands), 1 + 2 * i)
                == operands[i],
{
    lemma_op_byte_round_trip(op);
    let enc = make_spec(op, operands);
    if operands.len() == 1 {
        let x = operands[0];
        assert(operands.drop_first().len() == 0);
        assert(operands_bytes(operands.drop_first()) =~= Seq::empty());
        assert(enc =~= seq![op_byte(op), (x / 256) as u8, (x % 256) as u8]);
        assert((x / 256) * 256 + x % 256 == x) by {
            vstd::arithmetic::div_mod::lemma_fundamental_div_mod(x as int, 256);
        }
        assert(read_u16_spec(enc, 1) == x);
    } else {
        assert(enc =~= seq![op_byte(op)]);
    }
}

} // verus!
