//! The bytecode compiler: lowers a syntax tree into a flat instruction
//! stream and a constants pool, patching forward jump targets after the
//! branch arms are compiled.

use vstd::prelude::*;

use crate::ast::{expr_view, ExprV, Expression, IfExpression, InfixExpression, Program, Statement, StmtV};
use crate::code::{
    instr_width, make, make_spec, op_of_byte, op_operand_count, opcode_from_byte, operand_count,
    Instructions, OpCodeType,
};
use crate::object::{clone_objects, objs_view, Integer, ObjV, Object};
use crate::token::TokV;

verus! {

/// Why a compilation failed.
#[derive(Debug, Clone, Copy, PartialEq, Eq, Structural)]
pub enum CompileError {
    /// A construct the compiler does not yet support.
    Unsupported,
    /// A prefix operator other than `!` or `-`.
    PrefixOperatorUnsupported,
    /// An infix operator outside the supported set.
    InfixOperatorUnsupported,
    /// A constants-pool index beyond what a two-byte operand can address.
    TooManyConstants,
    /// A jump target beyond what a two-byte operand can address.
    PatchTargetUnencodable,
    /// An operand patch at a position that holds no patchable instruction.
    PatchFailed,
    /// A trailing-pop removal without a recorded last instruction.
    RemoveLastPopFailed,
}

/// The placeholder operand a forward jump is emitted with, before its
/// target is known.
pub open spec fn placeholder() -> u16 {
    9999
}

/// The compiler's state: the bytes emitted so far, the constants pool, and
/// the opcodes and positions of the last two emissions.
pub struct CompSt {
    pub code: Seq<u8>,
    pub consts: Seq<ObjV>,
    pub last: Option<(OpCodeType, int)>,
    pub prev: Option<(OpCodeType, int)>,
}

/// The state of a fresh compiler.
pub open spec fn init_state() -> CompSt {
    CompSt { code: Seq::empty(), consts: Seq::empty(), last: None, prev: None }
}

/// Appending one instruction: bytes go at the end, the emission history
/// shifts.
pub open spec fn emit_spec(st: CompSt, op: OpCodeType, operands: Seq<u16>) -> CompSt {
    CompSt {
        code: st.code + make_spec(op, operands),
        consts: st.consts,
        last: Some((op, st.code.len() as int)),
        prev: st.last,
    }
}

/// Whether the most recent emission was a `Pop`.
pub open spec fn last_is_pop(st: CompSt) -> bool {
    match st.last {
        Some((op, _)) => op == OpCodeType::Pop,
        None => false,
    }
}

/// Removing the most recent emission: the stream is truncated at its
/// position and the one emission before it becomes the last again.
pub open spec fn remove_last_pop_spec(st: CompSt) -> Result<CompSt, CompileError> {
    match st.last {
        Some((op, pos)) => if 0 <= pos <= st.code.len() {
            Ok(CompSt { code: st.code.take(pos), consts: st.consts, last: st.prev, prev: st.prev })
        } else {
            Err(CompileError::RemoveLastPopFailed)
        },
        None => Err(CompileError::RemoveLastPopFailed),
    }
}

/// Re-encoding the instruction at `pos` with the 2-byte operand `operand`,
/// in place.  The new encoding has the same length as the old one.
pub open spec fn change_operand_spec(st: CompSt, pos: int, operand: u16) -> Result<
    CompSt,
    CompileError,
> {
    if !(0 <= pos < st.code.len()) {
        Err(CompileError::PatchFailed)
    } else {
        match op_of_byte(st.code[pos]) {
            Some(op) => if op_operand_count(op) == 1 && pos + instr_width(op) <= st.code.len() {
                Ok(
                    CompSt {
                        code: st.code.take(pos) + make_spec(op, seq![operand]) + st.code.skip(
                            pos + 3,
                        ),
                        consts: st.consts,
                        last: st.last,
                        prev: st.prev,
                    },
                )
            } else {
                Err(CompileError::PatchFailed)
            },
            None => Err(CompileError::PatchFailed),
        }
    }
}

/// Patching a jump to a byte offset: the offset must fit in two bytes.
pub open spec fn patch_spec(st: CompSt, pos: int, target: int) -> Result<CompSt, CompileError> {
    if !(0 <= target <= 65535) {
        Err(CompileError::PatchTargetUnencodable)
    } else {
        change_operand_spec(st, pos, target as u16)
    }
}

/// What compiling an expression does to the state.
pub open spec fn compile_expr_spec(e: ExprV, st: CompSt) -> Result<CompSt, CompileError>
    decreases e, 2int, 0int,
{
    match e {
        ExprV::Int { token, value } => if st.consts.len() > 65535 {
            Err(CompileError::TooManyConstants)
        } else {
            let idx = st.consts.len() as u16;
            let st1 = CompSt {
                code: st.code,
                consts: st.consts.push(ObjV::Int(value)),
                last: st.last,
                prev: st.prev,
            };
            Ok(emit_spec(st1, OpCodeType::Constant, seq![idx]))
        },
        ExprV::Bool { token, value } => if value {
            Ok(emit_spec(st, OpCodeType::True, Seq::empty()))
        } else {
            Ok(emit_spec(st, OpCodeType::False, Seq::empty()))
        },
        ExprV::Prefix { token, right } => match compile_expr_spec(*right, st) {
            Ok(st1) => match token {
                TokV::Bang => Ok(emit_spec(st1, OpCodeType::Bang, Seq::empty())),
                TokV::Minus => Ok(emit_spec(st1, OpCodeType::Minus, Seq::empty())),
                _ => Err(CompileError::PrefixOperatorUnsupported),
            },
            Err(e2) => Err(e2),
        },
        ExprV::Infix { token, left, right } => if token == TokV::Lt {
            match compile_expr_spec(*right, st) {
                Ok(st1) => match compile_expr_spec(*left, st1) {
                    Ok(st2) => Ok(emit_spec(st2, OpCodeType::GreaterThan, Seq::empty())),
                    Err(e2) => Err(e2),
                },
                Err(e2) => Err(e2),
            }
        } else {
            match compile_expr_spec(*left, st) {
                Ok(st1) => match compile_expr_spec(*right, st1) {
                    Ok(st2) => match token {
                        TokV::Plus => Ok(emit_spec(st2, OpCodeType::Add, Seq::empty())),
                        TokV::Minus => Ok(emit_spec(st2, OpCodeType::Sub, Seq::empty())),
                        TokV::Asterisk => Ok(emit_spec(st2, OpCodeType::Mul, Seq::empty())),
                        TokV::Slash => Ok(emit_spec(st2, OpCodeType::Div, Seq::empty())),
                        TokV::Gt => Ok(emit_spec(st2, OpCodeType::GreaterThan, Seq::empty())),
                        TokV::Eq => Ok(emit_spec(st2, OpCodeType::Equal, Seq::empty())),
                        TokV::Ne => Ok(emit_spec(st2, OpCodeType::NotEqual, Seq::empty())),
                        _ => Err(CompileError::InfixOperatorUnsupported),
                    },
                    Err(e2) => Err(e2),
                },
                Err(e2) => Err(e2),
            }
        },
        ExprV::If { condition, consequence, alternative } => match compile_expr_spec(
            *condition,
            st,
        ) {
            Ok(st1) => {
                let jnt_pos = st1.code.len() as int;
                let st2 = emit_spec(st1, OpCodeType::JumpNotTruthy, seq![placeholder()]);
                match compile_if_arm(consequence, st2) {
                    Ok(st4) => match alternative {
                        None => patch_spec(st4, jnt_pos, st4.code.len() as int),
                        Some(alt) => {
                            let jump_pos = st4.code.len() as int;
                            let st5 = emit_spec(st4, OpCodeType::Jump, seq![placeholder()]);
                            match patch_spec(st5, jnt_pos, st5.code.len() as int) {
                                Ok(st6) => match compile_if_arm(alt, st6) {
                                    Ok(st8) => patch_spec(st8, jump_pos, st8.code.len() as int),
                                    Err(e2) => Err(e2),
                                },
                                Err(e2) => Err(e2),
                            }
                        },
                    },
                    Err(e2) => Err(e2),
                }
            },
            Err(e2) => Err(e2),
        },
        _ => Err(CompileError::Unsupported),
    }
}

/// Compiling a branch arm: its statements, with a trailing `Pop` removed so
/// the arm's value stays on the stack.
pub open spec fn compile_if_arm(ss: Seq<StmtV>, st: CompSt) -> Result<CompSt, CompileError>
    decreases ss, 1int, 0int,
{
    match compile_stmts_spec(ss, 0, st) {
        Ok(st3) => if last_is_pop(st3) {
            remove_last_pop_spec(st3)
        } else {
            Ok(st3)
        },
        Err(e2) => Err(e2),
    }
}

/// What compiling a statement does to the state.
pub open spec fn compile_stmt_spec(s: StmtV, st: CompSt) -> Result<CompSt, CompileError>
    decreases s, 2int, 0int,
{
    match s {
        StmtV::Expr { token, expression } => match compile_expr_spec(*expression, st) {
            Ok(st1) => Ok(emit_spec(st1, OpCodeType::Pop, Seq::empty())),
            Err(e2) => Err(e2),
        },
        StmtV::Block(ss) => compile_stmts_spec(ss, 0, st),
        _ => Err(CompileError::Unsupported),
    }
}

/// What compiling a statement list from position `i` does to the state.
pub open spec fn compile_stmts_spec(ss: Seq<StmtV>, i: int, st: CompSt) -> Result<
    CompSt,
    CompileError,
>
    decreases ss, 0int, ss.len() - i,
{
    if i < 0 || i >= ss.len() {
        Ok(st)
    } else {
        match compile_stmt_spec(ss[i], st) {
            Ok(st1) => compile_stmts_spec(ss, i + 1, st1),
            Err(e2) => Err(e2),
        }
    }
}

/// What compiling a whole program does to the state.
pub open spec fn compile_program_spec(p: Seq<StmtV>, st: CompSt) -> Result<CompSt, CompileError> {
    compile_stmts_spec(p, 0, st)
}

/// `<`-lowering: `a < b` compiles exactly as `b > a` does, from any state.
/// There is no less-than opcode; the compiler swaps the operands and emits
/// the greater-than comparison.
pub proof fn lemma_lt_lowering(a: ExprV, b: ExprV, lt: TokV, gt: TokV, st: CompSt)
    requires
        lt == TokV::Lt,
        gt == TokV::Gt,
    ensures
        compile_expr_spec(
            ExprV::Infix { token: lt, left: Box::new(a), right: Box::new(b) },
            st,
        ) == compile_expr_spec(
            ExprV::Infix { token: gt, left: Box::new(b), right: Box::new(a) },
            st,
        ),
{
}

/// Trailing-pop elision: an `if` arm holding a single expression statement
/// compiles to exactly the code of the expression itself — the emission
/// that would discard its value is removed, so the arm never ends with a
/// `Pop`.
pub proof fn lemma_trailing_pop_elision(tok: TokV, e: ExprV, st: CompSt)
    ensures
        ({
            let arm = compile_if_arm(
                seq![StmtV::Expr { token: tok, expression: Box::new(e) }],
                st,
            );
            match (arm, compile_expr_spec(e, st)) {
                (Ok(a), Ok(b)) => a.code == b.code && a.consts == b.consts && a.last == b.last,
                (Err(ea), Err(eb)) => ea == eb,
                _ => false,
            }
        }),
{
    let ss = seq![StmtV::Expr { token: tok, expression: Box::new(e) }];
    assert(ss[0] == StmtV::Expr { token: tok, expression: Box::new(e) });
    match compile_expr_spec(e, st) {
        Ok(st1) => {
            let stp = emit_spec(st1, OpCodeType::Pop, Seq::empty());
            assert(compile_stmt_spec(ss[0], st) == Ok::<CompSt, CompileError>(stp));
            assert(compile_stmts_spec(ss, 1, stp) == Ok::<CompSt, CompileError>(stp));
            assert(compile_stmts_spec(ss, 0, st) == Ok::<CompSt, CompileError>(stp));
            assert(last_is_pop(stp));
            assert(stp.code.take(st1.code.len() as int) =~= st1.code);
            match remove_last_pop_spec(stp) {
                Ok(a) => {
                    assert(a.code == st1.code);
                    assert(a.last == st1.last);
                },
                Err(_) => {
                    assert(false);
                },
            }
        },
        Err(e2) => {
            assert(compile_stmt_spec(ss[0], st) == Err::<CompSt, CompileError>(e2));
        },
    }
}

/// One emission: which opcode, and at which byte offset it starts.
#[derive(Debug, Clone, Copy)]
struct EmittedInstruction {
    op_code: OpCodeType,
    position: usize,
}

/// The bytecode compiler.
#[derive(Debug)]
pub struct Compiler {
    pub instructions: Instructions,
    pub constants: Vec<Object>,
    last_instruction: Option<EmittedInstruction>,
    prev_instruction: Option<EmittedInstruction>,
}

/// The compiled artifact a virtual machine runs: the instruction stream and
/// its constants pool.
#[derive(Debug)]
pub struct ByteCode {
    pub instructions: Instructions,
    pub constants: Vec<Object>,
}

spec fn emitted_view(e: Option<EmittedInstruction>) -> Option<(OpCodeType, int)> {
    match e {
        Some(em) => Some((em.op_code, em.position as int)),
        None => None,
    }
}

impl View for Compiler {
    type V = CompSt;

    closed spec fn view(&self) -> CompSt {
        CompSt {
            code: self.instructions@,
            consts: objs_view(self.constants@),
            last: emitted_view(self.last_instruction),
            prev: emitted_view(self.prev_instruction),
        }
    }
}

impl Compiler {
    /// A fresh compiler: no code, no constants, no emission history.
    pub fn new() -> (r: Compiler)
        ensures
            r@ == init_state(),
    {
        let r = Compiler {
            instructions: Instructions(Vec::new()),
            constants: Vec::new(),
            last_instruction: None,
            prev_instruction: None,
        };
        proof {
            assert(r@.code =~= init_state().code);
            assert(r@.consts =~= init_state().consts);
        }
        r
    }

    /// Compiles a whole program on top of the current state.
    pub fn compile(&mut self, program: &Program) -> (r: Result<(), CompileError>)
        ensures
            match r {
                Ok(()) => compile_program_spec(program@, old(self)@) == Ok::<
                    CompSt,
                    CompileError,
                >(final(self)@),
                Err(e) => compile_program_spec(program@, old(self)@) == Err::<
                    CompSt,
                    CompileError,
                >(e),
            },
    {
        self.compile_statement_list(&program.statements)
    }

    /// Compiles a list of statements in order.
    fn compile_statement_list(&mut self, statements: &Vec<Statement>) -> (r: Result<
        (),
        CompileError,
    >)
        ensures
            match r {
                Ok(()) => compile_stmts_spec(
                    crate::ast::stmts_view(statements@),
                    0,
                    old(self)@,
                ) == Ok::<CompSt, CompileError>(final(self)@),
                Err(e) => compile_stmts_spec(crate::ast::stmts_view(statements@), 0, old(self)@)
                    == Err::<CompSt, CompileError>(e),
            },
        decreases statements@, 0int,
    {
        let ghost vs = crate::ast::stmts_view(statements@);
        proof {
            crate::ast::lemma_stmts_view_from(statements@, 0);
        }
        let mut i: usize = 0;
        while i < statements.len()
            invariant
                vs == crate::ast::stmts_view(statements@),
                vs.len() == statements@.len(),
                forall|j: int|
                    0 <= j < statements@.len() ==> vs[j] == crate::ast::stmt_view(
                        #[trigger] statements@[j],
                    ),
                0 <= i <= statements@.len(),
                compile_stmts_spec(vs, i as int, self@) == compile_stmts_spec(vs, 0, old(self)@),
            decreases statements@.len() - i,
        {
            let ghost pre = self@;
            match self.compile_statement(&statements[i]) {
                Ok(()) => {},
                Err(e) => {
                    proof {
                        assert(compile_stmts_spec(vs, i as int, pre) == Err::<
                            CompSt,
                            CompileError,
                        >(e));
                    }
                    return Err(e);
                },
            }
            i = i + 1;
        }
        Ok(())
    }

    /// Compiles one statement.
    fn compile_statement(&mut self, s: &Statement) -> (r: Result<(), CompileError>)
        ensures
            match r {
                Ok(()) => compile_stmt_spec(s@, old(self)@) == Ok::<CompSt, CompileError>(
                    final(self)@,
                ),
                Err(e) => compile_stmt_spec(s@, old(self)@) == Err::<CompSt, CompileError>(e),
            },
        decreases *s, 0int,
    {
        match s {
            Statement::Expression(x) => {
                match self.compile_expression(&x.expression) {
                    Ok(()) => {
                        self.emit(OpCodeType::Pop, Vec::new());
                        Ok(())
                    },
                    Err(e) => Err(e),
                }
            },
            Statement::Block(x) => self.compile_statement_list(&x.statements),
            _ => Err(CompileError::Unsupported),
        }
    }

    /// Compiles one expression; its value is left on the stack at run time.
    #[verifier::rlimit(100)]
    fn compile_expression(&mut self, e: &Expression) -> (r: Result<(), CompileError>)
        ensures
            match r {
                Ok(()) => compile_expr_spec(e@, old(self)@) == Ok::<CompSt, CompileError>(
                    final(self)@,
                ),
                Err(e2) => compile_expr_spec(e@, old(self)@) == Err::<CompSt, CompileError>(e2),
            },
        decreases *e, 0int,
    {
        match e {
            Expression::IntegerLiteral(x) => {
                proof {
                    crate::object::lemma_objs_view_from(self.constants@, 0);
                    assert(self@.consts.len() == self.constants@.len());
                }
                if self.constants.len() > 65535 {
                    return Err(CompileError::TooManyConstants);
                }
                let operand = self.add_constant(Object::Integer(Integer { value: x.value }));
                let mut operands: Vec<u16> = Vec::new();
                operands.push(operand as u16);
                proof {
                    assert(operands@ =~= seq![(operand as u16)]);
                }
                self.emit(OpCodeType::Constant, operands);
                Ok(())
            },
            Expression::Boolean(x) => {
                if x.value {
                    self.emit(OpCodeType::True, Vec::new());
                } else {
                    self.emit(OpCodeType::False, Vec::new());
                }
                Ok(())
            },
            Expression::Prefix(x) => {
                match self.compile_expression(&x.right) {
                    Ok(()) => match &x.token {
                        crate::token::Token::Bang => {
                            self.emit(OpCodeType::Bang, Vec::new());
                            Ok(())
                        },
                        crate::token::Token::Minus => {
                            self.emit(OpCodeType::Minus, Vec::new());
                            Ok(())
                        },
                        _ => Err(CompileError::PrefixOperatorUnsupported),
                    },
                    Err(e2) => Err(e2),
                }
            },
            Expression::Infix(x) => self.compile_infix_expression(x),
            Expression::If(x) => self.compile_if_expression(x),
            _ => Err(CompileError::Unsupported),
        }
    }

    /// Compiles an infix expression.  `<` is lowered by compiling the right
    /// operand first and emitting the greater-than comparison; every other
    /// operator compiles left before right.
    #[verifier::rlimit(100)]
    fn compile_infix_expression(&mut self, x: &InfixExpression) -> (r: Result<(), CompileError>)
        ensures
            match r {
                Ok(()) => compile_expr_spec(expr_view(Expression::Infix(*x)), old(self)@) == Ok::<
                    CompSt,
                    CompileError,
                >(final(self)@),
                Err(e2) => compile_expr_spec(expr_view(Expression::Infix(*x)), old(self)@)
                    == Err::<CompSt, CompileError>(e2),
            },
        decreases *x, 1int,
    {

            if matches!(&x.token, crate::token::Token::Lt) {
                match self.compile_expression(&x.right) {
                    Ok(()) => match self.compile_expression(&x.left) {
                        Ok(()) => {
                            self.emit(OpCodeType::GreaterThan, Vec::new());
                            Ok(())
                        },
                        Err(e2) => Err(e2),
                    },
                    Err(e2) => Err(e2),
                }
            } else {
                match self.compile_expression(&x.left) {
                    Ok(()) => match self.compile_expression(&x.right) {
                        Ok(()) => match &x.token {
                            crate::token::Token::Plus => {
                                self.emit(OpCodeType::Add, Vec::new());
                                Ok(())
                            },
                            crate::token::Token::Minus => {
                                self.emit(OpCodeType::Sub, Vec::new());
                                Ok(())
                            },
                            crate::token::Token::Asterisk => {
                                self.emit(OpCodeType::Mul, Vec::new());
                                Ok(())
                            },
                            crate::token::Token::Slash => {
                                self.emit(OpCodeType::Div, Vec::new());
                                Ok(())
                            },
                            crate::token::Token::Gt => {
                                self.emit(OpCodeType::GreaterThan, Vec::new());
                                Ok(())
                            },
                            crate::token::Token::Eq => {
                                self.emit(OpCodeType::Equal, Vec::new());
                                Ok(())
                            },
                            crate::token::Token::Ne => {
                                self.emit(OpCodeType::NotEqual, Vec::new());
                                Ok(())
                            },
                            _ => Err(CompileError::InfixOperatorUnsupported),
                        },
                        Err(e2) => Err(e2),
                    },
                    Err(e2) => Err(e2),
                }
            }
        
    }

    /// Compiles an `if` expression: the condition, a forward jump over the
    /// consequence with a placeholder operand, the arms with their trailing
    /// `Pop` removed, and the back-patched jump targets.
    #[verifier::rlimit(100)]
    fn compile_if_expression(&mut self, x: &IfExpression) -> (r: Result<(), CompileError>)
        ensures
            match r {
                Ok(()) => compile_expr_spec(expr_view(Expression::If(*x)), old(self)@) == Ok::<
                    CompSt,
                    CompileError,
                >(final(self)@),
                Err(e2) => compile_expr_spec(expr_view(Expression::If(*x)), old(self)@) == Err::<
                    CompSt,
                    CompileError,
                >(e2),
            },
        decreases *x, 1int,
    {

            match self.compile_expression(&x.condition) {
                Ok(()) => {},
                Err(e2) => {
                return Err(e2);
                },
            }
            let jump_not_truthy_pos = self.instructions.len();
            let mut ph: Vec<u16> = Vec::new();
            ph.push(9999);
            proof {
                assert(ph@ =~= seq![placeholder()]);
            }
            self.emit(OpCodeType::JumpNotTruthy, ph);
            match self.compile_branch_arm(&x.consequence.statements) {
                Ok(()) => {},
                Err(e2) => {
                return Err(e2);
                },
            }
            match &x.alternative {
                None => {
                let target = self.instructions.len();
                if target > 65535 {
                    return Err(CompileError::PatchTargetUnencodable);
                }
                match self.change_operand(jump_not_truthy_pos, target as u16) {
                    Ok(()) => Ok(()),
                    Err(e2) => Err(e2),
                }
                },
                Some(alt) => {
                let jump_pos = self.instructions.len();
                let mut ph2: Vec<u16> = Vec::new();
                ph2.push(9999);
                proof {
                    assert(ph2@ =~= seq![placeholder()]);
                }
                self.emit(OpCodeType::Jump, ph2);
                let after_consequence = self.instructions.len();
                if after_consequence > 65535 {
                    return Err(CompileError::PatchTargetUnencodable);
                }
                match self.change_operand(jump_not_truthy_pos, after_consequence as u16) {
                    Ok(()) => {},
                    Err(e2) => {
                        return Err(e2);
                    },
                }
                match self.compile_branch_arm(&alt.statements) {
                    Ok(()) => {},
                    Err(e2) => {
                        return Err(e2);
                    },
                }
                let after_alternative = self.instructions.len();
                if after_alternative > 65535 {
                    return Err(CompileError::PatchTargetUnencodable);
                }
                match self.change_operand(jump_pos, after_alternative as u16) {
                    Ok(()) => Ok(()),
                    Err(e2) => Err(e2),
                }
                },
            }
        
    }

    /// Compiles a branch arm and removes its trailing `Pop`, so the arm's
    /// value survives on the stack as the value of the `if`.
    fn compile_branch_arm(&mut self, statements: &Vec<Statement>) -> (r: Result<
        (),
        CompileError,
    >)
        ensures
            match r {
                Ok(()) => compile_if_arm(crate::ast::stmts_view(statements@), old(self)@) == Ok::<
                    CompSt,
                    CompileError,
                >(final(self)@),
                Err(e) => compile_if_arm(crate::ast::stmts_view(statements@), old(self)@)
                    == Err::<CompSt, CompileError>(e),
            },
        decreases statements@, 1int,
    {
        match self.compile_statement_list(statements) {
            Ok(()) => {
                if self.last_instruction_is_pop() {
                    self.remove_last_pop()
                } else {
                    Ok(())
                }
            },
            Err(e) => Err(e),
        }
    }

    /// The compiled artifact: a snapshot of the instruction stream and the
    /// constants pool.
    pub fn byte_code(&self) -> (r: ByteCode)
        ensures
            r.instructions@ == self@.code,
            objs_view(r.constants@) == self@.consts,
    {
        let mut bytes: Vec<u8> = Vec::new();
        let mut i: usize = 0;
        while i < self.instructions.0.len()
            invariant
                0 <= i <= self.instructions.0@.len(),
                bytes@ == self.instructions.0@.take(i as int),
            decreases self.instructions.0@.len() - i,
        {
            bytes.push(self.instructions.0[i]);
            proof {
                assert(self.instructions.0@.take(i + 1) == self.instructions.0@.take(
                    i as int,
                ).push(self.instructions.0@[i as int]));
            }
            i = i + 1;
        }
        proof {
            assert(self.instructions.0@.take(self.instructions.0@.len() as int)
                == self.instructions.0@);
        }
        ByteCode { instructions: Instructions(bytes), constants: clone_objects(&self.constants) }
    }

    /// Appends a value to the constants pool; its index is the operand that
    /// addresses it.
    fn add_constant(&mut self, obj: Object) -> (idx: usize)
        ensures
            final(self)@ == (CompSt {
                consts: old(self)@.consts.push(obj@),
                ..old(self)@
            }),
            idx == old(self)@.consts.len(),
    {
        let ghost pre = self@;
        self.constants.push(obj);
        proof {
            crate::object::lemma_objs_view_from(self.constants@, 0);
            crate::object::lemma_objs_view_from(self.constants@.drop_last(), 0);
            assert(self.constants@.drop_last() == old(self).constants@);
            assert forall|k: int| 0 <= k < self.constants@.len() implies objs_view(
                self.constants@,
            )[k] == pre.consts.push(obj@)[k] by {
                assert(objs_view(self.constants@)[k - 0] == crate::object::obj_view(
                    self.constants@[k],
                ));
                if k < pre.consts.len() {
                    assert(objs_view(old(self).constants@)[k - 0] == crate::object::obj_view(
                        old(self).constants@[k],
                    ));
                }
            }
            assert(objs_view(self.constants@) =~= pre.consts.push(obj@));
            assert(final(self)@.code == pre.code);
        }
        self.constants.len() - 1
    }

    /// Encodes and appends one instruction, recording it as the most recent
    /// emission; its byte offset is returned.
    fn emit(&mut self, op: OpCodeType, operands: Vec<u16>) -> (pos: usize)
        requires
            operands@.len() == op_operand_count(op),
        ensures
            final(self)@ == emit_spec(old(self)@, op, operands@),
            pos == old(self)@.code.len(),
    {
        let ins = make(op, &operands);
        let pos = self.add_instructions(ins);
        self.set_last_instruction(op, pos);
        pos
    }

    /// Appends raw instruction bytes, returning the offset they start at.
    fn add_instructions(&mut self, instructions: Instructions) -> (pos: usize)
        ensures
            final(self)@ == (CompSt { code: old(self)@.code + instructions@, ..old(self)@ }),
            pos == old(self)@.code.len(),
    {
        let new_instruction_position = self.instructions.0.len();
        let mut i: usize = 0;
        let ghost added = instructions@;
        while i < instructions.0.len()
            invariant
                0 <= i <= added.len(),
                added == instructions.0@,
                self.instructions.0@ == old(self).instructions.0@ + added.take(i as int),
                self.constants@ == old(self).constants@,
                self.last_instruction == old(self).last_instruction,
                self.prev_instruction == old(self).prev_instruction,
            decreases added.len() - i,
        {
            self.instructions.0.push(instructions.0[i]);
            proof {
                assert(added.take(i + 1) == added.take(i as int).push(added[i as int]));
                assert(old(self).instructions.0@ + added.take(i + 1) == (old(
                    self,
                ).instructions.0@ + added.take(i as int)).push(added[i as int]));
            }
            i = i + 1;
        }
        proof {
            assert(added.take(added.len() as int) == added);
        }
        new_instruction_position
    }

    /// Shifts the emission history: the last emission becomes the previous
    /// one.
    fn set_last_instruction(&mut self, op: OpCodeType, pos: usize)
        ensures
            final(self)@ == (CompSt {
                last: Some((op, pos as int)),
                prev: old(self)@.last,
                ..old(self)@
            }),
    {
        let prev = self.last_instruction;
        let last = Some(EmittedInstruction { op_code: op, position: pos });
        self.prev_instruction = prev;
        self.last_instruction = last;
    }

    /// Whether the most recent emission was a `Pop`.
    fn last_instruction_is_pop(&self) -> (r: bool)
        ensures
            r == last_is_pop(self@),
    {
        match &self.last_instruction {
            Some(instruction) => match instruction.op_code {
                OpCodeType::Pop => true,
                _ => false,
            },
            None => false,
        }
    }

    /// Truncates the stream at the most recent emission and restores the
    /// previous emission as the last one.
    fn remove_last_pop(&mut self) -> (r: Result<(), CompileError>)
        ensures
            match r {
                Ok(()) => remove_last_pop_spec(old(self)@) == Ok::<CompSt, CompileError>(
                    final(self)@,
                ),
                Err(e) => remove_last_pop_spec(old(self)@) == Err::<CompSt, CompileError>(e),
            },
    {
        match self.last_instruction {
            Some(em) => {
                if em.position > self.instructions.0.len() {
                    return Err(CompileError::RemoveLastPopFailed);
                }
                self.instructions.0.truncate(em.position);
                self.last_instruction = self.prev_instruction;
                Ok(())
            },
            None => Err(CompileError::RemoveLastPopFailed),
        }
    }

    /// Overwrites bytes starting at `pos` with the given encoding, which
    /// must lie within the stream.
    fn replace_instructions(&mut self, pos: usize, new_instructions: Instructions) -> (r: Result<
        (),
        CompileError,
    >)
        ensures
            match r {
                Ok(()) => pos + new_instructions@.len() <= old(self)@.code.len() && final(self)@
                    == (CompSt {
                    code: old(self)@.code.take(pos as int) + new_instructions@ + old(
                        self,
                    )@.code.skip(pos + new_instructions@.len()),
                    ..old(self)@
                }),
                Err(_) => pos + new_instructions@.len() > old(self)@.code.len() && final(self)@
                    == old(self)@,
            },
    {
        let m = new_instructions.0.len();
        let n = self.instructions.0.len();
        if pos > n || m > n - pos {
            return Err(CompileError::PatchFailed);
        }
        let mut idx: usize = 0;
        while idx < m
            invariant
                0 <= idx <= m,
                m == new_instructions.0@.len(),
                pos + m <= old(self)@.code.len(),
                n == old(self)@.code.len(),
                self.constants@ == old(self).constants@,
                self.last_instruction == old(self).last_instruction,
                self.prev_instruction == old(self).prev_instruction,
                self.instructions.0@.len() == n,
                forall|k: int|
                    0 <= k < n && !(pos <= k < pos + idx) ==> self.instructions.0@[k] == old(
                        self,
                    ).instructions.0@[k],
                forall|k: int|
                    0 <= k < idx ==> self.instructions.0@[pos + k]
                        == new_instructions.0@[k],
            decreases m - idx,
        {
            self.instructions.0.set(pos + idx, new_instructions.0[idx]);
            idx = idx + 1;
        }
        proof {
            assert(self.instructions.0@ =~= old(self)@.code.take(pos as int)
                + new_instructions.0@ + old(self)@.code.skip(pos + m));
        }
        Ok(())
    }

    /// Back-patches the 2-byte operand of the instruction at `pos`.
    fn change_operand(&mut self, pos: usize, operand: u16) -> (r: Result<(), CompileError>)
        ensures
            match r {
                Ok(()) => change_operand_spec(old(self)@, pos as int, operand) == Ok::<
                    CompSt,
                    CompileError,
                >(final(self)@),
                Err(e) => change_operand_spec(old(self)@, pos as int, operand) == Err::<
                    CompSt,
                    CompileError,
                >(e),
            },
    {
        let n = self.instructions.0.len();
        if pos >= n {
            return Err(CompileError::PatchFailed);
        }
        let byte = self.instructions.0[pos];
        match opcode_from_byte(byte) {
            Some(op) => {
                let count = operand_count(op);
                if !(count == 1 && 3 <= n - pos) {
                    return Err(CompileError::PatchFailed);
                }
                let mut operands: Vec<u16> = Vec::new();
                operands.push(operand);
                proof {
                    assert(operands@ =~= seq![operand]);
                }
                let enc = make(op, &operands);
                let ghost pre = self@;
                match self.replace_instructions(pos, enc) {
                    Ok(()) => {
                        proof {
                            assert(change_operand_spec(pre, pos as int, operand) == Ok::<
                                CompSt,
                                CompileError,
                            >(self@));
                        }
                        Ok(())
                    },
                    Err(e) => {
                        proof {
                            assert(false);
                        }
                        Err(e)
                    },
                }
            },
            None => Err(CompileError::PatchFailed),
        }
    }
}

} // verus!
