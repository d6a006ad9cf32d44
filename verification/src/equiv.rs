//! The virtual machine agrees with the tree-walking evaluator: running the
//! compiled form of a program the evaluator accepts yields the evaluator's
//! value, with the stack back at its floor.

use vstd::prelude::*;

use crate::ast::StmtV;
use crate::compiler::{
    compile_expr_spec, compile_program_spec, compile_stmt_spec, compile_stmts_spec, emit_spec,
    init_state, CompSt,
};
use crate::evaluator::{
    eval_expr_spec, eval_infix_spec, eval_prefix_spec, eval_program_spec, eval_stmt_spec,
    eval_stmts_spec,
};
use crate::ast::ExprV;
use crate::code::{op_byte, operands_bytes, OpCodeType};
use crate::object::ObjV;
use crate::token::TokV;
use crate::vm::{
    binary_result, comparison_result, lemma_vm_outcome_unique, lemma_vm_run_n_add,
    lemma_vm_run_one, vm_run_n, vm_step, MachSt, Outcome, VmError, STACK_SIZE,
};

verus! {

/// One compilation state extends another: the code grows at the end and
/// the constants pool grows at the end.
pub open spec fn ext_of(st0: CompSt, st1: CompSt) -> bool {
    &&& st0.code.len() <= st1.code.len()
    &&& forall|k: int| 0 <= k < st0.code.len() ==> st1.code[k] == #[trigger] st0.code[k]
    &&& st0.consts.len() <= st1.consts.len()
    &&& forall|k: int| 0 <= k < st0.consts.len() ==> st1.consts[k] == #[trigger] st0.consts[k]
}

/// The final `code` and `consts` carry a compilation result: the bytes the
/// compilation wrote are in place and every constant it knew is in place.
pub open spec fn carried(code: Seq<u8>, consts: Seq<ObjV>, st1: CompSt) -> bool {
    &&& st1.code.len() <= code.len()
    &&& forall|k: int| 0 <= k < st1.code.len() ==> code[k] == #[trigger] st1.code[k]
    &&& st1.consts.len() <= consts.len()
    &&& forall|k: int| 0 <= k < st1.consts.len() ==> consts[k] == #[trigger] st1.consts[k]
}

/// A run of `n` steps from `s` lands exactly past the compiled expression
/// with its value in the next free slot and everything below untouched.
pub open spec fn sim_ok(
    code: Seq<u8>,
    consts: Seq<ObjV>,
    s: MachSt,
    n: nat,
    end_ip: int,
    v: ObjV,
) -> bool {
    vm_run_n(code, consts, Outcome::Going(s), n) matches Outcome::Going(s2) && s2.ip == end_ip
        && s2.sp == s.sp + 1 && s2.sp <= STACK_SIZE && s2.slots.len() == s.slots.len()
        && s2.slots[s.sp as int] == v && (forall|k: int|
        0 <= k < s.sp ==> s2.slots[k] == s.slots[k])
}

/// Compiling a construct the evaluator accepts only appends: the earlier
/// code and constants stay in place.
pub proof fn lemma_compile_expr_ext(e: ExprV, st: CompSt)
    requires
        eval_expr_spec(e) is Ok,
        compile_expr_spec(e, st) is Ok,
    ensures
        ext_of(st, compile_expr_spec(e, st)->Ok_0),
        compile_expr_spec(e, st)->Ok_0.code.len() > st.code.len(),
    decreases e,
{
    match e {
        ExprV::Int { token, value } => {
        },
        ExprV::Bool { token, value } => {
        },
        ExprV::Prefix { token, right } => {
            lemma_compile_expr_ext(*right, st);
        },
        ExprV::Infix { token, left, right } => {
            if token == TokV::Lt {
                let st1 = compile_expr_spec(*right, st)->Ok_0;
                lemma_compile_expr_ext(*right, st);
                lemma_compile_expr_ext(*left, st1);
            } else {
                let st1 = compile_expr_spec(*left, st)->Ok_0;
                lemma_compile_expr_ext(*left, st);
                lemma_compile_expr_ext(*right, st1);
            }
        },
        _ => {
        },
    }
}

/// The same, for a statement the evaluator accepts.
pub proof fn lemma_compile_stmt_ext(stv: StmtV, st: CompSt)
    requires
        eval_stmt_spec(stv) is Ok,
        compile_stmt_spec(stv, st) is Ok,
    ensures
        ext_of(st, compile_stmt_spec(stv, st)->Ok_0),
{
    match stv {
        StmtV::Expr { token, expression } => {
            lemma_compile_expr_ext(*expression, st);
        },
        _ => {
        },
    }
}

/// The same, for a statement list the evaluator accepts.
pub proof fn lemma_compile_stmts_ext(p: Seq<StmtV>, i: int, st: CompSt, last: ObjV)
    requires
        eval_stmts_spec(p, i, last) is Ok,
        compile_stmts_spec(p, i, st) is Ok,
    ensures
        ext_of(st, compile_stmts_spec(p, i, st)->Ok_0),
    decreases p.len() - i,
{
    if i < 0 || i >= p.len() {
    } else {
        let st1 = compile_stmt_spec(p[i], st)->Ok_0;
        lemma_compile_stmt_ext(p[i], st);
        lemma_compile_stmts_ext(p, i + 1, st1, eval_stmt_spec(p[i])->Ok_0);
    }
}

/// Running the compiled form of an expression the evaluator accepts: from
/// the byte just past the already-compiled prefix, the machine either
/// pushes exactly the evaluator's value and stops past the expression's
/// code, or overflows its stack.
#[verifier::rlimit(100)]
#[verifier::spinoff_prover]
pub proof fn lemma_expr_sim(e: ExprV, st0: CompSt, code: Seq<u8>, consts: Seq<ObjV>, s: MachSt)
    requires
        eval_expr_spec(e) is Ok,
        compile_expr_spec(e, st0) is Ok,
        carried(code, consts, compile_expr_spec(e, st0)->Ok_0),
        s.ip == st0.code.len(),
        s.slots.len() == STACK_SIZE,
        s.sp <= STACK_SIZE,
    ensures
        exists|n: nat|
            sim_ok(
                code,
                consts,
                s,
                n,
                compile_expr_spec(e, st0)->Ok_0.code.len() as int,
                eval_expr_spec(e)->Ok_0,
            ) || vm_run_n(code, consts, Outcome::Going(s), n) == Outcome::Failed(
                VmError::StackOverflow,
            ),
    decreases e, 1int,
{
    match e {
        ExprV::Int { token, value } => {
            lemma_expr_sim_int(e, st0, code, consts, s);
        },
        ExprV::Bool { token, value } => {
            lemma_expr_sim_bool(e, st0, code, consts, s);
        },
        ExprV::Prefix { token, right } => {
            lemma_expr_sim_prefix(e, st0, code, consts, s);
        },
        ExprV::Infix { token, left, right } => {
            lemma_expr_sim_infix(e, st0, code, consts, s);
        },
        _ => {
            assert(false);
        },
    }
}

#[verifier::rlimit(100)]
#[verifier::spinoff_prover]
proof fn lemma_expr_sim_int(e: ExprV, st0: CompSt, code: Seq<u8>, consts: Seq<ObjV>, s: MachSt)
    requires
        e is Int,
        eval_expr_spec(e) is Ok,
        compile_expr_spec(e, st0) is Ok,
        carried(code, consts, compile_expr_spec(e, st0)->Ok_0),
        s.ip == st0.code.len(),
        s.slots.len() == STACK_SIZE,
        s.sp <= STACK_SIZE,
    ensures
        exists|n: nat|
            sim_ok(
                code,
                consts,
                s,
                n,
                compile_expr_spec(e, st0)->Ok_0.code.len() as int,
                eval_expr_spec(e)->Ok_0,
            ) || vm_run_n(code, consts, Outcome::Going(s), n) == Outcome::Failed(
                VmError::StackOverflow,
            ),
    decreases e, 0int,
{
    let st1 = compile_expr_spec(e, st0)->Ok_0;
    let v = eval_expr_spec(e)->Ok_0;
    let going = Outcome::Going(s);
    match e {
        ExprV::Int { token, value } => {
            let idx = st0.consts.len() as u16;
            let stc = CompSt {
                code: st0.code,
                consts: st0.consts.push(ObjV::Int(value)),
                last: st0.last,
                prev: st0.prev,
            };
            assert(st1 == emit_spec(stc, OpCodeType::Constant, seq![idx]));
            assert(st1.code =~= st0.code + seq![
                op_byte(OpCodeType::Constant),
                (idx / 256) as u8,
                (idx % 256) as u8,
            ]) by {
                assert(operands_bytes(seq![idx].drop_first()) =~= Seq::empty());
                assert(operands_bytes(seq![idx]) =~= seq![(idx / 256) as u8, (idx % 256) as u8]);
            }
            assert(st1.code[s.ip as int] == 0);
            assert(st1.code[s.ip + 1 as int] == (idx / 256) as u8);
            assert(st1.code[s.ip + 2 as int] == (idx % 256) as u8);
            assert(code[s.ip as int] == 0);
            assert(code[s.ip + 1 as int] == (idx / 256) as u8);
            assert(code[s.ip + 2 as int] == (idx % 256) as u8);
            assert(st1.consts[idx as int] == ObjV::Int(value));
            assert(crate::code::read_u16_spec(code, s.ip + 1 as int) == idx) by {
                vstd::arithmetic::div_mod::lemma_fundamental_div_mod(idx as int, 256);
            }
            assert(consts[idx as int] == ObjV::Int(value));
            if s.sp >= STACK_SIZE {
                lemma_vm_run_one(code, consts, s);
                assert(vm_step(code, consts, s) == Outcome::Failed(VmError::StackOverflow));
                assert(vm_run_n(code, consts, going, 1nat) == Outcome::Failed(
                    VmError::StackOverflow,
                ));
            } else {
                assert(vm_step(code, consts, s) == Outcome::Going(
                    MachSt {
                        slots: s.slots.update(s.sp as int, ObjV::Int(value)),
                        sp: s.sp + 1,
                        ip: s.ip + 3,
                    },
                ));
                lemma_vm_run_one(code, consts, s);
                assert(vm_run_n(code, consts, going, 1nat) == vm_step(code, consts, s));
                assert(sim_ok(code, consts, s, 1nat, st1.code.len() as int, v));
            }
        },
        _ => {
            assert(false);
        },
    }
}

#[verifier::rlimit(100)]
#[verifier::spinoff_prover]
proof fn lemma_expr_sim_bool(e: ExprV, st0: CompSt, code: Seq<u8>, consts: Seq<ObjV>, s: MachSt)
    requires
        e is Bool,
        eval_expr_spec(e) is Ok,
        compile_expr_spec(e, st0) is Ok,
        carried(code, consts, compile_expr_spec(e, st0)->Ok_0),
        s.ip == st0.code.len(),
        s.slots.len() == STACK_SIZE,
        s.sp <= STACK_SIZE,
    ensures
        exists|n: nat|
            sim_ok(
                code,
                consts,
                s,
                n,
                compile_expr_spec(e, st0)->Ok_0.code.len() as int,
                eval_expr_spec(e)->Ok_0,
            ) || vm_run_n(code, consts, Outcome::Going(s), n) == Outcome::Failed(
                VmError::StackOverflow,
            ),
    decreases e, 0int,
{
    let st1 = compile_expr_spec(e, st0)->Ok_0;
    let v = eval_expr_spec(e)->Ok_0;
    let going = Outcome::Going(s);
    match e {
        ExprV::Bool { token, value } => {
            let op = if value {
                OpCodeType::True
            } else {
                OpCodeType::False
            };
            assert(st1 == emit_spec(st0, op, Seq::empty()));
            assert(st1.code =~= st0.code + seq![op_byte(op)]) by {
                assert(operands_bytes(Seq::empty()) =~= Seq::empty());
            }
            assert(st1.code[s.ip as int] == op_byte(op));
            assert(code[s.ip as int] == op_byte(op));
            if s.sp >= STACK_SIZE {
                lemma_vm_run_one(code, consts, s);
                assert(vm_step(code, consts, s) == Outcome::Failed(VmError::StackOverflow));
                assert(vm_run_n(code, consts, going, 1nat) == Outcome::Failed(
                    VmError::StackOverflow,
                ));
            } else {
                lemma_vm_run_one(code, consts, s);
                assert(vm_run_n(code, consts, going, 1nat) == vm_step(code, consts, s));
                assert(sim_ok(code, consts, s, 1nat, st1.code.len() as int, v));
            }
        },
        _ => {
            assert(false);
        },
    }
}

#[verifier::rlimit(100)]
#[verifier::spinoff_prover]
proof fn lemma_expr_sim_prefix(e: ExprV, st0: CompSt, code: Seq<u8>, consts: Seq<ObjV>, s: MachSt)
    requires
        e is Prefix,
        eval_expr_spec(e) is Ok,
        compile_expr_spec(e, st0) is Ok,
        carried(code, consts, compile_expr_spec(e, st0)->Ok_0),
        s.ip == st0.code.len(),
        s.slots.len() == STACK_SIZE,
        s.sp <= STACK_SIZE,
    ensures
        exists|n: nat|
            sim_ok(
                code,
                consts,
                s,
                n,
                compile_expr_spec(e, st0)->Ok_0.code.len() as int,
                eval_expr_spec(e)->Ok_0,
            ) || vm_run_n(code, consts, Outcome::Going(s), n) == Outcome::Failed(
                VmError::StackOverflow,
            ),
    decreases e, 0int,
{
    let st1 = compile_expr_spec(e, st0)->Ok_0;
    let v = eval_expr_spec(e)->Ok_0;
    let going = Outcome::Going(s);
    match e {
        ExprV::Prefix { token, right } => {
            let str = compile_expr_spec(*right, st0)->Ok_0;
            let vr = eval_expr_spec(*right)->Ok_0;
            let op = if token == TokV::Bang {
                OpCodeType::Bang
            } else {
                OpCodeType::Minus
            };
            assert(st1 == emit_spec(str, op, Seq::empty()));
            assert(st1.code =~= str.code + seq![op_byte(op)]) by {
                assert(operands_bytes(Seq::empty()) =~= Seq::empty());
            }
            lemma_compile_expr_ext(*right, st0);
            assert forall|k: int| 0 <= k < str.code.len() implies code[k] == #[trigger] str.code[k] by {
                assert(st1.code[k] == str.code[k]);
                assert(code[k] == st1.code[k]);
            }
            assert forall|k: int| 0 <= k < str.consts.len() implies consts[k]
                == #[trigger] str.consts[k] by {
                assert(st1.consts[k] == str.consts[k]);
            }
            assert(carried(code, consts, str));
            lemma_expr_sim(*right, st0, code, consts, s);
            let n1 = choose|n: nat|
                sim_ok(code, consts, s, n, str.code.len() as int, vr) || vm_run_n(
                    code,
                    consts,
                    going,
                    n,
                ) == Outcome::Failed(VmError::StackOverflow);
            if sim_ok(code, consts, s, n1, str.code.len() as int, vr) {
                let s2 = vm_run_n(code, consts, going, n1)->Going_0;
                assert(st1.code[s2.ip as int] == op_byte(op));
                assert(code[s2.ip as int] == op_byte(op));
                let result = if token == TokV::Bang {
                    crate::object::bang_value(vr)
                } else {
                    eval_prefix_spec(token, vr)->Ok_0
                };
                assert(eval_prefix_spec(token, vr) == Ok::<ObjV, crate::evaluator::EvalError>(v));
                let s3 = MachSt {
                    slots: s2.slots.update(s2.sp - 1, v),
                    sp: s2.sp,
                    ip: s2.ip + 1,
                };
                assert(vm_step(code, consts, s2) == Outcome::Going(s3));
                lemma_vm_run_n_add(code, consts, going, n1, 1nat);
                lemma_vm_run_one(code, consts, s2);
                assert(vm_run_n(code, consts, going, n1 + 1) == vm_step(code, consts, s2));
                assert(s3.slots[s.sp as int] == v);
                assert(sim_ok(code, consts, s, n1 + 1, st1.code.len() as int, v));
            } else {
                assert(vm_run_n(code, consts, going, n1) == Outcome::Failed(
                    VmError::StackOverflow,
                ));
            }
        },
        _ => {
            assert(false);
        },
    }
}

#[verifier::rlimit(100)]
#[verifier::spinoff_prover]
proof fn lemma_expr_sim_infix(e: ExprV, st0: CompSt, code: Seq<u8>, consts: Seq<ObjV>, s: MachSt)
    requires
        e is Infix,
        eval_expr_spec(e) is Ok,
        compile_expr_spec(e, st0) is Ok,
        carried(code, consts, compile_expr_spec(e, st0)->Ok_0),
        s.ip == st0.code.len(),
        s.slots.len() == STACK_SIZE,
        s.sp <= STACK_SIZE,
    ensures
        exists|n: nat|
            sim_ok(
                code,
                consts,
                s,
                n,
                compile_expr_spec(e, st0)->Ok_0.code.len() as int,
                eval_expr_spec(e)->Ok_0,
            ) || vm_run_n(code, consts, Outcome::Going(s), n) == Outcome::Failed(
                VmError::StackOverflow,
            ),
    decreases e, 0int,
{
    let st1 = compile_expr_spec(e, st0)->Ok_0;
    let v = eval_expr_spec(e)->Ok_0;
    let going = Outcome::Going(s);
    match e {
        ExprV::Infix { token, left, right } => {
            let vl = eval_expr_spec(*left)->Ok_0;
            let vr = eval_expr_spec(*right)->Ok_0;
            // The two compiled operands, first and second in stream order,
            // and the step's result on what they leave on the stack.
            let first = if token == TokV::Lt { *right } else { *left };
            let second = if token == TokV::Lt { *left } else { *right };
            let op = match token {
                TokV::Lt => OpCodeType::GreaterThan,
                TokV::Plus => OpCodeType::Add,
                TokV::Minus => OpCodeType::Sub,
                TokV::Asterisk => OpCodeType::Mul,
                TokV::Slash => OpCodeType::Div,
                TokV::Gt => OpCodeType::GreaterThan,
                TokV::Eq => OpCodeType::Equal,
                TokV::Ne => OpCodeType::NotEqual,
                _ => OpCodeType::Pop,
            };
            let sta = compile_expr_spec(first, st0)->Ok_0;
            let stb = compile_expr_spec(second, sta)->Ok_0;
            let v1 = eval_expr_spec(first)->Ok_0;
            let v2 = eval_expr_spec(second)->Ok_0;
            assert(st1 == emit_spec(stb, op, Seq::empty()));
            assert(st1.code =~= stb.code + seq![op_byte(op)]) by {
                assert(operands_bytes(Seq::empty()) =~= Seq::empty());
            }
            lemma_compile_expr_ext(first, st0);
            lemma_compile_expr_ext(second, sta);
            assert forall|k: int| 0 <= k < stb.code.len() implies code[k] == #[trigger] stb.code[k] by {
                assert(st1.code[k] == stb.code[k]);
                assert(code[k] == st1.code[k]);
            }
            assert forall|k: int| 0 <= k < stb.consts.len() implies consts[k]
                == #[trigger] stb.consts[k] by {
                assert(st1.consts[k] == stb.consts[k]);
            }
            assert(carried(code, consts, stb));
            assert forall|k: int| 0 <= k < sta.code.len() implies code[k] == #[trigger] sta.code[k] by {
                assert(stb.code[k] == sta.code[k]);
            }
            assert forall|k: int| 0 <= k < sta.consts.len() implies consts[k]
                == #[trigger] sta.consts[k] by {
                assert(stb.consts[k] == sta.consts[k]);
            }
            assert(carried(code, consts, sta));
            lemma_expr_sim(first, st0, code, consts, s);
            let n1 = choose|n: nat|
                sim_ok(code, consts, s, n, sta.code.len() as int, v1) || vm_run_n(
                    code,
                    consts,
                    going,
                    n,
                ) == Outcome::Failed(VmError::StackOverflow);
            if sim_ok(code, consts, s, n1, sta.code.len() as int, v1) {
                let s2 = vm_run_n(code, consts, going, n1)->Going_0;
                lemma_expr_sim(second, sta, code, consts, s2);
                let going2 = Outcome::Going(s2);
                let n2 = choose|n: nat|
                    sim_ok(code, consts, s2, n, stb.code.len() as int, v2) || vm_run_n(
                        code,
                        consts,
                        going2,
                        n,
                    ) == Outcome::Failed(VmError::StackOverflow);
                lemma_vm_run_n_add(code, consts, going, n1, n2);
                if sim_ok(code, consts, s2, n2, stb.code.len() as int, v2) {
                    let s3 = vm_run_n(code, consts, going2, n2)->Going_0;
                    assert(vm_run_n(code, consts, going, n1 + n2) == Outcome::Going(s3));
                    assert(st1.code[s3.ip as int] == op_byte(op));
                    assert(code[s3.ip as int] == op_byte(op));
                    assert(s3.slots[s3.sp - 1] == v2);
                    assert(s3.slots[s3.sp - 2] == v1) by {
                        assert(s3.slots[s2.sp - 1] == s2.slots[s2.sp - 1]);
                    }
                    lemma_infix_step_value(token, vl, vr, op, v);
                    let s4 = MachSt {
                        slots: s3.slots.update(s3.sp - 2, v),
                        sp: (s3.sp - 1) as nat,
                        ip: s3.ip + 1,
                    };
                    assert(vm_step(code, consts, s3) == Outcome::Going(s4)) by {
                        if op == OpCodeType::Equal || op == OpCodeType::NotEqual || op
                            == OpCodeType::GreaterThan {
                            assert(comparison_result(op, s3.slots[s3.sp - 2], s3.slots[s3.sp - 1])
                                == Ok::<ObjV, VmError>(v));
                        } else {
                            assert(binary_result(op, s3.slots[s3.sp - 2], s3.slots[s3.sp - 1])
                                == Ok::<ObjV, VmError>(v));
                        }
                    }
                    lemma_vm_run_n_add(code, consts, going, n1 + n2, 1nat);
                    lemma_vm_run_one(code, consts, s3);
                    assert(vm_run_n(code, consts, going, n1 + n2 + 1) == Outcome::Going(s4));
                    assert(s4.slots[s.sp as int] == v);
                    assert(forall|k: int| 0 <= k < s.sp ==> s4.slots[k] == s.slots[k]);
                    assert(sim_ok(code, consts, s, n1 + n2 + 1, st1.code.len() as int, v));
                } else {
                    assert(vm_run_n(code, consts, going, n1 + n2) == Outcome::Failed(
                        VmError::StackOverflow,
                    ));
                }
            } else {
                assert(vm_run_n(code, consts, going, n1) == Outcome::Failed(
                    VmError::StackOverflow,
                ));
            }
        },
        _ => {
            assert(false);
        },
    }
}

/// The machine's arithmetic or comparison step on the two operand values,
/// in stream order, computes exactly the evaluator's infix value.  For `<`
/// the operands were compiled swapped, so the greater-than step sees them
/// reversed.
#[verifier::spinoff_prover]
proof fn lemma_infix_step_value(token: TokV, vl: ObjV, vr: ObjV, op: OpCodeType, v: ObjV)
    requires
        eval_infix_spec(token, vl, vr) == Ok::<ObjV, crate::evaluator::EvalError>(v),
        op == (match token {
            TokV::Lt => OpCodeType::GreaterThan,
            TokV::Plus => OpCodeType::Add,
            TokV::Minus => OpCodeType::Sub,
            TokV::Asterisk => OpCodeType::Mul,
            TokV::Slash => OpCodeType::Div,
            TokV::Gt => OpCodeType::GreaterThan,
            TokV::Eq => OpCodeType::Equal,
            TokV::Ne => OpCodeType::NotEqual,
            _ => OpCodeType::Pop,
        }),
    ensures
        token == TokV::Lt ==> comparison_result(op, vr, vl) == Ok::<ObjV, VmError>(v),
        token != TokV::Lt && (op == OpCodeType::Equal || op == OpCodeType::NotEqual || op
            == OpCodeType::GreaterThan) ==> comparison_result(op, vl, vr) == Ok::<ObjV, VmError>(
            v,
        ),
        token != TokV::Lt && !(op == OpCodeType::Equal || op == OpCodeType::NotEqual || op
            == OpCodeType::GreaterThan) ==> binary_result(op, vl, vr) == Ok::<ObjV, VmError>(v),
{
}

/// A run of `n` steps from `s` lands exactly past the compiled statement
/// with the stack pointer back at its floor and the statement's value in
/// the slot just above it.
pub open spec fn stmt_sim_ok(
    code: Seq<u8>,
    consts: Seq<ObjV>,
    s: MachSt,
    n: nat,
    end_ip: int,
    v: ObjV,
) -> bool {
    vm_run_n(code, consts, Outcome::Going(s), n) matches Outcome::Going(s2) && s2.ip == end_ip
        && s2.sp == s.sp && s2.sp <= STACK_SIZE && s2.slots.len() == s.slots.len()
        && s2.slots[s.sp as int] == v && (forall|k: int|
        0 <= k < s.sp ==> s2.slots[k] == s.slots[k])
}

/// Running the compiled form of a statement the evaluator accepts: the
/// expression's value is computed and the trailing pop leaves it just
/// above the stack pointer, which returns to its floor.
#[verifier::rlimit(100)]
#[verifier::spinoff_prover]
proof fn lemma_stmt_sim(stv: StmtV, st0: CompSt, code: Seq<u8>, consts: Seq<ObjV>, s: MachSt)
    requires
        eval_stmt_spec(stv) is Ok,
        compile_stmt_spec(stv, st0) is Ok,
        carried(code, consts, compile_stmt_spec(stv, st0)->Ok_0),
        s.ip == st0.code.len(),
        s.slots.len() == STACK_SIZE,
        s.sp <= STACK_SIZE,
    ensures
        exists|n: nat|
            stmt_sim_ok(
                code,
                consts,
                s,
                n,
                compile_stmt_spec(stv, st0)->Ok_0.code.len() as int,
                eval_stmt_spec(stv)->Ok_0,
            ) || vm_run_n(code, consts, Outcome::Going(s), n) == Outcome::Failed(
                VmError::StackOverflow,
            ),
{
    let st1 = compile_stmt_spec(stv, st0)->Ok_0;
    let v = eval_stmt_spec(stv)->Ok_0;
    let going = Outcome::Going(s);
    match stv {
        StmtV::Expr { token, expression } => {
            let ste = compile_expr_spec(*expression, st0)->Ok_0;
            assert(st1 == emit_spec(ste, OpCodeType::Pop, Seq::empty()));
            assert(st1.code =~= ste.code + seq![op_byte(OpCodeType::Pop)]) by {
                assert(operands_bytes(Seq::empty()) =~= Seq::empty());
            }
            lemma_compile_expr_ext(*expression, st0);
            assert forall|k: int| 0 <= k < ste.code.len() implies code[k]
                == #[trigger] ste.code[k] by {
                assert(st1.code[k] == ste.code[k]);
                assert(code[k] == st1.code[k]);
            }
            assert forall|k: int| 0 <= k < ste.consts.len() implies consts[k]
                == #[trigger] ste.consts[k] by {
                assert(st1.consts[k] == ste.consts[k]);
            }
            assert(carried(code, consts, ste));
            lemma_expr_sim(*expression, st0, code, consts, s);
            let n1 = choose|n: nat|
                sim_ok(code, consts, s, n, ste.code.len() as int, v) || vm_run_n(
                    code,
                    consts,
                    going,
                    n,
                ) == Outcome::Failed(VmError::StackOverflow);
            if sim_ok(code, consts, s, n1, ste.code.len() as int, v) {
                let s2 = vm_run_n(code, consts, going, n1)->Going_0;
                assert(st1.code[s2.ip as int] == op_byte(OpCodeType::Pop));
                assert(code[s2.ip as int] == op_byte(OpCodeType::Pop));
                let s3 = MachSt { slots: s2.slots, sp: (s2.sp - 1) as nat, ip: s2.ip + 1 };
                assert(vm_step(code, consts, s2) == Outcome::Going(s3));
                lemma_vm_run_n_add(code, consts, going, n1, 1nat);
                lemma_vm_run_one(code, consts, s2);
                assert(vm_run_n(code, consts, going, n1 + 1) == Outcome::Going(s3));
                assert(s3.slots[s.sp as int] == v);
                assert(stmt_sim_ok(code, consts, s, n1 + 1, st1.code.len() as int, v));
            } else {
                assert(vm_run_n(code, consts, going, n1) == Outcome::Failed(
                    VmError::StackOverflow,
                ));
            }
        },
        _ => {
            assert(false);
        },
    }
}

/// Running the compiled form of a statement list the evaluator accepts:
/// each statement leaves its value just above the stack floor, so after
/// the last one the list's value sits there.
#[verifier::rlimit(100)]
#[verifier::spinoff_prover]
proof fn lemma_stmts_sim(
    p: Seq<StmtV>,
    i: int,
    st0: CompSt,
    code: Seq<u8>,
    consts: Seq<ObjV>,
    s: MachSt,
    last: ObjV,
)
    requires
        0 <= i,
        eval_stmts_spec(p, i, last) is Ok,
        compile_stmts_spec(p, i, st0) is Ok,
        carried(code, consts, compile_stmts_spec(p, i, st0)->Ok_0),
        s.ip == st0.code.len(),
        s.slots.len() == STACK_SIZE,
        s.sp <= STACK_SIZE,
    ensures
        exists|n: nat|
            (vm_run_n(code, consts, Outcome::Going(s), n) matches Outcome::Going(s2) && s2.ip
                == compile_stmts_spec(p, i, st0)->Ok_0.code.len() && s2.sp == s.sp && s2.sp
                <= STACK_SIZE && s2.slots.len() == s.slots.len() && (forall|k: int|
                0 <= k < s.sp ==> s2.slots[k] == s.slots[k]) && (i < p.len()
                ==> s2.slots[s.sp as int] == eval_stmts_spec(p, i, last)->Ok_0) && (i >= p.len()
                ==> s2 == s)) || vm_run_n(code, consts, Outcome::Going(s), n) == Outcome::Failed(
                VmError::StackOverflow,
            ),
    decreases p.len() - i,
{
    let stf = compile_stmts_spec(p, i, st0)->Ok_0;
    let going = Outcome::Going(s);
    if i >= p.len() {
        assert(stf == st0);
        assert(vm_run_n(code, consts, going, 0nat) == going);
    } else {
        let sta = compile_stmt_spec(p[i], st0)->Ok_0;
        let vi = eval_stmt_spec(p[i])->Ok_0;
        lemma_compile_stmt_ext(p[i], st0);
        lemma_compile_stmts_ext(p, i + 1, sta, vi);
        assert forall|k: int| 0 <= k < sta.code.len() implies code[k]
            == #[trigger] sta.code[k] by {
            assert(stf.code[k] == sta.code[k]);
            assert(code[k] == stf.code[k]);
        }
        assert forall|k: int| 0 <= k < sta.consts.len() implies consts[k]
            == #[trigger] sta.consts[k] by {
            assert(stf.consts[k] == sta.consts[k]);
        }
        assert(carried(code, consts, sta));
        lemma_stmt_sim(p[i], st0, code, consts, s);
        let n1 = choose|n: nat|
            stmt_sim_ok(code, consts, s, n, sta.code.len() as int, vi) || vm_run_n(
                code,
                consts,
                going,
                n,
            ) == Outcome::Failed(VmError::StackOverflow);
        if stmt_sim_ok(code, consts, s, n1, sta.code.len() as int, vi) {
            let s2 = vm_run_n(code, consts, going, n1)->Going_0;
            lemma_stmts_sim(p, i + 1, sta, code, consts, s2, vi);
            let going2 = Outcome::Going(s2);
            let n2 = choose|n: nat|
                (vm_run_n(code, consts, going2, n) matches Outcome::Going(s3) && s3.ip
                    == stf.code.len() && s3.sp == s2.sp && s3.sp <= STACK_SIZE && s3.slots.len()
                    == s2.slots.len() && (forall|k: int|
                    0 <= k < s2.sp ==> s3.slots[k] == s2.slots[k]) && (i + 1 < p.len()
                    ==> s3.slots[s2.sp as int] == eval_stmts_spec(p, i + 1, vi)->Ok_0) && (i + 1
                    >= p.len() ==> s3 == s2)) || vm_run_n(code, consts, going2, n)
                    == Outcome::Failed(VmError::StackOverflow);
            lemma_vm_run_n_add(code, consts, going, n1, n2);
            if vm_run_n(code, consts, going2, n2) == Outcome::Failed(VmError::StackOverflow) {
                assert(vm_run_n(code, consts, going, n1 + n2) == Outcome::Failed(
                    VmError::StackOverflow,
                ));
            } else {
                let s3 = vm_run_n(code, consts, going2, n2)->Going_0;
                assert(vm_run_n(code, consts, going, n1 + n2) == Outcome::Going(s3));
                assert(eval_stmts_spec(p, i, last) == eval_stmts_spec(p, i + 1, vi));
                if i + 1 < p.len() {
                    assert(s3.slots[s.sp as int] == eval_stmts_spec(p, i, last)->Ok_0);
                } else {
                    assert(s3 == s2);
                    assert(s3.slots[s.sp as int] == vi);
                    assert(eval_stmts_spec(p, i + 1, vi) == Ok::<
                        ObjV,
                        crate::evaluator::EvalError,
                    >(vi));
                }
            }
        } else {
            assert(vm_run_n(code, consts, going, n1) == Outcome::Failed(VmError::StackOverflow));
        }
    }
}

/// The machine a freshly loaded artifact starts from: a full stack of
/// nulls, the pointer at the bottom, the instruction pointer at the start.
pub open spec fn initial_machine() -> MachSt {
    MachSt { slots: Seq::new(STACK_SIZE as nat, |i: int| ObjV::Null), sp: 0, ip: 0 }
}

/// Machine–evaluator agreement and stack balance: for a program the
/// evaluator accepts, any successful run of its compiled form ends with
/// the stack pointer back at zero and the evaluator's value in the slot
/// just above it — the slot `last_popped_stack_elem` reads.
pub proof fn theorem_vm_evaluator_equivalence(p: Seq<StmtV>, st: CompSt, n: nat, fin: MachSt)
    requires
        compile_program_spec(p, init_state()) == Ok::<CompSt, crate::compiler::CompileError>(st),
        eval_program_spec(p) is Ok,
        vm_run_n(st.code, st.consts, Outcome::Going(initial_machine()), n) == Outcome::Halted(
            fin,
        ),
    ensures
        fin.sp == 0,
        fin.slots[0] == eval_program_spec(p)->Ok_0,
{
    let code = st.code;
    let consts = st.consts;
    let s = initial_machine();
    let going = Outcome::Going(s);
    assert(carried(code, consts, st));
    lemma_stmts_sim(p, 0, init_state(), code, consts, s, ObjV::Null);
    let m = choose|k: nat|
        (vm_run_n(code, consts, going, k) matches Outcome::Going(s2) && s2.ip == st.code.len()
            && s2.sp == s.sp && s2.sp <= STACK_SIZE && s2.slots.len() == s.slots.len() && (
        forall|j: int| 0 <= j < s.sp ==> s2.slots[j] == s.slots[j]) && (0 < p.len()
            ==> s2.slots[s.sp as int] == eval_stmts_spec(p, 0, ObjV::Null)->Ok_0) && (0 >= p.len()
            ==> s2 == s)) || vm_run_n(code, consts, going, k) == Outcome::Failed(
            VmError::StackOverflow,
        );
    if vm_run_n(code, consts, going, m) == Outcome::Failed(VmError::StackOverflow) {
        lemma_vm_outcome_unique(code, consts, going, m, n);
        assert(false);
    } else {
        let s2 = vm_run_n(code, consts, going, m)->Going_0;
        lemma_vm_run_n_add(code, consts, going, m, 1nat);
        lemma_vm_run_one(code, consts, s2);
        assert(vm_step(code, consts, s2) == Outcome::Halted(s2));
        assert(vm_run_n(code, consts, going, m + 1) == Outcome::Halted(s2));
        lemma_vm_outcome_unique(code, consts, going, m + 1, n);
        assert(fin == s2);
        if p.len() == 0 {
            assert(fin.slots[0] == ObjV::Null);
            assert(eval_program_spec(p) == Ok::<ObjV, crate::evaluator::EvalError>(ObjV::Null));
        }
    }
}

/// A corollary: from its initial state, the machine running a compiled
/// accepted program can end only two ways — a normal halt with the stack
/// balanced and the evaluator's value in the slot above the floor, or a
/// stack overflow.  No other failure is reachable.
pub proof fn theorem_compiled_run_outcome(p: Seq<StmtV>, st: CompSt)
    requires
        compile_program_spec(p, init_state()) == Ok::<CompSt, crate::compiler::CompileError>(st),
        eval_program_spec(p) is Ok,
    ensures
        exists|n: nat|
            (#[trigger] vm_run_n(
                st.code,
                st.consts,
                Outcome::Going(initial_machine()),
                n,
            ) matches Outcome::Halted(fin) && fin.sp == 0 && fin.slots[0] == eval_program_spec(
                p,
            )->Ok_0) || vm_run_n(st.code, st.consts, Outcome::Going(initial_machine()), n)
                == Outcome::Failed(VmError::StackOverflow),
{
    let code = st.code;
    let consts = st.consts;
    let s = initial_machine();
    let going = Outcome::Going(s);
    assert(carried(code, consts, st));
    lemma_stmts_sim(p, 0, init_state(), code, consts, s, ObjV::Null);
    let m = choose|k: nat|
        (vm_run_n(code, consts, going, k) matches Outcome::Going(s2) && s2.ip == st.code.len()
            && s2.sp == s.sp && s2.sp <= STACK_SIZE && s2.slots.len() == s.slots.len() && (
        forall|j: int| 0 <= j < s.sp ==> s2.slots[j] == s.slots[j]) && (0 < p.len()
            ==> s2.slots[s.sp as int] == eval_stmts_spec(p, 0, ObjV::Null)->Ok_0) && (0 >= p.len()
            ==> s2 == s)) || vm_run_n(code, consts, going, k) == Outcome::Failed(
            VmError::StackOverflow,
        );
    if vm_run_n(code, consts, going, m) == Outcome::Failed(VmError::StackOverflow) {
    } else {
        let s2 = vm_run_n(code, consts, going, m)->Going_0;
        lemma_vm_run_n_add(code, consts, going, m, 1nat);
        lemma_vm_run_one(code, consts, s2);
        assert(vm_step(code, consts, s2) == Outcome::Halted(s2));
        assert(vm_run_n(code, consts, going, m + 1) == Outcome::Halted(s2));
        if p.len() == 0 {
            assert(s2.slots[0] == ObjV::Null);
            assert(eval_program_spec(p) == Ok::<ObjV, crate::evaluator::EvalError>(ObjV::Null));
        }
        assert((vm_run_n(code, consts, going, m + 1) matches Outcome::Halted(fin) && fin.sp == 0
            && fin.slots[0] == eval_program_spec(p)->Ok_0));
    }
}

} // verus!
