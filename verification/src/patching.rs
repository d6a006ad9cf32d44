//! Jump patching: the compiler back-patches every forward jump it emits
//! for an `if` to a final operand that lies within the instruction stream,
//! at the byte offset where the code after the patched arm begins.

use vstd::prelude::*;

use crate::ast::{ExprV, StmtV};
use crate::code::{instr_width, op_byte, op_of_byte, read_u16_spec, OpCodeType};
use crate::compiler::{
    compile_expr_spec, compile_if_arm, compile_stmt_spec, compile_stmts_spec, emit_spec,
    last_is_pop, patch_spec, CompSt,
};

verus! {

/// The code only grew: every byte below the entry length is unchanged.
pub open spec fn grows(st0: CompSt, st1: CompSt) -> bool {
    &&& st0.code.len() <= st1.code.len()
    &&& forall|k: int| 0 <= k < st0.code.len() ==> st1.code[k] == #[trigger] st0.code[k]
}

/// A recorded emission lies at or above the entry length and fits inside
/// the current stream.
pub open spec fn inbound(st0: CompSt, st1: CompSt, em: Option<(OpCodeType, int)>) -> bool {
    em matches Some((op, p)) && st0.code.len() <= p && p + instr_width(op) <= st1.code.len()
}

/// The emission history an expression leaves: its own final instruction,
/// which is never a `Pop`.
pub open spec fn expr_hist(st0: CompSt, st1: CompSt) -> bool {
    st1.last matches Some((op, p)) && op != OpCodeType::Pop && st0.code.len() <= p && p
        + instr_width(op) <= st1.code.len()
}

/// The emission history a statement list leaves when it emitted anything:
/// a last emission in bounds, preceded by a non-`Pop` emission that ends
/// no later than the last one starts.
pub open spec fn stmt_hist(st0: CompSt, st1: CompSt) -> bool {
    &&& inbound(st0, st1, st1.last)
    &&& st1.prev matches Some((op, p)) && op != OpCodeType::Pop && st0.code.len() <= p
    &&& (st1.last matches Some((lop, lp)) && (st1.prev matches Some((pop2, pp)) && pp
        + instr_width(pop2) <= lp))
}

/// Nothing was emitted: code and history are exactly the entry's.
pub open spec fn untouched(st0: CompSt, st1: CompSt) -> bool {
    st1.code == st0.code && st1.last == st0.last && st1.prev == st0.prev
}

/// The history a branch arm leaves: as a statement list's, but its last
/// emission is never a `Pop` (a trailing `Pop` was removed).
pub open spec fn arm_hist(st0: CompSt, st1: CompSt) -> bool {
    &&& st1.last matches Some((op, p)) && op != OpCodeType::Pop && st0.code.len() <= p && p
        + instr_width(op) <= st1.code.len()
    &&& st1.prev matches Some((op, p)) && op != OpCodeType::Pop && st0.code.len() <= p && p
        + instr_width(op) <= st1.code.len()
}

/// Compiling an expression only appends, and leaves its own final
/// non-`Pop` instruction as the recorded last emission.
#[verifier::rlimit(100)]
#[verifier::spinoff_prover]
pub proof fn lemma_preserve_expr(e: ExprV, st0: CompSt)
    requires
        compile_expr_spec(e, st0) is Ok,
    ensures
        grows(st0, compile_expr_spec(e, st0)->Ok_0),
        expr_hist(st0, compile_expr_spec(e, st0)->Ok_0),
    decreases e, 3int, 0int,
{
    let st1 = compile_expr_spec(e, st0)->Ok_0;
    match e {
        ExprV::Int { token, value } => {
            assert(st1.code =~= st0.code + crate::code::make_spec(
                OpCodeType::Constant,
                seq![(st0.consts.len() as u16)],
            ));
            crate::code::lemma_operands_bytes_len(seq![(st0.consts.len() as u16)]);
        },
        ExprV::Bool { token, value } => {
            crate::code::lemma_operands_bytes_len(Seq::<u16>::empty());
        },
        ExprV::Prefix { token, right } => {
            lemma_preserve_expr(*right, st0);
            crate::code::lemma_operands_bytes_len(Seq::<u16>::empty());
        },
        ExprV::Infix { token, left, right } => {
            crate::code::lemma_operands_bytes_len(Seq::<u16>::empty());
            if token == crate::token::TokV::Lt {
                let sta = compile_expr_spec(*right, st0)->Ok_0;
                lemma_preserve_expr(*right, st0);
                lemma_preserve_expr(*left, sta);
            } else {
                let sta = compile_expr_spec(*left, st0)->Ok_0;
                lemma_preserve_expr(*left, st0);
                lemma_preserve_expr(*right, sta);
            }
        },
        ExprV::If { condition, consequence, alternative } => {
            crate::code::lemma_operands_bytes_len(seq![crate::compiler::placeholder()]);
            let st1c = compile_expr_spec(*condition, st0)->Ok_0;
            lemma_preserve_expr(*condition, st0);
            let jnt_pos = st1c.code.len() as int;
            let st2 = emit_spec(st1c, OpCodeType::JumpNotTruthy, seq![crate::compiler::placeholder()]);
            assert(grows(st0, st2));
            assert(!last_is_pop(st2));
            lemma_preserve_arm(consequence, st2);
            let st4 = compile_if_arm(consequence, st2)->Ok_0;
            assert(grows(st0, st4));
            match alternative {
                None => {
                    lemma_patch_effect(st4, jnt_pos, st4.code.len() as int);
                    assert(grows(st0, st1));
                    assert(expr_hist(st0, st1)) by {
                        assert(st1.last == st4.last);
                        if untouched(st2, st4) {
                            assert(st4.last == Some((OpCodeType::JumpNotTruthy, jnt_pos)));
                        }
                    }
                },
                Some(alt) => {
                    let jump_pos = st4.code.len() as int;
                    let st5 = emit_spec(st4, OpCodeType::Jump, seq![crate::compiler::placeholder()]);
                    assert(grows(st0, st5));
                    let st6 = patch_spec(st5, jnt_pos, st5.code.len() as int)->Ok_0;
                    lemma_patch_effect(st5, jnt_pos, st5.code.len() as int);
                    assert(grows(st0, st6));
                    assert(!last_is_pop(st6));
                    lemma_preserve_arm(alt, st6);
                    let st8 = compile_if_arm(alt, st6)->Ok_0;
                    assert(grows(st0, st8));
                    lemma_patch_effect(st8, jump_pos, st8.code.len() as int);
                    assert(grows(st0, st1));
                    assert(expr_hist(st0, st1)) by {
                        assert(st1.last == st8.last);
                        if untouched(st6, st8) {
                            assert(st8.last == Some((OpCodeType::Jump, jump_pos)));
                        }
                    }
                },
            }
        },
        _ => {
            assert(false);
        },
    }
}

/// A successful patch keeps the stream's length and history, changes no
/// byte outside the three patched ones, and plants the target operand.
#[verifier::spinoff_prover]
pub proof fn lemma_patch_effect(st: CompSt, pos: int, target: int)
    requires
        patch_spec(st, pos, target) is Ok,
    ensures
        ({
            let st2 = patch_spec(st, pos, target)->Ok_0;
            &&& st2.code.len() == st.code.len()
            &&& st2.consts == st.consts
            &&& st2.last == st.last
            &&& st2.prev == st.prev
            &&& 0 <= pos && pos + 3 <= st.code.len()
            &&& forall|k: int|
                0 <= k < st.code.len() && !(pos <= k < pos + 3) ==> st2.code[k]
                    == #[trigger] st.code[k]
            &&& st2.code[pos] == st.code[pos]
            &&& 0 <= target <= 65535
            &&& read_u16_spec(st2.code, pos + 1) == target as u16
        }),
{
    let st2 = patch_spec(st, pos, target)->Ok_0;
    let op = op_of_byte(st.code[pos])->0;
    let enc = crate::code::make_spec(op, seq![(target as u16)]);
    crate::code::lemma_operands_bytes_len(seq![(target as u16)]);
    assert(instr_width(op) == 3);
    assert(enc =~= seq![
        op_byte(op),
        ((target as u16) / 256) as u8,
        ((target as u16) % 256) as u8,
    ]) by {
        assert(crate::code::operands_bytes(seq![(target as u16)].drop_first()) =~= Seq::empty());
        assert(crate::code::operands_bytes(seq![(target as u16)]) =~= seq![
            ((target as u16) / 256) as u8,
            ((target as u16) % 256) as u8,
        ]);
    }
    assert(st2.code == st.code.take(pos) + enc + st.code.skip(pos + 3));
    assert(st2.code.len() == st.code.len());
    assert(st2.code[pos] == op_byte(op));
    crate::code::lemma_op_byte_round_trip(op);
    assert(op_byte(op) == st.code[pos]);
    assert(st2.code[pos + 1] == ((target as u16) / 256) as u8);
    assert(st2.code[pos + 2] == ((target as u16) % 256) as u8);
    assert(read_u16_spec(st2.code, pos + 1) == target as u16) by {
        vstd::arithmetic::div_mod::lemma_fundamental_div_mod(target as u16 as int, 256);
    }
}

/// Compiling a statement only appends; it either emits nothing or leaves
/// a two-deep history of its own emissions.
#[verifier::rlimit(100)]
#[verifier::spinoff_prover]
pub proof fn lemma_preserve_stmt(s: StmtV, st0: CompSt)
    requires
        compile_stmt_spec(s, st0) is Ok,
    ensures
        grows(st0, compile_stmt_spec(s, st0)->Ok_0),
        untouched(st0, compile_stmt_spec(s, st0)->Ok_0) || stmt_hist(
            st0,
            compile_stmt_spec(s, st0)->Ok_0,
        ),
    decreases s, 3int, 0int,
{
    match s {
        StmtV::Expr { token, expression } => {
            lemma_preserve_expr(*expression, st0);
            crate::code::lemma_operands_bytes_len(Seq::<u16>::empty());
        },
        StmtV::Block(ss) => {
            lemma_preserve_stmts(ss, 0, st0);
        },
        _ => {
            assert(false);
        },
    }
}

/// Compiling a statement list only appends; it either emits nothing or
/// leaves a two-deep history of its own emissions.
#[verifier::rlimit(100)]
#[verifier::spinoff_prover]
pub proof fn lemma_preserve_stmts(ss: Seq<StmtV>, i: int, st0: CompSt)
    requires
        compile_stmts_spec(ss, i, st0) is Ok,
    ensures
        grows(st0, compile_stmts_spec(ss, i, st0)->Ok_0),
        untouched(st0, compile_stmts_spec(ss, i, st0)->Ok_0) || stmt_hist(
            st0,
            compile_stmts_spec(ss, i, st0)->Ok_0,
        ),
    decreases ss, 1int, ss.len() - i,
{
    if i < 0 || i >= ss.len() {
    } else {
        let sta = compile_stmt_spec(ss[i], st0)->Ok_0;
        lemma_preserve_stmt(ss[i], st0);
        lemma_preserve_stmts(ss, i + 1, sta);
    }
}

/// Jump patching: each `JumpNotTruthy` and `Jump` emitted while compiling
/// an `if` keeps its opcode and receives a final operand that is a byte
/// offset within the compiled stream, pointing at the first byte of the
/// code that follows the patched arm: without an `else`, the conditional
/// jump lands just past the consequence; with one, it lands on the first
/// byte of the alternative's code and the unconditional jump lands just
/// past it.
#[verifier::rlimit(100)]
#[verifier::spinoff_prover]
pub proof fn lemma_jump_patching(
    condition: ExprV,
    consequence: Seq<StmtV>,
    alternative: Option<Seq<StmtV>>,
    st0: CompSt,
)
    requires
        compile_expr_spec(
            ExprV::If { condition: Box::new(condition), consequence, alternative },
            st0,
        ) is Ok,
    ensures
        ({
            let stf = compile_expr_spec(
                ExprV::If { condition: Box::new(condition), consequence, alternative },
                st0,
            )->Ok_0;
            let st1c = compile_expr_spec(condition, st0)->Ok_0;
            let jnt_pos = st1c.code.len() as int;
            let st2 = emit_spec(
                st1c,
                OpCodeType::JumpNotTruthy,
                seq![crate::compiler::placeholder()],
            );
            let st4 = compile_if_arm(consequence, st2)->Ok_0;
            &&& 0 <= jnt_pos && jnt_pos + 3 <= stf.code.len()
            &&& op_of_byte(stf.code[jnt_pos]) == Some(OpCodeType::JumpNotTruthy)
            &&& match alternative {
                None => read_u16_spec(stf.code, jnt_pos + 1) == stf.code.len(),
                Some(alt) => {
                    let jump_pos = st4.code.len() as int;
                    &&& jump_pos + 3 <= stf.code.len()
                    &&& read_u16_spec(stf.code, jnt_pos + 1) == jump_pos + 3
                    &&& op_of_byte(stf.code[jump_pos]) == Some(OpCodeType::Jump)
                    &&& read_u16_spec(stf.code, jump_pos + 1) == stf.code.len()
                },
            }
        }),
{
    let e = ExprV::If { condition: Box::new(condition), consequence, alternative };
    let stf = compile_expr_spec(e, st0)->Ok_0;
    let st1c = compile_expr_spec(condition, st0)->Ok_0;
    let jnt_pos = st1c.code.len() as int;
    let st2 = emit_spec(st1c, OpCodeType::JumpNotTruthy, seq![crate::compiler::placeholder()]);
    crate::code::lemma_operands_bytes_len(seq![crate::compiler::placeholder()]);
    assert(st2.code[jnt_pos] == op_byte(OpCodeType::JumpNotTruthy));
    assert(st2.code.len() == jnt_pos + 3);
    assert(!last_is_pop(st2));
    lemma_preserve_arm(consequence, st2);
    let st4 = compile_if_arm(consequence, st2)->Ok_0;
    assert(st4.code[jnt_pos] == op_byte(OpCodeType::JumpNotTruthy));
    crate::code::lemma_op_byte_round_trip(OpCodeType::JumpNotTruthy);
    crate::code::lemma_op_byte_round_trip(OpCodeType::Jump);
    match alternative {
        None => {
            lemma_patch_effect(st4, jnt_pos, st4.code.len() as int);
            assert(stf == patch_spec(st4, jnt_pos, st4.code.len() as int)->Ok_0);
            assert(stf.code[jnt_pos] == op_byte(OpCodeType::JumpNotTruthy));
            assert(read_u16_spec(stf.code, jnt_pos + 1) == (st4.code.len() as int) as u16);
            assert(stf.code.len() == st4.code.len());
        },
        Some(alt) => {
            let jump_pos = st4.code.len() as int;
            let st5 = emit_spec(st4, OpCodeType::Jump, seq![crate::compiler::placeholder()]);
            assert(st5.code[jump_pos] == op_byte(OpCodeType::Jump));
            assert(st5.code.len() == jump_pos + 3);
            assert(st5.code[jnt_pos] == st4.code[jnt_pos]);
            let st6 = patch_spec(st5, jnt_pos, st5.code.len() as int)->Ok_0;
            lemma_patch_effect(st5, jnt_pos, st5.code.len() as int);
            assert(st6.code[jnt_pos] == op_byte(OpCodeType::JumpNotTruthy));
            assert(read_u16_spec(st6.code, jnt_pos + 1) == (jump_pos + 3) as u16);
            assert(st6.code[jump_pos] == op_byte(OpCodeType::Jump));
            assert(!last_is_pop(st6));
            lemma_preserve_arm(alt, st6);
            let st8 = compile_if_arm(alt, st6)->Ok_0;
            assert(st8.code[jnt_pos] == st6.code[jnt_pos]);
            assert(st8.code[jnt_pos + 1] == st6.code[jnt_pos + 1]);
            assert(st8.code[jnt_pos + 2] == st6.code[jnt_pos + 2]);
            assert(st8.code[jump_pos] == st6.code[jump_pos]);
            lemma_patch_effect(st8, jump_pos, st8.code.len() as int);
            assert(stf == patch_spec(st8, jump_pos, st8.code.len() as int)->Ok_0);
            assert(stf.code[jnt_pos] == st8.code[jnt_pos]);
            assert(stf.code[jnt_pos + 1] == st8.code[jnt_pos + 1]);
            assert(stf.code[jnt_pos + 2] == st8.code[jnt_pos + 2]);
            assert(read_u16_spec(stf.code, jnt_pos + 1) == read_u16_spec(st8.code, jnt_pos + 1));
            assert(read_u16_spec(st8.code, jnt_pos + 1) == read_u16_spec(st6.code, jnt_pos + 1));
            assert(stf.code[jump_pos] == op_byte(OpCodeType::Jump));
            assert(read_u16_spec(stf.code, jump_pos + 1) == (st8.code.len() as int) as u16);
            assert(stf.code.len() == st8.code.len());
            assert(jnt_pos + 3 <= jump_pos);
        },
    }
}

/// Compiling a branch arm only appends (its trailing-`Pop` removal cuts
/// only bytes the arm itself appended), and any history it leaves is its
/// own non-`Pop` emissions.
#[verifier::rlimit(100)]
#[verifier::spinoff_prover]
pub proof fn lemma_preserve_arm(ss: Seq<StmtV>, st0: CompSt)
    requires
        compile_if_arm(ss, st0) is Ok,
        !last_is_pop(st0),
    ensures
        grows(st0, compile_if_arm(ss, st0)->Ok_0),
        untouched(st0, compile_if_arm(ss, st0)->Ok_0) || arm_hist(
            st0,
            compile_if_arm(ss, st0)->Ok_0,
        ),
        !last_is_pop(compile_if_arm(ss, st0)->Ok_0),
    decreases ss, 2int, 0int,
{
    let st3 = compile_stmts_spec(ss, 0, st0)->Ok_0;
    lemma_preserve_stmts(ss, 0, st0);
    if last_is_pop(st3) {
        assert(!untouched(st0, st3));
        assert(stmt_hist(st0, st3));
    }
}

} // verus!
