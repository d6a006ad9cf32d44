//! The tree-walking evaluator: an independent front end that computes the
//! value of a program straight from its syntax tree.

use vstd::prelude::*;

use crate::ast::{ExprV, Expression, Program, Statement, StmtV};
use crate::object::{
    bang_value, wrap_add, wrap_div, wrap_mul, wrap_neg, wrap_sub, Boolean, Integer, Null, ObjV,
    Object,
};
use crate::token::{TokV, Token};

verus! {

/// Why an evaluation failed.
#[derive(Debug, Clone, Copy, PartialEq, Eq, Structural)]
pub enum EvalError {
    /// A construct the evaluator does not handle.
    Unsupported,
    /// A prefix operator other than `!` or `-`.
    PrefixOperatorUnsupported,
    /// Prefix `-` on a value that is not an integer.
    PrefixMinusTypeMismatch,
    /// An infix operator the operand types do not support.
    InfixOperatorUnsupported,
    /// Infix operands that are neither two integers nor two booleans.
    InfixTypeMismatch,
    /// Division with a zero divisor.
    DivisionByZero,
}

/// The value of a prefix expression, given its operand's value.
pub open spec fn eval_prefix_spec(op: TokV, right: ObjV) -> Result<ObjV, EvalError> {
    match op {
        TokV::Bang => Ok(bang_value(right)),
        TokV::Minus => match right {
            ObjV::Int(v) => Ok(ObjV::Int(wrap_neg(v))),
            _ => Err(EvalError::PrefixMinusTypeMismatch),
        },
        _ => Err(EvalError::PrefixOperatorUnsupported),
    }
}

/// The value of an infix expression, given its operands' values.  Integers
/// support the eight operators, with wrapping arithmetic and an error on a
/// zero divisor; booleans support only `==` and `!=`.
pub open spec fn eval_infix_spec(op: TokV, left: ObjV, right: ObjV) -> Result<ObjV, EvalError> {
    match (left, right) {
        (ObjV::Int(a), ObjV::Int(b)) => match op {
            TokV::Plus => Ok(ObjV::Int(wrap_add(a, b))),
            TokV::Minus => Ok(ObjV::Int(wrap_sub(a, b))),
            TokV::Asterisk => Ok(ObjV::Int(wrap_mul(a, b))),
            TokV::Slash => if b == 0 {
                Err(EvalError::DivisionByZero)
            } else {
                Ok(ObjV::Int(wrap_div(a, b)))
            },
            TokV::Lt => Ok(ObjV::Bool(a < b)),
            TokV::Gt => Ok(ObjV::Bool(a > b)),
            TokV::Eq => Ok(ObjV::Bool(a == b)),
            TokV::Ne => Ok(ObjV::Bool(a != b)),
            _ => Err(EvalError::InfixOperatorUnsupported),
        },
        (ObjV::Bool(a), ObjV::Bool(b)) => match op {
            TokV::Eq => Ok(ObjV::Bool(a == b)),
            TokV::Ne => Ok(ObjV::Bool(a != b)),
            _ => Err(EvalError::InfixOperatorUnsupported),
        },
        _ => Err(EvalError::InfixTypeMismatch),
    }
}

/// The value of an expression.  Only integer and boolean literals, prefix
/// and infix forms are evaluated; everything else is unsupported.
pub open spec fn eval_expr_spec(e: ExprV) -> Result<ObjV, EvalError>
    decreases e,
{
    match e {
        ExprV::Int { token, value } => Ok(ObjV::Int(value)),
        ExprV::Bool { token, value } => Ok(ObjV::Bool(value)),
        ExprV::Prefix { token, right } => match eval_expr_spec(*right) {
            Ok(v) => eval_prefix_spec(token, v),
            Err(e) => Err(e),
        },
        ExprV::Infix { token, left, right } => match eval_expr_spec(*left) {
            Ok(l) => match eval_expr_spec(*right) {
                Ok(r) => eval_infix_spec(token, l, r),
                Err(e) => Err(e),
            },
            Err(e) => Err(e),
        },
        _ => Err(EvalError::Unsupported),
    }
}

/// The value of a statement: only expression statements are evaluated.
pub open spec fn eval_stmt_spec(s: StmtV) -> Result<ObjV, EvalError> {
    match s {
        StmtV::Expr { token, expression } => eval_expr_spec(*expression),
        _ => Err(EvalError::Unsupported),
    }
}

/// The value of a statement list from position `i` on: each statement is
/// evaluated in turn and the last value stands; `last` is the value so far.
pub open spec fn eval_stmts_spec(ss: Seq<StmtV>, i: int, last: ObjV) -> Result<ObjV, EvalError>
    decreases ss.len() - i,
{
    if i < 0 || i >= ss.len() {
        Ok(last)
    } else {
        match eval_stmt_spec(ss[i]) {
            Ok(v) => eval_stmts_spec(ss, i + 1, v),
            Err(e) => Err(e),
        }
    }
}

/// The value of a whole program: the last statement's value, or null for an
/// empty program.
pub open spec fn eval_program_spec(p: Seq<StmtV>) -> Result<ObjV, EvalError> {
    eval_stmts_spec(p, 0, ObjV::Null)
}

/// Evaluates a whole program.
pub fn eval(program: &Program) -> (r: Result<Object, EvalError>)
    ensures
        match r {
            Ok(o) => eval_program_spec(program@) == Ok::<ObjV, EvalError>(o@),
            Err(e) => eval_program_spec(program@) == Err::<ObjV, EvalError>(e),
        },
{
    eval_statements(&program.statements)
}

/// Evaluates one statement.
fn eval_statement(s: &Statement) -> (r: Result<Object, EvalError>)
    ensures
        match r {
            Ok(o) => eval_stmt_spec(s@) == Ok::<ObjV, EvalError>(o@),
            Err(e) => eval_stmt_spec(s@) == Err::<ObjV, EvalError>(e),
        },
{
    match s {
        Statement::Expression(x) => eval_expression(&x.expression),
        _ => Err(EvalError::Unsupported),
    }
}

/// Evaluates one expression.
fn eval_expression(e: &Expression) -> (r: Result<Object, EvalError>)
    ensures
        match r {
            Ok(o) => eval_expr_spec(e@) == Ok::<ObjV, EvalError>(o@),
            Err(e2) => eval_expr_spec(e@) == Err::<ObjV, EvalError>(e2),
        },
    decreases *e,
{
    match e {
        Expression::IntegerLiteral(x) => Ok(Object::Integer(Integer { value: x.value })),
        Expression::Boolean(x) => Ok(Object::Boolean(Boolean { value: x.value })),
        Expression::Prefix(x) => match eval_expression(&x.right) {
            Ok(right) => eval_prefix_expression(&x.token, right),
            Err(e2) => Err(e2),
        },
        Expression::Infix(x) => match eval_expression(&x.left) {
            Ok(left) => match eval_expression(&x.right) {
                Ok(right) => eval_infix_expression(&x.token, left, right),
                Err(e2) => Err(e2),
            },
            Err(e2) => Err(e2),
        },
        _ => Err(EvalError::Unsupported),
    }
}

/// Evaluates a prefix operator applied to a value.
fn eval_prefix_expression(token: &Token, right: Object) -> (r: Result<Object, EvalError>)
    ensures
        match r {
            Ok(o) => eval_prefix_spec(token@, right@) == Ok::<ObjV, EvalError>(o@),
            Err(e) => eval_prefix_spec(token@, right@) == Err::<ObjV, EvalError>(e),
        },
{
    match token {
        Token::Bang => match right {
            Object::Boolean(b) => Ok(Object::Boolean(Boolean { value: !b.value })),
            Object::Null(_) => Ok(Object::Boolean(Boolean { value: true })),
            _ => Ok(Object::Boolean(Boolean { value: false })),
        },
        Token::Minus => match right {
            Object::Integer(n) => Ok(
                Object::Integer(Integer { value: 0i64.wrapping_sub(n.value) }),
            ),
            _ => Err(EvalError::PrefixMinusTypeMismatch),
        },
        _ => Err(EvalError::PrefixOperatorUnsupported),
    }
}

/// Evaluates an infix operator applied to two values.
fn eval_infix_expression(token: &Token, left: Object, right: Object) -> (r: Result<
    Object,
    EvalError,
>)
    ensures
        match r {
            Ok(o) => eval_infix_spec(token@, left@, right@) == Ok::<ObjV, EvalError>(o@),
            Err(e) => eval_infix_spec(token@, left@, right@) == Err::<ObjV, EvalError>(e),
        },
{
    match (left, right) {
        (Object::Integer(a), Object::Integer(b)) => match token {
            Token::Plus => Ok(Object::Integer(Integer { value: a.value.wrapping_add(b.value) })),
            Token::Minus => Ok(Object::Integer(Integer { value: a.value.wrapping_sub(b.value) })),
            Token::Asterisk => Ok(
                Object::Integer(Integer { value: a.value.wrapping_mul(b.value) }),
            ),
            Token::Slash => {
                if b.value == 0 {
                    Err(EvalError::DivisionByZero)
                } else {
                    match a.value.checked_div(b.value) {
                        Some(q) => Ok(Object::Integer(Integer { value: q })),
                        None => Ok(Object::Integer(Integer { value: i64::MIN })),
                    }
                }
            },
            Token::Lt => Ok(Object::Boolean(Boolean { value: a.value < b.value })),
            Token::Gt => Ok(Object::Boolean(Boolean { value: a.value > b.value })),
            Token::Eq => Ok(Object::Boolean(Boolean { value: a.value == b.value })),
            Token::Ne => Ok(Object::Boolean(Boolean { value: a.value != b.value })),
            _ => Err(EvalError::InfixOperatorUnsupported),
        },
        (Object::Boolean(a), Object::Boolean(b)) => match token {
            Token::Eq => Ok(Object::Boolean(Boolean { value: a.value == b.value })),
            Token::Ne => Ok(Object::Boolean(Boolean { value: a.value != b.value })),
            _ => Err(EvalError::InfixOperatorUnsupported),
        },
        _ => Err(EvalError::InfixTypeMismatch),
    }
}

/// Evaluates statements in order; the last value stands, null when there
/// are none.
fn eval_statements(statements: &Vec<Statement>) -> (r: Result<Object, EvalError>)
    ensures
        match r {
            Ok(o) => eval_stmts_spec(crate::ast::stmts_view(statements@), 0, ObjV::Null)
                == Ok::<ObjV, EvalError>(o@),
            Err(e) => eval_stmts_spec(crate::ast::stmts_view(statements@), 0, ObjV::Null)
                == Err::<ObjV, EvalError>(e),
        },
{
    let ghost vs = crate::ast::stmts_view(statements@);
    proof {
        crate::ast::lemma_stmts_view_from(statements@, 0);
    }
    let mut result = Object::Null(Null {  });
    let mut i: usize = 0;
    while i < statements.len()
        invariant
            vs == crate::ast::stmts_view(statements@),
            vs.len() == statements@.len(),
            forall|j: int|
                0 <= j < statements@.len() ==> vs[j] == crate::ast::stmt_view(
                    #[trigger] statements@[j],
                ),
            0 <= i <= statements@.len(),
            eval_stmts_spec(vs, i as int, result@) == eval_stmts_spec(vs, 0, ObjV::Null),
        decreases statements@.len() - i,
    {
        match eval_statement(&statements[i]) {
            Ok(v) => {
                result = v;
            },
            Err(e) => {
                proof {
                    assert(eval_stmts_spec(vs, i as int, result@) == Err::<ObjV, EvalError>(e));
                }
                return Err(e);
            },
        }
        i = i + 1;
    }
    Ok(result)
}

} // verus!
