//! Runtime values: what the compiler emits as constants, the evaluator
//! returns, and the virtual machine keeps on its stack.

use vstd::prelude::*;

use crate::ast::{stmts_view, BlockStatement, Identifier, StmtV};
use crate::token::TokV;

verus! {

/// A signed 64-bit integer value.
#[derive(Debug, Clone, Copy, PartialEq, Eq, Structural)]
pub struct Integer {
    pub value: i64,
}

/// A boolean value.
#[derive(Debug, Clone, Copy, PartialEq, Eq, Structural)]
pub struct Boolean {
    pub value: bool,
}

/// The null singleton.
#[derive(Debug, Clone, Copy, PartialEq, Eq, Structural)]
pub struct Null {}

/// A value carried out of a block by `return`.
#[derive(Debug)]
pub struct Return {
    pub value: Box<Object>,
}

/// A user function value.  The core compiles and runs no functions; the
/// variant exists so the data model needs no break when they arrive.
#[derive(Debug)]
pub struct Function {
    pub parameters: Vec<Identifier>,
    pub body: BlockStatement,
}

/// A string value.
#[derive(Debug)]
pub struct Str {
    pub value: String,
}

/// A built-in function value, named by its index in a builtin table.  A bare
/// function pointer carries no contract, so the index stands in for it.
#[derive(Debug, Clone, Copy, PartialEq, Eq, Structural)]
pub struct BuiltinFunction(pub u64);

/// An array value.
#[derive(Debug)]
pub struct Array {
    pub elements: Vec<Object>,
}

/// A hash-table value, kept as its entry list.
#[derive(Debug)]
pub struct HashTable {
    pub pairs: Vec<(Object, Object)>,
}

/// A runtime value.  The compiler core emits only `Integer` constants and
/// the machine core touches only `Integer`, `Boolean` and `Null`; the other
/// variants are representable and trap when an operation reaches them.
#[derive(Debug)]
pub enum Object {
    Integer(Integer),
    Boolean(Boolean),
    Null(Null),
    Return(Return),
    Function(Function),
    Str(Str),
    Builtin(BuiltinFunction),
    Array(Array),
    HashTable(HashTable),
}

/// The mathematical image of a runtime value.
pub enum ObjV {
    Int(i64),
    Bool(bool),
    Null,
    Return(Box<ObjV>),
    Function { parameters: Seq<TokV>, body: Seq<StmtV> },
    Str(Seq<char>),
    Builtin(u64),
    Array(Seq<ObjV>),
    HashTable(Seq<(ObjV, ObjV)>),
}

pub open spec fn obj_view(o: Object) -> ObjV
    decreases o, 0int, 0int,
{
    match o {
        Object::Integer(x) => ObjV::Int(x.value),
        Object::Boolean(x) => ObjV::Bool(x.value),
        Object::Null(_) => ObjV::Null,
        Object::Return(x) => ObjV::Return(Box::new(obj_view(*x.value))),
        Object::Function(x) => ObjV::Function {
            parameters: Seq::new(x.parameters@.len(), |i: int| x.parameters@[i].token@),
            body: stmts_view(x.body.statements@),
        },
        Object::Str(x) => ObjV::Str(x.value@),
        Object::Builtin(x) => ObjV::Builtin(x.0),
        Object::Array(x) => ObjV::Array(objs_view_from(x.elements@, 0)),
        Object::HashTable(x) => ObjV::HashTable(obj_pairs_view_from(x.pairs@, 0)),
    }
}

pub open spec fn objs_view_from(s: Seq<Object>, i: int) -> Seq<ObjV>
    decreases s, 1int, s.len() - i,
{
    if i < 0 || i >= s.len() {
        Seq::empty()
    } else {
        seq![obj_view(s[i])] + objs_view_from(s, i + 1)
    }
}

pub open spec fn obj_pairs_view_from(s: Seq<(Object, Object)>, i: int) -> Seq<(ObjV, ObjV)>
    decreases s, 1int, s.len() - i,
{
    if i < 0 || i >= s.len() {
        Seq::empty()
    } else {
        seq![(obj_view(s[i].0), obj_view(s[i].1))] + obj_pairs_view_from(s, i + 1)
    }
}

/// The view of a list of values.
pub open spec fn objs_view(s: Seq<Object>) -> Seq<ObjV> {
    objs_view_from(s, 0)
}

impl View for Object {
    type V = ObjV;

    open spec fn view(&self) -> ObjV {
        obj_view(*self)
    }
}

/// Element-wise description of a value-list view.
pub proof fn lemma_objs_view_from(s: Seq<Object>, i: int)
    requires
        0 <= i <= s.len(),
    ensures
        objs_view_from(s, i).len() == s.len() - i,
        forall|j: int|
            i <= j < s.len() ==> objs_view_from(s, i)[j - i] == obj_view(#[trigger] s[j]),
    decreases s.len() - i,
{
    if i < s.len() {
        lemma_objs_view_from(s, i + 1);
        assert forall|j: int|
            i <= j < s.len() implies objs_view_from(s, i)[j - i] == obj_view(
            #[trigger] s[j],
        ) by {
            if j > i {
                assert(objs_view_from(s, i)[j - i] == objs_view_from(s, i + 1)[j - (i + 1)]);
            }
        }
    }
}

pub proof fn lemma_obj_pairs_view_from(s: Seq<(Object, Object)>, i: int)
    requires
        0 <= i <= s.len(),
    ensures
        obj_pairs_view_from(s, i).len() == s.len() - i,
        forall|j: int|
            i <= j < s.len() ==> obj_pairs_view_from(s, i)[j - i] == (
            obj_view((#[trigger] s[j]).0),
            obj_view(s[j].1),
            ),
    decreases s.len() - i,
{
    if i < s.len() {
        lemma_obj_pairs_view_from(s, i + 1);
        assert forall|j: int|
            i <= j < s.len() implies obj_pairs_view_from(s, i)[j - i] == (
        obj_view((#[trigger] s[j]).0),
        obj_view(s[j].1),
        ) by {
            if j > i {
                assert(obj_pairs_view_from(s, i)[j - i] == obj_pairs_view_from(s, i + 1)[j - (i
                    + 1)]);
            }
        }
    }
}

/// A structurally equal copy of a value.
pub fn clone_object(o: &Object) -> (r: Object)
    ensures
        r@ == o@,
    decreases *o, 0int, 0int,
{
    match o {
        Object::Integer(x) => Object::Integer(Integer { value: x.value }),
        Object::Boolean(x) => Object::Boolean(Boolean { value: x.value }),
        Object::Null(_) => Object::Null(Null {  }),
        Object::Return(x) => Object::Return(Return { value: Box::new(clone_object(&x.value)) }),
        Object::Function(x) => {
            let mut parameters: Vec<Identifier> = Vec::new();
            let mut i: usize = 0;
            while i < x.parameters.len()
                invariant
                    i <= x.parameters@.len(),
                    parameters@.len() == i,
                    forall|j: int|
                        0 <= j < i ==> #[trigger] parameters@[j].token@ == x.parameters@[j].token@,
                decreases x.parameters@.len() - i,
            {
                parameters.push(x.parameters[i].clone());
                i = i + 1;
            }
            let body = x.body.clone();
            let r = Object::Function(Function { parameters, body });
            proof {
                assert(Seq::new(parameters@.len(), |k: int| parameters@[k].token@) =~= Seq::new(
                    x.parameters@.len(),
                    |k: int| x.parameters@[k].token@,
                ));
                assert(obj_view(r) =~= obj_view(*o));
            }
            r
        },
        Object::Str(x) => Object::Str(Str { value: x.value.clone() }),
        Object::Builtin(x) => Object::Builtin(BuiltinFunction(x.0)),
        Object::Array(x) => {
            let elements = clone_objects(&x.elements);
            let r = Object::Array(Array { elements });
            proof {
                assert(obj_view(r) =~= obj_view(*o));
            }
            r
        },
        Object::HashTable(x) => {
            let pairs = clone_object_pairs(&x.pairs);
            let r = Object::HashTable(HashTable { pairs });
            proof {
                assert(obj_view(r) =~= obj_view(*o));
            }
            r
        },
    }
}

/// A structurally equal copy of a list of values.
pub fn clone_objects(s: &Vec<Object>) -> (r: Vec<Object>)
    ensures
        r@.len() == s@.len(),
        objs_view(r@) == objs_view(s@),
    decreases s@, 1int, 0int,
{
    let mut out: Vec<Object> = Vec::new();
    let mut i: usize = 0;
    while i < s.len()
        invariant
            i <= s@.len(),
            out@.len() == i,
            forall|j: int| 0 <= j < i ==> obj_view(#[trigger] out@[j]) == obj_view(s@[j]),
        decreases s@.len() - i,
    {
        out.push(clone_object(&s[i]));
        i = i + 1;
    }
    proof {
        lemma_objs_view_from(out@, 0);
        lemma_objs_view_from(s@, 0);
        assert forall|k: int| 0 <= k < out@.len() implies objs_view(out@)[k] == objs_view(
            s@,
        )[k] by {
            assert(objs_view_from(out@, 0)[k - 0] == obj_view(out@[k]));
            assert(objs_view_from(s@, 0)[k - 0] == obj_view(s@[k]));
        }
        assert(objs_view(out@) =~= objs_view(s@));
    }
    out
}

/// A structurally equal copy of a list of value pairs.
pub fn clone_object_pairs(s: &Vec<(Object, Object)>) -> (r: Vec<(Object, Object)>)
    ensures
        r@.len() == s@.len(),
        obj_pairs_view_from(r@, 0) == obj_pairs_view_from(s@, 0),
    decreases s@, 1int, 0int,
{
    let mut out: Vec<(Object, Object)> = Vec::new();
    let mut i: usize = 0;
    while i < s.len()
        invariant
            i <= s@.len(),
            out@.len() == i,
            forall|j: int|
                0 <= j < i ==> obj_view((#[trigger] out@[j]).0) == obj_view(s@[j].0) && obj_view(
                    out@[j].1,
                ) == obj_view(s@[j].1),
        decreases s@.len() - i,
    {
        let k = clone_object(&s[i].0);
        let v = clone_object(&s[i].1);
        out.push((k, v));
        i = i + 1;
    }
    proof {
        lemma_obj_pairs_view_from(out@, 0);
        lemma_obj_pairs_view_from(s@, 0);
        assert forall|k: int| 0 <= k < out@.len() implies obj_pairs_view_from(out@, 0)[k]
            == obj_pairs_view_from(s@, 0)[k] by {
            assert(obj_pairs_view_from(out@, 0)[k - 0] == (
                obj_view(out@[k].0),
                obj_view(out@[k].1),
            ));
            assert(obj_pairs_view_from(s@, 0)[k - 0] == (obj_view(s@[k].0), obj_view(s@[k].1)));
        }
        assert(obj_pairs_view_from(out@, 0) =~= obj_pairs_view_from(s@, 0));
    }
    out
}

impl Clone for Object {
    fn clone(&self) -> (r: Self)
        ensures
            r@ == self@,
    {
        clone_object(self)
    }
}

/// Truthiness: every value except `false` and null is truthy.
pub open spec fn truthy(v: ObjV) -> bool {
    v != ObjV::Bool(false) && v != ObjV::Null
}

/// Logical negation as `!` computes it: `true` and `false` flip, null is
/// falsy so it negates to `true`, and every other value negates to `false`.
pub open spec fn bang_value(v: ObjV) -> ObjV {
    match v {
        ObjV::Bool(b) => ObjV::Bool(!b),
        ObjV::Null => ObjV::Bool(true),
        _ => ObjV::Bool(false),
    }
}

/// Two's-complement wrapping addition on 64-bit values.
pub open spec fn wrap_add(a: i64, b: i64) -> i64 {
    vstd::wrapping::i64_specs::wrapping_add(a, b)
}

/// Two's-complement wrapping subtraction on 64-bit values.
pub open spec fn wrap_sub(a: i64, b: i64) -> i64 {
    vstd::wrapping::i64_specs::wrapping_sub(a, b)
}

/// Two's-complement wrapping multiplication on 64-bit values.
pub open spec fn wrap_mul(a: i64, b: i64) -> i64 {
    vstd::wrapping::i64_specs::wrapping_mul(a, b)
}

/// Truncated division with a non-zero divisor; the one overflowing case,
/// the smallest value divided by minus one, wraps to itself.
pub open spec fn wrap_div(a: i64, b: i64) -> i64
    recommends
        b != 0,
{
    match a.checked_div(b) {
        Some(q) => q,
        None => i64::MIN,
    }
}

/// Two's-complement wrapping negation.
pub open spec fn wrap_neg(a: i64) -> i64 {
    wrap_sub(0, a)
}

} // verus!
