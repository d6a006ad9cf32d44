//! The stack virtual machine: executes an instruction stream against a
//! fixed-capacity value stack.

use vstd::prelude::*;

use crate::code::{
    op_of_byte, opcode_from_byte, read_u16, read_u16_spec, Instructions, OpCodeType,
};
use crate::compiler::ByteCode;
use crate::object::{
    bang_value, clone_object, objs_view, truthy, wrap_add, wrap_div, wrap_mul, wrap_neg,
    wrap_sub, Boolean, Integer, Null, ObjV, Object,
};

verus! {

/// The machine's stack holds this many slots.
pub const STACK_SIZE: usize = 2048;

/// Why a run failed.
#[derive(Debug, Clone, Copy, PartialEq, Eq, Structural)]
pub enum VmError {
    /// An instruction byte outside the opcode set.
    UnknownOpcode,
    /// An operand that runs past the end of the stream.
    TruncatedOperand,
    /// A constants-pool index with no entry.
    ConstantOutOfRange,
    /// A push onto a full stack.
    StackOverflow,
    /// A pop from an empty stack.
    StackUnderflow,
    /// Arithmetic on values that are not two integers.
    BinaryTypeMismatch,
    /// An opcode reaching the arithmetic handler that is no arithmetic op.
    BinaryOperatorUnsupported,
    /// A comparison on values that are neither two integers nor two
    /// booleans.
    ComparisonTypeMismatch,
    /// An opcode reaching the comparison handler that is no comparison op.
    ComparisonOperatorUnsupported,
    /// Negation of a value that is not an integer.
    NegationTypeMismatch,
    /// Division with a zero divisor.
    DivisionByZero,
    /// A jump whose target does not lie forward of the jump itself.  Such
    /// a stream is treated as malformed, which keeps every run finite; the
    /// compiler only ever emits forward jumps.
    BackwardJump,
}

/// A machine state: the stack slots, the stack pointer (index of the next
/// free slot), and the instruction pointer.
pub struct MachSt {
    pub slots: Seq<ObjV>,
    pub sp: nat,
    pub ip: nat,
}

/// Where one step can lead: on to a next state, a normal halt at the end
/// of the stream, or a failure.
pub enum Outcome {
    Going(MachSt),
    Halted(MachSt),
    Failed(VmError),
}

/// What an arithmetic opcode computes from the two popped values, left
/// then right.
pub open spec fn binary_result(op: OpCodeType, l: ObjV, r: ObjV) -> Result<ObjV, VmError> {
    match (l, r) {
        (ObjV::Int(a), ObjV::Int(b)) => match op {
            OpCodeType::Add => Ok(ObjV::Int(wrap_add(a, b))),
            OpCodeType::Sub => Ok(ObjV::Int(wrap_sub(a, b))),
            OpCodeType::Mul => Ok(ObjV::Int(wrap_mul(a, b))),
            OpCodeType::Div => if b == 0 {
                Err(VmError::DivisionByZero)
            } else {
                Ok(ObjV::Int(wrap_div(a, b)))
            },
            _ => Err(VmError::BinaryOperatorUnsupported),
        },
        _ => Err(VmError::BinaryTypeMismatch),
    }
}

/// What a comparison opcode computes from the two popped values.  Two
/// integers compare numerically; two booleans support equality and the
/// greater-than ordering with `true` above `false`.
pub open spec fn comparison_result(op: OpCodeType, l: ObjV, r: ObjV) -> Result<ObjV, VmError> {
    match (l, r) {
        (ObjV::Int(a), ObjV::Int(b)) => match op {
            OpCodeType::Equal => Ok(ObjV::Bool(a == b)),
            OpCodeType::NotEqual => Ok(ObjV::Bool(a != b)),
            OpCodeType::GreaterThan => Ok(ObjV::Bool(a > b)),
            _ => Err(VmError::ComparisonOperatorUnsupported),
        },
        (ObjV::Bool(a), ObjV::Bool(b)) => match op {
            OpCodeType::Equal => Ok(ObjV::Bool(a == b)),
            OpCodeType::NotEqual => Ok(ObjV::Bool(a != b)),
            OpCodeType::GreaterThan => Ok(ObjV::Bool(a && !b)),
            _ => Err(VmError::ComparisonOperatorUnsupported),
        },
        _ => Err(VmError::ComparisonTypeMismatch),
    }
}

/// One dispatch step of the machine on `code` and `consts`.  At or past
/// the end of the stream the machine halts; otherwise the opcode at `ip`
/// executes and `ip` moves past the instruction or to a jump target.
pub open spec fn vm_step(code: Seq<u8>, consts: Seq<ObjV>, s: MachSt) -> Outcome {
    if s.ip >= code.len() {
        Outcome::Halted(s)
    } else {
        match op_of_byte(code[s.ip as int]) {
            None => Outcome::Failed(VmError::UnknownOpcode),
            Some(op) => match op {
                OpCodeType::Constant => if s.ip + 3 > code.len() {
                    Outcome::Failed(VmError::TruncatedOperand)
                } else {
                    let idx = read_u16_spec(code, s.ip + 1 as int) as int;
                    if idx >= consts.len() {
                        Outcome::Failed(VmError::ConstantOutOfRange)
                    } else if s.sp >= STACK_SIZE {
                        Outcome::Failed(VmError::StackOverflow)
                    } else {
                        Outcome::Going(
                            MachSt {
                                slots: s.slots.update(s.sp as int, consts[idx]),
                                sp: s.sp + 1,
                                ip: s.ip + 3,
                            },
                        )
                    }
                },
                OpCodeType::Pop => if s.sp == 0 {
                    Outcome::Failed(VmError::StackUnderflow)
                } else {
                    Outcome::Going(MachSt { slots: s.slots, sp: (s.sp - 1) as nat, ip: s.ip + 1 })
                },
                OpCodeType::True => if s.sp >= STACK_SIZE {
                    Outcome::Failed(VmError::StackOverflow)
                } else {
                    Outcome::Going(
                        MachSt {
                            slots: s.slots.update(s.sp as int, ObjV::Bool(true)),
                            sp: s.sp + 1,
                            ip: s.ip + 1,
                        },
                    )
                },
                OpCodeType::False => if s.sp >= STACK_SIZE {
                    Outcome::Failed(VmError::StackOverflow)
                } else {
                    Outcome::Going(
                        MachSt {
                            slots: s.slots.update(s.sp as int, ObjV::Bool(false)),
                            sp: s.sp + 1,
                            ip: s.ip + 1,
                        },
                    )
                },
                OpCodeType::Add | OpCodeType::Sub | OpCodeType::Mul | OpCodeType::Div => if s.sp
                    < 2 {
                    Outcome::Failed(VmError::StackUnderflow)
                } else {
                    let l = s.slots[s.sp - 2];
                    let r = s.slots[s.sp - 1];
                    match binary_result(op, l, r) {
                        Ok(v) => Outcome::Going(
                            MachSt {
                                slots: s.slots.update(s.sp - 2, v),
                                sp: (s.sp - 1) as nat,
                                ip: s.ip + 1,
                            },
                        ),
                        Err(e) => Outcome::Failed(e),
                    }
                },
                OpCodeType::Equal | OpCodeType::NotEqual | OpCodeType::GreaterThan => if s.sp
                    < 2 {
                    Outcome::Failed(VmError::StackUnderflow)
                } else {
                    let l = s.slots[s.sp - 2];
                    let r = s.slots[s.sp - 1];
                    match comparison_result(op, l, r) {
                        Ok(v) => Outcome::Going(
                            MachSt {
                                slots: s.slots.update(s.sp - 2, v),
                                sp: (s.sp - 1) as nat,
                                ip: s.ip + 1,
                            },
                        ),
                        Err(e) => Outcome::Failed(e),
                    }
                },
                OpCodeType::Bang => if s.sp == 0 {
                    Outcome::Failed(VmError::StackUnderflow)
                } else {
                    Outcome::Going(
                        MachSt {
                            slots: s.slots.update(s.sp - 1, bang_value(s.slots[s.sp - 1])),
                            sp: s.sp,
                            ip: s.ip + 1,
                        },
                    )
                },
                OpCodeType::Minus => if s.sp == 0 {
                    Outcome::Failed(VmError::StackUnderflow)
                } else {
                    match s.slots[s.sp - 1] {
                        ObjV::Int(v) => Outcome::Going(
                            MachSt {
                                slots: s.slots.update(s.sp - 1, ObjV::Int(wrap_neg(v))),
                                sp: s.sp,
                                ip: s.ip + 1,
                            },
                        ),
                        _ => Outcome::Failed(VmError::NegationTypeMismatch),
                    }
                },
                OpCodeType::Jump => if s.ip + 3 > code.len() {
                    Outcome::Failed(VmError::TruncatedOperand)
                } else {
                    let target = read_u16_spec(code, s.ip + 1 as int) as nat;
                    if target <= s.ip {
                        Outcome::Failed(VmError::BackwardJump)
                    } else {
                        Outcome::Going(MachSt { slots: s.slots, sp: s.sp, ip: target })
                    }
                },
                OpCodeType::JumpNotTruthy => if s.ip + 3 > code.len() {
                    Outcome::Failed(VmError::TruncatedOperand)
                } else if s.sp == 0 {
                    Outcome::Failed(VmError::StackUnderflow)
                } else {
                    let target = read_u16_spec(code, s.ip + 1 as int) as nat;
                    let v = s.slots[s.sp - 1];
                    if truthy(v) {
                        Outcome::Going(
                            MachSt { slots: s.slots, sp: (s.sp - 1) as nat, ip: s.ip + 3 },
                        )
                    } else if target <= s.ip {
                        Outcome::Failed(VmError::BackwardJump)
                    } else {
                        Outcome::Going(
                            MachSt { slots: s.slots, sp: (s.sp - 1) as nat, ip: target },
                        )
                    }
                },
            },
        }
    }
}

/// One step from an outcome: halted and failed outcomes stay put.
pub open spec fn vm_advance(code: Seq<u8>, consts: Seq<ObjV>, o: Outcome) -> Outcome {
    match o {
        Outcome::Going(s) => vm_step(code, consts, s),
        _ => o,
    }
}

/// The outcome after `n` steps.
pub open spec fn vm_run_n(code: Seq<u8>, consts: Seq<ObjV>, o: Outcome, n: nat) -> Outcome
    decreases n,
{
    if n == 0 {
        o
    } else {
        vm_run_n(code, consts, vm_advance(code, consts, o), (n - 1) as nat)
    }
}

/// Running `n + 1` steps is running `n` steps and then one more.
pub proof fn lemma_vm_run_n_snoc(code: Seq<u8>, consts: Seq<ObjV>, o: Outcome, n: nat)
    ensures
        vm_run_n(code, consts, o, n + 1) == vm_advance(code, consts, vm_run_n(code, consts, o, n)),
    decreases n,
{
    if n > 0 {
        lemma_vm_run_n_snoc(code, consts, vm_advance(code, consts, o), (n - 1) as nat);
        assert(vm_run_n(code, consts, o, n + 1) == vm_run_n(
            code,
            consts,
            vm_advance(code, consts, o),
            ((n - 1) as nat) + 1,
        ));
        assert(vm_run_n(code, consts, o, n) == vm_run_n(
            code,
            consts,
            vm_advance(code, consts, o),
            (n - 1) as nat,
        ));
    } else {
        assert(vm_run_n(code, consts, o, n + 1) == vm_run_n(
            code,
            consts,
            vm_advance(code, consts, o),
            0,
        ));
    }
}

/// One step from a live state is exactly the dispatch step.
pub proof fn lemma_vm_run_one(code: Seq<u8>, consts: Seq<ObjV>, s: MachSt)
    ensures
        vm_run_n(code, consts, Outcome::Going(s), 1nat) == vm_step(code, consts, s),
{
    lemma_vm_run_n_snoc(code, consts, Outcome::Going(s), 0nat);
}

/// Splitting a run: `a + b` steps are `a` steps and then `b` more.
pub proof fn lemma_vm_run_n_add(code: Seq<u8>, consts: Seq<ObjV>, o: Outcome, a: nat, b: nat)
    ensures
        vm_run_n(code, consts, o, a + b) == vm_run_n(code, consts, vm_run_n(code, consts, o, a), b),
    decreases a,
{
    if a > 0 {
        lemma_vm_run_n_add(code, consts, vm_advance(code, consts, o), (a - 1) as nat, b);
    }
}

/// Halted and failed outcomes are final: more steps change nothing.
pub proof fn lemma_vm_run_n_absorbing(code: Seq<u8>, consts: Seq<ObjV>, o: Outcome, n: nat)
    requires
        !(o is Going),
    ensures
        vm_run_n(code, consts, o, n) == o,
    decreases n,
{
    if n > 0 {
        lemma_vm_run_n_absorbing(code, consts, o, (n - 1) as nat);
    }
}

/// A run reaches at most one final outcome, no matter how many steps are
/// taken once it is reached.
pub proof fn lemma_vm_outcome_unique(
    code: Seq<u8>,
    consts: Seq<ObjV>,
    o: Outcome,
    n1: nat,
    n2: nat,
)
    requires
        !(vm_run_n(code, consts, o, n1) is Going),
        !(vm_run_n(code, consts, o, n2) is Going),
    ensures
        vm_run_n(code, consts, o, n1) == vm_run_n(code, consts, o, n2),
{
    if n1 <= n2 {
        lemma_vm_run_n_add(code, consts, o, n1, (n2 - n1) as nat);
        lemma_vm_run_n_absorbing(code, consts, vm_run_n(code, consts, o, n1), (n2 - n1) as nat);
    } else {
        lemma_vm_run_n_add(code, consts, o, n2, (n1 - n2) as nat);
        lemma_vm_run_n_absorbing(code, consts, vm_run_n(code, consts, o, n2), (n1 - n2) as nat);
    }
}

/// The virtual machine: the artifact it runs, its value stack, and the
/// stack pointer, which indexes the next free slot.
#[derive(Debug)]
pub struct Vm {
    constants: Vec<Object>,
    instructions: Instructions,
    stack: Vec<Object>,
    sp: usize,
}

/// The mathematical image of a machine.
pub struct VmV {
    pub code: Seq<u8>,
    pub consts: Seq<ObjV>,
    pub slots: Seq<ObjV>,
    pub sp: nat,
}

impl View for Vm {
    type V = VmV;

    closed spec fn view(&self) -> VmV {
        VmV {
            code: self.instructions@,
            consts: objs_view(self.constants@),
            slots: objs_view(self.stack@),
            sp: self.sp as nat,
        }
    }
}

/// The machine state a freshly loaded machine starts stepping from.
pub open spec fn start_state(v: VmV) -> MachSt {
    MachSt { slots: v.slots, sp: v.sp, ip: 0 }
}

impl Vm {
    /// The stack is fully allocated and the stack pointer stays within it.
    pub open spec fn wf(&self) -> bool {
        self@.slots.len() == STACK_SIZE && self@.sp <= STACK_SIZE
    }

    /// A machine loaded with a compiled artifact: stack slots filled with
    /// null, stack pointer at the bottom.
    pub fn new(byte_code: ByteCode) -> (r: Vm)
        ensures
            r.wf(),
            r@.code == byte_code.instructions@,
            r@.consts == objs_view(byte_code.constants@),
            r@.sp == 0,
            forall|i: int| 0 <= i < STACK_SIZE ==> r@.slots[i] == ObjV::Null,
    {
        let mut stack: Vec<Object> = Vec::new();
        let mut i: usize = 0;
        while i < STACK_SIZE
            invariant
                0 <= i <= STACK_SIZE,
                stack@.len() == i,
                forall|j: int|
                    0 <= j < i ==> crate::object::obj_view(#[trigger] stack@[j]) == ObjV::Null,
            decreases STACK_SIZE - i,
        {
            stack.push(Object::Null(Null {  }));
            i = i + 1;
        }
        let r = Vm {
            constants: byte_code.constants,
            instructions: byte_code.instructions,
            stack,
            sp: 0,
        };
        proof {
            crate::object::lemma_objs_view_from(r.stack@, 0);
            assert forall|k: int| 0 <= k < STACK_SIZE implies r@.slots[k] == ObjV::Null by {
                assert(objs_view(r.stack@)[k - 0] == crate::object::obj_view(r.stack@[k]));
            }
        }
        r
    }

    /// The value on top of the stack, when there is one.
    pub fn stack_top(&self) -> (r: Option<&Object>)
        requires
            self.wf(),
        ensures
            match r {
                Some(o) => self@.sp > 0 && o@ == self@.slots[self@.sp - 1],
                None => self@.sp == 0,
            },
    {
        if self.sp == 0 {
            None
        } else {
            proof {
                crate::object::lemma_objs_view_from(self.stack@, 0);
                assert(self@.slots[self@.sp - 1] == crate::object::obj_view(
                    self.stack@[self@.sp - 1],
                ));
            }
            Some(&self.stack[self.sp - 1])
        }
    }

    /// The slot just above the stack pointer: a pop decrements the pointer
    /// but leaves the value, so this reads what was popped most recently.
    pub fn last_popped_stack_elem(&self) -> (r: Result<Object, VmError>)
        requires
            self.wf(),
        ensures
            match r {
                Ok(o) => self@.sp < STACK_SIZE && o@ == self@.slots[self@.sp as int],
                Err(_) => self@.sp == STACK_SIZE,
            },
    {
        proof {
            crate::object::lemma_objs_view_from(self.stack@, 0);
        }
        if self.sp >= self.stack.len() {
            Err(VmError::StackUnderflow)
        } else {
            proof {
                crate::object::lemma_objs_view_from(self.stack@, 0);
                assert(self@.slots[self@.sp as int] == crate::object::obj_view(
                    self.stack@[self@.sp as int],
                ));
            }
            Ok(clone_object(&self.stack[self.sp]))
        }
    }

    /// Pushes a value; the stack must have room.
    fn push(&mut self, object: Object) -> (r: Result<(), VmError>)
        requires
            old(self).wf(),
        ensures
            final(self).wf(),
            final(self)@.code == old(self)@.code,
            final(self)@.consts == old(self)@.consts,
            match r {
                Ok(()) => old(self)@.sp < STACK_SIZE
                    && final(self)@.slots == old(self)@.slots.update(
                        old(self)@.sp as int, object@)
                    && final(self)@.sp == old(self)@.sp + 1,
                Err(e) => old(self)@.sp == STACK_SIZE && e == VmError::StackOverflow
                    && final(self)@ == old(self)@,
            },
    {
        if self.sp >= STACK_SIZE {
            return Err(VmError::StackOverflow);
        }
        proof {
            crate::object::lemma_objs_view_from(self.stack@, 0);
        }
        let ghost pre = self.stack@;
        self.stack.set(self.sp, object);
        self.sp = self.sp + 1;
        proof {
            lemma_objs_view_update(pre, self.stack@, old(self)@.sp as int, object);
        }
        Ok(())
    }

    /// Pops a value; the pointer drops but the slot keeps the value.
    fn pop(&mut self) -> (r: Result<Object, VmError>)
        requires
            old(self).wf(),
        ensures
            final(self).wf(),
            final(self)@.code == old(self)@.code,
            final(self)@.consts == old(self)@.consts,
            final(self)@.slots == old(self)@.slots,
            match r {
                Ok(o) => old(self)@.sp > 0 && o@ == old(self)@.slots[old(self)@.sp - 1]
                    && final(self)@.sp == old(self)@.sp - 1,
                Err(e) => old(self)@.sp == 0 && e == VmError::StackUnderflow && final(self)@
                    == old(self)@,
            },
    {
        if self.sp == 0 {
            return Err(VmError::StackUnderflow);
        }
        self.sp = self.sp - 1;
        proof {
            crate::object::lemma_objs_view_from(self.stack@, 0);
            assert(old(self)@.slots[old(self)@.sp - 1] == crate::object::obj_view(
                self.stack@[self.sp as int],
            ));
        }
        Ok(clone_object(&self.stack[self.sp]))
    }
}

impl Vm {
    /// Runs the loaded artifact to the end of its instruction stream.  On
    /// success the machine's final stack is what stepping the mathematical
    /// machine from the start state yields at its halt; on failure some
    /// number of steps reaches exactly the reported error.
    #[verifier::rlimit(100)]
    pub fn run(&mut self) -> (r: Result<(), VmError>)
        requires
            old(self).wf(),
        ensures
            final(self).wf(),
            final(self)@.code == old(self)@.code,
            final(self)@.consts == old(self)@.consts,
            match r {
                Ok(()) => exists|n: nat|
                    (#[trigger] vm_run_n(
                        old(self)@.code,
                        old(self)@.consts,
                        Outcome::Going(start_state(old(self)@)),
                        n,
                    )) matches Outcome::Halted(fin) && fin.slots == final(self)@.slots && fin.sp
                        == final(self)@.sp,
                Err(e) => exists|n: nat|
                    #[trigger] vm_run_n(
                        old(self)@.code,
                        old(self)@.consts,
                        Outcome::Going(start_state(old(self)@)),
                        n,
                    ) == Outcome::Failed(e),
            },
    {
        let ghost code = self@.code;
        let ghost consts = self@.consts;
        let ghost init = Outcome::Going(start_state(old(self)@));
        let ghost mut steps: nat = 0nat;
        let n: usize = self.instructions.len();
        let mut ip: usize = 0;
        while ip < n
            invariant
                self.wf(),
                self@.code == code,
                self@.consts == consts,
                code == old(self)@.code,
                consts == old(self)@.consts,
                init == Outcome::Going(start_state(old(self)@)),
                n == code.len(),
                vm_run_n(code, consts, init, steps) == Outcome::Going(
                    MachSt { slots: self@.slots, sp: self@.sp, ip: ip as nat },
                ),
            decreases (if ip <= n { n - ip } else { 0int }),
        {
            let ghost cur = MachSt { slots: self@.slots, sp: self@.sp, ip: ip as nat };
            proof {
                lemma_vm_run_n_snoc(code, consts, init, steps);
            }
            let byte = self.instructions.0[ip];
            proof {
                assert(code[ip as int] == byte);
            }
            match opcode_from_byte(byte) {
                None => {
                    proof {
                        assert(vm_run_n(code, consts, init, steps + 1) == Outcome::Failed(
                            VmError::UnknownOpcode,
                        ));
                    }
                    return Err(VmError::UnknownOpcode);
                },
                Some(op) => {
                    match op {
                        OpCodeType::Constant => {
                            if n - ip < 3 {
                                proof {
                                    assert(vm_run_n(code, consts, init, steps + 1)
                                        == Outcome::Failed(VmError::TruncatedOperand));
                                }
                                return Err(VmError::TruncatedOperand);
                            }
                            let const_idx = read_u16(&self.instructions, ip + 1) as usize;
                            proof {
                                crate::object::lemma_objs_view_from(self.constants@, 0);
                            }
                            if const_idx >= self.constants.len() {
                                proof {
                                    assert(vm_run_n(code, consts, init, steps + 1)
                                        == Outcome::Failed(VmError::ConstantOutOfRange));
                                }
                                return Err(VmError::ConstantOutOfRange);
                            }
                            let ghost cv = consts[const_idx as int];
                            let obj = clone_object(&self.constants[const_idx]);
                            proof {
                                assert(obj@ == cv);
                            }
                            match self.push(obj) {
                                Ok(()) => {},
                                Err(e) => {
                                    proof {
                                        assert(vm_run_n(code, consts, init, steps + 1)
                                            == Outcome::Failed(e));
                                    }
                                    return Err(e);
                                },
                            }
                            ip = ip + 3;
                        },
                        OpCodeType::Pop => {
                            match self.pop() {
                                Ok(_) => {},
                                Err(e) => {
                                    proof {
                                        assert(vm_run_n(code, consts, init, steps + 1)
                                            == Outcome::Failed(e));
                                    }
                                    return Err(e);
                                },
                            }
                            ip = ip + 1;
                        },
                        OpCodeType::True => {
                            match self.push(Object::Boolean(Boolean { value: true })) {
                                Ok(()) => {},
                                Err(e) => {
                                    proof {
                                        assert(vm_run_n(code, consts, init, steps + 1)
                                            == Outcome::Failed(e));
                                    }
                                    return Err(e);
                                },
                            }
                            ip = ip + 1;
                        },
                        OpCodeType::False => {
                            match self.push(Object::Boolean(Boolean { value: false })) {
                                Ok(()) => {},
                                Err(e) => {
                                    proof {
                                        assert(vm_run_n(code, consts, init, steps + 1)
                                            == Outcome::Failed(e));
                                    }
                                    return Err(e);
                                },
                            }
                            ip = ip + 1;
                        },
                        OpCodeType::Add | OpCodeType::Sub | OpCodeType::Mul | OpCodeType::Div => {
                            match self.execute_binary_operation(op) {
                                Ok(()) => {},
                                Err(e) => {
                                    proof {
                                        assert(vm_run_n(code, consts, init, steps + 1)
                                            == Outcome::Failed(e));
                                    }
                                    return Err(e);
                                },
                            }
                            ip = ip + 1;
                        },
                        OpCodeType::Equal | OpCodeType::NotEqual | OpCodeType::GreaterThan => {
                            match self.execute_comparison(op) {
                                Ok(()) => {},
                                Err(e) => {
                                    proof {
                                        assert(vm_run_n(code, consts, init, steps + 1)
                                            == Outcome::Failed(e));
                                    }
                                    return Err(e);
                                },
                            }
                            ip = ip + 1;
                        },
                        OpCodeType::Bang => {
                            let v = match self.pop() {
                                Ok(v) => v,
                                Err(e) => {
                                    proof {
                                        assert(vm_run_n(code, consts, init, steps + 1)
                                            == Outcome::Failed(e));
                                    }
                                    return Err(e);
                                },
                            };
                            let negated = match v {
                                Object::Boolean(b) => Object::Boolean(
                                    Boolean { value: !b.value },
                                ),
                                Object::Null(_) => Object::Boolean(Boolean { value: true }),
                                _ => Object::Boolean(Boolean { value: false }),
                            };
                            proof {
                                assert(negated@ == bang_value(cur.slots[cur.sp - 1]));
                            }
                            match self.push(negated) {
                                Ok(()) => {},
                                Err(_) => {
                                    proof {
                                        assert(false);
                                    }
                                    return Err(VmError::StackOverflow);
                                },
                            }
                            proof {
                                assert(self@.slots =~= cur.slots.update(
                                    cur.sp - 1,
                                    bang_value(cur.slots[cur.sp - 1]),
                                ));
                            }
                            ip = ip + 1;
                        },
                        OpCodeType::Minus => {
                            let v = match self.pop() {
                                Ok(v) => v,
                                Err(e) => {
                                    proof {
                                        assert(vm_run_n(code, consts, init, steps + 1)
                                            == Outcome::Failed(e));
                                    }
                                    return Err(e);
                                },
                            };
                            match v {
                                Object::Integer(num) => {
                                    let negated = Object::Integer(
                                        Integer { value: 0i64.wrapping_sub(num.value) },
                                    );
                                    match self.push(negated) {
                                        Ok(()) => {},
                                        Err(_) => {
                                            proof {
                                                assert(false);
                                            }
                                            return Err(VmError::StackOverflow);
                                        },
                                    }
                                    proof {
                                        assert(self@.slots =~= cur.slots.update(
                                            cur.sp - 1,
                                            ObjV::Int(wrap_neg(num.value)),
                                        ));
                                    }
                                    ip = ip + 1;
                                },
                                _ => {
                                    proof {
                                        assert(vm_run_n(code, consts, init, steps + 1)
                                            == Outcome::Failed(VmError::NegationTypeMismatch));
                                    }
                                    return Err(VmError::NegationTypeMismatch);
                                },
                            }
                        },
                        OpCodeType::Jump => {
                            if n - ip < 3 {
                                proof {
                                    assert(vm_run_n(code, consts, init, steps + 1)
                                        == Outcome::Failed(VmError::TruncatedOperand));
                                }
                                return Err(VmError::TruncatedOperand);
                            }
                            let target = read_u16(&self.instructions, ip + 1) as usize;
                            if target <= ip {
                                proof {
                                    assert(vm_run_n(code, consts, init, steps + 1)
                                        == Outcome::Failed(VmError::BackwardJump));
                                }
                                return Err(VmError::BackwardJump);
                            }
                            ip = target;
                        },
                        OpCodeType::JumpNotTruthy => {
                            if n - ip < 3 {
                                proof {
                                    assert(vm_run_n(code, consts, init, steps + 1)
                                        == Outcome::Failed(VmError::TruncatedOperand));
                                }
                                return Err(VmError::TruncatedOperand);
                            }
                            let target = read_u16(&self.instructions, ip + 1) as usize;
                            let v = match self.pop() {
                                Ok(v) => v,
                                Err(e) => {
                                    proof {
                                        assert(vm_run_n(code, consts, init, steps + 1)
                                            == Outcome::Failed(e));
                                    }
                                    return Err(e);
                                },
                            };
                            let is_truthy = match &v {
                                Object::Boolean(b) => b.value,
                                Object::Null(_) => false,
                                _ => true,
                            };
                            proof {
                                assert(is_truthy == truthy(cur.slots[cur.sp - 1]));
                            }
                            if is_truthy {
                                ip = ip + 3;
                            } else {
                                if target <= ip {
                                    proof {
                                        assert(vm_run_n(code, consts, init, steps + 1)
                                            == Outcome::Failed(VmError::BackwardJump));
                                    }
                                    return Err(VmError::BackwardJump);
                                }
                                ip = target;
                            }
                        },
                    }
                    proof {
                        steps = steps + 1;
                        assert(vm_run_n(code, consts, init, steps) == Outcome::Going(
                            MachSt { slots: self@.slots, sp: self@.sp, ip: ip as nat },
                        ));
                    }
                },
            }
        }
        proof {
            lemma_vm_run_n_snoc(code, consts, init, steps);
            assert(vm_run_n(code, consts, init, steps + 1) == Outcome::Halted(
                MachSt { slots: self@.slots, sp: self@.sp, ip: ip as nat },
            ));
        }
        Ok(())
    }

    /// Pops the right then the left operand and pushes what the arithmetic
    /// opcode computes from them.
    fn execute_binary_operation(&mut self, op: OpCodeType) -> (r: Result<(), VmError>)
        requires
            old(self).wf(),
        ensures
            final(self).wf(),
            final(self)@.code == old(self)@.code,
            final(self)@.consts == old(self)@.consts,
            match r {
                Ok(()) => old(self)@.sp >= 2 && (binary_result(
                    op,
                    old(self)@.slots[old(self)@.sp - 2],
                    old(self)@.slots[old(self)@.sp - 1],
                ) matches Ok(v) && final(self)@.slots == old(self)@.slots.update(
                    old(self)@.sp - 2,
                    v,
                ) && final(self)@.sp == old(self)@.sp - 1),
                Err(e) => (old(self)@.sp < 2 && e == VmError::StackUnderflow) || (old(self)@.sp
                    >= 2 && binary_result(
                    op,
                    old(self)@.slots[old(self)@.sp - 2],
                    old(self)@.slots[old(self)@.sp - 1],
                ) == Err::<ObjV, VmError>(e)),
            },
    {
        let right = match self.pop() {
            Ok(v) => v,
            Err(e) => {
                return Err(e);
            },
        };
        let left = match self.pop() {
            Ok(v) => v,
            Err(e) => {
                return Err(e);
            },
        };
        match (left, right) {
            (Object::Integer(a), Object::Integer(b)) => {
                let value: i64 = match op {
                    OpCodeType::Add => a.value.wrapping_add(b.value),
                    OpCodeType::Sub => a.value.wrapping_sub(b.value),
                    OpCodeType::Mul => a.value.wrapping_mul(b.value),
                    OpCodeType::Div => {
                        if b.value == 0 {
                            return Err(VmError::DivisionByZero);
                        }
                        match a.value.checked_div(b.value) {
                            Some(q) => q,
                            None => i64::MIN,
                        }
                    },
                    _ => {
                        return Err(VmError::BinaryOperatorUnsupported);
                    },
                };
                match self.push(Object::Integer(Integer { value })) {
                    Ok(()) => Ok(()),
                    Err(_) => {
                        proof {
                            assert(false);
                        }
                        Err(VmError::StackOverflow)
                    },
                }
            },
            _ => Err(VmError::BinaryTypeMismatch),
        }
    }

    /// Pops the right then the left operand and pushes what the comparison
    /// opcode computes from them.
    fn execute_comparison(&mut self, op: OpCodeType) -> (r: Result<(), VmError>)
        requires
            old(self).wf(),
        ensures
            final(self).wf(),
            final(self)@.code == old(self)@.code,
            final(self)@.consts == old(self)@.consts,
            match r {
                Ok(()) => old(self)@.sp >= 2 && (comparison_result(
                    op,
                    old(self)@.slots[old(self)@.sp - 2],
                    old(self)@.slots[old(self)@.sp - 1],
                ) matches Ok(v) && final(self)@.slots == old(self)@.slots.update(
                    old(self)@.sp - 2,
                    v,
                ) && final(self)@.sp == old(self)@.sp - 1),
                Err(e) => (old(self)@.sp < 2 && e == VmError::StackUnderflow) || (old(self)@.sp
                    >= 2 && comparison_result(
                    op,
                    old(self)@.slots[old(self)@.sp - 2],
                    old(self)@.slots[old(self)@.sp - 1],
                ) == Err::<ObjV, VmError>(e)),
            },
    {
        let right = match self.pop() {
            Ok(v) => v,
            Err(e) => {
                return Err(e);
            },
        };
        let left = match self.pop() {
            Ok(v) => v,
            Err(e) => {
                return Err(e);
            },
        };
        match (left, right) {
            (Object::Integer(a), Object::Integer(b)) => {
                let value: bool = match op {
                    OpCodeType::Equal => a.value == b.value,
                    OpCodeType::NotEqual => a.value != b.value,
                    OpCodeType::GreaterThan => a.value > b.value,
                    _ => {
                        return Err(VmError::ComparisonOperatorUnsupported);
                    },
                };
                match self.push(Object::Boolean(Boolean { value })) {
                    Ok(()) => Ok(()),
                    Err(_) => {
                        proof {
                            assert(false);
                        }
                        Err(VmError::StackOverflow)
                    },
                }
            },
            (Object::Boolean(a), Object::Boolean(b)) => {
                let value: bool = match op {
                    OpCodeType::Equal => a.value == b.value,
                    OpCodeType::NotEqual => a.value != b.value,
                    OpCodeType::GreaterThan => a.value && !b.value,
                    _ => {
                        return Err(VmError::ComparisonOperatorUnsupported);
                    },
                };
                match self.push(Object::Boolean(Boolean { value })) {
                    Ok(()) => Ok(()),
                    Err(_) => {
                        proof {
                            assert(false);
                        }
                        Err(VmError::StackOverflow)
                    },
                }
            },
            _ => Err(VmError::ComparisonTypeMismatch),
        }
    }
}

/// Updating one element updates the corresponding view element.
pub proof fn lemma_objs_view_update(pre: Seq<Object>, post: Seq<Object>, i: int, obj: Object)
    requires
        0 <= i < pre.len(),
        post == pre.update(i, obj),
    ensures
        objs_view(post) == objs_view(pre).update(i, crate::object::obj_view(obj)),
{
    crate::object::lemma_objs_view_from(pre, 0);
    crate::object::lemma_objs_view_from(post, 0);
    assert forall|k: int| 0 <= k < post.len() implies objs_view(post)[k] == objs_view(
        pre,
    ).update(i, crate::object::obj_view(obj))[k] by {
        assert(objs_view(post)[k - 0] == crate::object::obj_view(post[k]));
        assert(objs_view(pre)[k - 0] == crate::object::obj_view(pre[k]));
        if k != i {
            assert(post[k] == pre[k]);
        }
    }
    assert(objs_view(post) =~= objs_view(pre).update(i, crate::object::obj_view(obj)));
}

} // verus!
