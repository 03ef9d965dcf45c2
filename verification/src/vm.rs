//! The virtual machine: the runtime value domain, a mathematical small-step
//! semantics for the instruction set, and a stepwise interpreter proved to
//! implement that semantics.

use crate::bytes::{bytes_eq, copy_bytes};
use crate::compiler::Opcode;
use crate::numfmt::i64_dec;
use vstd::prelude::*;

verus! {

/// A runtime value held on the operand stack.
///
/// `BytecodePtr` is an internal return-address tag carrying the index of the
/// `Invoke` instruction that created it; it is never produced by user code
/// and never observable through `Print`.
#[derive(Debug, PartialEq)]
pub enum Object {
    Number(i64),
    Bool(bool),
    String(Vec<u8>),
    Null,
    BytecodePtr(usize),
}

/// The mathematical value of an [`Object`]: the string payload is read as a
/// byte sequence.
pub ghost enum Val {
    Num(i64),
    Bool(bool),
    Str(Seq<u8>),
    Null,
    Ptr(usize),
}

impl View for Object {
    type V = Val;

    open spec fn view(&self) -> Val {
        match self {
            Object::Number(n) => Val::Num(*n),
            Object::Bool(b) => Val::Bool(*b),
            Object::String(s) => Val::Str(s@),
            Object::Null => Val::Null,
            Object::BytecodePtr(p) => Val::Ptr(*p),
        }
    }
}

/// A runtime fault; every fault terminates the run.
#[derive(Debug, Clone, Copy, PartialEq, Eq, Structural)]
pub enum VmError {
    /// An instruction needed more operands than the stack holds.
    StackUnderflow,
    /// An operand had the wrong variant for the instruction.
    TypeMismatch,
    /// An arithmetic result does not fit in a 64-bit integer.
    Overflow,
    /// Division by zero.
    DivisionByZero,
    /// A jump target, or a return address, lies outside the program.
    JumpOutOfRange,
    /// `Ret` with an empty frame-pointer stack.
    NoFrame,
    /// A `Deepget`/`Deepset` slot outside the live stack, or slot zero.
    SlotOutOfRange,
}

/// How a bounded run ended.
#[derive(Debug, Clone, Copy, PartialEq, Eq, Structural)]
pub enum RunStatus {
    /// The instruction pointer reached the program length: normal termination.
    Done,
    /// The step budget ran out first; the machine can be resumed.
    Pending,
    /// A runtime fault; the state is the one just before the faulting step.
    Fault(VmError),
}

/// The mathematical state of the machine.
#[verifier::ext_equal]
pub ghost struct VmSnap {
    pub stack: Seq<Val>,
    pub frames: Seq<usize>,
    pub ip: int,
    pub output: Seq<Seq<u8>>,
}

/// The values of a stack of objects.
pub open spec fn objs(s: Seq<Object>) -> Seq<Val> {
    s.map_values(|o: Object| o@)
}

/// The rendering of a printable value, as `Print` writes it.
pub open spec fn render(v: Val) -> Seq<u8>
    recommends
        !(v is Ptr),
{
    match v {
        Val::Num(n) => i64_dec(n as int),
        Val::Bool(b) => if b {
            seq![116u8, 114u8, 117u8, 101u8]
        } else {
            seq![102u8, 97u8, 108u8, 115u8, 101u8]
        },
        Val::Str(s) => s,
        Val::Null => seq![110u8, 117u8, 108u8, 108u8],
        Val::Ptr(_) => Seq::empty(),
    }
}

/// Whether `==` is defined on the pair: both operands must have the same
/// variant, and neither may be a `BytecodePtr`.
pub open spec fn vals_comparable(a: Val, b: Val) -> bool {
    match (a, b) {
        (Val::Num(_), Val::Num(_)) => true,
        (Val::Bool(_), Val::Bool(_)) => true,
        (Val::Str(_), Val::Str(_)) => true,
        (Val::Null, Val::Null) => true,
        _ => false,
    }
}

/// Structural equality of two comparable values.
pub open spec fn val_eq(a: Val, b: Val) -> bool {
    match (a, b) {
        (Val::Num(x), Val::Num(y)) => x == y,
        (Val::Bool(x), Val::Bool(y)) => x == y,
        (Val::Str(x), Val::Str(y)) => x == y,
        (Val::Null, Val::Null) => true,
        _ => false,
    }
}

/// The effective operand-stack index of a 1-based slot: relative to the
/// current frame base when a frame exists, to the stack bottom otherwise.
pub open spec fn slot_index(s: VmSnap, slot: usize) -> int {
    if s.frames.len() > 0 {
        s.frames.last() + slot - 1
    } else {
        slot - 1
    }
}

/// The result of one instruction on a state: the next state, or the fault
/// that stops the machine. `n` is the program length; `s.ip` is the index of
/// `op`, and every non-jumping instruction moves to `s.ip + 1`.
pub open spec fn step_instr(op: Opcode, n: int, s: VmSnap) -> Result<VmSnap, VmError> {
    match op {
        Opcode::Const(c) => Ok(
            VmSnap { stack: s.stack.push(Val::Num(c)), ip: s.ip + 1, ..s },
        ),
        Opcode::Str(v) => Ok(VmSnap { stack: s.stack.push(Val::Str(v@)), ip: s.ip + 1, ..s }),
        Opcode::False => Ok(VmSnap { stack: s.stack.push(Val::Bool(false)), ip: s.ip + 1, ..s }),
        Opcode::Null => Ok(VmSnap { stack: s.stack.push(Val::Null), ip: s.ip + 1, ..s }),
        Opcode::Pop => if s.stack.len() == 0 {
            Err(VmError::StackUnderflow)
        } else {
            Ok(VmSnap { stack: s.stack.drop_last(), ip: s.ip + 1, ..s })
        },
        Opcode::Print => if s.stack.len() == 0 {
            Err(VmError::StackUnderflow)
        } else if s.stack.last() is Ptr {
            Err(VmError::TypeMismatch)
        } else {
            Ok(
                VmSnap {
                    stack: s.stack.drop_last(),
                    output: s.output.push(render(s.stack.last())),
                    ip: s.ip + 1,
                    ..s
                },
            )
        },
        Opcode::Add | Opcode::Sub | Opcode::Mul | Opcode::Div => if s.stack.len() < 2 {
            Err(VmError::StackUnderflow)
        } else {
            match (s.stack[s.stack.len() - 2], s.stack.last()) {
                (Val::Num(a), Val::Num(b)) => {
                    let r = match op {
                        Opcode::Add => a.checked_add(b),
                        Opcode::Sub => a.checked_sub(b),
                        Opcode::Mul => a.checked_mul(b),
                        _ => a.checked_div(b),
                    };
                    match r {
                        Some(c) => Ok(
                            VmSnap {
                                stack: s.stack.drop_last().drop_last().push(Val::Num(c)),
                                ip: s.ip + 1,
                                ..s
                            },
                        ),
                        None => if op is Div && b == 0 {
                            Err(VmError::DivisionByZero)
                        } else {
                            Err(VmError::Overflow)
                        },
                    }
                },
                _ => Err(VmError::TypeMismatch),
            }
        },
        Opcode::Less => if s.stack.len() < 2 {
            Err(VmError::StackUnderflow)
        } else {
            match (s.stack[s.stack.len() - 2], s.stack.last()) {
                (Val::Num(a), Val::Num(b)) => Ok(
                    VmSnap {
                        stack: s.stack.drop_last().drop_last().push(Val::Bool(a < b)),
                        ip: s.ip + 1,
                        ..s
                    },
                ),
                _ => Err(VmError::TypeMismatch),
            }
        },
        Opcode::Eq => if s.stack.len() < 2 {
            Err(VmError::StackUnderflow)
        } else {
            let a = s.stack[s.stack.len() - 2];
            let b = s.stack.last();
            if !vals_comparable(a, b) {
                Err(VmError::TypeMismatch)
            } else {
                Ok(
                    VmSnap {
                        stack: s.stack.drop_last().drop_last().push(Val::Bool(val_eq(a, b))),
                        ip: s.ip + 1,
                        ..s
                    },
                )
            }
        },
        Opcode::Not => if s.stack.len() == 0 {
            Err(VmError::StackUnderflow)
        } else {
            match s.stack.last() {
                Val::Bool(b) => Ok(
                    VmSnap { stack: s.stack.drop_last().push(Val::Bool(!b)), ip: s.ip + 1, ..s },
                ),
                _ => Err(VmError::TypeMismatch),
            }
        },
        Opcode::Jmp(t) => if t >= n {
            Err(VmError::JumpOutOfRange)
        } else {
            Ok(VmSnap { ip: t + 1, ..s })
        },
        Opcode::Jz(t) => if s.stack.len() == 0 {
            Err(VmError::StackUnderflow)
        } else {
            match s.stack.last() {
                Val::Bool(b) => if !b {
                    if t >= n {
                        Err(VmError::JumpOutOfRange)
                    } else {
                        Ok(VmSnap { stack: s.stack.drop_last(), ip: t + 1, ..s })
                    }
                } else {
                    Ok(VmSnap { stack: s.stack.drop_last(), ip: s.ip + 1, ..s })
                },
                _ => Err(VmError::TypeMismatch),
            }
        },
        Opcode::Invoke(argc, entry) => if argc > s.stack.len() {
            Err(VmError::StackUnderflow)
        } else if entry >= n {
            Err(VmError::JumpOutOfRange)
        } else if !(0 <= s.ip < n) {
            Err(VmError::JumpOutOfRange)
        } else {
            let at = s.stack.len() - argc;
            Ok(
                VmSnap {
                    stack: s.stack.insert(at, Val::Ptr(s.ip as usize)),
                    frames: s.frames.push((at + 1) as usize),
                    ip: entry + 1,
                    ..s
                },
            )
        },
        Opcode::Ret => if s.frames.len() == 0 {
            Err(VmError::NoFrame)
        } else if s.stack.len() == 0 {
            Err(VmError::StackUnderflow)
        } else {
            let ret = s.stack.last();
            let s1 = s.stack.drop_last();
            let fb = s.frames.last() as int;
            if !(1 <= fb && fb <= s1.len()) {
                Err(VmError::SlotOutOfRange)
            } else {
                match s1[fb - 1] {
                    Val::Ptr(r) => if r >= n {
                        Err(VmError::JumpOutOfRange)
                    } else {
                        Ok(
                            VmSnap {
                                stack: s1.update(fb - 1, s1.last()).drop_last().push(ret),
                                frames: s.frames.drop_last(),
                                ip: r + 1,
                                ..s
                            },
                        )
                    },
                    _ => Err(VmError::TypeMismatch),
                }
            }
        },
        Opcode::Deepget(k) => {
            let i = slot_index(s, k);
            if k == 0 || i >= s.stack.len() {
                Err(VmError::SlotOutOfRange)
            } else {
                Ok(VmSnap { stack: s.stack.push(s.stack[i]), ip: s.ip + 1, ..s })
            }
        },
        Opcode::Deepset(k) => {
            let i = slot_index(s, k);
            if s.stack.len() == 0 {
                Err(VmError::StackUnderflow)
            } else if k == 0 || i >= s.stack.len() {
                Err(VmError::SlotOutOfRange)
            } else {
                Ok(
                    VmSnap {
                        stack: s.stack.update(i, s.stack.last()).drop_last(),
                        ip: s.ip + 1,
                        ..s
                    },
                )
            }
        },
    }
}

/// One step of the machine on a loaded program.
pub open spec fn step(prog: Seq<Opcode>, s: VmSnap) -> Result<VmSnap, VmError>
    recommends
        0 <= s.ip < prog.len(),
{
    step_instr(prog[s.ip], prog.len() as int, s)
}

/// Runs the machine for at most `fuel` steps: the status and the state in
/// which it stopped. A fault keeps the state just before the faulting step.
pub open spec fn run_spec(prog: Seq<Opcode>, s: VmSnap, fuel: nat) -> (RunStatus, VmSnap)
    decreases fuel,
{
    if s.ip == prog.len() {
        (RunStatus::Done, s)
    } else if !(0 <= s.ip < prog.len()) {
        (RunStatus::Fault(VmError::JumpOutOfRange), s)
    } else if fuel == 0 {
        (RunStatus::Pending, s)
    } else {
        match step(prog, s) {
            Ok(s2) => run_spec(prog, s2, (fuel - 1) as nat),
            Err(e) => (RunStatus::Fault(e), s),
        }
    }
}

impl Object {
    /// An explicit copy; the copy has the same mathematical value.
    pub fn dup(&self) -> (o: Object)
        ensures
            o@ == self@,
    {
        match self {
            Object::Number(n) => Object::Number(*n),
            Object::Bool(b) => Object::Bool(*b),
            Object::String(s) => Object::String(copy_bytes(s)),
            Object::Null => Object::Null,
            Object::BytecodePtr(p) => Object::BytecodePtr(*p),
        }
    }
}

/// The rendering of `true`, `false` and `null`, as `Print` writes them.
fn keyword_bytes(b: &Object) -> (v: Vec<u8>)
    requires
        b is Bool || b is Null,
    ensures
        v@ == render(b@),
{
    let mut v: Vec<u8> = Vec::new();
    match b {
        Object::Bool(true) => {
            v.push(116);
            v.push(114);
            v.push(117);
            v.push(101);
            proof {
                assert(v@ =~= seq![116u8, 114u8, 117u8, 101u8]);
            }
        },
        Object::Bool(false) => {
            v.push(102);
            v.push(97);
            v.push(108);
            v.push(115);
            v.push(101);
            proof {
                assert(v@ =~= seq![102u8, 97u8, 108u8, 115u8, 101u8]);
            }
        },
        _ => {
            v.push(110);
            v.push(117);
            v.push(108);
            v.push(108);
            proof {
                assert(v@ =~= seq![110u8, 117u8, 108u8, 108u8]);
            }
        },
    }
    v
}

/// The virtual machine: a loaded program, the operand stack, the
/// frame-pointer stack, the instruction pointer and the collected output
/// lines, one line per executed `Print`.
pub struct VM {
    pub bytecode: Vec<Opcode>,
    pub stack: Vec<Object>,
    pub frame_ptrs: Vec<usize>,
    pub ip: usize,
    pub output: Vec<Vec<u8>>,
}

/// Relates the machine before and after one dispatched instruction to the
/// small-step semantics of that instruction.
pub open spec fn steps_to(pre: VM, post: VM, op: Opcode, r: Result<(), VmError>) -> bool {
    &&& post.bytecode == pre.bytecode
    &&& match r {
        Ok(_) => step_instr(op, pre.bytecode@.len() as int, pre.snap()) == Ok::<
            VmSnap,
            VmError,
        >(post.snap()),
        Err(e) => step_instr(op, pre.bytecode@.len() as int, pre.snap()) == Err::<
            VmSnap,
            VmError,
        >(e) && post.snap() == pre.snap(),
    }
}

impl VM {
    /// The mathematical state of this machine.
    pub open spec fn snap(&self) -> VmSnap {
        VmSnap {
            stack: objs(self.stack@),
            frames: self.frame_ptrs@,
            ip: self.ip as int,
            output: self.output@.map_values(|line: Vec<u8>| line@),
        }
    }

    /// A fresh machine: no program, empty stacks, no output.
    pub fn new() -> (vm: VM)
        ensures
            vm.bytecode@ == Seq::<Opcode>::empty(),
            vm.snap() == (VmSnap {
                stack: Seq::<Val>::empty(),
                frames: Seq::<usize>::empty(),
                ip: 0int,
                output: Seq::<Seq<u8>>::empty(),
            }),
    {
        let vm = VM {
            bytecode: Vec::new(),
            stack: Vec::new(),
            frame_ptrs: Vec::new(),
            ip: 0,
            output: Vec::new(),
        };
        proof {
            assert(vm.snap() =~= VmSnap {
                stack: Seq::<Val>::empty(),
                frames: Seq::<usize>::empty(),
                ip: 0int,
                output: Seq::<Seq<u8>>::empty(),
            });
        }
        vm
    }

    /// Loads a program; the rest of the state is untouched.
    pub fn load(&mut self, bytecode: Vec<Opcode>)
        ensures
            final(self).bytecode == bytecode,
            final(self).snap() == old(self).snap(),
    {
        self.bytecode = bytecode;
    }

    fn handle_op_const(&mut self, c: i64)
        requires
            old(self).ip < old(self).bytecode@.len() <= usize::MAX,
        ensures
            steps_to(*old(self), *final(self), Opcode::Const(c), Ok(())),
    {
        self.stack.push(Object::Number(c));
        self.ip = self.ip + 1;
        proof {
            assert(objs(self.stack@) =~= objs(old(self).stack@).push(Val::Num(c)));
            assert(self.snap() =~= (VmSnap {
                stack: old(self).snap().stack.push(Val::Num(c)),
                ip: old(self).snap().ip + 1,
                ..old(self).snap()
            }));
        }
    }

    fn handle_op_str(&mut self, v: Vec<u8>)
        requires
            old(self).ip < old(self).bytecode@.len() <= usize::MAX,
        ensures
            steps_to(*old(self), *final(self), Opcode::Str(v), Ok(())),
    {
        let ghost vv = v@;
        self.stack.push(Object::String(v));
        self.ip = self.ip + 1;
        proof {
            assert(objs(self.stack@) =~= objs(old(self).stack@).push(Val::Str(vv)));
            assert(self.snap() =~= (VmSnap {
                stack: old(self).snap().stack.push(Val::Str(vv)),
                ip: old(self).snap().ip + 1,
                ..old(self).snap()
            }));
        }
    }

    fn handle_op_false(&mut self)
        requires
            old(self).ip < old(self).bytecode@.len() <= usize::MAX,
        ensures
            steps_to(*old(self), *final(self), Opcode::False, Ok(())),
    {
        self.stack.push(Object::Bool(false));
        self.ip = self.ip + 1;
        proof {
            assert(objs(self.stack@) =~= objs(old(self).stack@).push(Val::Bool(false)));
            assert(self.snap() =~= (VmSnap {
                stack: old(self).snap().stack.push(Val::Bool(false)),
                ip: old(self).snap().ip + 1,
                ..old(self).snap()
            }));
        }
    }

    fn handle_op_null(&mut self)
        requires
            old(self).ip < old(self).bytecode@.len() <= usize::MAX,
        ensures
            steps_to(*old(self), *final(self), Opcode::Null, Ok(())),
    {
        self.stack.push(Object::Null);
        self.ip = self.ip + 1;
        proof {
            assert(objs(self.stack@) =~= objs(old(self).stack@).push(Val::Null));
            assert(self.snap() =~= (VmSnap {
                stack: old(self).snap().stack.push(Val::Null),
                ip: old(self).snap().ip + 1,
                ..old(self).snap()
            }));
        }
    }

    fn handle_op_pop(&mut self) -> (r: Result<(), VmError>)
        requires
            old(self).ip < old(self).bytecode@.len() <= usize::MAX,
        ensures
            steps_to(*old(self), *final(self), Opcode::Pop, r),
    {
        if self.stack.len() == 0 {
            return Err(VmError::StackUnderflow);
        }
        self.stack.pop();
        self.ip = self.ip + 1;
        proof {
            assert(objs(self.stack@) =~= objs(old(self).stack@).drop_last());
            assert(self.snap() =~= (VmSnap {
                stack: old(self).snap().stack.drop_last(),
                ip: old(self).snap().ip + 1,
                ..old(self).snap()
            }));
        }
        Ok(())
    }

    fn handle_op_print(&mut self) -> (r: Result<(), VmError>)
        requires
            old(self).ip < old(self).bytecode@.len() <= usize::MAX,
        ensures
            steps_to(*old(self), *final(self), Opcode::Print, r),
    {
        if self.stack.len() == 0 {
            return Err(VmError::StackUnderflow);
        }
        let is_ptr = match &self.stack[self.stack.len() - 1] {
            Object::BytecodePtr(_) => true,
            _ => false,
        };
        if is_ptr {
            return Err(VmError::TypeMismatch);
        }
        let obj = self.stack.pop().unwrap();
        let line = match obj {
            Object::Number(n) => crate::numfmt::format_i64(n),
            Object::String(s) => s,
            other => keyword_bytes(&other),
        };
        self.output.push(line);
        self.ip = self.ip + 1;
        proof {
            assert(objs(self.stack@) =~= objs(old(self).stack@).drop_last());
            assert(self.output@.map_values(|l: Vec<u8>| l@) =~= old(self).output@.map_values(
                |l: Vec<u8>| l@,
            ).push(render(old(self).snap().stack.last())));
            assert(self.snap() =~= (VmSnap {
                stack: old(self).snap().stack.drop_last(),
                output: old(self).snap().output.push(render(old(self).snap().stack.last())),
                ip: old(self).snap().ip + 1,
                ..old(self).snap()
            }));
        }
        Ok(())
    }

    fn handle_op_not(&mut self) -> (r: Result<(), VmError>)
        requires
            old(self).ip < old(self).bytecode@.len() <= usize::MAX,
        ensures
            steps_to(*old(self), *final(self), Opcode::Not, r),
    {
        if self.stack.len() == 0 {
            return Err(VmError::StackUnderflow);
        }
        let b: bool = match &self.stack[self.stack.len() - 1] {
            Object::Bool(b) => *b,
            _ => {
                return Err(VmError::TypeMismatch);
            },
        };
        self.stack.pop();
        self.stack.push(Object::Bool(!b));
        self.ip = self.ip + 1;
        proof {
            assert(objs(self.stack@) =~= objs(old(self).stack@).drop_last().push(
                Val::Bool(!b),
            ));
            assert(self.snap() =~= (VmSnap {
                stack: old(self).snap().stack.drop_last().push(Val::Bool(!b)),
                ip: old(self).snap().ip + 1,
                ..old(self).snap()
            }));
        }
        Ok(())
    }

    fn handle_op_jmp(&mut self, t: usize) -> (r: Result<(), VmError>)
        requires
            old(self).ip < old(self).bytecode@.len() <= usize::MAX,
        ensures
            steps_to(*old(self), *final(self), Opcode::Jmp(t), r),
    {
        if t >= self.bytecode.len() {
            return Err(VmError::JumpOutOfRange);
        }
        self.ip = t + 1;
        proof {
            assert(self.snap() =~= (VmSnap { ip: t + 1, ..old(self).snap() }));
        }
        Ok(())
    }

    fn handle_op_jz(&mut self, t: usize) -> (r: Result<(), VmError>)
        requires
            old(self).ip < old(self).bytecode@.len() <= usize::MAX,
        ensures
            steps_to(*old(self), *final(self), Opcode::Jz(t), r),
    {
        if self.stack.len() == 0 {
            return Err(VmError::StackUnderflow);
        }
        let b: bool = match &self.stack[self.stack.len() - 1] {
            Object::Bool(b) => *b,
            _ => {
                return Err(VmError::TypeMismatch);
            },
        };
        if !b && t >= self.bytecode.len() {
            return Err(VmError::JumpOutOfRange);
        }
        self.stack.pop();
        if !b {
            self.ip = t + 1;
        } else {
            self.ip = self.ip + 1;
        }
        proof {
            assert(objs(self.stack@) =~= objs(old(self).stack@).drop_last());
            if !b {
                assert(self.snap() =~= (VmSnap {
                    stack: old(self).snap().stack.drop_last(),
                    ip: t + 1,
                    ..old(self).snap()
                }));
            } else {
                assert(self.snap() =~= (VmSnap {
                    stack: old(self).snap().stack.drop_last(),
                    ip: old(self).snap().ip + 1,
                    ..old(self).snap()
                }));
            }
        }
        Ok(())
    }

    fn handle_op_add(&mut self) -> (r: Result<(), VmError>)
        requires
            old(self).ip < old(self).bytecode@.len() <= usize::MAX,
        ensures
            steps_to(*old(self), *final(self), Opcode::Add, r),
    {
        let n = self.stack.len();
        if n < 2 {
            return Err(VmError::StackUnderflow);
        }
        let b: i64 = match &self.stack[n - 1] {
            Object::Number(x) => *x,
            _ => {
                return Err(VmError::TypeMismatch);
            },
        };
        let a: i64 = match &self.stack[n - 2] {
            Object::Number(x) => *x,
            _ => {
                return Err(VmError::TypeMismatch);
            },
        };
        match a.checked_add(b) {
            Some(c) => {
                self.stack.pop();
                self.stack.pop();
                self.stack.push(Object::Number(c));
                self.ip = self.ip + 1;
                proof {
                    assert(objs(self.stack@) =~= objs(
                        old(self).stack@,
                    ).drop_last().drop_last().push(Val::Num(c)));
                    assert(self.snap() =~= (VmSnap {
                        stack: old(self).snap().stack.drop_last().drop_last().push(Val::Num(c)),
                        ip: old(self).snap().ip + 1,
                        ..old(self).snap()
                    }));
                }
                Ok(())
            },
            None => Err(VmError::Overflow),
        }
    }

    fn handle_op_sub(&mut self) -> (r: Result<(), VmError>)
        requires
            old(self).ip < old(self).bytecode@.len() <= usize::MAX,
        ensures
            steps_to(*old(self), *final(self), Opcode::Sub, r),
    {
        let n = self.stack.len();
        if n < 2 {
            return Err(VmError::StackUnderflow);
        }
        let b: i64 = match &self.stack[n - 1] {
            Object::Number(x) => *x,
            _ => {
                return Err(VmError::TypeMismatch);
            },
        };
        let a: i64 = match &self.stack[n - 2] {
            Object::Number(x) => *x,
            _ => {
                return Err(VmError::TypeMismatch);
            },
        };
        match a.checked_sub(b) {
            Some(c) => {
                self.stack.pop();
                self.stack.pop();
                self.stack.push(Object::Number(c));
                self.ip = self.ip + 1;
                proof {
                    assert(objs(self.stack@) =~= objs(
                        old(self).stack@,
                    ).drop_last().drop_last().push(Val::Num(c)));
                    assert(self.snap() =~= (VmSnap {
                        stack: old(self).snap().stack.drop_last().drop_last().push(Val::Num(c)),
                        ip: old(self).snap().ip + 1,
                        ..old(self).snap()
                    }));
                }
                Ok(())
            },
            None => Err(VmError::Overflow),
        }
    }

    fn handle_op_mul(&mut self) -> (r: Result<(), VmError>)
        requires
            old(self).ip < old(self).bytecode@.len() <= usize::MAX,
        ensures
            steps_to(*old(self), *final(self), Opcode::Mul, r),
    {
        let n = self.stack.len();
        if n < 2 {
            return Err(VmError::StackUnderflow);
        }
        let b: i64 = match &self.stack[n - 1] {
            Object::Number(x) => *x,
            _ => {
                return Err(VmError::TypeMismatch);
            },
        };
        let a: i64 = match &self.stack[n - 2] {
            Object::Number(x) => *x,
            _ => {
                return Err(VmError::TypeMismatch);
            },
        };
        match a.checked_mul(b) {
            Some(c) => {
                self.stack.pop();
                self.stack.pop();
                self.stack.push(Object::Number(c));
                self.ip = self.ip + 1;
                proof {
                    assert(objs(self.stack@) =~= objs(
                        old(self).stack@,
                    ).drop_last().drop_last().push(Val::Num(c)));
                    assert(self.snap() =~= (VmSnap {
                        stack: old(self).snap().stack.drop_last().drop_last().push(Val::Num(c)),
                        ip: old(self).snap().ip + 1,
                        ..old(self).snap()
                    }));
                }
                Ok(())
            },
            None => Err(VmError::Overflow),
        }
    }

    fn handle_op_div(&mut self) -> (r: Result<(), VmError>)
        requires
            old(self).ip < old(self).bytecode@.len() <= usize::MAX,
        ensures
            steps_to(*old(self), *final(self), Opcode::Div, r),
    {
        let n = self.stack.len();
        if n < 2 {
            return Err(VmError::StackUnderflow);
        }
        let b: i64 = match &self.stack[n - 1] {
            Object::Number(x) => *x,
            _ => {
                return Err(VmError::TypeMismatch);
            },
        };
        let a: i64 = match &self.stack[n - 2] {
            Object::Number(x) => *x,
            _ => {
                return Err(VmError::TypeMismatch);
            },
        };
        match a.checked_div(b) {
            Some(c) => {
                self.stack.pop();
                self.stack.pop();
                self.stack.push(Object::Number(c));
                self.ip = self.ip + 1;
                proof {
                    assert(objs(self.stack@) =~= objs(
                        old(self).stack@,
                    ).drop_last().drop_last().push(Val::Num(c)));
                    assert(self.snap() =~= (VmSnap {
                        stack: old(self).snap().stack.drop_last().drop_last().push(Val::Num(c)),
                        ip: old(self).snap().ip + 1,
                        ..old(self).snap()
                    }));
                }
                Ok(())
            },
            None => if b == 0 {
                Err(VmError::DivisionByZero)
            } else {
                Err(VmError::Overflow)
            },
        }
    }

    fn handle_op_less(&mut self) -> (r: Result<(), VmError>)
        requires
            old(self).ip < old(self).bytecode@.len() <= usize::MAX,
        ensures
            steps_to(*old(self), *final(self), Opcode::Less, r),
    {
        let n = self.stack.len();
        if n < 2 {
            return Err(VmError::StackUnderflow);
        }
        let b: i64 = match &self.stack[n - 1] {
            Object::Number(x) => *x,
            _ => {
                return Err(VmError::TypeMismatch);
            },
        };
        let a: i64 = match &self.stack[n - 2] {
            Object::Number(x) => *x,
            _ => {
                return Err(VmError::TypeMismatch);
            },
        };
        let c = a < b;
        self.stack.pop();
        self.stack.pop();
        self.stack.push(Object::Bool(c));
        self.ip = self.ip + 1;
        proof {
            assert(objs(self.stack@) =~= objs(old(self).stack@).drop_last().drop_last().push(
                Val::Bool(c),
            ));
            assert(self.snap() =~= (VmSnap {
                stack: old(self).snap().stack.drop_last().drop_last().push(Val::Bool(c)),
                ip: old(self).snap().ip + 1,
                ..old(self).snap()
            }));
        }
        Ok(())
    }

    fn handle_op_eq(&mut self) -> (r: Result<(), VmError>)
        requires
            old(self).ip < old(self).bytecode@.len() <= usize::MAX,
        ensures
            steps_to(*old(self), *final(self), Opcode::Eq, r),
    {
        let n = self.stack.len();
        if n < 2 {
            return Err(VmError::StackUnderflow);
        }
        let e: Option<bool> = match (&self.stack[n - 2], &self.stack[n - 1]) {
            (Object::Number(x), Object::Number(y)) => Some(*x == *y),
            (Object::Bool(x), Object::Bool(y)) => Some(*x == *y),
            (Object::String(x), Object::String(y)) => Some(bytes_eq(x, y)),
            (Object::Null, Object::Null) => Some(true),
            _ => None,
        };
        match e {
            None => Err(VmError::TypeMismatch),
            Some(c) => {
                self.stack.pop();
                self.stack.pop();
                self.stack.push(Object::Bool(c));
                self.ip = self.ip + 1;
                proof {
                    assert(objs(self.stack@) =~= objs(
                        old(self).stack@,
                    ).drop_last().drop_last().push(Val::Bool(c)));
                    assert(self.snap() =~= (VmSnap {
                        stack: old(self).snap().stack.drop_last().drop_last().push(Val::Bool(c)),
                        ip: old(self).snap().ip + 1,
                        ..old(self).snap()
                    }));
                }
                Ok(())
            },
        }
    }

    fn handle_op_invoke(&mut self, argc: usize, entry: usize) -> (r: Result<(), VmError>)
        requires
            old(self).ip < old(self).bytecode@.len() <= usize::MAX,
        ensures
            steps_to(*old(self), *final(self), Opcode::Invoke(argc, entry), r),
    {
        if argc > self.stack.len() {
            return Err(VmError::StackUnderflow);
        }
        if entry >= self.bytecode.len() {
            return Err(VmError::JumpOutOfRange);
        }
        let at = self.stack.len() - argc;
        self.stack.insert(at, Object::BytecodePtr(self.ip));
        let m = self.stack.len();
        self.frame_ptrs.push(at + 1);
        self.ip = entry + 1;
        proof {
            assert(objs(self.stack@) =~= objs(old(self).stack@).insert(
                at as int,
                Val::Ptr(old(self).ip),
            ));
            assert(self.snap() =~= (VmSnap {
                stack: old(self).snap().stack.insert(at as int, Val::Ptr(old(self).ip)),
                frames: old(self).snap().frames.push((at + 1) as usize),
                ip: entry + 1,
                ..old(self).snap()
            }));
        }
        Ok(())
    }

    fn handle_op_ret(&mut self) -> (r: Result<(), VmError>)
        requires
            old(self).ip < old(self).bytecode@.len() <= usize::MAX,
        ensures
            steps_to(*old(self), *final(self), Opcode::Ret, r),
    {
        if self.frame_ptrs.len() == 0 {
            return Err(VmError::NoFrame);
        }
        if self.stack.len() == 0 {
            return Err(VmError::StackUnderflow);
        }
        let fb = self.frame_ptrs[self.frame_ptrs.len() - 1];
        if fb < 1 || fb > self.stack.len() - 1 {
            return Err(VmError::SlotOutOfRange);
        }
        let r_addr: usize = match &self.stack[fb - 1] {
            Object::BytecodePtr(p) => *p,
            _ => {
                return Err(VmError::TypeMismatch);
            },
        };
        if r_addr >= self.bytecode.len() {
            return Err(VmError::JumpOutOfRange);
        }
        let ret = self.stack.pop().unwrap();
        let ghost retv = ret@;
        self.stack.swap_remove(fb - 1);
        self.stack.push(ret);
        self.frame_ptrs.pop();
        self.ip = r_addr + 1;
        proof {
            let s1 = old(self).snap().stack.drop_last();
            assert(objs(old(self).stack@).drop_last() =~= s1);
            assert(objs(self.stack@) =~= s1.update(fb - 1, s1.last()).drop_last().push(retv));
            assert(self.snap() =~= (VmSnap {
                stack: s1.update(fb - 1, s1.last()).drop_last().push(retv),
                frames: old(self).snap().frames.drop_last(),
                ip: r_addr + 1,
                ..old(self).snap()
            }));
        }
        Ok(())
    }

    fn handle_op_deepget(&mut self, k: usize) -> (r: Result<(), VmError>)
        requires
            old(self).ip < old(self).bytecode@.len() <= usize::MAX,
        ensures
            steps_to(*old(self), *final(self), Opcode::Deepget(k), r),
    {
        if k == 0 {
            return Err(VmError::SlotOutOfRange);
        }
        let base: usize = if self.frame_ptrs.len() > 0 {
            self.frame_ptrs[self.frame_ptrs.len() - 1]
        } else {
            0
        };
        if base > self.stack.len() || k - 1 >= self.stack.len() - base {
            return Err(VmError::SlotOutOfRange);
        }
        let i = base + k - 1;
        let o = self.stack[i].dup();
        let ghost ov = o@;
        self.stack.push(o);
        self.ip = self.ip + 1;
        proof {
            assert(slot_index(old(self).snap(), k) == i as int);
            assert(ov == old(self).snap().stack[i as int]);
            assert(objs(self.stack@) =~= objs(old(self).stack@).push(ov));
            assert(self.snap() =~= (VmSnap {
                stack: old(self).snap().stack.push(old(self).snap().stack[i as int]),
                ip: old(self).snap().ip + 1,
                ..old(self).snap()
            }));
        }
        Ok(())
    }

    fn handle_op_deepset(&mut self, k: usize) -> (r: Result<(), VmError>)
        requires
            old(self).ip < old(self).bytecode@.len() <= usize::MAX,
        ensures
            steps_to(*old(self), *final(self), Opcode::Deepset(k), r),
    {
        if self.stack.len() == 0 {
            return Err(VmError::StackUnderflow);
        }
        if k == 0 {
            return Err(VmError::SlotOutOfRange);
        }
        let base: usize = if self.frame_ptrs.len() > 0 {
            self.frame_ptrs[self.frame_ptrs.len() - 1]
        } else {
            0
        };
        if base > self.stack.len() || k - 1 >= self.stack.len() - base {
            return Err(VmError::SlotOutOfRange);
        }
        let i = base + k - 1;
        self.stack.swap_remove(i);
        self.ip = self.ip + 1;
        proof {
            assert(slot_index(old(self).snap(), k) == i as int);
            assert(objs(self.stack@) =~= objs(old(self).stack@).update(
                i as int,
                objs(old(self).stack@).last(),
            ).drop_last());
            assert(self.snap() =~= (VmSnap {
                stack: old(self).snap().stack.update(
                    i as int,
                    old(self).snap().stack.last(),
                ).drop_last(),
                ip: old(self).snap().ip + 1,
                ..old(self).snap()
            }));
        }
        Ok(())
    }
}

/// Frame-pointer discipline: an `Invoke` step pushes exactly one frame
/// pointer, a `Ret` step pops exactly one, and no other instruction touches
/// the frame-pointer stack. So the `Ret` that matches an `Invoke` returns
/// the frame-pointer stack to exactly its size before that `Invoke`.
pub proof fn lemma_frame_discipline(op: Opcode, n: int, s: VmSnap, s2: VmSnap)
    requires
        step_instr(op, n, s) == Ok::<VmSnap, VmError>(s2),
    ensures
        op is Invoke ==> s2.frames == s.frames.push(s2.frames.last()),
        op is Ret ==> s2.frames == s.frames.drop_last(),
        !(op is Invoke) && !(op is Ret) ==> s2.frames == s.frames,
{
}

/// The frame-pointer stack is touched only at its top: no step changes an
/// entry below the smaller of the two lengths. With [`lemma_frame_discipline`],
/// a `Ret` reinstates exactly the frame-pointer stack that stood before the
/// `Invoke` it matches.
pub proof fn lemma_frames_lower_preserved(op: Opcode, n: int, s: VmSnap, s2: VmSnap)
    requires
        step_instr(op, n, s) == Ok::<VmSnap, VmError>(s2),
    ensures
        forall|j: int|
            0 <= j < s.frames.len() && j < s2.frames.len() ==> s.frames[j] == s2.frames[j],
{
}

/// No instruction reads a `BytecodePtr` as an arithmetic or comparison
/// operand: with a return address among the two operands, the step faults
/// with a type mismatch instead of computing.
pub proof fn lemma_arith_never_reads_ptr(op: Opcode, n: int, s: VmSnap)
    requires
        op is Add || op is Sub || op is Mul || op is Div || op is Less || op is Eq,
        s.stack.len() >= 2,
        s.stack[s.stack.len() - 1] is Ptr || s.stack[s.stack.len() - 2] is Ptr,
    ensures
        step_instr(op, n, s) == Err::<VmSnap, VmError>(VmError::TypeMismatch),
{
}

/// Frame-relative addressing: a `Deepget` or `Deepset` that succeeds under
/// a live frame touches a stack index at or above the frame base. Slot
/// zero, which would reach the return address just below the base, faults
/// instead of reading it.
pub proof fn lemma_slot_access_in_frame(op: Opcode, n: int, s: VmSnap)
    requires
        op is Deepget || op is Deepset,
        step_instr(op, n, s) is Ok,
        s.frames.len() > 0,
    ensures
        ({
            let k = if op is Deepget {
                op->Deepget_0
            } else {
                op->Deepset_0
            };
            k >= 1 && s.frames.last() <= slot_index(s, k) < s.stack.len()
        }),
{
}

/// Holds when, along the run of at most `fuel` steps from `s`, every
/// executed step treats the frame-pointer stack as a stack: an `Invoke`
/// pushes exactly one entry, a `Ret` pops exactly one, every other
/// instruction leaves it unchanged, and entries below the top are never
/// rewritten.
pub open spec fn frames_disciplined(prog: Seq<Opcode>, s: VmSnap, fuel: nat) -> bool
    decreases fuel,
{
    if s.ip == prog.len() || !(0 <= s.ip < prog.len()) || fuel == 0 {
        true
    } else {
        match step(prog, s) {
            Ok(s2) => {
                let op = prog[s.ip];
                &&& (op is Invoke ==> s2.frames == s.frames.push(s2.frames.last()))
                &&& (op is Ret ==> s2.frames == s.frames.drop_last())
                &&& (!(op is Invoke) && !(op is Ret) ==> s2.frames == s.frames)
                &&& (forall|j: int|
                    0 <= j < s.frames.len() && j < s2.frames.len() ==> s.frames[j]
                        == s2.frames[j])
                &&& frames_disciplined(prog, s2, (fuel - 1) as nat)
            },
            Err(_) => true,
        }
    }
}

/// Every run, of any program from any state, keeps the frame-pointer
/// discipline at each of its steps. So when a `Ret` brings the
/// frame-pointer stack back to its size before an `Invoke`, the stack is
/// exactly the one that stood before that `Invoke`.
pub proof fn lemma_run_frames_disciplined(prog: Seq<Opcode>, s: VmSnap, fuel: nat)
    ensures
        frames_disciplined(prog, s, fuel),
    decreases fuel,
{
    if !(s.ip == prog.len() || !(0 <= s.ip < prog.len()) || fuel == 0) {
        match step(prog, s) {
            Ok(s2) => {
                lemma_frame_discipline(prog[s.ip], prog.len() as int, s, s2);
                lemma_frames_lower_preserved(prog[s.ip], prog.len() as int, s, s2);
                lemma_run_frames_disciplined(prog, s2, (fuel - 1) as nat);
            },
            Err(_) => {},
        }
    }
}

/// Holds when, along the run of at most `fuel` steps from `s`, every
/// successfully executed arithmetic or comparison instruction found two
/// operands on the stack and neither was a return address.
pub open spec fn no_ptr_reads(prog: Seq<Opcode>, s: VmSnap, fuel: nat) -> bool
    decreases fuel,
{
    if s.ip == prog.len() || !(0 <= s.ip < prog.len()) || fuel == 0 {
        true
    } else {
        match step(prog, s) {
            Ok(s2) => {
                let op = prog[s.ip];
                &&& ((op is Add || op is Sub || op is Mul || op is Div || op is Less
                    || op is Eq) ==> (s.stack.len() >= 2 && !(s.stack[s.stack.len() - 1] is Ptr)
                    && !(s.stack[s.stack.len() - 2] is Ptr)))
                &&& no_ptr_reads(prog, s2, (fuel - 1) as nat)
            },
            Err(_) => true,
        }
    }
}

/// No run, of any program from any state, ever reads a `BytecodePtr` as an
/// arithmetic or comparison operand: a run that would do so faults at that
/// step instead of computing.
pub proof fn lemma_run_never_reads_ptr(prog: Seq<Opcode>, s: VmSnap, fuel: nat)
    ensures
        no_ptr_reads(prog, s, fuel),
    decreases fuel,
{
    if !(s.ip == prog.len() || !(0 <= s.ip < prog.len()) || fuel == 0) {
        match step(prog, s) {
            Ok(s2) => {
                let op = prog[s.ip];
                if op is Add || op is Sub || op is Mul || op is Div || op is Less || op is Eq {
                    if s.stack.len() >= 2 && (s.stack[s.stack.len() - 1] is Ptr || s.stack[
                        s.stack.len() - 2] is Ptr) {
                        lemma_arith_never_reads_ptr(op, prog.len() as int, s);
                    }
                }
                lemma_run_never_reads_ptr(prog, s2, (fuel - 1) as nat);
            },
            Err(_) => {},
        }
    }
}

/// Double negation: executing `Not` twice on a Boolean top of stack
/// restores the operand stack, the frames and the output exactly.
pub proof fn lemma_not_involutive(n: int, s: VmSnap)
    requires
        s.stack.len() >= 1,
        s.stack.last() is Bool,
    ensures
        step_instr(Opcode::Not, n, s) is Ok,
        step_instr(Opcode::Not, n, step_instr(Opcode::Not, n, s)->Ok_0) is Ok,
        ({
            let s2 = step_instr(Opcode::Not, n, step_instr(Opcode::Not, n, s)->Ok_0)->Ok_0;
            s2.stack == s.stack && s2.frames == s.frames && s2.output == s.output && s2.ip == s.ip
                + 2
        }),
{
    let s1 = step_instr(Opcode::Not, n, s)->Ok_0;
    let s2 = step_instr(Opcode::Not, n, s1)->Ok_0;
    assert(s1.stack.drop_last() =~= s.stack.drop_last());
    assert(s2.stack =~= s.stack);
}

/// `x == x` is `true`: `Eq` on two copies of one comparable value pushes
/// `Bool(true)`; structural equality is reflexive on every printable value.
pub proof fn lemma_self_equality(n: int, s: VmSnap)
    requires
        s.stack.len() >= 2,
        s.stack.last() == s.stack[s.stack.len() - 2],
        !(s.stack.last() is Ptr),
    ensures
        step_instr(Opcode::Eq, n, s) == Ok::<VmSnap, VmError>(
            VmSnap {
                stack: s.stack.drop_last().drop_last().push(Val::Bool(true)),
                ip: s.ip + 1,
                ..s
            },
        ),
{
}

/// `x != x` is `false`: the lowering of `!=` is `Eq` then `Not`, and on two
/// copies of one comparable value it leaves `Bool(false)` on top.
pub proof fn lemma_self_inequality(n: int, s: VmSnap)
    requires
        s.stack.len() >= 2,
        s.stack.last() == s.stack[s.stack.len() - 2],
        !(s.stack.last() is Ptr),
    ensures
        step_instr(Opcode::Eq, n, s) is Ok,
        step_instr(Opcode::Not, n, step_instr(Opcode::Eq, n, s)->Ok_0) is Ok,
        ({
            let s2 = step_instr(Opcode::Not, n, step_instr(Opcode::Eq, n, s)->Ok_0)->Ok_0;
            s2.stack == s.stack.drop_last().drop_last().push(Val::Bool(false))
        }),
{
    let s1 = step_instr(Opcode::Eq, n, s)->Ok_0;
    let s2 = step_instr(Opcode::Not, n, s1)->Ok_0;
    assert(s2.stack =~= s.stack.drop_last().drop_last().push(Val::Bool(false)));
}

/// Equivalence of instructions up to the value of a string payload.
pub open spec fn op_eqv(a: Opcode, b: Opcode) -> bool {
    match (a, b) {
        (Opcode::Str(x), Opcode::Str(y)) => x@ == y@,
        _ => a == b,
    }
}

/// Equivalent instructions step identically.
proof fn lemma_step_instr_eqv(a: Opcode, b: Opcode, n: int, s: VmSnap)
    requires
        op_eqv(a, b),
    ensures
        step_instr(a, n, s) == step_instr(b, n, s),
{
    match (a, b) {
        (Opcode::Str(x), Opcode::Str(y)) => {
            assert(Val::Str(x@) == Val::Str(y@));
        },
        _ => {},
    }
}

/// An explicit copy of an instruction; the copy steps identically.
fn opcode_dup(op: &Opcode) -> (o: Opcode)
    ensures
        op_eqv(*op, o),
{
    match op {
        Opcode::Print => Opcode::Print,
        Opcode::Const(c) => Opcode::Const(*c),
        Opcode::Str(s) => Opcode::Str(copy_bytes(s)),
        Opcode::Add => Opcode::Add,
        Opcode::Sub => Opcode::Sub,
        Opcode::Mul => Opcode::Mul,
        Opcode::Div => Opcode::Div,
        Opcode::Null => Opcode::Null,
        Opcode::Not => Opcode::Not,
        Opcode::False => Opcode::False,
        Opcode::Eq => Opcode::Eq,
        Opcode::Jmp(t) => Opcode::Jmp(*t),
        Opcode::Jz(t) => Opcode::Jz(*t),
        Opcode::Ret => Opcode::Ret,
        Opcode::Less => Opcode::Less,
        Opcode::Deepget(k) => Opcode::Deepget(*k),
        Opcode::Deepset(k) => Opcode::Deepset(*k),
        Opcode::Pop => Opcode::Pop,
        Opcode::Invoke(a, e) => Opcode::Invoke(*a, *e),
    }
}

impl VM {
    /// Runs the loaded program for at most `max_steps` instructions,
    /// exactly as [`run_spec`] describes: the machine stops at the program
    /// length (`Done`), at a fault (`Fault`), or when the budget runs out
    /// (`Pending`, resumable by calling `run` again).
    #[verifier::loop_isolation(false)]
    pub fn run(&mut self, max_steps: usize) -> (r: RunStatus)
        ensures
            final(self).bytecode == old(self).bytecode,
            r == run_spec(old(self).bytecode@, old(self).snap(), max_steps as nat).0,
            final(self).snap() == run_spec(old(self).bytecode@, old(self).snap(), max_steps as nat).1,
    {
        let ghost prog = self.bytecode@;
        let mut steps_left: usize = max_steps;
        loop
            invariant
                self.bytecode == old(self).bytecode,
                self.bytecode@ == prog,
                run_spec(prog, old(self).snap(), max_steps as nat) == run_spec(
                    prog,
                    self.snap(),
                    steps_left as nat,
                ),
            decreases steps_left,
        {
            let n = self.bytecode.len();
            if self.ip == n {
                return RunStatus::Done;
            }
            if self.ip > n {
                return RunStatus::Fault(VmError::JumpOutOfRange);
            }
            if steps_left == 0 {
                return RunStatus::Pending;
            }
            let ghost pre = self.snap();
            let ghost sl_pre = steps_left as nat;
            steps_left = steps_left - 1;
            let idx = self.ip;
            let op = opcode_dup(&self.bytecode[idx]);
            let ghost gop = op;
            proof {
                lemma_step_instr_eqv(prog[idx as int], gop, prog.len() as int, pre);
            }
            let res: Result<(), VmError> = match op {
                Opcode::Print => self.handle_op_print(),
                Opcode::Const(c) => {
                    self.handle_op_const(c);
                    Ok(())
                },
                Opcode::Str(v) => {
                    self.handle_op_str(v);
                    Ok(())
                },
                Opcode::Add => self.handle_op_add(),
                Opcode::Sub => self.handle_op_sub(),
                Opcode::Mul => self.handle_op_mul(),
                Opcode::Div => self.handle_op_div(),
                Opcode::Null => {
                    self.handle_op_null();
                    Ok(())
                },
                Opcode::Not => self.handle_op_not(),
                Opcode::False => {
                    self.handle_op_false();
                    Ok(())
                },
                Opcode::Eq => self.handle_op_eq(),
                Opcode::Jmp(t) => self.handle_op_jmp(t),
                Opcode::Jz(t) => self.handle_op_jz(t),
                Opcode::Ret => self.handle_op_ret(),
                Opcode::Less => self.handle_op_less(),
                Opcode::Deepget(k) => self.handle_op_deepget(k),
                Opcode::Deepset(k) => self.handle_op_deepset(k),
                Opcode::Pop => self.handle_op_pop(),
                Opcode::Invoke(a, e) => self.handle_op_invoke(a, e),
            };
            match res {
                Ok(_) => {
                    proof {
                        assert(step(prog, pre) == Ok::<VmSnap, VmError>(self.snap()));
                        assert(run_spec(prog, pre, sl_pre) == run_spec(
                            prog,
                            self.snap(),
                            steps_left as nat,
                        ));
                    }
                },
                Err(e) => {
                    proof {
                        assert(step(prog, pre) == Err::<VmSnap, VmError>(e));
                        assert(run_spec(prog, pre, sl_pre) == (RunStatus::Fault(e), pre));
                    }
                    return RunStatus::Fault(e);
                },
            }
        }
    }
}

} // verus!
