//! The virtual machine on hand-built programs: faults, budgets, strings.

use reaper::compiler::{Compiler, Opcode};
use reaper::parser::Parser;
use reaper::tokenizer::Tokenizer;
use reaper::vm::{RunStatus, VM, VmError};

fn run_program(bytecode: Vec<Opcode>) -> (RunStatus, VM) {
    let mut vm = VM::new();
    vm.load(bytecode);
    let status = vm.run(1_000_000);
    (status, vm)
}

#[test]
fn string_print() {
    let (status, vm) = run_program(vec![Opcode::Str(b"hi".to_vec()), Opcode::Print]);
    assert_eq!(status, RunStatus::Done);
    assert_eq!(vm.output, vec![b"hi".to_vec()]);
}

#[test]
fn empty_program_halts() {
    let (status, vm) = run_program(vec![]);
    assert_eq!(status, RunStatus::Done);
    assert!(vm.output.is_empty());
}

#[test]
fn division_by_zero_faults() {
    let (status, _) = run_program(vec![Opcode::Const(1), Opcode::Const(0), Opcode::Div]);
    assert_eq!(status, RunStatus::Fault(VmError::DivisionByZero));
}

#[test]
fn overflow_faults() {
    let (status, _) = run_program(vec![
        Opcode::Const(i64::MAX),
        Opcode::Const(1),
        Opcode::Add,
    ]);
    assert_eq!(status, RunStatus::Fault(VmError::Overflow));
}

#[test]
fn type_mismatch_faults() {
    let (status, _) = run_program(vec![Opcode::False, Opcode::Const(1), Opcode::Add]);
    assert_eq!(status, RunStatus::Fault(VmError::TypeMismatch));
}

#[test]
fn jz_on_number_faults() {
    let (status, _) = run_program(vec![Opcode::Const(1), Opcode::Jz(0)]);
    assert_eq!(status, RunStatus::Fault(VmError::TypeMismatch));
}

#[test]
fn pop_on_empty_faults() {
    let (status, _) = run_program(vec![Opcode::Pop]);
    assert_eq!(status, RunStatus::Fault(VmError::StackUnderflow));
}

#[test]
fn ret_without_frame_faults() {
    let (status, _) = run_program(vec![Opcode::Null, Opcode::Ret]);
    assert_eq!(status, RunStatus::Fault(VmError::NoFrame));
}

#[test]
fn slot_out_of_range_faults() {
    let (status, _) = run_program(vec![Opcode::Deepget(5)]);
    assert_eq!(status, RunStatus::Fault(VmError::SlotOutOfRange));
}

#[test]
fn jump_out_of_range_faults() {
    let (status, _) = run_program(vec![Opcode::Jmp(7)]);
    assert_eq!(status, RunStatus::Fault(VmError::JumpOutOfRange));
}

#[test]
fn fault_keeps_state_before_step() {
    let (status, vm) = run_program(vec![Opcode::Const(3), Opcode::Pop, Opcode::Pop]);
    assert_eq!(status, RunStatus::Fault(VmError::StackUnderflow));
    assert_eq!(vm.ip, 2);
    assert_eq!(vm.stack.len(), 0);
}

#[test]
fn run_is_resumable() {
    let mut tokenizer = Tokenizer::new(b"print 2 + 3;".to_vec());
    let tokens = tokenizer.tokenize();
    let mut parser = Parser::new();
    let ast = parser.parse(tokens).expect("parse failed");
    let mut compiler = Compiler::new();
    compiler.compile(&ast).expect("compile failed");
    let mut vm = VM::new();
    vm.load(compiler.bytecode);
    let mut pending: usize = 0;
    loop {
        match vm.run(1) {
            RunStatus::Pending => {
                pending += 1;
                assert!(pending < 100);
            }
            RunStatus::Done => break,
            RunStatus::Fault(e) => panic!("unexpected fault: {:?}", e),
        }
    }
    assert!(pending > 0);
    assert_eq!(vm.output, vec![b"5".to_vec()]);
}

#[test]
fn zero_budget_is_pending() {
    let mut vm = VM::new();
    vm.load(vec![Opcode::Null]);
    assert_eq!(vm.run(0), RunStatus::Pending);
    assert_eq!(vm.run(10), RunStatus::Done);
}
