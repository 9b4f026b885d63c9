use cilly::error::{Error, Fault};
use cilly::vm::{Action, OpCode, Output, Stop, VM};

fn run(code: Vec<OpCode>, input: Vec<i32>) -> (Vec<Output>, Result<Stop, Error>) {
    let mut vm = VM::new(code);
    vm.run(&input, 100_000)
}

fn value_of(code: Vec<OpCode>) -> i32 {
    let mut code = code;
    code.push(OpCode::PrintItem);
    let (out, end) = run(code, vec![]);
    assert!(matches!(end, Ok(Stop::Halted)));
    assert_eq!(out.len(), 1);
    match out[0] {
        Output::Item(v) => v,
        Output::Newline => panic!("a line break where a value was expected"),
    }
}

fn binary(a: i32, b: i32, op: OpCode) -> i32 {
    value_of(vec![OpCode::LoadConst(a), OpCode::LoadConst(b), op])
}

fn fault_of(code: Vec<OpCode>) -> (Fault, usize) {
    let (_, end) = run(code, vec![]);
    match end {
        Err(Error::VMError(fault, pc)) => (fault, pc),
        other => panic!("expected a fault, got {:?}", other),
    }
}

#[test]
fn vm() {
    let opcode = vec![
        OpCode::LoadConst(1),
        OpCode::LoadConst(2),
        OpCode::BinOpAdd,
        OpCode::PrintItem,
    ];
    let mut vm = VM::new(opcode);
    let (out, end) = vm.run(&vec![], 100);
    assert!(matches!(end, Ok(Stop::Halted)));
    assert_eq!(out, vec![Output::Item(3)]);
}

#[test]
fn step_by_step() {
    let mut vm = VM::new(vec![
        OpCode::LoadConst(1),
        OpCode::LoadConst(2),
        OpCode::BinOpAdd,
        OpCode::PrintItem,
        OpCode::PrintNewline,
    ]);
    assert!(matches!(vm.step(), Ok(Action::Continue)));
    assert!(matches!(vm.step(), Ok(Action::Continue)));
    assert!(matches!(vm.step(), Ok(Action::Continue)));
    assert!(matches!(vm.step(), Ok(Action::Print(3))));
    assert!(matches!(vm.step(), Ok(Action::Newline)));
    assert!(matches!(vm.step(), Ok(Action::Halt)));
    assert!(matches!(vm.step(), Ok(Action::Halt)));
}

#[test]
fn empty_program_halts() {
    let (out, end) = run(vec![], vec![]);
    assert!(out.is_empty());
    assert!(matches!(end, Ok(Stop::Halted)));
}

#[test]
fn loads_push_their_constants() {
    assert_eq!(value_of(vec![OpCode::LoadConst(-7)]), -7);
    assert_eq!(value_of(vec![OpCode::LoadTrue]), 1);
    assert_eq!(value_of(vec![OpCode::LoadFalse]), 0);
    assert_eq!(value_of(vec![OpCode::LoadNull]), 0);
}

#[test]
fn arithmetic_pops_right_then_left() {
    assert_eq!(binary(7, 2, OpCode::BinOpAdd), 9);
    assert_eq!(binary(7, 2, OpCode::BinOpSub), 5);
    assert_eq!(binary(7, 2, OpCode::BinOpMul), 14);
    assert_eq!(binary(7, 2, OpCode::BinOpDiv), 3);
}

#[test]
fn division_truncates_toward_zero() {
    assert_eq!(binary(-7, 2, OpCode::BinOpDiv), -3);
    assert_eq!(binary(7, -2, OpCode::BinOpDiv), -3);
    assert_eq!(binary(-7, -2, OpCode::BinOpDiv), 3);
    assert_eq!(binary(0, -2, OpCode::BinOpDiv), 0);
    assert_eq!(binary(i32::MIN, -1, OpCode::BinOpDiv), i32::MIN);
    assert_eq!(binary(i32::MIN, 2, OpCode::BinOpDiv), -1073741824);
}

#[test]
fn arithmetic_wraps() {
    assert_eq!(binary(i32::MAX, 1, OpCode::BinOpAdd), i32::MIN);
    assert_eq!(binary(i32::MIN, 1, OpCode::BinOpSub), i32::MAX);
    assert_eq!(binary(65536, 65536, OpCode::BinOpMul), 0);
    assert_eq!(binary(i32::MAX, 2, OpCode::BinOpMul), -2);
}

#[test]
fn comparisons_give_zero_or_one() {
    assert_eq!(binary(1, 2, OpCode::BinOpGt), 0);
    assert_eq!(binary(2, 1, OpCode::BinOpGt), 1);
    assert_eq!(binary(2, 2, OpCode::BinOpGe), 1);
    assert_eq!(binary(1, 2, OpCode::BinOpGe), 0);
    assert_eq!(binary(1, 2, OpCode::BinOpLt), 1);
    assert_eq!(binary(2, 2, OpCode::BinOpLt), 0);
    assert_eq!(binary(2, 2, OpCode::BinOpLe), 1);
    assert_eq!(binary(3, 2, OpCode::BinOpLe), 0);
    assert_eq!(binary(2, 2, OpCode::BinOpEq), 1);
    assert_eq!(binary(2, 3, OpCode::BinOpEq), 0);
    assert_eq!(binary(2, 3, OpCode::BinOpNe), 1);
    assert_eq!(binary(3, 3, OpCode::BinOpNe), 0);
}

#[test]
fn or_and_are_logical() {
    assert_eq!(binary(0, 0, OpCode::BinOpOr), 0);
    assert_eq!(binary(5, 0, OpCode::BinOpOr), 1);
    assert_eq!(binary(0, -3, OpCode::BinOpOr), 1);
    assert_eq!(binary(2, 4, OpCode::BinOpAnd), 1);
    assert_eq!(binary(2, 0, OpCode::BinOpAnd), 0);
    assert_eq!(binary(0, 0, OpCode::BinOpAnd), 0);
}

#[test]
fn not_is_the_bitwise_complement() {
    assert_eq!(value_of(vec![OpCode::LoadConst(0), OpCode::UniOpNot]), -1);
    assert_eq!(value_of(vec![OpCode::LoadConst(1), OpCode::UniOpNot]), -2);
    assert_eq!(value_of(vec![OpCode::LoadConst(i32::MIN), OpCode::UniOpNot]), i32::MAX);
}

#[test]
fn neg_is_twos_complement() {
    assert_eq!(value_of(vec![OpCode::LoadConst(5), OpCode::UniOpNeg]), -5);
    assert_eq!(value_of(vec![OpCode::LoadConst(i32::MIN), OpCode::UniOpNeg]), i32::MIN);
}

#[test]
fn division_by_zero_is_a_fault() {
    let code = vec![OpCode::LoadConst(1), OpCode::LoadConst(0), OpCode::BinOpDiv];
    assert_eq!(fault_of(code), (Fault::DivisionByZero, 2));
}

#[test]
fn a_fault_leaves_the_machine_as_it_is() {
    let mut vm = VM::new(vec![OpCode::LoadConst(1), OpCode::LoadConst(0), OpCode::BinOpDiv]);
    assert!(vm.step().is_ok());
    assert!(vm.step().is_ok());
    assert!(matches!(vm.step(), Err(Error::VMError(Fault::DivisionByZero, 2))));
    assert!(matches!(vm.step(), Err(Error::VMError(Fault::DivisionByZero, 2))));
}

#[test]
fn popping_an_empty_stack_is_a_fault() {
    assert_eq!(fault_of(vec![OpCode::Pop]), (Fault::StackUnderflow, 0));
    assert_eq!(fault_of(vec![OpCode::PrintItem]), (Fault::StackUnderflow, 0));
    assert_eq!(fault_of(vec![OpCode::LoadConst(1), OpCode::BinOpAdd]), (Fault::StackUnderflow, 1));
    assert_eq!(fault_of(vec![OpCode::StoreGlobal(0)]), (Fault::StackUnderflow, 0));
    assert_eq!(fault_of(vec![OpCode::JmpFalse(0)]), (Fault::StackUnderflow, 0));
    assert_eq!(fault_of(vec![OpCode::LoadConst(1), OpCode::Call(0, 2)]), (Fault::StackUnderflow, 1));
}

#[test]
fn returning_without_a_call_is_a_fault() {
    assert_eq!(fault_of(vec![OpCode::Ret]), (Fault::ReturnWithoutCall, 0));
    assert_eq!(fault_of(vec![OpCode::LoadPC]), (Fault::ReturnWithoutCall, 0));
}

#[test]
fn jumping_past_the_end_is_a_fault() {
    assert_eq!(fault_of(vec![OpCode::Jmp(2)]), (Fault::JumpOutOfRange, 0));
    assert_eq!(fault_of(vec![OpCode::Call(usize::MAX, 0)]), (Fault::JumpOutOfRange, 0));
    assert_eq!(fault_of(vec![OpCode::LoadConst(1), OpCode::JmpTrue(9)]), (Fault::JumpOutOfRange, 1));
    assert_eq!(fault_of(vec![OpCode::LoadConst(0), OpCode::JmpFalse(9)]), (Fault::JumpOutOfRange, 1));
}

#[test]
fn jumping_to_the_end_halts() {
    let (out, end) = run(vec![OpCode::Jmp(1)], vec![]);
    assert!(out.is_empty());
    assert!(matches!(end, Ok(Stop::Halted)));
}

#[test]
fn a_jump_not_taken_is_not_checked() {
    let (_, end) = run(vec![OpCode::LoadConst(0), OpCode::JmpTrue(9)], vec![]);
    assert!(matches!(end, Ok(Stop::Halted)));
}

#[test]
fn only_one_counts_as_true() {
    let code = |v: i32, jump: OpCode| {
        vec![
            OpCode::LoadConst(v),
            jump,
            OpCode::LoadConst(10),
            OpCode::PrintItem,
            OpCode::LoadConst(20),
            OpCode::PrintItem,
        ]
    };
    let printed = |v: i32, jump: OpCode| run(code(v, jump), vec![]).0;
    assert_eq!(printed(1, OpCode::JmpTrue(4)), vec![Output::Item(20)]);
    assert_eq!(printed(2, OpCode::JmpTrue(4)), vec![Output::Item(10), Output::Item(20)]);
    assert_eq!(printed(0, OpCode::JmpTrue(4)), vec![Output::Item(10), Output::Item(20)]);
    assert_eq!(printed(1, OpCode::JmpFalse(4)), vec![Output::Item(10), Output::Item(20)]);
    assert_eq!(printed(2, OpCode::JmpFalse(4)), vec![Output::Item(20)]);
    assert_eq!(printed(0, OpCode::JmpFalse(4)), vec![Output::Item(20)]);
}

#[test]
fn globals_grow_with_zeros() {
    let code = vec![
        OpCode::LoadConst(9),
        OpCode::StoreGlobal(2),
        OpCode::LoadGlobal(0),
        OpCode::PrintItem,
        OpCode::LoadGlobal(1),
        OpCode::PrintItem,
        OpCode::LoadGlobal(2),
        OpCode::PrintItem,
    ];
    let (out, end) = run(code, vec![]);
    assert!(matches!(end, Ok(Stop::Halted)));
    assert_eq!(out, vec![Output::Item(0), Output::Item(0), Output::Item(9)]);
}

#[test]
fn reading_a_slot_that_is_not_there_is_a_fault() {
    assert_eq!(fault_of(vec![OpCode::LoadGlobal(0)]), (Fault::BadReference, 0));
    assert_eq!(fault_of(vec![OpCode::LoadVar(0, 0)]), (Fault::BadReference, 0));
    assert_eq!(fault_of(vec![OpCode::LoadVar(1, 0)]), (Fault::BadReference, 0));
    assert_eq!(
        fault_of(vec![OpCode::LoadConst(1), OpCode::StoreVar(1, 0)]),
        (Fault::BadReference, 1)
    );
    assert_eq!(
        fault_of(vec![OpCode::LoadConst(1), OpCode::StoreGlobal(usize::MAX)]),
        (Fault::BadReference, 1)
    );
}

#[test]
fn depth_counts_from_the_innermost_frame() {
    let code = vec![
        OpCode::LoadConst(5),
        OpCode::StoreVar(0, 0),
        OpCode::EnterScope(0),
        OpCode::LoadConst(6),
        OpCode::StoreVar(0, 0),
        OpCode::LoadVar(1, 0),
        OpCode::PrintItem,
        OpCode::LoadVar(0, 0),
        OpCode::PrintItem,
        OpCode::LeaveScope,
        OpCode::LoadVar(0, 0),
        OpCode::PrintItem,
        OpCode::LoadGlobal(0),
        OpCode::PrintItem,
    ];
    let (out, end) = run(code, vec![]);
    assert!(matches!(end, Ok(Stop::Halted)));
    assert_eq!(
        out,
        vec![Output::Item(5), Output::Item(6), Output::Item(5), Output::Item(5)]
    );
}

#[test]
fn call_places_the_top_of_the_stack_in_slot_zero() {
    let code = vec![
        OpCode::LoadConst(20),
        OpCode::LoadConst(10),
        OpCode::Call(4, 2),
        OpCode::Jmp(9),
        OpCode::LoadVar(0, 0),
        OpCode::PrintItem,
        OpCode::LoadVar(0, 1),
        OpCode::PrintItem,
        OpCode::Ret,
    ];
    let (out, end) = run(code, vec![]);
    assert!(matches!(end, Ok(Stop::Halted)));
    assert_eq!(out, vec![Output::Item(10), Output::Item(20)]);
}

#[test]
fn ret_leaves_the_value_for_the_caller() {
    let code = vec![
        OpCode::Call(3, 0),
        OpCode::PrintItem,
        OpCode::Jmp(5),
        OpCode::LoadConst(42),
        OpCode::Ret,
    ];
    let (out, end) = run(code, vec![]);
    assert!(matches!(end, Ok(Stop::Halted)));
    assert_eq!(out, vec![Output::Item(42)]);
}

#[test]
fn ret_tears_down_the_blocks_entered_during_the_call() {
    let code = vec![
        OpCode::LoadConst(7),
        OpCode::StoreGlobal(0),
        OpCode::Call(5, 0),
        OpCode::LoadVar(0, 0),
        OpCode::PrintItem,
        OpCode::EnterScope(0),
        OpCode::EnterScope(0),
        OpCode::Ret,
    ];
    let mut vm = VM::new(code);
    let (out, end) = vm.run(&vec![], 6);
    assert!(out.is_empty());
    assert!(matches!(end, Ok(Stop::Exhausted)));
    let (out, end) = vm.run(&vec![], 100);
    assert!(matches!(end, Err(Error::VMError(Fault::ReturnWithoutCall, 7))));
    assert_eq!(out, vec![Output::Item(7)]);
}

#[test]
fn leave_scope_keeps_the_globals_frame() {
    let code = vec![
        OpCode::LoadConst(3),
        OpCode::StoreGlobal(0),
        OpCode::LeaveScope,
        OpCode::LeaveScope,
        OpCode::LoadGlobal(0),
        OpCode::PrintItem,
    ];
    let (out, end) = run(code, vec![]);
    assert!(matches!(end, Ok(Stop::Halted)));
    assert_eq!(out, vec![Output::Item(3)]);
}

#[test]
fn store_pc_and_load_pc_loop_once() {
    let code = vec![
        OpCode::StorePC,
        OpCode::LoadConst(1),
        OpCode::PrintItem,
        OpCode::LoadPC,
    ];
    let mut vm = VM::new(code);
    let (out, end) = vm.run(&vec![], 100);
    assert_eq!(out, vec![Output::Item(1), Output::Item(1)]);
    assert!(matches!(end, Err(Error::VMError(Fault::ReturnWithoutCall, 3))));
}

#[test]
fn make_closure_is_reserved() {
    assert_eq!(fault_of(vec![OpCode::MakeClosure]), (Fault::IllegalInstruction, 0));
}

#[test]
fn get_int_waits_for_input() {
    let mut vm = VM::new(vec![OpCode::GetInt, OpCode::PrintItem]);
    assert!(vm.awaits_input());
    assert!(matches!(vm.step(), Ok(Action::Input)));
    assert!(matches!(vm.step(), Ok(Action::Input)));
    assert!(matches!(vm.receive(Some(7)), Ok(true)));
    assert!(!vm.awaits_input());
    assert!(matches!(vm.receive(Some(8)), Ok(false)));
    assert!(matches!(vm.step(), Ok(Action::Print(7))));
}

#[test]
fn malformed_input_is_a_fault() {
    let mut vm = VM::new(vec![OpCode::LoadConst(1), OpCode::GetInt]);
    assert!(matches!(vm.receive(None), Ok(false)));
    assert!(vm.step().is_ok());
    assert!(matches!(vm.receive(None), Err(Error::VMError(Fault::MalformedInput, 1))));
    assert!(matches!(vm.receive(Some(2)), Ok(true)));
}

#[test]
fn run_takes_its_input_in_order() {
    let code = vec![
        OpCode::GetInt,
        OpCode::GetInt,
        OpCode::BinOpSub,
        OpCode::PrintItem,
        OpCode::PrintNewline,
        OpCode::GetInt,
    ];
    let (out, end) = run(code, vec![10, 3]);
    assert_eq!(out, vec![Output::Item(7), Output::Newline]);
    assert!(matches!(end, Ok(Stop::Starved)));
}

#[test]
fn run_stops_at_the_step_limit() {
    let mut vm = VM::new(vec![OpCode::LoadConst(1), OpCode::PrintItem, OpCode::Jmp(0)]);
    let (out, end) = vm.run(&vec![], 5);
    assert!(matches!(end, Ok(Stop::Exhausted)));
    assert_eq!(out, vec![Output::Item(1), Output::Item(1)]);
    let (out, end) = vm.run(&vec![], 1);
    assert!(matches!(end, Ok(Stop::Exhausted)));
    assert!(out.is_empty());
}

#[test]
fn a_line_of_input_is_fed_as_text() {
    let mut vm = VM::new(vec![OpCode::GetInt, OpCode::GetInt, OpCode::BinOpAdd, OpCode::PrintItem]);
    assert!(matches!(vm.feed(&b" 40 \n".to_vec()), Ok(true)));
    assert!(matches!(
        vm.feed(&b"two\n".to_vec()),
        Err(Error::VMError(Fault::MalformedInput, 1))
    ));
    assert!(matches!(vm.feed(&b"-2".to_vec()), Ok(true)));
    assert!(matches!(vm.feed(&b"5".to_vec()), Ok(false)));
    assert!(matches!(vm.step(), Ok(Action::Continue)));
    assert!(matches!(vm.step(), Ok(Action::Print(38))));
}

#[test]
fn the_state_can_be_looked_at() {
    let mut vm = VM::new(vec![
        OpCode::LoadConst(1),
        OpCode::LoadConst(2),
        OpCode::Call(4, 1),
        OpCode::Jmp(6),
        OpCode::EnterScope(0),
        OpCode::StoreVar(0, 1),
    ]);
    assert_eq!((vm.pc(), vm.depth(), vm.calls()), (0, 1, 0));
    assert_eq!(vm.operands(), Vec::<i32>::new());
    assert_eq!(vm.frame(0), Some(vec![]));
    assert_eq!(vm.frame(1), None);
    let (_, end) = vm.run(&vec![], 5);
    assert!(matches!(end, Ok(Stop::Exhausted)));
    assert_eq!((vm.pc(), vm.depth(), vm.calls()), (6, 3, 1));
    assert_eq!(vm.operands(), Vec::<i32>::new());
    assert_eq!(vm.frame(0), Some(vec![0, 1]));
    assert_eq!(vm.frame(1), Some(vec![2]));
    assert_eq!(vm.frame(2), Some(vec![]));
    assert_eq!(vm.frame(3), None);
}
