use cilly::ast::{BlockItem, GlobalDef, Stmt};
use cilly::bytecode_translation::environment::Environment;
use cilly::bytecode_translation::translate::{
    get_ext, translate_block, translate_exp, translate_stmt, translate_unit,
};
use cilly::bytecode_translation::scheme::Context;
use cilly::bytecode_translation::TransByteCode;
use cilly::error::{Error, Fault, TranslateFault};
use cilly::parser::parse_program;
use cilly::vm::{OpCode, Output, Stop, VM};

fn compile(source: &str) -> Result<Vec<OpCode>, Error> {
    let unit = parse_program(source).expect("the source parses");
    let mut env = Environment::new();
    translate_unit(&unit, &mut env, 0)
}

fn code(source: &str) -> Vec<OpCode> {
    compile(source).expect("the program compiles")
}

fn fault(source: &str) -> TranslateFault {
    match compile(source) {
        Err(Error::TranslateError(f)) => f,
        other => panic!("expected a rejection, got {:?}", other),
    }
}

fn run(source: &str, input: Vec<i32>) -> (Vec<Output>, Result<Stop, Error>) {
    let mut vm = VM::new(code(source));
    vm.run(&input, 1_000_000)
}

fn printed(source: &str) -> Vec<i32> {
    let (out, end) = run(source, vec![]);
    assert!(matches!(end, Ok(Stop::Halted)), "{:?}", end);
    out.into_iter()
        .filter_map(|o| match o {
            Output::Item(v) => Some(v),
            Output::Newline => None,
        })
        .collect()
}

fn first_statement(source: &str) -> Stmt {
    let unit = parse_program(source).expect("the source parses");
    match unit.globaldefs.into_iter().next() {
        Some(GlobalDef::FuncDef(f)) => match f.block.items.into_iter().next() {
            Some(BlockItem::Stmt(s)) => s,
            other => panic!("expected a statement, got {:?}", other),
        },
        other => panic!("expected a function, got {:?}", other),
    }
}

#[test]
fn an_empty_program_has_no_code() {
    assert_eq!(code(""), vec![]);
}

#[test]
fn globals_alone_get_no_start_call() {
    assert_eq!(
        code("var a: i32 = 1; val b: i32 = a;"),
        vec![
            OpCode::LoadConst(1),
            OpCode::StoreGlobal(0),
            OpCode::LoadGlobal(0),
            OpCode::StoreGlobal(1),
        ]
    );
}

#[test]
fn globals_come_first_whatever_the_source_order() {
    assert_eq!(
        code("fn main() { print(a); } var a: i32 = 7;"),
        vec![
            OpCode::LoadConst(7),
            OpCode::StoreGlobal(0),
            OpCode::Call(3, 0),
            OpCode::LoadGlobal(0),
            OpCode::PrintItem,
            OpCode::PrintNewline,
        ]
    );
    assert_eq!(printed("fn main() { print(a); } var a: i32 = 7;"), vec![7]);
}

#[test]
fn a_program_without_main_calls_no_address() {
    assert_eq!(code("fn f() { }"), vec![OpCode::Call(usize::MAX, 0)]);
    let (_, end) = run("fn f() { }", vec![]);
    assert!(matches!(end, Err(Error::VMError(Fault::JumpOutOfRange, 0))));
}

#[test]
fn the_start_call_finds_main_among_the_functions() {
    assert_eq!(
        code("fn one() -> i32 { return 1; } fn main() { print(one()); } fn two() -> i32 { return 2; }"),
        vec![
            OpCode::Call(3, 0),
            OpCode::LoadConst(1),
            OpCode::Ret,
            OpCode::Call(1, 0),
            OpCode::PrintItem,
            OpCode::PrintNewline,
            OpCode::LoadConst(2),
            OpCode::Ret,
        ]
    );
}

#[test]
fn parameters_and_locals_share_the_frame_of_the_function() {
    assert_eq!(
        code("fn f(a: i32, b: i32) { var c: i32 = a; var d: i32 = b; c = d; } fn main() { }"),
        vec![
            OpCode::Call(7, 0),
            OpCode::LoadVar(0, 0),
            OpCode::StoreVar(0, 2),
            OpCode::LoadVar(0, 1),
            OpCode::StoreVar(0, 3),
            OpCode::LoadVar(0, 3),
            OpCode::StoreVar(0, 2),
        ]
    );
}

#[test]
fn a_nested_block_gets_a_scope_of_its_own() {
    assert_eq!(
        code("var g: i32 = 0; fn main() { var a: i32 = 1; { var b: i32 = a; g = b; { a = g; } } }"),
        vec![
            OpCode::LoadConst(0),
            OpCode::StoreGlobal(0),
            OpCode::Call(3, 0),
            OpCode::LoadConst(1),
            OpCode::StoreVar(0, 0),
            OpCode::EnterScope(0),
            OpCode::LoadVar(1, 0),
            OpCode::StoreVar(0, 0),
            OpCode::LoadVar(0, 0),
            OpCode::StoreGlobal(0),
            OpCode::EnterScope(0),
            OpCode::LoadGlobal(0),
            OpCode::StoreVar(2, 0),
            OpCode::LeaveScope,
            OpCode::LeaveScope,
        ]
    );
}

#[test]
fn an_inner_name_shadows_an_outer_one() {
    assert_eq!(
        printed("var x: i32 = 1; fn main() { print(x); var x: i32 = 2; print(x); { var x: i32 = 3; print(x); } print(x); }"),
        vec![1, 2, 3, 2]
    );
}

#[test]
fn if_without_else_jumps_past_the_branch() {
    assert_eq!(
        code("fn main() { if (1) print(2); print(3); }"),
        vec![
            OpCode::Call(1, 0),
            OpCode::LoadConst(1),
            OpCode::JmpFalse(6),
            OpCode::LoadConst(2),
            OpCode::PrintItem,
            OpCode::PrintNewline,
            OpCode::LoadConst(3),
            OpCode::PrintItem,
            OpCode::PrintNewline,
        ]
    );
    assert_eq!(printed("fn main() { if (1) print(2); print(3); }"), vec![2, 3]);
    assert_eq!(printed("fn main() { if (0) print(2); print(3); }"), vec![3]);
}

#[test]
fn if_with_else_runs_one_branch() {
    assert_eq!(
        code("fn main() { if (1) print(2); else print(3); print(4); }"),
        vec![
            OpCode::Call(1, 0),
            OpCode::LoadConst(1),
            OpCode::JmpFalse(7),
            OpCode::LoadConst(2),
            OpCode::PrintItem,
            OpCode::PrintNewline,
            OpCode::Jmp(10),
            OpCode::LoadConst(3),
            OpCode::PrintItem,
            OpCode::PrintNewline,
            OpCode::LoadConst(4),
            OpCode::PrintItem,
            OpCode::PrintNewline,
        ]
    );
    assert_eq!(printed("fn main() { if (1) print(2); else print(3); print(4); }"), vec![2, 4]);
    assert_eq!(printed("fn main() { if (0) print(2); else print(3); print(4); }"), vec![3, 4]);
}

#[test]
fn nested_control_flow_gets_its_own_addresses() {
    let source = "fn main() { var i: i32 = 0; while (i < 3) { if (i == 1) print(10); else print(20); i = i + 1; } print(i); }";
    assert_eq!(printed(source), vec![20, 10, 20, 3]);
}

#[test]
fn a_loop_at_the_end_jumps_to_the_end_of_the_program() {
    let program = code("fn main() { while (0) { } }");
    assert_eq!(
        program,
        vec![
            OpCode::Call(1, 0),
            OpCode::LoadConst(0),
            OpCode::JmpFalse(6),
            OpCode::EnterScope(0),
            OpCode::LeaveScope,
            OpCode::Jmp(1),
        ]
    );
    assert_eq!(printed("fn main() { while (0) { } }"), Vec::<i32>::new());
}

#[test]
fn arguments_are_emitted_in_reverse() {
    assert_eq!(
        code("fn f(a: i32, b: i32, c: i32) { } fn main() { f(1, 2, 3); }"),
        vec![
            OpCode::Call(1, 0),
            OpCode::LoadConst(3),
            OpCode::LoadConst(2),
            OpCode::LoadConst(1),
            OpCode::Call(1, 3),
        ]
    );
    assert_eq!(
        printed("fn sub(a: i32, b: i32) -> i32 { return a - b; } fn main() { print(sub(10, 3)); }"),
        vec![7]
    );
}

#[test]
fn print_writes_each_argument_on_its_own_line() {
    let (out, _) = run("fn main() { print(1, 2); print(); }", vec![]);
    assert_eq!(
        out,
        vec![Output::Item(1), Output::Newline, Output::Item(2), Output::Newline]
    );
}

#[test]
fn operators_compile_to_their_instructions() {
    let source = "fn main() { print(7 + 2, 7 - 2, 7 * 2, 7 / 2, 7 < 2, 7 > 2, 7 <= 7, 7 >= 8, 7 == 7, 7 != 7, 0 || 5, 3 && 0, -7, !0); }";
    assert_eq!(printed(source), vec![9, 5, 14, 3, 0, 1, 1, 0, 1, 0, 1, 0, -7, -1]);
}

#[test]
fn an_expression_statement_leaves_its_value() {
    let mut vm = VM::new(code("fn main() { 1 + 2; 5; }"));
    let (_, end) = vm.run(&vec![], 100);
    assert!(matches!(end, Ok(Stop::Halted)));
    assert_eq!(vm.operands(), vec![3, 5]);
}

#[test]
fn unknown_names_are_rejected() {
    assert_eq!(fault("fn main() { print(x); }"), TranslateFault::UnknownVariable);
    assert_eq!(fault("fn main() { x = 1; }"), TranslateFault::UnknownVariable);
    assert_eq!(fault("fn main() { { var x: i32 = 1; } print(x); }"), TranslateFault::UnknownVariable);
    assert_eq!(fault("fn main() { f(); }"), TranslateFault::UnknownFunction);
    assert_eq!(fault("fn main() { later(); } fn later() { }"), TranslateFault::UnknownFunction);
    assert_eq!(fault("var a: i32 = f(); fn f() -> i32 { return 1; }"), TranslateFault::UnknownFunction);
    assert_eq!(fault("var a: i32 = b; var b: i32 = 1;"), TranslateFault::UnknownVariable);
}

#[test]
fn locals_of_the_caller_are_not_seen_by_the_callee() {
    assert_eq!(
        fault("fn f() { print(x); } fn main() { var x: i32 = 1; f(); }"),
        TranslateFault::UnknownVariable
    );
}

#[test]
fn duplicate_definitions_are_rejected() {
    assert!(matches!(compile("var a: i32 = 1; var a: i32 = 2;"), Err(Error::DuplicatedDef)));
    assert!(matches!(compile("fn main() { var a: i32 = 1; val a: i32 = 2; }"), Err(Error::DuplicatedDef)));
    assert!(matches!(compile("fn f(a: i32) { var a: i32 = 1; }"), Err(Error::DuplicatedDef)));
    assert!(matches!(compile("fn f(a: i32, a: i32) { }"), Err(Error::DuplicatedDef)));
    assert!(matches!(compile("fn f() { } fn f() { }"), Err(Error::DuplicatedDef)));
    assert!(compile("fn main() { var a: i32 = 1; { var a: i32 = 2; } }").is_ok());
}

#[test]
fn what_the_bytecode_cannot_express_is_rejected() {
    assert_eq!(fault("fn main() { print(7 % 2); }"), TranslateFault::OperatorMismatch);
    assert_eq!(fault("fn main() { fn inner() { } }"), TranslateFault::NestedFunction);
    assert_eq!(fault("fn main() { while (1) { break; } }"), TranslateFault::UnsupportedJump);
    assert_eq!(fault("fn main() { while (1) { continue; } }"), TranslateFault::UnsupportedJump);
}

#[test]
fn a_rejected_program_leaves_no_scope_open() {
    let unit = parse_program("fn main() { { { print(x); } } }").expect("parses");
    let mut env = Environment::new();
    assert!(translate_unit(&unit, &mut env, 0).is_err());
    assert_eq!(env.get_dep(), 0);
    assert!(env.pc_stack_empty());
    let unit = parse_program("fn main() { while (1) { while (2) { x = 1; } } }").expect("parses");
    let mut env = Environment::new();
    assert!(translate_unit(&unit, &mut env, 0).is_err());
    assert_eq!(env.get_dep(), 0);
    assert!(env.pc_stack_empty());
}

#[test]
fn code_can_start_at_any_address() {
    let unit = parse_program("fn main() { if (1) print(2); }").expect("parses");
    let mut env = Environment::new();
    assert_eq!(
        translate_unit(&unit, &mut env, 100).expect("compiles"),
        vec![
            OpCode::Call(101, 0),
            OpCode::LoadConst(1),
            OpCode::JmpFalse(106),
            OpCode::LoadConst(2),
            OpCode::PrintItem,
            OpCode::PrintNewline,
        ]
    );
}

#[test]
fn addresses_that_do_not_fit_are_rejected() {
    let unit = parse_program("fn main() { if (1) print(2); }").expect("parses");
    let mut env = Environment::new();
    assert!(matches!(
        translate_unit(&unit, &mut env, usize::MAX - 3),
        Err(Error::TranslateError(TranslateFault::TooLarge))
    ));
    assert_eq!(env.get_dep(), 0);
}

#[test]
fn the_body_of_a_function_opens_no_scope_but_other_blocks_do() {
    let block = match first_statement("fn f() { { print(1); } }") {
        Stmt::Block(b) => b,
        other => panic!("expected a block, got {:?}", other),
    };
    let mut env = Environment::new();
    let top = Context { dep: 0, in_global: 0, addr: 0 };
    assert_eq!(
        translate_block(&block, &mut env, top).expect("compiles"),
        vec![OpCode::LoadConst(1), OpCode::PrintItem, OpCode::PrintNewline]
    );
    let inner = Context { dep: 1, in_global: 0, addr: 0 };
    assert_eq!(
        translate_block(&block, &mut env, inner).expect("compiles"),
        vec![
            OpCode::EnterScope(0),
            OpCode::LoadConst(1),
            OpCode::PrintItem,
            OpCode::PrintNewline,
            OpCode::LeaveScope,
        ]
    );
}

#[test]
fn nodes_compile_through_the_trait() {
    let unit = parse_program("fn main() { print(1); }").expect("parses");
    let mut env = Environment::new();
    assert_eq!(
        unit.translate_byte(&mut env, 0).expect("compiles"),
        vec![OpCode::Call(1, 0), OpCode::LoadConst(1), OpCode::PrintItem, OpCode::PrintNewline]
    );
    let stmt = first_statement("fn f() { while (1) { } }");
    let mut env = Environment::new();
    assert_eq!(
        stmt.translate_byte(&mut env, get_ext(1, 0, 10)).expect("compiles"),
        vec![
            OpCode::LoadConst(1),
            OpCode::JmpFalse(15),
            OpCode::EnterScope(0),
            OpCode::LeaveScope,
            OpCode::Jmp(10),
        ]
    );
    let mut env = Environment::new();
    assert_eq!(
        translate_stmt(&stmt, &mut env, Context { dep: 1, in_global: 0, addr: 10 })
            .expect("compiles"),
        stmt.translate_byte(&mut env, get_ext(1, 0, 10)).expect("compiles")
    );
}

#[test]
fn expressions_do_not_depend_on_their_address() {
    let stmt = first_statement("fn f() { 1 + 2 * 3; }");
    let exp = match stmt {
        Stmt::Exp(Some(e)) => e,
        other => panic!("expected an expression, got {:?}", other),
    };
    let env = Environment::new();
    assert_eq!(
        translate_exp(&exp, &env).expect("compiles"),
        vec![
            OpCode::LoadConst(1),
            OpCode::LoadConst(2),
            OpCode::LoadConst(3),
            OpCode::BinOpMul,
            OpCode::BinOpAdd,
        ]
    );
}
