use cilly::bytecode_translation::environment::Environment;
use cilly::bytecode_translation::translate::{translate_from, translate_to, translate_unit};
use cilly::parser::parse_program;
use cilly::text::{translate_from_text, translate_to_text};
use cilly::vm::{Action, OpCode, Stop, VM};

const PROGRAMS: [&str; 8] = [
    "var a: i32 = 1 + 2; fn main(){ print(a); }",
    "fn add(a:i32,b:i32)->i32{return a+b;} fn main(){print(add(100,100));}",
    "fn fact(n:i32)->i32{ if(n==0) return 1; return n*fact(n-1); } fn main(){ print(fact(5)); }",
    "fn fib(n:i32)->i32{ if(n<2){return 1;} else {return fib(n-1)+fib(n-2);} } fn main(){ print(fib(6)); }",
    "fn main(){ var i:i32=0; var s:i32=0; while(i<10){ s=s+i; i=i+1; } print(s); }",
    "fn main(){ var n:i32 = getint(); print(n*2); }",
    "fn main() { if (1) { } }",
    "fn f() { } fn main() { while (0) { if (1) f(); else f(); } }",
];

fn compile(source: &str) -> Vec<OpCode> {
    let unit = parse_program(source).expect("the source parses");
    let mut env = Environment::new();
    translate_unit(&unit, &mut env, 0).expect("the program compiles")
}

fn target(op: &OpCode) -> Option<usize> {
    match op {
        OpCode::Jmp(t) | OpCode::JmpTrue(t) | OpCode::JmpFalse(t) | OpCode::Call(t, _) => Some(*t),
        _ => None,
    }
}

#[test]
fn round_trip_of_compiled_programs() {
    for source in PROGRAMS {
        let code = compile(source);
        let words = translate_to(code.clone());
        assert_eq!(translate_from(words.clone()).expect("decodes"), code);
        let text = translate_to_text(&words);
        assert_eq!(translate_from_text(&text).expect("reads"), words);
    }
}

#[test]
fn every_target_lies_within_the_program() {
    for source in PROGRAMS {
        let code = compile(source);
        for op in &code {
            if let Some(t) = target(op) {
                assert!(t <= code.len(), "{:?} in {}", op, source);
            }
        }
    }
}

#[test]
fn a_target_can_be_the_end_of_the_program() {
    let code = compile("fn main() { if (1) { } }");
    assert_eq!(code[2], OpCode::JmpFalse(code.len()));
    let code = compile("fn main() { }");
    assert_eq!(code, vec![OpCode::Call(1, 0)]);
}

#[test]
fn compiled_programs_never_jump_out_of_range() {
    for source in PROGRAMS {
        let mut vm = VM::new(compile(source));
        let (_, end) = vm.run(&vec![7], 100_000);
        assert!(matches!(end, Ok(Stop::Halted)), "{:?} in {}", end, source);
    }
}

/// Steps through the program and checks, at every step, that the number
/// of frames changes by what the instruction pushes and pops.
fn frames_are_accounted_for(code: Vec<OpCode>, input: Vec<i32>) -> (usize, usize, usize) {
    let mut vm = VM::new(code.clone());
    let mut input = input.into_iter();
    let (mut entered, mut left) = (0usize, 0usize);
    assert_eq!(vm.depth(), 1);
    for _ in 0..100_000 {
        let before = vm.depth();
        let op = code.get(vm.pc()).copied();
        match vm.step().expect("no fault") {
            Action::Halt => return (vm.depth(), entered, left),
            Action::Input => {
                assert!(vm.receive(input.next()).expect("an integer"));
                assert_eq!(vm.depth(), before);
            }
            _ => {
                let pushed = match op {
                    Some(OpCode::EnterScope(_)) | Some(OpCode::Call(_, _)) => 1,
                    _ => 0,
                };
                let popped = before + pushed - vm.depth();
                match op {
                    Some(OpCode::LeaveScope) => assert!(popped <= 1),
                    Some(OpCode::Ret) | Some(OpCode::LoadPC) => {}
                    _ => assert_eq!(popped, 0),
                }
                entered += pushed;
                left += popped;
                assert!(vm.depth() >= 1);
                assert_eq!(vm.depth(), 1 + entered - left);
            }
        }
    }
    panic!("the program does not halt");
}

#[test]
fn frames_are_pushed_and_popped_in_step() {
    for source in PROGRAMS {
        let (depth, entered, left) = frames_are_accounted_for(compile(source), vec![7]);
        assert_eq!(depth, 1 + entered - left);
        assert_eq!(depth == 1, entered == left);
    }
}

#[test]
fn a_function_that_returns_gives_back_its_frame() {
    let source = "fn twice(n: i32) -> i32 { if (n > 0) { return n + n; } return 0; } \
                  fn main() { print(twice(4)); }";
    let (depth, entered, left) = frames_are_accounted_for(compile(source), vec![]);
    assert_eq!((depth, entered, left), (2, 3, 2));
}

#[test]
fn ret_drops_a_frame_for_every_block_entered_during_the_call() {
    let source = "fn count() -> i32 { var i: i32 = 0; while (i < 3) { i = i + 1; } return i; } \
                  fn main() { print(count()); }";
    let (depth, entered, left) = frames_are_accounted_for(compile(source), vec![]);
    assert_eq!((depth, entered, left), (1, 5, 5));
}

#[test]
fn a_return_from_main_goes_on_behind_the_start_call() {
    let code = compile("fn main() { print(1); return; }");
    assert_eq!(
        code,
        vec![
            OpCode::Call(1, 0),
            OpCode::LoadConst(1),
            OpCode::PrintItem,
            OpCode::PrintNewline,
            OpCode::Ret,
        ]
    );
    let mut vm = VM::new(code);
    let (out, end) = vm.run(&vec![], 100);
    assert_eq!(out.len(), 4);
    assert!(matches!(
        end,
        Err(cilly::error::Error::VMError(cilly::error::Fault::ReturnWithoutCall, 4))
    ));
    assert_eq!(vm.depth(), 1);
}

#[test]
fn a_main_that_runs_to_its_end_keeps_its_frame() {
    let (depth, entered, left) = frames_are_accounted_for(compile("fn main() { print(1); }"), vec![]);
    assert_eq!((depth, entered, left), (2, 1, 0));
}

#[test]
fn the_globals_frame_is_never_popped() {
    let code = vec![
        OpCode::LoadConst(5),
        OpCode::StoreGlobal(0),
        OpCode::Call(4, 0),
        OpCode::Jmp(9),
        OpCode::EnterScope(0),
        OpCode::LeaveScope,
        OpCode::LeaveScope,
        OpCode::EnterScope(0),
        OpCode::Ret,
    ];
    let (depth, entered, left) = frames_are_accounted_for(code.clone(), vec![]);
    assert_eq!((depth, entered, left), (1, 3, 3));
    let mut vm = VM::new(code);
    let _ = vm.run(&vec![], 100);
    assert_eq!(vm.frame(0), Some(vec![5]));
}

#[test]
fn straight_line_statements_leave_the_operand_stack_as_it_was() {
    let sources = [
        "fn main() { var a: i32 = 1; val b: i32 = a + 2 * 3; a = b - a; print(a, b); ; }",
        "var g: i32 = 4; fn main() { g = g * g; var n: i32 = getint(); print(n + g); }",
    ];
    for source in sources {
        let code = compile(source);
        let mut vm = VM::new(code.clone());
        let (_, end) = vm.run(&vec![9], code.len());
        assert!(matches!(end, Ok(Stop::Exhausted) | Ok(Stop::Halted)));
        assert_eq!(vm.pc(), code.len());
        assert_eq!(vm.operands(), Vec::<i32>::new());
    }
}

#[test]
fn an_expression_statement_leaves_one_operand() {
    let code = compile("fn main() { var a: i32 = 2; a + 1; a * a; print(a); -a; }");
    let mut vm = VM::new(code);
    let (_, end) = vm.run(&vec![], 1000);
    assert!(matches!(end, Ok(Stop::Halted)));
    assert_eq!(vm.operands(), vec![3, 4, -2]);
}

#[test]
fn straight_line_code_does_not_touch_what_lies_below() {
    let body = compile("var a: i32 = 1 + 2; var b: i32 = a * a;");
    let mut code = vec![OpCode::LoadConst(11), OpCode::LoadConst(22)];
    code.extend(body);
    let mut vm = VM::new(code);
    let (_, end) = vm.run(&vec![], 1000);
    assert!(matches!(end, Ok(Stop::Halted)));
    assert_eq!(vm.operands(), vec![11, 22]);
    assert_eq!(vm.frame(0), Some(vec![3, 9]));
}
