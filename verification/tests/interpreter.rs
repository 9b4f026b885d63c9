use cilly::ast::{BlockItem, GlobalDef, Stmt};
use cilly::bytecode_translation::environment::Environment as Scopes;
use cilly::bytecode_translation::translate::translate_unit;
use cilly::error::{Error, TranslateFault, Trouble};
use cilly::interpreter::environment::Environment;
use cilly::interpreter::eval::{interpret, Interpreter};
use cilly::interpreter::values::{Label, Type, Value};
use cilly::interpreter::{Evaluate, Execute};
use cilly::parser::parse_program;
use cilly::text::render;
use cilly::vm::{Output, Stop, VM};

fn run(source: &str, input: Vec<i32>) -> Result<Vec<Output>, Error> {
    let unit = parse_program(source).expect("the source parses");
    interpret(&unit, &input, 10_000)
}

fn stdout(source: &str, input: Vec<i32>) -> String {
    let out = run(source, input).expect("the program runs");
    String::from_utf8(render(&out)).expect("decimal text")
}

fn printed(source: &str) -> Vec<i32> {
    run(source, vec![])
        .expect("the program runs")
        .into_iter()
        .filter_map(|o| match o {
            Output::Item(v) => Some(v),
            Output::Newline => None,
        })
        .collect()
}

fn compiled(source: &str, input: Vec<i32>) -> String {
    let unit = parse_program(source).expect("the source parses");
    let mut env = Scopes::new();
    let code = translate_unit(&unit, &mut env, 0).expect("the program compiles");
    let mut vm = VM::new(code);
    let (out, end) = vm.run(&input, 1_000_000);
    assert!(matches!(end, Ok(Stop::Halted)));
    String::from_utf8(render(&out)).expect("decimal text")
}

fn both(source: &str, input: Vec<i32>) -> String {
    let walked = stdout(source, input.clone());
    assert_eq!(compiled(source, input), walked);
    walked
}

#[test]
fn both_paths_agree_on_a_global_initialiser() {
    assert_eq!(both("var a: i32 = 1 + 2; fn main(){ print(a); }", vec![]), "3\n");
}

#[test]
fn both_paths_agree_on_a_call() {
    let source = "fn add(a:i32,b:i32)->i32{return a+b;} fn main(){print(add(100,100));}";
    assert_eq!(both(source, vec![]), "200\n");
}

#[test]
fn both_paths_agree_on_factorial() {
    let source =
        "fn fact(n:i32)->i32{ if(n==0) return 1; return n*fact(n-1); } fn main(){ print(fact(5)); }";
    assert_eq!(both(source, vec![]), "120\n");
}

#[test]
fn both_paths_agree_on_fibonacci() {
    let source = "fn fib(n:i32)->i32{ if(n<2){return 1;} else {return fib(n-1)+fib(n-2);} } \
                  fn main(){ print(fib(6)); }";
    assert_eq!(both(source, vec![]), "13\n");
}

#[test]
fn both_paths_agree_on_a_loop() {
    let source = "fn main(){ var i:i32=0; var s:i32=0; while(i<10){ s=s+i; i=i+1; } print(s); }";
    assert_eq!(both(source, vec![]), "45\n");
}

#[test]
fn both_paths_agree_on_input() {
    let source = "fn main(){ var n:i32 = getint(); print(n*2); }";
    assert_eq!(both(source, vec![7]), "14\n");
}

#[test]
fn a_straight_line_program_halts_within_its_length_on_both_paths() {
    let source = "var a: i32 = 1 + 2; val b: i32 = a * -4; \
                  fn main() { var n: i32 = getint(); var m: i32 = getint(); \
                  a = n - m / b; print(a, b < n, -m); ; a = a + b; print(a); }";
    let unit = parse_program(source).expect("the source parses");
    let walked = interpret(&unit, &vec![7, 36], 1).expect("the program runs");
    let mut env = Scopes::new();
    let code = translate_unit(&unit, &mut env, 0).expect("the program compiles");
    let steps = code.len() + 1;
    let mut vm = VM::new(code);
    let (out, end) = vm.run(&vec![7, 36], steps);
    assert!(matches!(end, Ok(Stop::Halted)));
    assert_eq!(out, walked);
    assert_eq!(
        String::from_utf8(render(&out)).expect("decimal text"),
        "10\n1\n-36\n-2\n"
    );
}

#[test]
fn both_paths_agree_on_scopes_and_globals() {
    let source = "var g: i32 = 1; \
                  fn bump(by: i32) -> i32 { g = g + by; return g; } \
                  fn main() { var x: i32 = bump(2); { var x: i32 = bump(3); print(x); } print(x); print(g); }";
    assert_eq!(both(source, vec![]), "6\n3\n6\n");
}

#[test]
fn arithmetic_wraps_and_truncates() {
    assert_eq!(
        printed("fn main() { print(2147483647 + 1, 0 - 2147483647 - 2, 65536 * 65536, -7 / 2, 7 / -2, -7 % 2, 7 % -2, 7 % 2); }"),
        vec![i32::MIN, i32::MAX, 0, -3, -3, -1, 1, 1]
    );
    assert_eq!(
        printed("fn main() { var m: i32 = 0 - 2147483647 - 1; print(m / -1, m % -1, -m); }"),
        vec![i32::MIN, 0, i32::MIN]
    );
}

#[test]
fn comparisons_and_connectives_give_zero_or_one() {
    assert_eq!(
        printed("fn main() { print(1 < 2, 2 < 1, 2 <= 2, 3 >= 4, 5 == 5, 5 != 5, 0 || 0, 0 || 7, 7 && 0, 7 && 8); }"),
        vec![1, 0, 1, 0, 1, 0, 0, 1, 0, 1]
    );
}

#[test]
fn not_is_logical_in_the_interpreter() {
    assert_eq!(printed("fn main() { print(!0, !1, !7, !!7); }"), vec![1, 0, 0, 1]);
}

#[test]
fn any_nonzero_condition_is_true() {
    assert_eq!(
        printed("fn main() { if (7) print(1); else print(2); if (0) print(3); else print(4); }"),
        vec![1, 4]
    );
}

#[test]
fn both_operands_of_a_connective_are_evaluated() {
    let source = "fn noisy(v: i32) -> i32 { print(v); return v; } \
                  fn main() { print(noisy(1) || noisy(2)); print(noisy(0) && noisy(3)); }";
    assert_eq!(printed(source), vec![1, 2, 1, 0, 3, 0]);
}

#[test]
fn break_and_continue_steer_the_loop() {
    let source = "fn main() { var i: i32 = 0; \
                  while (1) { i = i + 1; if (i == 2) continue; if (i > 4) break; print(i); } \
                  print(100 + i); }";
    assert_eq!(printed(source), vec![1, 3, 4, 105]);
}

#[test]
fn return_leaves_loops_and_blocks() {
    let source = "fn first(n: i32) -> i32 { var i: i32 = 0; \
                  while (1) { { if (i * i > n) return i; } i = i + 1; } } \
                  fn main() { print(first(10)); print(first(0)); }";
    assert_eq!(printed(source), vec![4, 1]);
}

#[test]
fn a_function_can_be_called_before_its_definition() {
    assert_eq!(printed("fn main() { print(later()); } fn later() -> i32 { return 9; }"), vec![9]);
}

#[test]
fn the_callee_does_not_see_the_locals_of_the_caller() {
    let source = "fn f() { print(x); } fn main() { var x: i32 = 1; f(); }";
    assert!(matches!(run(source, vec![]), Err(Error::SymbolNotFound)));
}

#[test]
fn a_program_without_main_runs_its_globals() {
    assert_eq!(printed("var a: i32 = getint_or(); fn getint_or() -> i32 { print(5); return 6; }"), vec![5]);
    assert_eq!(printed(""), Vec::<i32>::new());
}

#[test]
fn print_skips_what_has_no_value() {
    assert_eq!(stdout("fn nothing() { } fn main() { print(1, nothing(), 2); }", vec![]), "1\n2\n");
}

#[test]
fn names_must_be_known() {
    assert!(matches!(run("fn main() { print(x); }", vec![]), Err(Error::SymbolNotFound)));
    assert!(matches!(run("fn main() { x = 1; }", vec![]), Err(Error::SymbolNotFound)));
    assert!(matches!(run("fn main() { f(); }", vec![]), Err(Error::SymbolNotFound)));
    assert!(matches!(
        run("fn main() { { var y: i32 = 1; } print(y); }", vec![]),
        Err(Error::SymbolNotFound)
    ));
}

#[test]
fn a_constant_cannot_be_changed() {
    assert!(matches!(
        run("fn main() { val c: i32 = 1; c = 2; }", vec![]),
        Err(Error::InterpreterError(Trouble::Constant))
    ));
    assert!(matches!(
        run("fn main() { val c: i32 = 1; var c: i32 = 2; }", vec![]),
        Err(Error::DuplicatedDef)
    ));
    assert_eq!(printed("fn main() { var v: i32 = 1; var v: i32 = 2; print(v); }"), vec![2]);
    assert_eq!(printed("fn main() { val c: i32 = 1; { var c: i32 = 2; c = 3; print(c); } print(c); }"), vec![3, 1]);
}

#[test]
fn the_number_of_arguments_must_fit() {
    let source = "fn f(a: i32) -> i32 { return a; } fn main() { print(f(1, 2)); }";
    assert!(matches!(run(source, vec![]), Err(Error::CallError(name)) if name == "f"));
    let source = "fn f(a: i32) -> i32 { return a; } fn main() { print(f()); }";
    assert!(matches!(run(source, vec![]), Err(Error::CallError(name)) if name == "f"));
}

#[test]
fn a_value_that_is_not_there_is_missed() {
    let source = "fn nothing() { } fn main() { var a: i32 = nothing(); }";
    assert!(matches!(run(source, vec![]), Err(Error::MissingExpression)));
    let source = "fn nothing() { } fn main() { print(1 + nothing()); }";
    assert!(matches!(run(source, vec![]), Err(Error::MissingExpression)));
    let source = "fn nothing() { } fn main() { if (nothing()) print(1); }";
    assert!(matches!(run(source, vec![]), Err(Error::MissingExpression)));
    let source = "fn nothing() { } fn main() { print(-nothing()); }";
    assert!(matches!(run(source, vec![]), Err(Error::MissingExpression)));
}

#[test]
fn division_by_zero_stops_the_interpreter() {
    assert!(matches!(
        run("fn main() { print(1 / 0); }", vec![]),
        Err(Error::InterpreterError(Trouble::DivisionByZero))
    ));
    assert!(matches!(
        run("fn main() { print(1 % 0); }", vec![]),
        Err(Error::InterpreterError(Trouble::DivisionByZero))
    ));
}

#[test]
fn input_can_run_out() {
    let source = "fn main() { print(getint()); print(getint()); }";
    assert!(matches!(
        run(source, vec![1]),
        Err(Error::InterpreterError(Trouble::OutOfInput))
    ));
    assert_eq!(stdout(source, vec![1, 2, 3]), "1\n2\n");
}

#[test]
fn nested_functions_are_not_run() {
    assert!(matches!(
        run("fn main() { fn inner() { } }", vec![]),
        Err(Error::InterpreterError(Trouble::NestedFunction))
    ));
}

#[test]
fn fuel_bounds_loops_and_calls() {
    let unit = parse_program("fn main() { var i: i32 = 0; while (i < 5) i = i + 1; print(i); }")
        .expect("parses");
    assert!(matches!(
        interpret(&unit, &vec![], 6),
        Err(Error::InterpreterError(Trouble::OutOfFuel))
    ));
    assert_eq!(
        interpret(&unit, &vec![], 7).expect("runs"),
        vec![Output::Item(5), Output::Newline]
    );
    let unit = parse_program("fn down(n: i32) { if (n > 0) down(n - 1); } fn main() { down(3); }")
        .expect("parses");
    assert!(matches!(
        interpret(&unit, &vec![], 4),
        Err(Error::InterpreterError(Trouble::OutOfFuel))
    ));
    assert!(interpret(&unit, &vec![], 5).is_ok());
    let unit = parse_program("fn main() { while (1) { } }").expect("parses");
    assert!(matches!(
        interpret(&unit, &vec![], 1000),
        Err(Error::InterpreterError(Trouble::OutOfFuel))
    ));
    let unit = parse_program("fn main() { }").expect("parses");
    assert!(matches!(
        interpret(&unit, &vec![], 0),
        Err(Error::InterpreterError(Trouble::OutOfFuel))
    ));
}

#[test]
fn the_interpreter_keeps_what_was_written() {
    let unit = parse_program("fn main() { print(1); print(2); }").expect("parses");
    let input = vec![];
    let mut it = Interpreter::new(&unit, &input);
    assert!(it.run(100).is_ok());
    assert_eq!(
        it.output(),
        vec![Output::Item(1), Output::Newline, Output::Item(2), Output::Newline]
    );
}

#[test]
fn values_are_constants_or_variables() {
    assert_eq!(Value::new(true, Type::I32(3)), Value::Const(Type::I32(3)));
    assert_eq!(Value::new(false, Type::I32(3)), Value::Var(Type::I32(3)));
    assert_eq!(Value::Const(Type::I32(-4)).get(), -4);
    assert_eq!(Value::Var(Type::I32(5)).get(), 5);
    assert_eq!(Type::from(Some(7)), Type::I32(7));
    assert_eq!(Type::from(None), Type::I32(0));
    assert_eq!(Label::from(Some(Type::I32(1))), Label::Type(Some(Type::I32(1))));
    assert_eq!(Label::from(None), Label::Type(None));
}

#[test]
fn the_environment_binds_names_in_scopes() {
    let name = |s: &str| s.to_string();
    let var = |v: i32| Value::Var(Type::I32(v));
    let mut env = Environment::new();
    assert!(matches!(env.value(&name("a")), Err(Error::SymbolNotFound)));
    assert!(env.new_value(&name("a"), var(1)).is_ok());
    assert!(env.new_value(&name("k"), Value::Const(Type::I32(9))).is_ok());
    env.enter();
    assert!(env.new_value(&name("b"), var(2)).is_ok());
    assert!(matches!(env.value(&name("a")), Ok(v) if v == var(1)));
    assert!(env.update_value(&name("a"), var(3)).is_ok());
    assert!(matches!(
        env.update_value(&name("k"), var(0)),
        Err(Error::InterpreterError(Trouble::Constant))
    ));
    assert!(matches!(env.update_value(&name("z"), var(0)), Err(Error::SymbolNotFound)));
    assert!(env.new_value(&name("a"), var(4)).is_ok());
    assert!(matches!(env.value(&name("a")), Ok(v) if v == var(4)));
    env.exit();
    assert!(matches!(env.value(&name("a")), Ok(v) if v == var(3)));
    assert!(matches!(env.value(&name("b")), Err(Error::SymbolNotFound)));
    assert!(matches!(env.new_value(&name("k"), var(0)), Err(Error::DuplicatedDef)));
    env.exit();
    assert!(matches!(env.value(&name("a")), Ok(v) if v == var(3)));
}

#[test]
fn a_call_sets_the_locals_of_the_caller_aside() {
    let name = |s: &str| s.to_string();
    let var = |v: i32| Value::Var(Type::I32(v));
    let mut env = Environment::new();
    assert!(env.new_value(&name("g"), var(1)).is_ok());
    env.enter();
    assert!(env.new_value(&name("x"), var(2)).is_ok());
    let saved = env.push_func();
    assert!(matches!(env.value(&name("x")), Err(Error::SymbolNotFound)));
    assert!(matches!(env.value(&name("g")), Ok(v) if v == var(1)));
    assert!(env.new_value(&name("p"), var(3)).is_ok());
    assert!(env.update_value(&name("g"), var(4)).is_ok());
    env.pop_func(saved);
    assert!(matches!(env.value(&name("p")), Err(Error::SymbolNotFound)));
    assert!(matches!(env.value(&name("x")), Ok(v) if v == var(2)));
    assert!(matches!(env.value(&name("g")), Ok(v) if v == var(4)));
}

#[test]
fn nodes_are_evaluated_and_run_through_the_traits() {
    let unit = parse_program("fn f() { var a: i32 = 2; a = a * 21; return a; }").expect("parses");
    let items = match &unit.globaldefs[0] {
        GlobalDef::FuncDef(f) => &f.block.items,
        other => panic!("expected a function, got {:?}", other),
    };
    let input = vec![];
    let mut it = Interpreter::new(&unit, &input);
    assert!(matches!(items[0].run(&mut it, 10), Ok(None)));
    assert!(matches!(items[1].run(&mut it, 10), Ok(None)));
    match &items[2] {
        BlockItem::Stmt(Stmt::Ret(Some(exp))) => {
            assert!(matches!(exp.eval(&mut it, 10), Ok(Some(42))));
            assert!(matches!(exp.lor_exp.eval(&mut it, 10), Ok(Some(42))));
        }
        other => panic!("expected a return, got {:?}", other),
    }
    assert!(matches!(
        items[2].run(&mut it, 10),
        Ok(Some(Label::Type(Some(Type::I32(42)))))
    ));
}

#[test]
fn a_function_is_called_with_values() {
    let unit = parse_program(
        "var g: i32 = 5; fn twice(x: i32) -> i32 { g = g + x; return x * 2; } fn show() { print(g); }",
    )
    .expect("parses");
    let twice = match &unit.globaldefs[1] {
        GlobalDef::FuncDef(f) => f,
        other => panic!("expected a function, got {:?}", other),
    };
    let input = vec![];
    let mut it = Interpreter::new(&unit, &input);
    match &unit.globaldefs[0] {
        GlobalDef::Decl(decl) => assert!(matches!(decl.run(&mut it, 10), Ok(None))),
        other => panic!("expected a declaration, got {:?}", other),
    }
    assert!(matches!(twice.call(vec![21], &mut it, 10), Ok(Some(42))));
    assert!(matches!(twice.call(vec![4], &mut it, 10), Ok(Some(8))));
    assert!(matches!(twice.call(vec![], &mut it, 10), Err(Error::CallError(name)) if name == "twice"));
    assert!(matches!(twice.call(vec![1, 2], &mut it, 10), Err(Error::CallError(_))));
    assert!(matches!(
        twice.call(vec![1], &mut it, 0),
        Err(Error::InterpreterError(Trouble::OutOfFuel))
    ));
    match &unit.globaldefs[2] {
        GlobalDef::FuncDef(show) => assert!(matches!(show.call(vec![], &mut it, 10), Ok(None))),
        other => panic!("expected a function, got {:?}", other),
    }
    assert_eq!(it.output(), vec![Output::Item(30), Output::Newline]);
}

fn sample() -> &'static str {
    "var a: i32 = 10;
    fn fact(n: i32) -> i32 {
        if(n == 0) return 1;
        return n * fact(n - 1);
    }

    fn feb(n: i32) -> i32 {
        if(n < 2) {
            return 1;
        } else {
            return feb(n - 1) + feb(n - 2);
        }
    }

    fn while_test(n: i32) -> i32 {
        var i: i32 = 0;
        var res: i32 = 0;
        while(i < 10) {
            res = res + i;
            i = i + 1;
        }
        return res;
    }

    fn add(a: i32, b: i32) -> i32 {
        return a + b;
    }

    fn main () {
        print(a);
        print(add(100, 100));

        val x: i32 = getint();
        print(while_test(x));

        val n: i32 = getint();
        val res: i32 = fact(n);
        print(res);

        val m: i32 = getint();
        print(feb(m));
    }
    "
}

#[test]
fn a_program_with_globals_calls_a_loop_and_input() {
    assert_eq!(stdout(sample(), vec![3, 5, 6]), "10\n200\n45\n120\n13\n");
    assert_eq!(compiled(sample(), vec![3, 5, 6]), "10\n200\n45\n120\n13\n");
}

#[test]
fn a_call_of_a_function_that_is_not_defined() {
    let source = "var a: i32 = 10;
        fn fact(n: i32) -> i32 { if(n == 0) return 1; return n * fact(n - 1); }
        fn main () {
            print(a);
            var n: i32 = getint();
            var res: i32 = fact(n);
            print(res);
            print(while_test(n));
        }";
    let unit = parse_program(source).expect("the source parses");
    let mut env = Scopes::new();
    assert!(matches!(
        translate_unit(&unit, &mut env, 0),
        Err(Error::TranslateError(TranslateFault::UnknownFunction))
    ));
    let input = vec![4];
    let mut it = Interpreter::new(&unit, &input);
    assert!(matches!(it.run(100), Err(Error::SymbolNotFound)));
    assert_eq!(
        it.output(),
        vec![Output::Item(10), Output::Newline, Output::Item(24), Output::Newline]
    );
}
