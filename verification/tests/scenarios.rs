use cilly::ast::{
    AddExp, BType, BinaryOp, Block, BlockItem, CompUnit, Decl, EqExp, Exp, FuncDef, FuncFParam,
    FuncFParams, FuncRParams, GlobalDef, InitVal, LAndExp, LOrExp, LVal, MulExp, PrimaryExp,
    RelExp, Stmt, UnaryExp, VarDecl,
};
use cilly::bytecode_translation::environment::Environment;
use cilly::bytecode_translation::translate::{translate_from, translate_to, translate_unit};
use cilly::parser::parse_program;
use cilly::text::{render, translate_from_text, translate_to_text};
use cilly::vm::{OpCode, Stop, VM};

fn mul(u: UnaryExp) -> MulExp {
    MulExp::Unary(u)
}

fn add(m: MulExp) -> AddExp {
    AddExp::Mul(m)
}

fn rel(a: AddExp) -> RelExp {
    RelExp::Add(a)
}

fn exp_of_rel(r: RelExp) -> Exp {
    Exp { lor_exp: LOrExp::And(LAndExp::Eq(EqExp::Rel(r))) }
}

fn exp_of_eq(e: EqExp) -> Exp {
    Exp { lor_exp: LOrExp::And(LAndExp::Eq(e)) }
}

fn exp_of_add(a: AddExp) -> Exp {
    exp_of_rel(rel(a))
}

fn exp(u: UnaryExp) -> Exp {
    exp_of_add(add(mul(u)))
}

fn num(n: i32) -> UnaryExp {
    UnaryExp::Pri(PrimaryExp::Number(n))
}

fn var(name: &str) -> UnaryExp {
    UnaryExp::Pri(PrimaryExp::LVal(LVal { ident: name.to_string() }))
}

fn call(name: &str, args: Vec<Exp>) -> UnaryExp {
    UnaryExp::FuncCall {
        ident: name.to_string(),
        funcrparams: if args.is_empty() { None } else { Some(FuncRParams { exps: args }) },
    }
}

fn plus(l: UnaryExp, r: UnaryExp) -> AddExp {
    AddExp::Add(Box::new(add(mul(l))), BinaryOp::Add, mul(r))
}

fn minus(l: UnaryExp, r: UnaryExp) -> AddExp {
    AddExp::Add(Box::new(add(mul(l))), BinaryOp::Sub, mul(r))
}

fn times(l: UnaryExp, r: UnaryExp) -> MulExp {
    MulExp::Mul(Box::new(mul(l)), BinaryOp::Mul, r)
}

fn print(e: Exp) -> BlockItem {
    BlockItem::Stmt(Stmt::Exp(Some(exp(call("print", vec![e])))))
}

fn declare(name: &str, init: Exp) -> Decl {
    Decl::VarDecl(VarDecl {
        ident: name.to_string(),
        btype: BType::I32,
        initval: InitVal { exp: init },
    })
}

fn assign(name: &str, e: Exp) -> BlockItem {
    BlockItem::Stmt(Stmt::Assign(LVal { ident: name.to_string() }, e))
}

fn ret(e: Exp) -> Stmt {
    Stmt::Ret(Some(e))
}

fn function(name: &str, params: Vec<&str>, items: Vec<BlockItem>) -> GlobalDef {
    GlobalDef::FuncDef(FuncDef {
        ident: name.to_string(),
        btype: if name == "main" { None } else { Some(BType::I32) },
        funcfparams: if params.is_empty() {
            None
        } else {
            Some(FuncFParams {
                params: params
                    .into_iter()
                    .map(|p| FuncFParam { ident: p.to_string(), btype: BType::I32 })
                    .collect(),
            })
        },
        block: Block { items },
    })
}

fn compile(defs: Vec<GlobalDef>) -> Vec<OpCode> {
    let unit = CompUnit { globaldefs: defs };
    let mut env = Environment::new();
    translate_unit(&unit, &mut env, 0).expect("the program compiles")
}

fn run(code: Vec<OpCode>, input: Vec<i32>) -> String {
    let mut vm = VM::new(code);
    let (out, end) = vm.run(&input, 1_000_000);
    assert!(matches!(end, Ok(Stop::Halted)), "the program halts: {:?}", end);
    String::from_utf8(render(&out)).expect("decimal text")
}

/// Runs the program as compiled, and again after a passage through its
/// words and through their text.
fn stdout(defs: Vec<GlobalDef>, input: Vec<i32>) -> String {
    let code = compile(defs);
    let words = translate_to(code.clone());
    let text = translate_to_text(&words);
    assert_eq!(translate_from_text(&text).expect("the text reads"), words);
    let back = translate_from(words).expect("the words decode");
    assert_eq!(back, code);
    let direct = run(code, input.clone());
    assert_eq!(run(back, input), direct);
    direct
}

/// The program that the source text holds.
fn parsed(source: &str) -> Vec<GlobalDef> {
    parse_program(source).expect("the source parses").globaldefs
}

/// Checks that the source text holds the program `defs`, and runs it.
fn stdout_of(source: &str, defs: Vec<GlobalDef>, input: Vec<i32>) -> String {
    let from_text = parsed(source);
    assert_eq!(format!("{:?}", from_text), format!("{:?}", defs));
    stdout(from_text, input)
}

// var a: i32 = 1 + 2; fn main(){ print(a); }
fn global_sum() -> Vec<GlobalDef> {
    vec![
        GlobalDef::Decl(declare("a", exp_of_add(plus(num(1), num(2))))),
        function("main", vec![], vec![print(exp(var("a")))]),
    ]
}

// fn add(a:i32,b:i32)->i32{return a+b;} fn main(){print(add(100,100));}
fn call_add() -> Vec<GlobalDef> {
    vec![
        function(
            "add",
            vec!["a", "b"],
            vec![BlockItem::Stmt(ret(exp_of_add(plus(var("a"), var("b")))))],
        ),
        function(
            "main",
            vec![],
            vec![print(exp(call("add", vec![exp(num(100)), exp(num(100))])))],
        ),
    ]
}

// fn fact(n:i32)->i32{ if(n==0) return 1; return n*fact(n-1); } fn main(){ print(fact(5)); }
fn factorial() -> Vec<GlobalDef> {
    let n_is_zero = exp_of_eq(EqExp::Eq(
        Box::new(EqExp::Rel(rel(add(mul(var("n")))))),
        BinaryOp::Eq,
        rel(add(mul(num(0)))),
    ));
    let recurse = call("fact", vec![exp_of_add(minus(var("n"), num(1)))]);
    vec![
        function(
            "fact",
            vec!["n"],
            vec![
                BlockItem::Stmt(Stmt::If {
                    condition: n_is_zero,
                    then_branch: Box::new(ret(exp(num(1)))),
                    else_branch: None,
                }),
                BlockItem::Stmt(ret(exp_of_add(add(times(var("n"), recurse))))),
            ],
        ),
        function("main", vec![], vec![print(exp(call("fact", vec![exp(num(5))])))]),
    ]
}

// fn fib(n:i32)->i32{ if(n<2){return 1;} else {return fib(n-1)+fib(n-2);} }
// fn main(){ print(fib(6)); }
fn fibonacci() -> Vec<GlobalDef> {
    let n_below_two = exp_of_rel(RelExp::Rel(
        Box::new(rel(add(mul(var("n"))))),
        BinaryOp::Lt,
        add(mul(num(2))),
    ));
    let fib = |k: i32| call("fib", vec![exp_of_add(minus(var("n"), num(k)))]);
    vec![
        function(
            "fib",
            vec!["n"],
            vec![BlockItem::Stmt(Stmt::If {
                condition: n_below_two,
                then_branch: Box::new(Stmt::Block(Block {
                    items: vec![BlockItem::Stmt(ret(exp(num(1))))],
                })),
                else_branch: Some(Box::new(Stmt::Block(Block {
                    items: vec![BlockItem::Stmt(ret(exp_of_add(plus(fib(1), fib(2)))))],
                }))),
            })],
        ),
        function("main", vec![], vec![print(exp(call("fib", vec![exp(num(6))])))]),
    ]
}

// fn main(){ var i:i32=0; var s:i32=0; while(i<10){ s=s+i; i=i+1; } print(s); }
fn summation() -> Vec<GlobalDef> {
    let i_below_ten = exp_of_rel(RelExp::Rel(
        Box::new(rel(add(mul(var("i"))))),
        BinaryOp::Lt,
        add(mul(num(10))),
    ));
    vec![function(
        "main",
        vec![],
        vec![
            BlockItem::Decl(declare("i", exp(num(0)))),
            BlockItem::Decl(declare("s", exp(num(0)))),
            BlockItem::Stmt(Stmt::While {
                condition: i_below_ten,
                loopbody: Box::new(Stmt::Block(Block {
                    items: vec![
                        assign("s", exp_of_add(plus(var("s"), var("i")))),
                        assign("i", exp_of_add(plus(var("i"), num(1)))),
                    ],
                })),
            }),
            print(exp(var("s"))),
        ],
    )]
}

// fn main(){ var n:i32 = getint(); print(n*2); }
fn doubling() -> Vec<GlobalDef> {
    vec![function(
        "main",
        vec![],
        vec![
            BlockItem::Decl(declare("n", exp(call("getint", vec![])))),
            print(exp_of_add(add(times(var("n"), num(2))))),
        ],
    )]
}

#[test]
fn global_initialiser_is_evaluated_before_main() {
    let source = "var a: i32 = 1 + 2; fn main(){ print(a); }";
    assert_eq!(stdout_of(source, global_sum(), vec![]), "3\n");
}

#[test]
fn global_initialiser_code() {
    assert_eq!(
        compile(global_sum()),
        vec![
            OpCode::LoadConst(1),
            OpCode::LoadConst(2),
            OpCode::BinOpAdd,
            OpCode::StoreGlobal(0),
            OpCode::Call(5, 0),
            OpCode::LoadGlobal(0),
            OpCode::PrintItem,
            OpCode::PrintNewline,
        ]
    );
}

#[test]
fn call_with_two_arguments() {
    let source = "fn add(a:i32,b:i32)->i32{return a+b;} fn main(){print(add(100,100));}";
    assert_eq!(stdout_of(source, call_add(), vec![]), "200\n");
}

#[test]
fn call_with_two_arguments_code() {
    assert_eq!(
        compile(call_add()),
        vec![
            OpCode::Call(5, 0),
            OpCode::LoadVar(0, 0),
            OpCode::LoadVar(0, 1),
            OpCode::BinOpAdd,
            OpCode::Ret,
            OpCode::LoadConst(100),
            OpCode::LoadConst(100),
            OpCode::Call(1, 2),
            OpCode::PrintItem,
            OpCode::PrintNewline,
        ]
    );
}

#[test]
fn recursion_with_early_return() {
    let source = "fn fact(n:i32)->i32{ if(n==0) return 1; return n*fact(n-1); } \
                  fn main(){ print(fact(5)); }";
    assert_eq!(stdout_of(source, factorial(), vec![]), "120\n");
}

#[test]
fn recursion_with_early_return_code() {
    assert_eq!(
        compile(factorial()),
        vec![
            OpCode::Call(14, 0),
            OpCode::LoadVar(0, 0),
            OpCode::LoadConst(0),
            OpCode::BinOpEq,
            OpCode::JmpFalse(7),
            OpCode::LoadConst(1),
            OpCode::Ret,
            OpCode::LoadVar(0, 0),
            OpCode::LoadVar(0, 0),
            OpCode::LoadConst(1),
            OpCode::BinOpSub,
            OpCode::Call(1, 1),
            OpCode::BinOpMul,
            OpCode::Ret,
            OpCode::LoadConst(5),
            OpCode::Call(1, 1),
            OpCode::PrintItem,
            OpCode::PrintNewline,
        ]
    );
}

#[test]
fn recursion_in_both_branches() {
    let source = "fn fib(n:i32)->i32{ if(n<2){return 1;} else {return fib(n-1)+fib(n-2);} } \
                  fn main(){ print(fib(6)); }";
    assert_eq!(stdout_of(source, fibonacci(), vec![]), "13\n");
}

#[test]
fn recursion_in_both_branches_code() {
    assert_eq!(
        compile(fibonacci()),
        vec![
            OpCode::Call(22, 0),
            OpCode::LoadVar(0, 0),
            OpCode::LoadConst(2),
            OpCode::BinOpLt,
            OpCode::JmpFalse(10),
            OpCode::EnterScope(0),
            OpCode::LoadConst(1),
            OpCode::Ret,
            OpCode::LeaveScope,
            OpCode::Jmp(22),
            OpCode::EnterScope(0),
            OpCode::LoadVar(1, 0),
            OpCode::LoadConst(1),
            OpCode::BinOpSub,
            OpCode::Call(1, 1),
            OpCode::LoadVar(1, 0),
            OpCode::LoadConst(2),
            OpCode::BinOpSub,
            OpCode::Call(1, 1),
            OpCode::BinOpAdd,
            OpCode::Ret,
            OpCode::LeaveScope,
            OpCode::LoadConst(6),
            OpCode::Call(1, 1),
            OpCode::PrintItem,
            OpCode::PrintNewline,
        ]
    );
}

#[test]
fn loop_with_assignments() {
    let source =
        "fn main(){ var i:i32=0; var s:i32=0; while(i<10){ s=s+i; i=i+1; } print(s); }";
    assert_eq!(stdout_of(source, summation(), vec![]), "45\n");
}

#[test]
fn loop_with_assignments_code() {
    assert_eq!(
        compile(summation()),
        vec![
            OpCode::Call(1, 0),
            OpCode::LoadConst(0),
            OpCode::StoreVar(0, 0),
            OpCode::LoadConst(0),
            OpCode::StoreVar(0, 1),
            OpCode::LoadVar(0, 0),
            OpCode::LoadConst(10),
            OpCode::BinOpLt,
            OpCode::JmpFalse(20),
            OpCode::EnterScope(0),
            OpCode::LoadVar(1, 1),
            OpCode::LoadVar(1, 0),
            OpCode::BinOpAdd,
            OpCode::StoreVar(1, 1),
            OpCode::LoadVar(1, 0),
            OpCode::LoadConst(1),
            OpCode::BinOpAdd,
            OpCode::StoreVar(1, 0),
            OpCode::LeaveScope,
            OpCode::Jmp(5),
            OpCode::LoadVar(0, 1),
            OpCode::PrintItem,
            OpCode::PrintNewline,
        ]
    );
}

#[test]
fn input_is_read_and_doubled() {
    let source = "fn main(){ var n:i32 = getint(); print(n*2); }";
    assert_eq!(stdout_of(source, doubling(), vec![7]), "14\n");
}

#[test]
fn input_is_read_and_doubled_code() {
    assert_eq!(
        compile(doubling()),
        vec![
            OpCode::Call(1, 0),
            OpCode::GetInt,
            OpCode::StoreVar(0, 0),
            OpCode::LoadVar(0, 0),
            OpCode::LoadConst(2),
            OpCode::BinOpMul,
            OpCode::PrintItem,
            OpCode::PrintNewline,
        ]
    );
}
