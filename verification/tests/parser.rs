use cilly::ast::{
    AddExp, BinaryOp, BlockItem, Decl, EqExp, Exp, GlobalDef, LAndExp, LOrExp, MulExp, PrimaryExp,
    RelExp, Stmt, UnaryExp, UnaryOp,
};
use cilly::error::Error;
use cilly::lexer::tokenize;
use cilly::parser::{parse_program, Parser};

fn body_of(source: &str) -> Vec<BlockItem> {
    let unit = parse_program(source).expect("the source parses");
    assert_eq!(unit.globaldefs.len(), 1);
    match unit.globaldefs.into_iter().next() {
        Some(GlobalDef::FuncDef(f)) => f.block.items,
        other => panic!("expected one function, got {:?}", other),
    }
}

fn expression(source: &str) -> Exp {
    let text = format!("fn f() {{ return {}; }}", source);
    match body_of(&text).into_iter().next() {
        Some(BlockItem::Stmt(Stmt::Ret(Some(exp)))) => exp,
        other => panic!("expected a return, got {:?}", other),
    }
}

fn shape(e: &Exp) -> String {
    lor(&e.lor_exp)
}

fn lor(e: &LOrExp) -> String {
    match e {
        LOrExp::And(a) => land(a),
        LOrExp::Or(l, r) => format!("({} || {})", lor(l), land(r)),
    }
}

fn land(e: &LAndExp) -> String {
    match e {
        LAndExp::Eq(a) => eq(a),
        LAndExp::And(l, r) => format!("({} && {})", land(l), eq(r)),
    }
}

fn sign(o: &BinaryOp) -> &'static str {
    match o {
        BinaryOp::Add => "+",
        BinaryOp::Sub => "-",
        BinaryOp::Mul => "*",
        BinaryOp::Div => "/",
        BinaryOp::Mod => "%",
        BinaryOp::Lt => "<",
        BinaryOp::Gt => ">",
        BinaryOp::Leq => "<=",
        BinaryOp::Geq => ">=",
        BinaryOp::Eq => "==",
        BinaryOp::Neq => "!=",
    }
}

fn eq(e: &EqExp) -> String {
    match e {
        EqExp::Rel(a) => rel(a),
        EqExp::Eq(l, o, r) => format!("({} {} {})", eq(l), sign(o), rel(r)),
    }
}

fn rel(e: &RelExp) -> String {
    match e {
        RelExp::Add(a) => add(a),
        RelExp::Rel(l, o, r) => format!("({} {} {})", rel(l), sign(o), add(r)),
    }
}

fn add(e: &AddExp) -> String {
    match e {
        AddExp::Mul(a) => mul(a),
        AddExp::Add(l, o, r) => format!("({} {} {})", add(l), sign(o), mul(r)),
    }
}

fn mul(e: &MulExp) -> String {
    match e {
        MulExp::Unary(a) => unary(a),
        MulExp::Mul(l, o, r) => format!("({} {} {})", mul(l), sign(o), unary(r)),
    }
}

fn unary(e: &UnaryExp) -> String {
    match e {
        UnaryExp::Pri(PrimaryExp::Number(n)) => n.to_string(),
        UnaryExp::Pri(PrimaryExp::LVal(l)) => l.ident.clone(),
        UnaryExp::Pri(PrimaryExp::Exp(inner)) => format!("[{}]", shape(inner)),
        UnaryExp::Unary(UnaryOp::Neg, inner) => format!("-{}", unary(inner)),
        UnaryExp::Unary(UnaryOp::Not, inner) => format!("!{}", unary(inner)),
        UnaryExp::FuncCall { ident, funcrparams } => {
            let args: Vec<String> = match funcrparams {
                Some(params) => params.exps.iter().map(shape).collect(),
                None => vec![],
            };
            format!("{}({})", ident, args.join(", "))
        }
    }
}

fn shape_of(source: &str) -> String {
    shape(&expression(source))
}

fn error_of(source: &str) -> Error {
    match parse_program(source) {
        Err(e) => e,
        Ok(unit) => panic!("expected an error, got {:?}", unit),
    }
}

#[test]
fn an_empty_text_is_an_empty_program() {
    assert!(parse_program("").expect("parses").globaldefs.is_empty());
    assert!(parse_program(" \n ").expect("parses").globaldefs.is_empty());
}

#[test]
fn multiplication_binds_tighter_than_addition() {
    assert_eq!(shape_of("1 + 2 * 3"), "(1 + (2 * 3))");
    assert_eq!(shape_of("1 * 2 + 3"), "((1 * 2) + 3)");
    assert_eq!(shape_of("1 + 2 % 3 - 4 / 5"), "((1 + (2 % 3)) - (4 / 5))");
}

#[test]
fn binary_operators_group_to_the_left() {
    assert_eq!(shape_of("1 - 2 - 3"), "((1 - 2) - 3)");
    assert_eq!(shape_of("8 / 4 / 2"), "((8 / 4) / 2)");
    assert_eq!(shape_of("a < b < c"), "((a < b) < c)");
    assert_eq!(shape_of("a == b != c"), "((a == b) != c)");
    assert_eq!(shape_of("a || b || c"), "((a || b) || c)");
    assert_eq!(shape_of("a && b && c"), "((a && b) && c)");
}

#[test]
fn the_ranks_are_stratified() {
    assert_eq!(
        shape_of("a || b && c == d < e + f * -g"),
        "(a || (b && (c == (d < (e + (f * -g))))))"
    );
    assert_eq!(shape_of("a * b + c < d == e && f || g"), "((((((a * b) + c) < d) == e) && f) || g)");
}

#[test]
fn parentheses_are_kept_in_the_tree() {
    assert_eq!(shape_of("(1 + 2) * 3"), "([(1 + 2)] * 3)");
    assert_eq!(shape_of("((x))"), "[[x]]");
}

#[test]
fn unary_operators_nest() {
    assert_eq!(shape_of("-x"), "-x");
    assert_eq!(shape_of("!-!x"), "!-!x");
    assert_eq!(shape_of("1 - -2"), "(1 - -2)");
    assert_eq!(shape_of("-f(1) * 2"), "(-f(1) * 2)");
}

#[test]
fn calls_take_expressions_as_arguments() {
    assert_eq!(shape_of("f()"), "f()");
    assert_eq!(shape_of("f(1)"), "f(1)");
    assert_eq!(shape_of("f(1 + 2, g(3), (4))"), "f((1 + 2), g(3), [4])");
    assert_eq!(shape_of("getint() * 2"), "(getint() * 2)");
}

#[test]
fn declarations_and_statements_are_told_apart() {
    let items = body_of(
        "fn f() { var a: i32 = 1; val b: i32 = a; a = b + 1; a; ; { } return; break; continue; }",
    );
    assert_eq!(items.len(), 9);
    assert!(matches!(&items[0], BlockItem::Decl(Decl::VarDecl(d)) if d.ident == "a"));
    assert!(matches!(&items[1], BlockItem::Decl(Decl::ValDecl(d)) if d.ident == "b"));
    assert!(matches!(&items[2], BlockItem::Stmt(Stmt::Assign(l, _)) if l.ident == "a"));
    assert!(matches!(&items[3], BlockItem::Stmt(Stmt::Exp(Some(_)))));
    assert!(matches!(&items[4], BlockItem::Stmt(Stmt::Exp(None))));
    assert!(matches!(&items[5], BlockItem::Stmt(Stmt::Block(b)) if b.items.is_empty()));
    assert!(matches!(&items[6], BlockItem::Stmt(Stmt::Ret(None))));
    assert!(matches!(&items[7], BlockItem::Stmt(Stmt::Break)));
    assert!(matches!(&items[8], BlockItem::Stmt(Stmt::Continue)));
}

#[test]
fn a_comparison_with_a_name_on_the_left_is_no_assignment() {
    let items = body_of("fn f() { a == 1; a = 1; }");
    assert!(matches!(&items[0], BlockItem::Stmt(Stmt::Exp(Some(_)))));
    assert!(matches!(&items[1], BlockItem::Stmt(Stmt::Assign(_, _))));
}

#[test]
fn an_else_belongs_to_the_nearest_if() {
    let items = body_of("fn f() { if (a) if (b) x = 1; else x = 2; }");
    match &items[0] {
        BlockItem::Stmt(Stmt::If { then_branch, else_branch, .. }) => {
            assert!(else_branch.is_none());
            assert!(matches!(&**then_branch, Stmt::If { else_branch: Some(_), .. }));
        }
        other => panic!("expected an if, got {:?}", other),
    }
}

#[test]
fn a_while_holds_its_body() {
    let items = body_of("fn f() { while (i < 10) { i = i + 1; } }");
    match &items[0] {
        BlockItem::Stmt(Stmt::While { condition, loopbody }) => {
            assert_eq!(shape(condition), "(i < 10)");
            assert!(matches!(&**loopbody, Stmt::Block(b) if b.items.len() == 1));
        }
        other => panic!("expected a while, got {:?}", other),
    }
}

#[test]
fn functions_have_parameters_and_a_result() {
    let unit = parse_program("fn f(a: i32, b: i32) -> i32 { } fn g() { } fn h(x: i32) { }")
        .expect("parses");
    let funcs: Vec<_> = unit
        .globaldefs
        .iter()
        .map(|d| match d {
            GlobalDef::FuncDef(f) => f,
            other => panic!("expected a function, got {:?}", other),
        })
        .collect();
    assert_eq!(funcs[0].ident, "f");
    assert!(funcs[0].btype.is_some());
    let names: Vec<&str> = funcs[0]
        .funcfparams
        .as_ref()
        .expect("f has parameters")
        .params
        .iter()
        .map(|p| p.ident.as_str())
        .collect();
    assert_eq!(names, vec!["a", "b"]);
    assert_eq!(funcs[1].ident, "g");
    assert!(funcs[1].btype.is_none());
    assert!(funcs[1].funcfparams.is_none());
    assert_eq!(funcs[2].funcfparams.as_ref().expect("h has one").params.len(), 1);
    assert!(funcs[2].btype.is_none());
}

#[test]
fn a_function_can_stand_inside_a_function() {
    let items = body_of("fn f() { fn g() { } }");
    assert!(matches!(&items[0], BlockItem::Stmt(Stmt::FuncDef(g)) if g.ident == "g"));
}

#[test]
fn the_lexer_reports_first() {
    assert!(matches!(error_of("fn f() { # }"), Error::LexerError(9)));
}

#[test]
fn the_token_that_does_not_fit_is_reported() {
    assert!(matches!(error_of("x"), Error::ParserError(0)));
    assert!(matches!(error_of("var"), Error::ParserError(1)));
    assert!(matches!(error_of("var a"), Error::ParserError(2)));
    assert!(matches!(error_of("var a: i32"), Error::ParserError(4)));
    assert!(matches!(error_of("var a: i32 = ;"), Error::ParserError(5)));
    assert!(matches!(error_of("var a: i32 = 1"), Error::ParserError(6)));
    assert!(matches!(error_of("fn"), Error::ParserError(1)));
    assert!(matches!(error_of("fn f"), Error::ParserError(2)));
    assert!(matches!(error_of("fn f("), Error::ParserError(3)));
    assert!(matches!(error_of("fn f(a)"), Error::ParserError(4)));
    assert!(matches!(error_of("fn f(a: i32,)"), Error::ParserError(7)));
    assert!(matches!(error_of("fn f() ->"), Error::ParserError(5)));
    assert!(matches!(error_of("fn f() {"), Error::ParserError(5)));
    assert!(matches!(error_of("fn f() { 1 + ; }"), Error::ParserError(7)));
    assert!(matches!(error_of("fn f() { (1 ; }"), Error::ParserError(7)));
    assert!(matches!(error_of("fn f() { f(1, ; }"), Error::ParserError(9)));
    assert!(matches!(error_of("fn f() { if a) ; }"), Error::ParserError(6)));
    assert!(matches!(error_of("fn f() { while (a ; }"), Error::ParserError(8)));
    assert!(matches!(error_of("fn f() { return 1 }"), Error::ParserError(7)));
    assert!(matches!(error_of("fn f() { break }"), Error::ParserError(6)));
    assert!(matches!(error_of("fn f() { } }"), Error::ParserError(6)));
    assert!(matches!(error_of("fn f() { else ; }"), Error::ParserError(5)));
    assert!(matches!(error_of("fn f() { +1; }"), Error::ParserError(5)));
}

#[test]
fn the_parser_works_on_tokens() {
    let tokens = tokenize("fn main() { print(1); }").expect("scans");
    let mut parser = Parser::new(tokens);
    let unit = parser.parse().expect("parses");
    assert_eq!(unit.globaldefs.len(), 1);
    let again = parser.parse().expect("parses again");
    assert_eq!(format!("{:?}", again), format!("{:?}", unit));
}

#[test]
fn tokens_without_an_end_are_no_program() {
    let mut tokens = tokenize("fn main() { }").expect("scans");
    tokens.pop();
    let mut parser = Parser::new(tokens);
    assert!(matches!(parser.parse(), Err(Error::ParserError(6))));
    let mut parser = Parser::new(vec![]);
    assert!(matches!(parser.parse(), Err(Error::ParserError(0))));
}
