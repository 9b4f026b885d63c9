//! The syntax tree of the source language.
//!
//! Expressions are stratified by precedence: each level holds either the
//! next tighter level or a binary node of its own operators.

use vstd::prelude::*;

verus! {

/// A whole program: its global definitions in source order.
#[derive(Debug)]
pub struct CompUnit {
    pub globaldefs: Vec<GlobalDef>,
}

/// A definition at the top level.
#[derive(Debug)]
pub enum GlobalDef {
    FuncDef(FuncDef),
    Decl(Decl),
}

/// A declaration of a variable or of a constant.
#[derive(Debug)]
pub enum Decl {
    VarDecl(VarDecl),
    ValDecl(ValDecl),
}

/// `var ident: btype = initval;`
#[derive(Debug)]
pub struct VarDecl {
    pub ident: String,
    pub btype: BType,
    pub initval: InitVal,
}

/// `val ident: btype = initval;`
#[derive(Debug)]
pub struct ValDecl {
    pub ident: String,
    pub btype: BType,
    pub initval: InitVal,
}

/// The initialiser of a declaration.
#[derive(Debug)]
pub struct InitVal {
    pub exp: Exp,
}

/// `fn ident(funcfparams) -> btype block`
#[derive(Debug)]
pub struct FuncDef {
    pub ident: String,
    pub btype: Option<BType>,
    pub funcfparams: Option<FuncFParams>,
    pub block: Block,
}

/// The formal parameters of a function.
#[derive(Debug, Clone)]
pub struct FuncFParams {
    pub params: Vec<FuncFParam>,
}

/// One formal parameter.
#[derive(Debug, Clone)]
pub struct FuncFParam {
    pub ident: String,
    pub btype: BType,
}

/// The arguments of a call.
#[derive(Debug)]
pub struct FuncRParams {
    pub exps: Vec<Exp>,
}

/// The types of the language.
#[derive(Debug, Clone)]
pub enum BType {
    I32,
}

/// `{ items }`
#[derive(Debug)]
pub struct Block {
    pub items: Vec<BlockItem>,
}

/// A declaration or a statement inside a block.
#[derive(Debug)]
pub enum BlockItem {
    Decl(Decl),
    Stmt(Stmt),
}

/// A statement.
#[derive(Debug)]
pub enum Stmt {
    Assign(LVal, Exp),
    Block(Block),
    Exp(Option<Exp>),
    Ret(Option<Exp>),
    If { condition: Exp, then_branch: Box<Stmt>, else_branch: Option<Box<Stmt>> },
    While { condition: Exp, loopbody: Box<Stmt> },
    FuncDef(FuncDef),
    Continue,
    Break,
}

/// What can stand on the left of an assignment.
#[derive(Debug, Clone)]
pub struct LVal {
    pub ident: String,
}

/// An expression.
#[derive(Debug)]
pub struct Exp {
    pub lor_exp: LOrExp,
}

/// `||`
#[derive(Debug)]
pub enum LOrExp {
    And(LAndExp),
    Or(Box<LOrExp>, LAndExp),
}

/// `&&`
#[derive(Debug)]
pub enum LAndExp {
    Eq(EqExp),
    And(Box<LAndExp>, EqExp),
}

/// `==`, `!=`
#[derive(Debug)]
pub enum EqExp {
    Rel(RelExp),
    Eq(Box<EqExp>, BinaryOp, RelExp),
}

/// `<`, `>`, `<=`, `>=`
#[derive(Debug)]
pub enum RelExp {
    Add(AddExp),
    Rel(Box<RelExp>, BinaryOp, AddExp),
}

/// `+`, `-`
#[derive(Debug)]
pub enum AddExp {
    Mul(MulExp),
    Add(Box<AddExp>, BinaryOp, MulExp),
}

/// `*`, `/`, `%`
#[derive(Debug)]
pub enum MulExp {
    Unary(UnaryExp),
    Mul(Box<MulExp>, BinaryOp, UnaryExp),
}

/// A unary operation, a call, or a primary expression.
#[derive(Debug)]
pub enum UnaryExp {
    Pri(PrimaryExp),
    Unary(UnaryOp, Box<UnaryExp>),
    FuncCall { ident: String, funcrparams: Option<FuncRParams> },
}

/// A parenthesised expression, a literal, or a variable.
#[derive(Debug)]
pub enum PrimaryExp {
    Exp(Box<Exp>),
    Number(i32),
    LVal(LVal),
}

/// The binary operators.
#[derive(Debug, Clone, Copy, PartialEq, Eq, Structural)]
pub enum BinaryOp {
    Add,
    Sub,
    Mul,
    Div,
    Mod,
    Lt,
    Gt,
    Leq,
    Geq,
    Eq,
    Neq,
}

/// The unary operators.
#[derive(Debug, Clone, Copy, PartialEq, Eq, Structural)]
pub enum UnaryOp {
    Neg,
    Not,
}

} // verus!
