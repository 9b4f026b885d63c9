//! The translation scheme: what each node of the syntax tree compiles to.
//!
//! The functions here are the definition of the compiler. Each takes the
//! environment in which the node is compiled; those for nodes that declare
//! names or hold jumps also take the context of the node, and give the
//! environment afterwards together with the code.

use crate::ast::{
    AddExp, BinaryOp, Block, BlockItem, CompUnit, Decl, EqExp, Exp, FuncDef, FuncRParams, GlobalDef,
    LAndExp, LOrExp, LVal, MulExp, PrimaryExp, RelExp, Stmt, UnaryExp, UnaryOp,
};
use crate::bytecode_translation::environment::{position, Function, Name, Scopes};
use crate::error::{Error, TranslateFault};
use crate::vm::OpCode;
use vstd::prelude::*;

verus! {

/// Where a node is compiled.
#[derive(Debug, Clone, Copy, PartialEq, Eq, Structural)]
pub struct Context {
    /// 0 for the block that is the body of a function, 1 inside it.
    pub dep: usize,
    /// 1 for a declaration at the top level of the program, else 0.
    pub in_global: usize,
    /// The address that the first instruction of the node gets.
    pub addr: usize,
}

impl Context {
    /// The same context at another address.
    pub open spec fn at(self, addr: usize) -> Context {
        Context { addr, ..self }
    }

    /// The context of what stands inside a block.
    pub open spec fn inside(self, addr: usize) -> Context {
        Context { dep: 1, in_global: self.in_global, addr }
    }
}

/// The environment after a node was compiled, and its code or the error.
pub struct Emitted {
    pub env: Scopes,
    pub code: Result<Seq<OpCode>, Error>,
}

/// The error for a program that the compiler rejects.
pub open spec fn rejected(fault: TranslateFault) -> Error {
    Error::TranslateError(fault)
}

/// The address `n` instructions after `addr`, if it fits the machine word.
pub open spec fn offset(addr: usize, n: nat) -> Option<usize> {
    if addr + n <= usize::MAX {
        Some((addr + n) as usize)
    } else {
        None
    }
}

/// The instruction that reads the variable found at `(dep, slot)`.
pub open spec fn load_op(env: Scopes, dep: usize, slot: usize) -> OpCode {
    if dep + 1 == env.scopes.len() {
        OpCode::LoadGlobal(slot)
    } else {
        OpCode::LoadVar(dep, slot)
    }
}

/// The instruction that writes the variable found at `(dep, slot)`.
pub open spec fn store_op(env: Scopes, dep: usize, slot: usize) -> OpCode {
    if dep + 1 == env.scopes.len() {
        OpCode::StoreGlobal(slot)
    } else {
        OpCode::StoreVar(dep, slot)
    }
}

/// The instruction of an operator of `==` rank.
pub open spec fn eq_op(op: BinaryOp) -> Option<OpCode> {
    match op {
        BinaryOp::Eq => Some(OpCode::BinOpEq),
        BinaryOp::Neq => Some(OpCode::BinOpNe),
        _ => None,
    }
}

/// The instruction of an operator of `<` rank.
pub open spec fn rel_op(op: BinaryOp) -> Option<OpCode> {
    match op {
        BinaryOp::Lt => Some(OpCode::BinOpLt),
        BinaryOp::Leq => Some(OpCode::BinOpLe),
        BinaryOp::Gt => Some(OpCode::BinOpGt),
        BinaryOp::Geq => Some(OpCode::BinOpGe),
        _ => None,
    }
}

/// The instruction of an operator of `+` rank.
pub open spec fn add_op(op: BinaryOp) -> Option<OpCode> {
    match op {
        BinaryOp::Add => Some(OpCode::BinOpAdd),
        BinaryOp::Sub => Some(OpCode::BinOpSub),
        _ => None,
    }
}

/// The instruction of an operator of `*` rank; `%` has none.
pub open spec fn mul_op(op: BinaryOp) -> Option<OpCode> {
    match op {
        BinaryOp::Mul => Some(OpCode::BinOpMul),
        BinaryOp::Div => Some(OpCode::BinOpDiv),
        _ => None,
    }
}

/// The instruction of a unary operator.
pub open spec fn unary_op(op: UnaryOp) -> OpCode {
    match op {
        UnaryOp::Neg => OpCode::UniOpNeg,
        UnaryOp::Not => OpCode::UniOpNot,
    }
}

/// A binary node: the left operand, the right operand, the operator.
pub open spec fn binary(
    lhs: Result<Seq<OpCode>, Error>,
    rhs: Result<Seq<OpCode>, Error>,
    op: Option<OpCode>,
) -> Result<Seq<OpCode>, Error> {
    match lhs {
        Err(e) => Err(e),
        Ok(l) => match rhs {
            Err(e) => Err(e),
            Ok(r) => match op {
                None => Err(rejected(TranslateFault::OperatorMismatch)),
                Some(o) => Ok((l + r).push(o)),
            },
        },
    }
}

/// `code` followed by `op`.
pub open spec fn followed(code: Result<Seq<OpCode>, Error>, op: OpCode) -> Result<
    Seq<OpCode>,
    Error,
> {
    match code {
        Err(e) => Err(e),
        Ok(c) => Ok(c.push(op)),
    }
}

/// `first` followed by `second`.
pub open spec fn sequenced(
    first: Result<Seq<OpCode>, Error>,
    second: Result<Seq<OpCode>, Error>,
) -> Result<Seq<OpCode>, Error> {
    match first {
        Err(e) => Err(e),
        Ok(a) => match second {
            Err(e) => Err(e),
            Ok(b) => Ok(a + b),
        },
    }
}

/// The name of the built-in that writes its arguments.
pub open spec fn print_name() -> Name {
    "print"@
}

/// The name of the built-in that reads an integer.
pub open spec fn getint_name() -> Name {
    "getint"@
}

/// The name of the function at which a program starts.
pub open spec fn main_name() -> Name {
    "main"@
}

/// The code of an expression: it leaves the value on the operand stack.
pub open spec fn exp_code(e: Exp, env: Scopes) -> Result<Seq<OpCode>, Error>
    decreases e,
{
    lor_code(e.lor_exp, env)
}

/// The code of an expression of `||` rank: the left operand, the right operand, the operator.
pub open spec fn lor_code(e: LOrExp, env: Scopes) -> Result<Seq<OpCode>, Error>
    decreases e,
{
    match e {
        LOrExp::And(and) => land_code(and, env),
        LOrExp::Or(lhs, rhs) => binary(
            lor_code(*lhs, env),
            land_code(rhs, env),
            Some(OpCode::BinOpOr),
        ),
    }
}

/// The code of an expression of `&&` rank: the left operand, the right operand, the operator.
pub open spec fn land_code(e: LAndExp, env: Scopes) -> Result<Seq<OpCode>, Error>
    decreases e,
{
    match e {
        LAndExp::Eq(eq) => eq_code(eq, env),
        LAndExp::And(lhs, rhs) => binary(
            land_code(*lhs, env),
            eq_code(rhs, env),
            Some(OpCode::BinOpAnd),
        ),
    }
}

/// The code of an expression of `==` rank: the left operand, the right operand, the operator.
pub open spec fn eq_code(e: EqExp, env: Scopes) -> Result<Seq<OpCode>, Error>
    decreases e,
{
    match e {
        EqExp::Rel(rel) => rel_code(rel, env),
        EqExp::Eq(lhs, op, rhs) => binary(eq_code(*lhs, env), rel_code(rhs, env), eq_op(op)),
    }
}

/// The code of an expression of `<` rank: the left operand, the right operand, the operator.
pub open spec fn rel_code(e: RelExp, env: Scopes) -> Result<Seq<OpCode>, Error>
    decreases e,
{
    match e {
        RelExp::Add(add) => add_code(add, env),
        RelExp::Rel(lhs, op, rhs) => binary(rel_code(*lhs, env), add_code(rhs, env), rel_op(op)),
    }
}

/// The code of an expression of `+` rank: the left operand, the right operand, the operator.
pub open spec fn add_code(e: AddExp, env: Scopes) -> Result<Seq<OpCode>, Error>
    decreases e,
{
    match e {
        AddExp::Mul(mul) => mul_code(mul, env),
        AddExp::Add(lhs, op, rhs) => binary(add_code(*lhs, env), mul_code(rhs, env), add_op(op)),
    }
}

/// The code of an expression of `*` rank: the left operand, the right operand, the operator.
pub open spec fn mul_code(e: MulExp, env: Scopes) -> Result<Seq<OpCode>, Error>
    decreases e,
{
    match e {
        MulExp::Unary(una) => unary_code(una, env),
        MulExp::Mul(lhs, op, rhs) => binary(
            mul_code(*lhs, env),
            unary_code(rhs, env),
            mul_op(op),
        ),
    }
}

/// A unary node, or a call.
///
/// `print` writes each argument on a line of its own, in source order.
/// `getint` reads an integer. Any other call puts the arguments on the stack
/// in reverse source order, so that the callee finds the first argument in
/// slot 0, and calls the function, which must be defined already.
pub open spec fn unary_code(e: UnaryExp, env: Scopes) -> Result<Seq<OpCode>, Error>
    decreases e,
{
    match e {
        UnaryExp::Pri(pri) => primary_code(pri, env),
        UnaryExp::Unary(op, una) => followed(unary_code(*una, env), unary_op(op)),
        UnaryExp::FuncCall { ident, funcrparams } => if ident@ == print_name() {
            match funcrparams {
                Some(params) => prints_code(params, 0, env),
                None => Ok(Seq::empty()),
            }
        } else if ident@ == getint_name() {
            Ok(seq![OpCode::GetInt])
        } else {
            match env.function(ident@) {
                None => Err(rejected(TranslateFault::UnknownFunction)),
                Some(f) => match funcrparams {
                    Some(params) => followed(
                        args_code(params, params.exps.len() as nat, env),
                        OpCode::Call(f.addr, params.exps.len()),
                    ),
                    None => Ok(seq![OpCode::Call(f.addr, 0)]),
                },
            }
        },
    }
}

/// The arguments of `print` from the `i`-th on: each is evaluated, written,
/// and followed by a line break.
pub open spec fn prints_code(params: FuncRParams, i: nat, env: Scopes) -> Result<
    Seq<OpCode>,
    Error,
>
    decreases params, params.exps.len() - i,
{
    if i >= params.exps.len() {
        Ok(Seq::empty())
    } else {
        sequenced(
            followed(
                followed(exp_code(params.exps@[i as int], env), OpCode::PrintItem),
                OpCode::PrintNewline,
            ),
            prints_code(params, i + 1, env),
        )
    }
}

/// The first `n` arguments of a call, the last of them first.
pub open spec fn args_code(params: FuncRParams, n: nat, env: Scopes) -> Result<Seq<OpCode>, Error>
    decreases params, n,
{
    if n == 0 || n > params.exps.len() {
        Ok(Seq::empty())
    } else {
        sequenced(exp_code(params.exps@[n - 1], env), args_code(params, (n - 1) as nat, env))
    }
}

/// The code of a primary expression: a constant is loaded, a variable is read.
pub open spec fn primary_code(e: PrimaryExp, env: Scopes) -> Result<Seq<OpCode>, Error>
    decreases e,
{
    match e {
        PrimaryExp::Exp(exp) => exp_code(*exp, env),
        PrimaryExp::Number(num) => Ok(seq![OpCode::LoadConst(num)]),
        PrimaryExp::LVal(lval) => lval_code(lval, env),
    }
}

/// Reading a variable: from the globals frame where the name is found in
/// the global scope, else from the frame as many frames down as the scope is
/// scopes out.
pub open spec fn lval_code(lval: LVal, env: Scopes) -> Result<Seq<OpCode>, Error> {
    match env.resolve(lval.ident@) {
        None => Err(rejected(TranslateFault::UnknownVariable)),
        Some((dep, slot)) => Ok(seq![load_op(env, dep, slot)]),
    }
}

/// A declaration: the initialiser, then a store into the next slot of the
/// innermost scope, which from then on belongs to the name.
pub open spec fn declaration(ident: Name, init: Exp, env: Scopes, ctx: Context) -> Emitted {
    match exp_code(init, env) {
        Err(e) => Emitted { env, code: Err(e) },
        Ok(code) => match position(env.scope(0), ident, 0) {
            Some(_) => Emitted { env, code: Err(Error::DuplicatedDef) },
            None => {
                let slot = env.scope(0).len() as usize;
                let store = if ctx.in_global == 1 {
                    OpCode::StoreGlobal(slot)
                } else {
                    OpCode::StoreVar(0, slot)
                };
                Emitted { env: env.declare(0, ident), code: Ok(code.push(store)) }
            },
        },
    }
}

/// The code of a declaration: see `declaration`.
pub open spec fn decl_code(d: Decl, env: Scopes, ctx: Context) -> Emitted {
    match d {
        Decl::VarDecl(decl) => declaration(decl.ident@, decl.initval.exp, env, ctx),
        Decl::ValDecl(decl) => declaration(decl.ident@, decl.initval.exp, env, ctx),
    }
}

/// An assignment: the value, then a store to where the name is found.
pub open spec fn assign_code(lval: LVal, exp: Exp, env: Scopes) -> Result<Seq<OpCode>, Error> {
    match exp_code(exp, env) {
        Err(e) => Err(e),
        Ok(code) => match env.resolve(lval.ident@) {
            None => Err(rejected(TranslateFault::UnknownVariable)),
            Some((dep, slot)) => Ok(code.push(store_op(env, dep, slot))),
        },
    }
}

/// The address of what follows `code` and one more instruction, where
/// `code` starts at `addr`; 0 where there is no such code or address.
pub open spec fn beyond(addr: usize, code: Result<Seq<OpCode>, Error>) -> usize {
    match code {
        Err(_) => 0,
        Ok(c) => match offset(addr, c.len() + 1) {
            None => 0,
            Some(a) => a,
        },
    }
}

/// `if (c) A`, laid out as `c; JmpFalse(L1); A; L1:` at `ctx.addr`.
///
/// `cond` is the code of `c` and `then` what compiling `A` at
/// `beyond(ctx.addr, cond)` gave.
pub open spec fn if_code(
    env: Scopes,
    ctx: Context,
    cond: Result<Seq<OpCode>, Error>,
    then: Emitted,
) -> Emitted {
    match cond {
        Err(e) => Emitted { env, code: Err(e) },
        Ok(c) => match offset(ctx.addr, c.len() + 1) {
            None => Emitted { env, code: Err(rejected(TranslateFault::TooLarge)) },
            Some(then_at) => match then.code {
                Err(e) => then,
                Ok(a) => match offset(then_at, a.len()) {
                    None => Emitted {
                        env: then.env,
                        code: Err(rejected(TranslateFault::TooLarge)),
                    },
                    Some(end) => Emitted {
                        env: then.env,
                        code: Ok(c.push(OpCode::JmpFalse(end)) + a),
                    },
                },
            },
        },
    }
}

/// `if (c) A else B`, laid out as `c; JmpFalse(L1); A; Jmp(L2); L1: B; L2:`
/// at `ctx.addr`.
///
/// `cond` is the code of `c`, `then` what compiling `A` at
/// `beyond(ctx.addr, cond)` gave, and `els` what compiling `B` at
/// `beyond(beyond(ctx.addr, cond), then.code)` gave, in the environment that
/// `A` left.
pub open spec fn if_else_code(
    env: Scopes,
    ctx: Context,
    cond: Result<Seq<OpCode>, Error>,
    then: Emitted,
    els: Emitted,
) -> Emitted {
    match cond {
        Err(e) => Emitted { env, code: Err(e) },
        Ok(c) => match offset(ctx.addr, c.len() + 1) {
            None => Emitted { env, code: Err(rejected(TranslateFault::TooLarge)) },
            Some(then_at) => match then.code {
                Err(e) => then,
                Ok(a) => match offset(then_at, a.len() + 1) {
                    None => Emitted {
                        env: then.env,
                        code: Err(rejected(TranslateFault::TooLarge)),
                    },
                    Some(else_at) => match els.code {
                        Err(e) => els,
                        Ok(b) => match offset(else_at, b.len()) {
                            None => Emitted {
                                env: els.env,
                                code: Err(rejected(TranslateFault::TooLarge)),
                            },
                            Some(end) => Emitted {
                                env: els.env,
                                code: Ok(
                                    (c.push(OpCode::JmpFalse(else_at)) + a).push(OpCode::Jmp(end))
                                        + b,
                                ),
                            },
                        },
                    },
                },
            },
        },
    }
}

/// `while (c) S`, laid out as `H: c; JmpFalse(E); S; Jmp(H); E:` with `H`
/// at `ctx.addr`.
///
/// `cond` is the code of `c` and `body` what compiling `S` at
/// `beyond(ctx.addr, cond)` gave, inside the loop.
pub open spec fn while_code(
    env: Scopes,
    ctx: Context,
    cond: Result<Seq<OpCode>, Error>,
    body: Emitted,
) -> Emitted {
    match cond {
        Err(e) => Emitted { env, code: Err(e) },
        Ok(c) => match offset(ctx.addr, c.len() + 1) {
            None => Emitted { env, code: Err(rejected(TranslateFault::TooLarge)) },
            Some(body_at) => match body.code {
                Err(e) => Emitted { env: body.env.pop_loop(), code: Err(e) },
                Ok(s) => match offset(body_at, s.len() + 1) {
                    None => Emitted {
                        env: body.env.pop_loop(),
                        code: Err(rejected(TranslateFault::TooLarge)),
                    },
                    Some(end) => Emitted {
                        env: body.env.pop_loop(),
                        code: Ok((c.push(OpCode::JmpFalse(end)) + s).push(OpCode::Jmp(ctx.addr))),
                    },
                },
            },
        },
    }
}

/// The `else` branch of an `if`, where it has one.
pub open spec fn else_code(s: Option<Box<Stmt>>, env: Scopes, ctx: Context) -> Option<Emitted>
    decreases s,
{
    match s {
        None => None,
        Some(other) => Some(stmt_code(*other, env, ctx)),
    }
}

/// A statement.
///
/// The parts of `if` and `while` are compiled in source order, each at the
/// address that follows the code before it; see `if_code`, `if_else_code`
/// and `while_code` for the layout. A function definition, `break` and
/// `continue` are rejected.
pub open spec fn stmt_code(s: Stmt, env: Scopes, ctx: Context) -> Emitted
    decreases s,
{
    match s {
        Stmt::Assign(lval, exp) => Emitted { env, code: assign_code(lval, exp, env) },
        Stmt::Block(block) => block_code(block, env, ctx),
        Stmt::Exp(None) => Emitted { env, code: Ok(Seq::empty()) },
        Stmt::Exp(Some(exp)) => Emitted { env, code: exp_code(exp, env) },
        Stmt::Ret(None) => Emitted { env, code: Ok(seq![OpCode::Ret]) },
        Stmt::Ret(Some(exp)) => Emitted { env, code: followed(exp_code(exp, env), OpCode::Ret) },
        Stmt::If { condition, then_branch, else_branch } => {
            let cond = exp_code(condition, env);
            let then_at = beyond(ctx.addr, cond);
            let then = stmt_code(*then_branch, env, ctx.at(then_at));
            match else_code(else_branch, then.env, ctx.at(beyond(then_at, then.code))) {
                None => if_code(env, ctx, cond, then),
                Some(els) => if_else_code(env, ctx, cond, then, els),
            }
        },
        Stmt::While { condition, loopbody } => {
            let cond = exp_code(condition, env);
            let body = stmt_code(
                *loopbody,
                env.push_loop(ctx.addr),
                ctx.at(beyond(ctx.addr, cond)),
            );
            while_code(env, ctx, cond, body)
        },
        Stmt::FuncDef(_) => Emitted {
            env,
            code: Err(rejected(TranslateFault::NestedFunction)),
        },
        Stmt::Continue => Emitted { env, code: Err(rejected(TranslateFault::UnsupportedJump)) },
        Stmt::Break => Emitted { env, code: Err(rejected(TranslateFault::UnsupportedJump)) },
    }
}

/// A block. The body of a function shares the scope and the frame of the
/// parameters. Any other block opens a scope of its own, and its code
/// stands between `EnterScope` and `LeaveScope`.
pub open spec fn block_code(b: Block, env: Scopes, ctx: Context) -> Emitted
    decreases b, b.items.len() + 1,
{
    if ctx.dep == 0 {
        items_code(b, 0, env, ctx.inside(ctx.addr))
    } else {
        match offset(ctx.addr, 1nat) {
            None => Emitted { env, code: Err(rejected(TranslateFault::TooLarge)) },
            Some(first) => {
                let inner = items_code(b, 0, env.push_scope(), ctx.inside(first));
                Emitted {
                    env: inner.env.pop_scope(),
                    code: match inner.code {
                        Err(e) => Err(e),
                        Ok(code) => Ok((seq![OpCode::EnterScope(0)] + code).push(OpCode::LeaveScope)),
                    },
                }
            },
        }
    }
}

/// The items of a block from the `i`-th on, each at the address that
/// follows the code of the one before.
pub open spec fn items_code(b: Block, i: nat, env: Scopes, ctx: Context) -> Emitted
    decreases b, b.items.len() - i,
{
    if i >= b.items.len() {
        Emitted { env, code: Ok(Seq::empty()) }
    } else {
        let first = item_code(b.items@[i as int], env, ctx);
        match first.code {
            Err(e) => first,
            Ok(code) => match offset(ctx.addr, code.len()) {
                None => Emitted {
                    env: first.env,
                    code: Err(rejected(TranslateFault::TooLarge)),
                },
                Some(next) => {
                    let rest = items_code(b, i + 1, first.env, ctx.at(next));
                    Emitted {
                        env: rest.env,
                        code: match rest.code {
                            Err(e) => Err(e),
                            Ok(more) => Ok(code + more),
                        },
                    }
                },
            },
        }
    }
}

/// The code of an item of a block.
pub open spec fn item_code(item: BlockItem, env: Scopes, ctx: Context) -> Emitted
    decreases item,
{
    match item {
        BlockItem::Decl(decl) => decl_code(decl, env, ctx),
        BlockItem::Stmt(stmt) => stmt_code(stmt, env, ctx),
    }
}

/// The names of the formal parameters of `f`.
pub open spec fn param_names(f: FuncDef) -> Seq<Name> {
    match f.funcfparams {
        Some(params) => Seq::new(params.params.len() as nat, |i: int| params.params@[i].ident@),
        None => Seq::empty(),
    }
}

/// `env` with the names from the `i`-th on declared in the innermost scope,
/// or `DuplicatedDef` where one of them is declared there already.
pub open spec fn declare_all(env: Scopes, names: Seq<Name>, i: nat) -> Result<Scopes, Error>
    decreases names.len() - i,
{
    if i >= names.len() {
        Ok(env)
    } else {
        match position(env.scope(0), names[i as int], 0) {
            Some(_) => Err(Error::DuplicatedDef),
            None => declare_all(env.declare(0, names[i as int]), names, i + 1),
        }
    }
}

/// A function definition at address `addr`: the function is recorded under
/// its name with `addr` as its entry, its parameters are declared in a new
/// scope, where they get the slots 0, 1, ..., and its body is compiled in
/// that scope.
pub open spec fn func_code(f: FuncDef, env: Scopes, addr: usize) -> Emitted {
    match env.function(f.ident@) {
        Some(_) => Emitted { env, code: Err(Error::DuplicatedDef) },
        None => {
            let recorded = env.define(Function { name: f.ident@, addr, params: param_names(f) });
            match declare_all(recorded.push_scope(), param_names(f), 0) {
                Err(e) => Emitted { env: recorded, code: Err(e) },
                Ok(inner) => {
                    let body = block_code(
                        f.block,
                        inner,
                        Context { dep: 0, in_global: 0, addr },
                    );
                    Emitted { env: body.env.pop_scope(), code: body.code }
                },
            }
        },
    }
}

/// The declarations among the global definitions from the `i`-th on, in
/// source order.
pub open spec fn globals_code(defs: Seq<GlobalDef>, i: nat, env: Scopes, addr: usize) -> Emitted
    decreases defs.len() - i,
{
    if i >= defs.len() {
        Emitted { env, code: Ok(Seq::empty()) }
    } else {
        match defs[i as int] {
            GlobalDef::FuncDef(_) => globals_code(defs, i + 1, env, addr),
            GlobalDef::Decl(decl) => {
                let first = decl_code(decl, env, Context { dep: 0, in_global: 1, addr });
                match first.code {
                    Err(e) => first,
                    Ok(code) => match offset(addr, code.len()) {
                        None => Emitted {
                            env: first.env,
                            code: Err(rejected(TranslateFault::TooLarge)),
                        },
                        Some(next) => {
                            let rest = globals_code(defs, i + 1, first.env, next);
                            Emitted {
                                env: rest.env,
                                code: match rest.code {
                                    Err(e) => Err(e),
                                    Ok(more) => Ok(code + more),
                                },
                            }
                        },
                    },
                }
            },
        }
    }
}

/// The environment after a sequence of functions was compiled, their code
/// or the error, and the entry of `main` if it is among them.
pub struct Linked {
    pub env: Scopes,
    pub code: Result<Seq<OpCode>, Error>,
    pub main: Option<usize>,
}

/// The functions among the global definitions from the `i`-th on, in source
/// order, the first of them at `addr`.
pub open spec fn functions_code(defs: Seq<GlobalDef>, i: nat, env: Scopes, addr: usize) -> Linked
    decreases defs.len() - i,
{
    if i >= defs.len() {
        Linked { env, code: Ok(Seq::empty()), main: None }
    } else {
        match defs[i as int] {
            GlobalDef::Decl(_) => functions_code(defs, i + 1, env, addr),
            GlobalDef::FuncDef(f) => {
                let first = func_code(f, env, addr);
                match first.code {
                    Err(e) => Linked { env: first.env, code: Err(e), main: None },
                    Ok(code) => match offset(addr, code.len()) {
                        None => Linked {
                            env: first.env,
                            code: Err(rejected(TranslateFault::TooLarge)),
                            main: None,
                        },
                        Some(next) => {
                            let rest = functions_code(defs, i + 1, first.env, next);
                            Linked {
                                env: rest.env,
                                code: match rest.code {
                                    Err(e) => Err(e),
                                    Ok(more) => Ok(code + more),
                                },
                                main: if f.ident@ == main_name() {
                                    Some(addr)
                                } else {
                                    rest.main
                                },
                            }
                        },
                    },
                }
            },
        }
    }
}

/// Whether a function is among the global definitions from the `i`-th on.
pub open spec fn defines_function(defs: Seq<GlobalDef>, i: nat) -> bool
    decreases defs.len() - i,
{
    if i >= defs.len() {
        false
    } else {
        defs[i as int] is FuncDef || defines_function(defs, i + 1)
    }
}

/// The address that the start call names before `main` is seen.
pub open spec fn no_entry() -> usize {
    usize::MAX
}

/// A whole program at address `addr`: the global declarations in source
/// order; then, where the program defines a function, a call of `main`
/// without arguments and the functions in source order. A program without
/// `main` calls the address `no_entry()`.
pub open spec fn unit_code(unit: CompUnit, env: Scopes, addr: usize) -> Emitted {
    let globals = globals_code(unit.globaldefs@, 0, env, addr);
    match globals.code {
        Err(e) => globals,
        Ok(decls) => if !defines_function(unit.globaldefs@, 0) {
            globals
        } else {
            match offset(addr, decls.len() + 1) {
                None => Emitted {
                    env: globals.env,
                    code: Err(rejected(TranslateFault::TooLarge)),
                },
                Some(first) => {
                    let funcs = functions_code(unit.globaldefs@, 0, globals.env, first);
                    Emitted {
                        env: funcs.env,
                        code: match funcs.code {
                            Err(e) => Err(e),
                            Ok(bodies) => Ok(
                                decls.push(
                                    OpCode::Call(
                                        match funcs.main {
                                            Some(entry) => entry,
                                            None => no_entry(),
                                        },
                                        0,
                                    ),
                                ) + bodies,
                            ),
                        },
                    }
                },
            }
        },
    }
}

} // verus!
