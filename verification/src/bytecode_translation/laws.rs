//! What holds of every program that the compiler emits.

use crate::ast::{
    AddExp, Block, BlockItem, CompUnit, Decl, EqExp, Exp, FuncDef, FuncRParams, GlobalDef, LAndExp,
    LOrExp, LVal, MulExp, PrimaryExp, RelExp, Stmt, UnaryExp,
};
use crate::bytecode_translation::environment::{lemma_lookup, Function, Name, Scopes};
use crate::bytecode_translation::scheme::{
    add_code, add_op, args_code, assign_code, beyond, binary, block_code, decl_code, declaration,
    declare_all, defines_function, else_code, eq_code, eq_op, exp_code, followed, func_code,
    functions_code, globals_code, if_code, if_else_code, item_code, items_code, land_code,
    lor_code, lval_code, main_name, mul_code, mul_op, offset, param_names, primary_code,
    prints_code, rel_code, rel_op, sequenced, stmt_code, unary_code, unary_op, unit_code,
    while_code, Context, Emitted,
};
use crate::bytecode_translation::scheme::{getint_name, print_name};
use crate::bytecode_translation::translate::{decode, encode, lemma_round_trip};
use crate::text::{lemma_text_round_trip, text_words, words_text};
use crate::discipline::{
    demand, leaves, lemma_leaves_concat, lemma_settle_concat, lemma_straight_line, settle,
    straight, supply,
};
use crate::error::{Error, Fault};
use crate::vm::{Machine, OpCode, Stop};
use vstd::prelude::*;

verus! {

/// The address that an instruction names, if it names one.
pub open spec fn target_of(op: OpCode) -> Option<usize> {
    match op {
        OpCode::Jmp(target) => Some(target),
        OpCode::JmpTrue(target) => Some(target),
        OpCode::JmpFalse(target) => Some(target),
        OpCode::Call(target, _) => Some(target),
        _ => None,
    }
}

/// Whether `op` is one of the instructions that are reserved: the compiler
/// emits none of them.
pub open spec fn reserved(op: OpCode) -> bool {
    op is StorePC || op is LoadPC || op is MakeClosure
}

/// Whether `op` is in order in a program that ends at `hi`: it is not
/// reserved, and the address it names, if it names one, is at most `hi`.
pub open spec fn in_order(op: OpCode, hi: int) -> bool {
    !reserved(op) && (target_of(op) matches Some(target) ==> target <= hi)
}

/// Every instruction of `code` is in order: none is reserved, and every
/// address that `code` names is at most `hi`.
pub open spec fn targets_within(code: Seq<OpCode>, hi: int) -> bool {
    forall|i: int| 0 <= i < code.len() ==> #[trigger] in_order(code[i], hi)
}

/// Every address that the code names, if there is code, is at most `hi`.
pub open spec fn within(code: Result<Seq<OpCode>, Error>, hi: int) -> bool {
    code matches Ok(c) ==> targets_within(c, hi)
}

/// Every function of the table starts at `hi` at the latest.
pub open spec fn entries_within(funcs: Seq<Function>, hi: int) -> bool {
    forall|i: int| 0 <= i < funcs.len() ==> (#[trigger] funcs[i]).addr <= hi
}

/// Whether a function called `main` is among the global definitions from the `i`-th on.
pub open spec fn defines_main(defs: Seq<GlobalDef>, i: nat) -> bool
    decreases defs.len() - i,
{
    if i >= defs.len() {
        false
    } else {
        (defs[i as int] matches GlobalDef::FuncDef(f) && f.ident@ == main_name()) || defines_main(
            defs,
            i + 1,
        )
    }
}

proof fn lemma_binary_within(
    lhs: Result<Seq<OpCode>, Error>,
    rhs: Result<Seq<OpCode>, Error>,
    op: Option<OpCode>,
    hi: int,
)
    requires
        within(lhs, hi),
        within(rhs, hi),
        op matches Some(o) ==> in_order(o, hi),
    ensures
        within(binary(lhs, rhs, op), hi),
{
}

proof fn lemma_followed_within(code: Result<Seq<OpCode>, Error>, op: OpCode, hi: int)
    requires
        within(code, hi),
        in_order(op, hi),
    ensures
        within(followed(code, op), hi),
{
}

proof fn lemma_sequenced_within(
    first: Result<Seq<OpCode>, Error>,
    second: Result<Seq<OpCode>, Error>,
    hi: int,
)
    requires
        within(first, hi),
        within(second, hi),
    ensures
        within(sequenced(first, second), hi),
{
}

proof fn lemma_exp_within(e: Exp, env: Scopes, hi: int)
    requires
        entries_within(env.funcs, hi),
    ensures
        within(exp_code(e, env), hi),
    decreases e,
{
    lemma_lor_within(e.lor_exp, env, hi);
}

proof fn lemma_lor_within(e: LOrExp, env: Scopes, hi: int)
    requires
        entries_within(env.funcs, hi),
    ensures
        within(lor_code(e, env), hi),
    decreases e,
{
    match e {
        LOrExp::And(and) => lemma_land_within(and, env, hi),
        LOrExp::Or(lhs, rhs) => {
            lemma_lor_within(*lhs, env, hi);
            lemma_land_within(rhs, env, hi);
            lemma_binary_within(
                lor_code(*lhs, env),
                land_code(rhs, env),
                Some(OpCode::BinOpOr),
                hi,
            );
        },
    }
}

proof fn lemma_land_within(e: LAndExp, env: Scopes, hi: int)
    requires
        entries_within(env.funcs, hi),
    ensures
        within(land_code(e, env), hi),
    decreases e,
{
    match e {
        LAndExp::Eq(eq) => lemma_eq_within(eq, env, hi),
        LAndExp::And(lhs, rhs) => {
            lemma_land_within(*lhs, env, hi);
            lemma_eq_within(rhs, env, hi);
            lemma_binary_within(
                land_code(*lhs, env),
                eq_code(rhs, env),
                Some(OpCode::BinOpAnd),
                hi,
            );
        },
    }
}

proof fn lemma_eq_within(e: EqExp, env: Scopes, hi: int)
    requires
        entries_within(env.funcs, hi),
    ensures
        within(eq_code(e, env), hi),
    decreases e,
{
    match e {
        EqExp::Rel(rel) => lemma_rel_within(rel, env, hi),
        EqExp::Eq(lhs, op, rhs) => {
            lemma_eq_within(*lhs, env, hi);
            lemma_rel_within(rhs, env, hi);
            lemma_binary_within(eq_code(*lhs, env), rel_code(rhs, env), eq_op(op), hi);
        },
    }
}

proof fn lemma_rel_within(e: RelExp, env: Scopes, hi: int)
    requires
        entries_within(env.funcs, hi),
    ensures
        within(rel_code(e, env), hi),
    decreases e,
{
    match e {
        RelExp::Add(add) => lemma_add_within(add, env, hi),
        RelExp::Rel(lhs, op, rhs) => {
            lemma_rel_within(*lhs, env, hi);
            lemma_add_within(rhs, env, hi);
            lemma_binary_within(rel_code(*lhs, env), add_code(rhs, env), rel_op(op), hi);
        },
    }
}

proof fn lemma_add_within(e: AddExp, env: Scopes, hi: int)
    requires
        entries_within(env.funcs, hi),
    ensures
        within(add_code(e, env), hi),
    decreases e,
{
    match e {
        AddExp::Mul(mul) => lemma_mul_within(mul, env, hi),
        AddExp::Add(lhs, op, rhs) => {
            lemma_add_within(*lhs, env, hi);
            lemma_mul_within(rhs, env, hi);
            lemma_binary_within(add_code(*lhs, env), mul_code(rhs, env), add_op(op), hi);
        },
    }
}

proof fn lemma_mul_within(e: MulExp, env: Scopes, hi: int)
    requires
        entries_within(env.funcs, hi),
    ensures
        within(mul_code(e, env), hi),
    decreases e,
{
    match e {
        MulExp::Unary(una) => lemma_unary_within(una, env, hi),
        MulExp::Mul(lhs, op, rhs) => {
            lemma_mul_within(*lhs, env, hi);
            lemma_unary_within(rhs, env, hi);
            lemma_binary_within(mul_code(*lhs, env), unary_code(rhs, env), mul_op(op), hi);
        },
    }
}

proof fn lemma_unary_within(e: UnaryExp, env: Scopes, hi: int)
    requires
        entries_within(env.funcs, hi),
    ensures
        within(unary_code(e, env), hi),
    decreases e,
{
    match e {
        UnaryExp::Pri(pri) => lemma_primary_within(pri, env, hi),
        UnaryExp::Unary(op, una) => {
            lemma_unary_within(*una, env, hi);
            lemma_followed_within(unary_code(*una, env), unary_op(op), hi);
        },
        UnaryExp::FuncCall { ident, funcrparams } => {
            lemma_lookup(env.funcs, ident@, 0);
            match funcrparams {
                Some(params) => {
                    lemma_prints_within(params, 0, env, hi);
                    lemma_args_within(params, params.exps.len() as nat, env, hi);
                    if let Some(f) = env.function(ident@) {
                        lemma_followed_within(
                            args_code(params, params.exps.len() as nat, env),
                            OpCode::Call(f.addr, params.exps.len()),
                            hi,
                        );
                    }
                },
                None => {},
            }
        },
    }
}

proof fn lemma_prints_within(params: FuncRParams, i: nat, env: Scopes, hi: int)
    requires
        entries_within(env.funcs, hi),
    ensures
        within(prints_code(params, i, env), hi),
    decreases params, params.exps.len() - i,
{
    if i < params.exps.len() {
        let item = exp_code(params.exps@[i as int], env);
        lemma_exp_within(params.exps@[i as int], env, hi);
        lemma_followed_within(item, OpCode::PrintItem, hi);
        lemma_followed_within(followed(item, OpCode::PrintItem), OpCode::PrintNewline, hi);
        lemma_prints_within(params, i + 1, env, hi);
        lemma_sequenced_within(
            followed(followed(item, OpCode::PrintItem), OpCode::PrintNewline),
            prints_code(params, i + 1, env),
            hi,
        );
    }
}

proof fn lemma_args_within(params: FuncRParams, n: nat, env: Scopes, hi: int)
    requires
        entries_within(env.funcs, hi),
    ensures
        within(args_code(params, n, env), hi),
    decreases params, n,
{
    if n != 0 && n <= params.exps.len() {
        lemma_exp_within(params.exps@[n - 1], env, hi);
        lemma_args_within(params, (n - 1) as nat, env, hi);
        lemma_sequenced_within(
            exp_code(params.exps@[n - 1], env),
            args_code(params, (n - 1) as nat, env),
            hi,
        );
    }
}

proof fn lemma_primary_within(e: PrimaryExp, env: Scopes, hi: int)
    requires
        entries_within(env.funcs, hi),
    ensures
        within(primary_code(e, env), hi),
    decreases e,
{
    match e {
        PrimaryExp::Exp(exp) => lemma_exp_within(*exp, env, hi),
        PrimaryExp::Number(_) => {},
        PrimaryExp::LVal(_) => {},
    }
}

/// An expression names no address but the entries of the functions it calls.
pub proof fn lemma_expression_targets(e: Exp, env: Scopes, hi: int)
    requires
        entries_within(env.funcs, hi),
    ensures
        within(exp_code(e, env), hi),
{
    lemma_exp_within(e, env, hi);
}


/// `out` keeps the function table of `env`, and the code, if it ends at
/// `hi` at the latest when it starts at `addr`, names no address beyond `hi`.
pub open spec fn settled(out: Emitted, env: Scopes, addr: usize, hi: int) -> bool {
    &&& out.env.funcs == env.funcs
    &&& out.code matches Ok(c) ==> (addr + c.len() <= hi ==> targets_within(c, hi))
}

proof fn lemma_declaration_within(ident: Name, init: Exp, env: Scopes, ctx: Context, hi: int)
    requires
        entries_within(env.funcs, hi),
    ensures
        settled(declaration(ident, init, env, ctx), env, ctx.addr, hi),
{
    lemma_exp_within(init, env, hi);
}

proof fn lemma_decl_within(d: Decl, env: Scopes, ctx: Context, hi: int)
    requires
        entries_within(env.funcs, hi),
    ensures
        settled(decl_code(d, env, ctx), env, ctx.addr, hi),
{
    match d {
        Decl::VarDecl(decl) => lemma_declaration_within(
            decl.ident@,
            decl.initval.exp,
            env,
            ctx,
            hi,
        ),
        Decl::ValDecl(decl) => lemma_declaration_within(
            decl.ident@,
            decl.initval.exp,
            env,
            ctx,
            hi,
        ),
    }
}

proof fn lemma_if_within(
    env: Scopes,
    ctx: Context,
    cond: Result<Seq<OpCode>, Error>,
    then: Emitted,
    hi: int,
)
    requires
        within(cond, hi),
        settled(then, env, beyond(ctx.addr, cond), hi),
    ensures
        settled(if_code(env, ctx, cond, then), env, ctx.addr, hi),
{
}

proof fn lemma_if_else_within(
    env: Scopes,
    ctx: Context,
    cond: Result<Seq<OpCode>, Error>,
    then: Emitted,
    els: Emitted,
    hi: int,
)
    requires
        within(cond, hi),
        settled(then, env, beyond(ctx.addr, cond), hi),
        settled(els, then.env, beyond(beyond(ctx.addr, cond), then.code), hi),
    ensures
        settled(if_else_code(env, ctx, cond, then, els), env, ctx.addr, hi),
{
}

proof fn lemma_while_within(
    env: Scopes,
    ctx: Context,
    cond: Result<Seq<OpCode>, Error>,
    body: Emitted,
    hi: int,
)
    requires
        within(cond, hi),
        settled(body, env, beyond(ctx.addr, cond), hi),
    ensures
        settled(while_code(env, ctx, cond, body), env, ctx.addr, hi),
{
}

proof fn lemma_stmt_within(s: Stmt, env: Scopes, ctx: Context, hi: int)
    requires
        entries_within(env.funcs, hi),
    ensures
        settled(stmt_code(s, env, ctx), env, ctx.addr, hi),
    decreases s,
{
    match s {
        Stmt::Assign(lval, exp) => {
            lemma_exp_within(exp, env, hi);
        },
        Stmt::Block(block) => {
            lemma_block_within(block, env, ctx, hi);
        },
        Stmt::Exp(None) => {},
        Stmt::Exp(Some(exp)) => {
            lemma_exp_within(exp, env, hi);
        },
        Stmt::Ret(None) => {},
        Stmt::Ret(Some(exp)) => {
            lemma_exp_within(exp, env, hi);
        },
        Stmt::If { condition, then_branch, else_branch } => {
            let cond = exp_code(condition, env);
            let then_at = beyond(ctx.addr, cond);
            let then = stmt_code(*then_branch, env, ctx.at(then_at));
            let else_ctx = ctx.at(beyond(then_at, then.code));
            lemma_exp_within(condition, env, hi);
            lemma_stmt_within(*then_branch, env, ctx.at(then_at), hi);
            lemma_else_within(else_branch, then.env, else_ctx, hi);
            match else_code(else_branch, then.env, else_ctx) {
                None => lemma_if_within(env, ctx, cond, then, hi),
                Some(els) => lemma_if_else_within(env, ctx, cond, then, els, hi),
            }
        },
        Stmt::While { condition, loopbody } => {
            let cond = exp_code(condition, env);
            let inside = env.push_loop(ctx.addr);
            let body_ctx = ctx.at(beyond(ctx.addr, cond));
            lemma_exp_within(condition, env, hi);
            lemma_stmt_within(*loopbody, inside, body_ctx, hi);
            lemma_while_within(env, ctx, cond, stmt_code(*loopbody, inside, body_ctx), hi);
        },
        Stmt::FuncDef(_) => {},
        Stmt::Continue => {},
        Stmt::Break => {},
    }
}

proof fn lemma_else_within(s: Option<Box<Stmt>>, env: Scopes, ctx: Context, hi: int)
    requires
        entries_within(env.funcs, hi),
    ensures
        else_code(s, env, ctx) matches Some(out) ==> settled(out, env, ctx.addr, hi),
    decreases s,
{
    match s {
        None => {},
        Some(other) => lemma_stmt_within(*other, env, ctx, hi),
    }
}

proof fn lemma_block_within(b: Block, env: Scopes, ctx: Context, hi: int)
    requires
        entries_within(env.funcs, hi),
    ensures
        settled(block_code(b, env, ctx), env, ctx.addr, hi),
    decreases b, b.items.len() + 1,
{
    if ctx.dep == 0 {
        lemma_items_within(b, 0, env, ctx.inside(ctx.addr), hi);
    } else {
        match offset(ctx.addr, 1nat) {
            None => {},
            Some(first) => {
                lemma_items_within(b, 0, env.push_scope(), ctx.inside(first), hi);
            },
        }
    }
}

proof fn lemma_items_within(b: Block, i: nat, env: Scopes, ctx: Context, hi: int)
    requires
        entries_within(env.funcs, hi),
    ensures
        settled(items_code(b, i, env, ctx), env, ctx.addr, hi),
    decreases b, b.items.len() - i,
{
    if i < b.items.len() {
        lemma_item_within(b.items@[i as int], env, ctx, hi);
        let first = item_code(b.items@[i as int], env, ctx);
        match first.code {
            Err(_) => {},
            Ok(code) => match offset(ctx.addr, code.len()) {
                None => {},
                Some(next) => {
                    lemma_items_within(b, i + 1, first.env, ctx.at(next), hi);
                },
            },
        }
    }
}

proof fn lemma_item_within(item: BlockItem, env: Scopes, ctx: Context, hi: int)
    requires
        entries_within(env.funcs, hi),
    ensures
        settled(item_code(item, env, ctx), env, ctx.addr, hi),
    decreases item,
{
    match item {
        BlockItem::Decl(decl) => lemma_decl_within(decl, env, ctx, hi),
        BlockItem::Stmt(stmt) => lemma_stmt_within(stmt, env, ctx, hi),
    }
}

/// The jumps of a statement stay within its code, and its calls lead to
/// functions of the table: a statement whose code ends at `hi` at the latest
/// names no address beyond `hi`, if no function of the table starts beyond
/// `hi`.
pub proof fn lemma_statement_targets(s: Stmt, env: Scopes, ctx: Context, hi: int)
    requires
        entries_within(env.funcs, hi),
    ensures
        settled(stmt_code(s, env, ctx), env, ctx.addr, hi),
{
    lemma_stmt_within(s, env, ctx, hi);
}


proof fn lemma_declare_all_funcs(env: Scopes, names: Seq<Name>, i: nat)
    ensures
        declare_all(env, names, i) matches Ok(declared) ==> declared.funcs == env.funcs,
    decreases names.len() - i,
{
    if i < names.len() {
        lemma_declare_all_funcs(env.declare(0, names[i as int]), names, i + 1);
    }
}

/// The code of a function that ends at `hi` at the latest names no address
/// beyond `hi`, and afterwards the table holds no function that starts
/// beyond `hi`.
proof fn lemma_func_within(f: FuncDef, env: Scopes, addr: usize, hi: int)
    requires
        entries_within(env.funcs, hi),
    ensures
        ({
            let out = func_code(f, env, addr);
            out.code matches Ok(c) ==> (addr + c.len() <= hi ==> targets_within(c, hi)
                && entries_within(out.env.funcs, hi))
        }),
{
    if env.function(f.ident@) is None {
        let recorded = env.define(Function { name: f.ident@, addr, params: param_names(f) });
        lemma_declare_all_funcs(recorded.push_scope(), param_names(f), 0);
        match declare_all(recorded.push_scope(), param_names(f), 0) {
            Err(_) => {},
            Ok(inner) => {
                let ctx = Context { dep: 0, in_global: 0, addr };
                let out = block_code(f.block, inner, ctx);
                if let Ok(c) = out.code {
                    if addr + c.len() <= hi {
                        assert(entries_within(inner.funcs, hi));
                        lemma_block_within(f.block, inner, ctx, hi);
                    }
                }
            },
        }
    }
}

proof fn lemma_globals_within(defs: Seq<GlobalDef>, i: nat, env: Scopes, addr: usize, hi: int)
    requires
        entries_within(env.funcs, hi),
    ensures
        settled(globals_code(defs, i, env, addr), env, addr, hi),
    decreases defs.len() - i,
{
    if i < defs.len() {
        match defs[i as int] {
            GlobalDef::FuncDef(_) => lemma_globals_within(defs, i + 1, env, addr, hi),
            GlobalDef::Decl(decl) => {
                let ctx = Context { dep: 0, in_global: 1, addr };
                lemma_decl_within(decl, env, ctx, hi);
                let first = decl_code(decl, env, ctx);
                match first.code {
                    Err(_) => {},
                    Ok(code) => match offset(addr, code.len()) {
                        None => {},
                        Some(next) => lemma_globals_within(defs, i + 1, first.env, next, hi),
                    },
                }
            },
        }
    }
}

proof fn lemma_functions_within(defs: Seq<GlobalDef>, i: nat, env: Scopes, addr: usize, hi: int)
    requires
        entries_within(env.funcs, hi),
    ensures
        ({
            let out = functions_code(defs, i, env, addr);
            out.code matches Ok(c) ==> (addr + c.len() <= hi ==> {
                &&& targets_within(c, hi)
                &&& out.main matches Some(entry) ==> entry <= hi
                &&& defines_main(defs, i) ==> out.main is Some
            })
        }),
    decreases defs.len() - i,
{
    if i < defs.len() {
        match defs[i as int] {
            GlobalDef::Decl(_) => {
                lemma_functions_within(defs, i + 1, env, addr, hi);
            },
            GlobalDef::FuncDef(f) => {
                let first = func_code(f, env, addr);
                match first.code {
                    Err(_) => {},
                    Ok(code) => match offset(addr, code.len()) {
                        None => {},
                        Some(next) => {
                            let rest = functions_code(defs, i + 1, first.env, next);
                            if let Ok(more) = rest.code {
                                if addr + (code + more).len() <= hi {
                                    lemma_func_within(f, env, addr, hi);
                                    lemma_functions_within(defs, i + 1, first.env, next, hi);
                                }
                            }
                        },
                    },
                }
            },
        }
    }
}

/// The offset invariant. In the code of a program that defines `main`, or
/// that defines no function at all, every address that a jump or a call
/// names lies within the program: it is at most the address at which the
/// code ends. The machine accepts exactly such addresses; one that equals
/// the end halts it. Nor does the code hold a reserved instruction.
/// Functions that the environment held before must not start beyond that end.
pub proof fn lemma_offset_invariant(unit: CompUnit, env: Scopes, addr: usize, code: Seq<OpCode>)
    requires
        unit_code(unit, env, addr).code == Ok::<Seq<OpCode>, Error>(code),
        entries_within(env.funcs, addr + code.len()),
        defines_function(unit.globaldefs@, 0) ==> defines_main(unit.globaldefs@, 0),
    ensures
        targets_within(code, addr + code.len()),
{
    let defs = unit.globaldefs@;
    let hi = addr + code.len();
    let globals = globals_code(defs, 0, env, addr);
    lemma_globals_within(defs, 0, env, addr, hi);
    if defines_function(defs, 0) {
        let decls = globals.code->Ok_0;
        let first = offset(addr, decls.len() + 1)->0;
        lemma_functions_within(defs, 0, globals.env, first, hi);
    }
}

/// The offset invariant for a program compiled on its own: every address
/// that a jump or a call names is at most the length of the program, and
/// no instruction is reserved.
pub proof fn lemma_program_targets(unit: CompUnit, code: Seq<OpCode>)
    requires
        unit_code(unit, Scopes::empty(), 0).code == Ok::<Seq<OpCode>, Error>(code),
        defines_function(unit.globaldefs@, 0) ==> defines_main(unit.globaldefs@, 0),
    ensures
        forall|i: int| 0 <= i < code.len() ==> #[trigger] in_order(code[i], code.len() as int),
{
    lemma_offset_invariant(unit, Scopes::empty(), 0, code);
}


/// Whether the only function that `e` calls is `getint`: such an expression
/// compiles to straight-line code that yields one value.
pub open spec fn plain_exp(e: Exp) -> bool
    decreases e,
{
    plain_lor(e.lor_exp)
}

/// Whether the only function that an expression of `||` rank calls is `getint`.
pub open spec fn plain_lor(e: LOrExp) -> bool
    decreases e,
{
    match e {
        LOrExp::And(and) => plain_land(and),
        LOrExp::Or(lhs, rhs) => plain_lor(*lhs) && plain_land(rhs),
    }
}

/// Whether the only function that an expression of `&&` rank calls is `getint`.
pub open spec fn plain_land(e: LAndExp) -> bool
    decreases e,
{
    match e {
        LAndExp::Eq(eq) => plain_eq(eq),
        LAndExp::And(lhs, rhs) => plain_land(*lhs) && plain_eq(rhs),
    }
}

/// Whether the only function that an expression of `==` rank calls is `getint`.
pub open spec fn plain_eq(e: EqExp) -> bool
    decreases e,
{
    match e {
        EqExp::Rel(rel) => plain_rel(rel),
        EqExp::Eq(lhs, _, rhs) => plain_eq(*lhs) && plain_rel(rhs),
    }
}

/// Whether the only function that an expression of `<` rank calls is `getint`.
pub open spec fn plain_rel(e: RelExp) -> bool
    decreases e,
{
    match e {
        RelExp::Add(add) => plain_add(add),
        RelExp::Rel(lhs, _, rhs) => plain_rel(*lhs) && plain_add(rhs),
    }
}

/// Whether the only function that an expression of `+` rank calls is `getint`.
pub open spec fn plain_add(e: AddExp) -> bool
    decreases e,
{
    match e {
        AddExp::Mul(mul) => plain_mul(mul),
        AddExp::Add(lhs, _, rhs) => plain_add(*lhs) && plain_mul(rhs),
    }
}

/// Whether the only function that an expression of `*` rank calls is `getint`.
pub open spec fn plain_mul(e: MulExp) -> bool
    decreases e,
{
    match e {
        MulExp::Unary(una) => plain_unary(una),
        MulExp::Mul(lhs, _, rhs) => plain_mul(*lhs) && plain_unary(rhs),
    }
}

/// Whether the only function that a unary expression calls is `getint`.
pub open spec fn plain_unary(e: UnaryExp) -> bool
    decreases e,
{
    match e {
        UnaryExp::Pri(pri) => plain_primary(pri),
        UnaryExp::Unary(_, una) => plain_unary(*una),
        UnaryExp::FuncCall { ident, .. } => ident@ != print_name() && ident@ == getint_name(),
    }
}

/// Whether the only function that a primary expression calls is `getint`.
pub open spec fn plain_primary(e: PrimaryExp) -> bool
    decreases e,
{
    match e {
        PrimaryExp::Exp(exp) => plain_exp(*exp),
        PrimaryExp::Number(_) => true,
        PrimaryExp::LVal(_) => true,
    }
}

/// The code, if there is code, leaves `k` operands.
pub open spec fn yielding(code: Result<Seq<OpCode>, Error>, k: nat) -> bool {
    code matches Ok(c) ==> leaves(c, k)
}

/// Code that leaves `j` operands, followed by a straight instruction that
/// finds its operands among them.
pub proof fn lemma_leaves_push(code: Seq<OpCode>, j: nat, op: OpCode)
    requires
        leaves(code, j),
        straight(op),
        demand(op) <= j,
    ensures
        leaves(code.push(op), (j - demand(op) + supply(op)) as nat),
{
    assert forall|have: nat| #[trigger]
        settle(code.push(op), 0, have) == Some((have + j - demand(op) + supply(op)) as nat) by {
        assert(code.push(op) =~= code + seq![op]);
        lemma_settle_concat(code, seq![op], 0, have);
        assert(settle(code, 0, have) == Some(have + j));
        assert(settle(seq![op], 1, (have + j - demand(op) + supply(op)) as nat) == Some(
            (have + j - demand(op) + supply(op)) as nat,
        ));
    }
}

/// Code without instructions leaves nothing.
pub proof fn lemma_leaves_nothing()
    ensures
        leaves(Seq::<OpCode>::empty(), 0),
{
}

proof fn lemma_binary_yields(
    lhs: Result<Seq<OpCode>, Error>,
    rhs: Result<Seq<OpCode>, Error>,
    op: Option<OpCode>,
)
    requires
        yielding(lhs, 1),
        yielding(rhs, 1),
        op matches Some(o) ==> straight(o) && demand(o) == 2 && supply(o) == 1,
    ensures
        yielding(binary(lhs, rhs, op), 1),
{
    if let Ok(code) = binary(lhs, rhs, op) {
        lemma_leaves_concat(lhs->Ok_0, 1, rhs->Ok_0, 1);
        lemma_leaves_push(lhs->Ok_0 + rhs->Ok_0, 2, op->0);
    }
}

proof fn lemma_exp_yields(e: Exp, env: Scopes)
    requires
        plain_exp(e),
    ensures
        yielding(exp_code(e, env), 1),
    decreases e,
{
    lemma_lor_yields(e.lor_exp, env);
}

proof fn lemma_lor_yields(e: LOrExp, env: Scopes)
    requires
        plain_lor(e),
    ensures
        yielding(lor_code(e, env), 1),
    decreases e,
{
    match e {
        LOrExp::And(and) => lemma_land_yields(and, env),
        LOrExp::Or(lhs, rhs) => {
            lemma_lor_yields(*lhs, env);
            lemma_land_yields(rhs, env);
            lemma_binary_yields(lor_code(*lhs, env), land_code(rhs, env), Some(OpCode::BinOpOr));
        },
    }
}

proof fn lemma_land_yields(e: LAndExp, env: Scopes)
    requires
        plain_land(e),
    ensures
        yielding(land_code(e, env), 1),
    decreases e,
{
    match e {
        LAndExp::Eq(eq) => lemma_eq_yields(eq, env),
        LAndExp::And(lhs, rhs) => {
            lemma_land_yields(*lhs, env);
            lemma_eq_yields(rhs, env);
            lemma_binary_yields(land_code(*lhs, env), eq_code(rhs, env), Some(OpCode::BinOpAnd));
        },
    }
}

proof fn lemma_eq_yields(e: EqExp, env: Scopes)
    requires
        plain_eq(e),
    ensures
        yielding(eq_code(e, env), 1),
    decreases e,
{
    match e {
        EqExp::Rel(rel) => lemma_rel_yields(rel, env),
        EqExp::Eq(lhs, op, rhs) => {
            lemma_eq_yields(*lhs, env);
            lemma_rel_yields(rhs, env);
            lemma_binary_yields(eq_code(*lhs, env), rel_code(rhs, env), eq_op(op));
        },
    }
}

proof fn lemma_rel_yields(e: RelExp, env: Scopes)
    requires
        plain_rel(e),
    ensures
        yielding(rel_code(e, env), 1),
    decreases e,
{
    match e {
        RelExp::Add(add) => lemma_add_yields(add, env),
        RelExp::Rel(lhs, op, rhs) => {
            lemma_rel_yields(*lhs, env);
            lemma_add_yields(rhs, env);
            lemma_binary_yields(rel_code(*lhs, env), add_code(rhs, env), rel_op(op));
        },
    }
}

proof fn lemma_add_yields(e: AddExp, env: Scopes)
    requires
        plain_add(e),
    ensures
        yielding(add_code(e, env), 1),
    decreases e,
{
    match e {
        AddExp::Mul(mul) => lemma_mul_yields(mul, env),
        AddExp::Add(lhs, op, rhs) => {
            lemma_add_yields(*lhs, env);
            lemma_mul_yields(rhs, env);
            lemma_binary_yields(add_code(*lhs, env), mul_code(rhs, env), add_op(op));
        },
    }
}

proof fn lemma_mul_yields(e: MulExp, env: Scopes)
    requires
        plain_mul(e),
    ensures
        yielding(mul_code(e, env), 1),
    decreases e,
{
    match e {
        MulExp::Unary(una) => lemma_unary_yields(una, env),
        MulExp::Mul(lhs, op, rhs) => {
            lemma_mul_yields(*lhs, env);
            lemma_unary_yields(rhs, env);
            lemma_binary_yields(mul_code(*lhs, env), unary_code(rhs, env), mul_op(op));
        },
    }
}

proof fn lemma_unary_yields(e: UnaryExp, env: Scopes)
    requires
        plain_unary(e),
    ensures
        yielding(unary_code(e, env), 1),
    decreases e,
{
    match e {
        UnaryExp::Pri(pri) => lemma_primary_yields(pri, env),
        UnaryExp::Unary(op, una) => {
            lemma_unary_yields(*una, env);
            if let Ok(code) = unary_code(*una, env) {
                lemma_leaves_push(code, 1, unary_op(op));
            }
        },
        UnaryExp::FuncCall { .. } => {
            lemma_leaves_nothing();
            lemma_leaves_push(Seq::empty(), 0, OpCode::GetInt);
            assert(Seq::<OpCode>::empty().push(OpCode::GetInt) =~= seq![OpCode::GetInt]);
        },
    }
}

proof fn lemma_primary_yields(e: PrimaryExp, env: Scopes)
    requires
        plain_primary(e),
    ensures
        yielding(primary_code(e, env), 1),
    decreases e,
{
    lemma_leaves_nothing();
    match e {
        PrimaryExp::Exp(exp) => lemma_exp_yields(*exp, env),
        PrimaryExp::Number(num) => {
            lemma_leaves_push(Seq::empty(), 0, OpCode::LoadConst(num));
            assert(Seq::<OpCode>::empty().push(OpCode::LoadConst(num)) =~= seq![
                OpCode::LoadConst(num),
            ]);
        },
        PrimaryExp::LVal(lval) => {
            if let Ok(code) = lval_code(lval, env) {
                lemma_leaves_push(Seq::empty(), 0, code[0]);
                assert(Seq::<OpCode>::empty().push(code[0]) =~= code);
            }
        },
    }
}

/// An expression that calls no function but `getint` compiles to
/// straight-line code that leaves one operand: its value.
pub proof fn lemma_expression_yields(e: Exp, env: Scopes)
    requires
        plain_exp(e),
    ensures
        yielding(exp_code(e, env), 1),
{
    lemma_exp_yields(e, env);
}


/// The unary expression that `e` is, where it is nothing more.
pub open spec fn bare(e: Exp) -> Option<UnaryExp> {
    match e.lor_exp {
        LOrExp::And(LAndExp::Eq(EqExp::Rel(RelExp::Add(AddExp::Mul(MulExp::Unary(una)))))) => Some(
            una,
        ),
        _ => None,
    }
}

/// Whether the arguments from the `i`-th on call no function but `getint`.
pub open spec fn plain_args(params: FuncRParams, i: nat) -> bool
    decreases params.exps.len() - i,
{
    if i >= params.exps.len() {
        true
    } else {
        plain_exp(params.exps@[i as int]) && plain_args(params, i + 1)
    }
}

/// Whether `e` is a call of `print` whose arguments call no function but `getint`.
pub open spec fn plain_print(e: Exp) -> bool {
    bare(e) matches Some(UnaryExp::FuncCall { ident, funcrparams }) && ident@ == print_name() && (
    funcrparams matches Some(params) ==> plain_args(params, 0))
}

/// The number of operands that a straight-line expression statement
/// leaves: none for a call of `print`, one for any other expression.
pub open spec fn exp_yield(e: Exp) -> Option<nat> {
    if plain_print(e) {
        Some(0)
    } else if plain_exp(e) {
        Some(1)
    } else {
        None
    }
}

/// The number of operands that a straight-line item leaves, or `None` for
/// an item that is not straight-line. Straight-line are the declarations,
/// the assignments and the expression statements whose expressions call no
/// function but `getint`, and the calls of `print` with such arguments.
pub open spec fn item_yield(item: BlockItem) -> Option<nat> {
    match item {
        BlockItem::Decl(Decl::VarDecl(decl)) => if plain_exp(decl.initval.exp) {
            Some(0)
        } else {
            None
        },
        BlockItem::Decl(Decl::ValDecl(decl)) => if plain_exp(decl.initval.exp) {
            Some(0)
        } else {
            None
        },
        BlockItem::Stmt(Stmt::Assign(_, exp)) => if plain_exp(exp) {
            Some(0)
        } else {
            None
        },
        BlockItem::Stmt(Stmt::Exp(None)) => Some(0),
        BlockItem::Stmt(Stmt::Exp(Some(exp))) => exp_yield(exp),
        _ => None,
    }
}

/// The number of operands that the items from the `i`-th on leave, if all
/// of them are straight-line.
pub open spec fn items_yield(b: Block, i: nat) -> Option<nat>
    decreases b.items.len() - i,
{
    if i >= b.items.len() {
        Some(0)
    } else {
        match (item_yield(b.items@[i as int]), items_yield(b, i + 1)) {
            (Some(first), Some(rest)) => Some(first + rest),
            _ => None,
        }
    }
}

proof fn lemma_prints_yield(params: FuncRParams, i: nat, env: Scopes)
    requires
        plain_args(params, i),
    ensures
        yielding(prints_code(params, i, env), 0),
    decreases params.exps.len() - i,
{
    lemma_leaves_nothing();
    if i < params.exps.len() {
        let arg = exp_code(params.exps@[i as int], env);
        lemma_exp_yields(params.exps@[i as int], env);
        lemma_prints_yield(params, i + 1, env);
        if let Ok(code) = arg {
            lemma_leaves_push(code, 1, OpCode::PrintItem);
            lemma_leaves_push(code.push(OpCode::PrintItem), 0, OpCode::PrintNewline);
            if let Ok(rest) = prints_code(params, i + 1, env) {
                lemma_leaves_concat(
                    code.push(OpCode::PrintItem).push(OpCode::PrintNewline),
                    0,
                    rest,
                    0,
                );
            }
        }
    }
}

proof fn lemma_print_yields(e: Exp, env: Scopes)
    requires
        plain_print(e),
    ensures
        yielding(exp_code(e, env), 0),
{
    lemma_leaves_nothing();
    let una = bare(e)->0;
    assert(exp_code(e, env) == unary_code(una, env)) by {
        reveal_with_fuel(exp_code, 2);
        reveal_with_fuel(lor_code, 2);
        reveal_with_fuel(land_code, 2);
        reveal_with_fuel(eq_code, 2);
        reveal_with_fuel(rel_code, 2);
        reveal_with_fuel(add_code, 2);
        reveal_with_fuel(mul_code, 2);
    }
    match una {
        UnaryExp::FuncCall { ident, funcrparams: Some(params) } => {
            lemma_prints_yield(params, 0, env);
        },
        _ => {},
    }
}

proof fn lemma_item_yields(item: BlockItem, env: Scopes, ctx: Context)
    requires
        item_yield(item) is Some,
    ensures
        yielding(item_code(item, env, ctx).code, item_yield(item)->0),
{
    lemma_leaves_nothing();
    match item {
        BlockItem::Decl(Decl::VarDecl(decl)) => {
            lemma_exp_yields(decl.initval.exp, env);
            let out = declaration(decl.ident@, decl.initval.exp, env, ctx);
            if let Ok(code) = out.code {
                lemma_leaves_push(exp_code(decl.initval.exp, env)->Ok_0, 1, code.last());
                assert(code =~= exp_code(decl.initval.exp, env)->Ok_0.push(code.last()));
            }
        },
        BlockItem::Decl(Decl::ValDecl(decl)) => {
            lemma_exp_yields(decl.initval.exp, env);
            let out = declaration(decl.ident@, decl.initval.exp, env, ctx);
            if let Ok(code) = out.code {
                lemma_leaves_push(exp_code(decl.initval.exp, env)->Ok_0, 1, code.last());
                assert(code =~= exp_code(decl.initval.exp, env)->Ok_0.push(code.last()));
            }
        },
        BlockItem::Stmt(Stmt::Assign(lval, exp)) => {
            lemma_exp_yields(exp, env);
            if let Ok(code) = assign_code(lval, exp, env) {
                lemma_leaves_push(exp_code(exp, env)->Ok_0, 1, code.last());
                assert(code =~= exp_code(exp, env)->Ok_0.push(code.last()));
            }
        },
        BlockItem::Stmt(Stmt::Exp(None)) => {},
        BlockItem::Stmt(Stmt::Exp(Some(exp))) => {
            if plain_print(exp) {
                lemma_print_yields(exp, env);
            } else {
                lemma_exp_yields(exp, env);
            }
        },
        _ => {},
    }
}

proof fn lemma_items_yield(b: Block, i: nat, env: Scopes, ctx: Context)
    requires
        items_yield(b, i) is Some,
    ensures
        yielding(items_code(b, i, env, ctx).code, items_yield(b, i)->0),
    decreases b.items.len() - i,
{
    lemma_leaves_nothing();
    if i < b.items.len() {
        let first = item_code(b.items@[i as int], env, ctx);
        lemma_item_yields(b.items@[i as int], env, ctx);
        match first.code {
            Err(_) => {},
            Ok(code) => match offset(ctx.addr, code.len()) {
                None => {},
                Some(next) => {
                    lemma_items_yield(b, i + 1, first.env, ctx.at(next));
                    if let Ok(more) = items_code(b, i + 1, first.env, ctx.at(next)).code {
                        lemma_leaves_concat(
                            code,
                            item_yield(b.items@[i as int])->0,
                            more,
                            items_yield(b, i + 1)->0,
                        );
                    }
                },
            },
        }
    }
}

/// Stack discipline. The code of a sequence of straight-line items is
/// straight-line, and it leaves one operand for each expression statement
/// that is no call of `print`, since no `Pop` follows such a statement. So a
/// sequence of declarations, assignments and calls of `print` leaves none.
pub proof fn lemma_items_leave(b: Block, env: Scopes, ctx: Context, code: Seq<OpCode>, k: nat)
    requires
        items_yield(b, 0) == Some(k),
        items_code(b, 0, env, ctx).code == Ok::<Seq<OpCode>, Error>(code),
    ensures
        leaves(code, k),
{
    lemma_items_yield(b, 0, env, ctx);
}

/// Stack discipline, at run time. Let a machine stand at the code of a
/// sequence of straight-line items that leaves `k` operands. If it gets
/// through that code, one step for each instruction, it stands at the end
/// of the code, the operand stack below is as it was, and `k` operands lie
/// on top of it. With `k == 0` the operand stack is unchanged.
pub proof fn lemma_stack_discipline(
    b: Block,
    env: Scopes,
    ctx: Context,
    code: Seq<OpCode>,
    k: nat,
    m: Machine,
    input: Seq<i32>,
)
    requires
        items_yield(b, 0) == Some(k),
        items_code(b, 0, env, ctx).code == Ok::<Seq<OpCode>, Error>(code),
        m.wf(),
        m.code.len() <= usize::MAX,
        m.pc + code.len() <= m.code.len(),
        m.code.subrange(m.pc as int, m.pc + code.len()) == code,
    ensures
        ({
            let end = m.run(input, code.len());
            end.stop == Ok::<Stop, Fault>(Stop::Exhausted) ==> {
                &&& end.machine.pc == m.pc + code.len()
                &&& end.machine.stack.len() == m.stack.len() + k
                &&& end.machine.stack.take(m.stack.len() as int) == m.stack
                &&& k == 0 ==> end.machine.stack == m.stack
            }
        }),
{
    lemma_items_yield(b, 0, env, ctx);
    assert(settle(code, 0, 0) == Some(k));
    lemma_straight_line(m, input, Seq::empty(), code, 0, 0, k);
    let end = m.run(input, code.len());
    assert(m.stack.take(m.stack.len() as int) =~= m.stack);
    if k == 0 && end.stop == Ok::<Stop, Fault>(Stop::Exhausted) {
        assert(end.machine.stack.take(m.stack.len() as int) =~= end.machine.stack);
    }
}


/// `out` leaves as many scopes open as `env` has, the same loops, and the
/// same functions.
pub open spec fn balanced(out: Emitted, env: Scopes) -> bool {
    &&& out.env.scopes.len() == env.scopes.len()
    &&& out.env.loops == env.loops
    &&& out.env.funcs == env.funcs
}

proof fn lemma_stmt_balanced(s: Stmt, env: Scopes, ctx: Context)
    requires
        env.scopes.len() >= 1,
    ensures
        balanced(stmt_code(s, env, ctx), env),
    decreases s,
{
    match s {
        Stmt::Block(block) => {
            lemma_block_balanced(block, env, ctx);
        },
        Stmt::If { condition, then_branch, else_branch } => {
            let cond = exp_code(condition, env);
            let then_at = beyond(ctx.addr, cond);
            let then = stmt_code(*then_branch, env, ctx.at(then_at));
            lemma_stmt_balanced(*then_branch, env, ctx.at(then_at));
            lemma_else_balanced(else_branch, then.env, ctx.at(beyond(then_at, then.code)));
        },
        Stmt::While { condition, loopbody } => {
            let cond = exp_code(condition, env);
            let inside = env.push_loop(ctx.addr);
            lemma_stmt_balanced(*loopbody, inside, ctx.at(beyond(ctx.addr, cond)));
            assert(inside.loops.drop_last() =~= env.loops);
        },
        _ => {},
    }
}

proof fn lemma_else_balanced(s: Option<Box<Stmt>>, env: Scopes, ctx: Context)
    requires
        env.scopes.len() >= 1,
    ensures
        else_code(s, env, ctx) matches Some(out) ==> balanced(out, env),
    decreases s,
{
    match s {
        None => {},
        Some(other) => lemma_stmt_balanced(*other, env, ctx),
    }
}

proof fn lemma_block_balanced(b: Block, env: Scopes, ctx: Context)
    requires
        env.scopes.len() >= 1,
    ensures
        balanced(block_code(b, env, ctx), env),
    decreases b, b.items.len() + 1,
{
    if ctx.dep == 0 {
        lemma_items_balanced(b, 0, env, ctx.inside(ctx.addr));
    } else {
        match offset(ctx.addr, 1nat) {
            None => {},
            Some(first) => {
                lemma_items_balanced(b, 0, env.push_scope(), ctx.inside(first));
            },
        }
    }
}

proof fn lemma_items_balanced(b: Block, i: nat, env: Scopes, ctx: Context)
    requires
        env.scopes.len() >= 1,
    ensures
        balanced(items_code(b, i, env, ctx), env),
    decreases b, b.items.len() - i,
{
    if i < b.items.len() {
        lemma_item_balanced(b.items@[i as int], env, ctx);
        let first = item_code(b.items@[i as int], env, ctx);
        match first.code {
            Err(_) => {},
            Ok(code) => match offset(ctx.addr, code.len()) {
                None => {},
                Some(next) => {
                    lemma_items_balanced(b, i + 1, first.env, ctx.at(next));
                },
            },
        }
    }
}

proof fn lemma_item_balanced(item: BlockItem, env: Scopes, ctx: Context)
    requires
        env.scopes.len() >= 1,
    ensures
        balanced(item_code(item, env, ctx), env),
    decreases item,
{
    match item {
        BlockItem::Decl(_) => {},
        BlockItem::Stmt(stmt) => lemma_stmt_balanced(stmt, env, ctx),
    }
}

/// Scopes and loops are opened and closed in pairs. Whether a statement
/// compiles or is rejected, afterwards as many scopes are open as before,
/// the same loops are open, and the function table is as it was.
pub proof fn lemma_scopes_balanced(s: Stmt, env: Scopes, ctx: Context)
    requires
        env.wf(),
    ensures
        balanced(stmt_code(s, env, ctx), env),
{
    lemma_stmt_balanced(s, env, ctx);
}

/// A machine whose program is in order never meets a jump out of range,
/// nor an instruction without a meaning.
pub proof fn lemma_jumps_in_range(m: Machine)
    requires
        targets_within(m.code, m.code.len() as int),
    ensures
        m.step() != Err::<(Machine, crate::vm::Action), Fault>(Fault::JumpOutOfRange),
        m.step() != Err::<(Machine, crate::vm::Action), Fault>(Fault::IllegalInstruction),
{
    if m.pc < m.code.len() {
        assert(in_order(m.code[m.pc as int], m.code.len() as int));
    }
}


/// A program that went through its words and their text runs as the
/// program itself: reading the text gives back the words, decoding the
/// words gives back the program, and so the runs are the same.
pub proof fn lemma_serialised_runs_alike(code: Seq<OpCode>, input: Seq<i32>, fuel: nat)
    ensures
        text_words(words_text(encode(code))) == Ok::<Seq<usize>, usize>(encode(code)),
        decode(encode(code)) == Ok::<Seq<OpCode>, usize>(code),
        Machine::start(decode(encode(code))->Ok_0).run(input, fuel) == Machine::start(code).run(
            input,
            fuel,
        ),
{
    lemma_text_round_trip(encode(code));
    lemma_round_trip(code);
}

} // verus!
