//! From the syntax tree to bytecode, and from bytecode to words and back.

pub mod environment;
pub mod laws;
pub mod scheme;
pub mod translate;

use crate::ast::{
    AddExp, Block, BlockItem, CompUnit, Decl, EqExp, Exp, FuncDef, InitVal, LAndExp, LOrExp, LVal,
    MulExp, PrimaryExp, RelExp, Stmt, UnaryExp, ValDecl, VarDecl,
};
use crate::error::Error;
use crate::vm::OpCode;
use environment::{Environment, Scopes};
use scheme::{
    add_code, block_code, decl_code, declaration, eq_code, exp_code, func_code, item_code,
    land_code, lor_code, lval_code, mul_code, primary_code, rel_code, stmt_code, unary_code,
    unit_code, Context, Emitted,
};
use translate::{
    context, context_of, emits, translate_add, translate_block, translate_decl, translate_declaration,
    translate_eq,
    translate_exp, translate_func, translate_item, translate_land, translate_lor, translate_lval,
    translate_mul, translate_primary, translate_rel, translate_stmt, translate_unary,
    translate_unit,
};
use vstd::prelude::*;

verus! {

/// A node of the syntax tree that compiles to bytecode.
pub trait TransByteCode {
    /// What the node compiles to in the environment `env` and the context
    /// `ctx`: the environment afterwards, and the code or the error.
    spec fn emitted(&self, env: Scopes, ctx: Context) -> Emitted;

    /// Compiles the node in the context that `extension` packs: the block
    /// depth above bit 16, the global flag in bit 16, and below them the
    /// address that the first instruction gets.
    fn translate_byte(&self, env: &mut Environment, extension: usize) -> (r: Result<
        Vec<OpCode>,
        Error,
    >)
        requires
            old(env).wf(),
        ensures
            final(env).wf(),
            emits(r, final(env)@, self.emitted(old(env)@, context_of(extension))),
    ;
}

impl TransByteCode for CompUnit {
    open spec fn emitted(&self, env: Scopes, ctx: Context) -> Emitted {
        unit_code(*self, env, ctx.addr)
    }

    fn translate_byte(&self, env: &mut Environment, extension: usize) -> (r: Result<
        Vec<OpCode>,
        Error,
    >) {
        translate_unit(self, env, context(extension).addr)
    }
}

impl TransByteCode for FuncDef {
    open spec fn emitted(&self, env: Scopes, ctx: Context) -> Emitted {
        func_code(*self, env, ctx.addr)
    }

    fn translate_byte(&self, env: &mut Environment, extension: usize) -> (r: Result<
        Vec<OpCode>,
        Error,
    >) {
        translate_func(self, env, context(extension).addr)
    }
}

impl TransByteCode for Block {
    open spec fn emitted(&self, env: Scopes, ctx: Context) -> Emitted {
        block_code(*self, env, ctx)
    }

    fn translate_byte(&self, env: &mut Environment, extension: usize) -> (r: Result<
        Vec<OpCode>,
        Error,
    >) {
        translate_block(self, env, context(extension))
    }
}

impl TransByteCode for BlockItem {
    open spec fn emitted(&self, env: Scopes, ctx: Context) -> Emitted {
        item_code(*self, env, ctx)
    }

    fn translate_byte(&self, env: &mut Environment, extension: usize) -> (r: Result<
        Vec<OpCode>,
        Error,
    >) {
        translate_item(self, env, context(extension))
    }
}

impl TransByteCode for Stmt {
    open spec fn emitted(&self, env: Scopes, ctx: Context) -> Emitted {
        stmt_code(*self, env, ctx)
    }

    fn translate_byte(&self, env: &mut Environment, extension: usize) -> (r: Result<
        Vec<OpCode>,
        Error,
    >) {
        translate_stmt(self, env, context(extension))
    }
}

impl TransByteCode for Decl {
    open spec fn emitted(&self, env: Scopes, ctx: Context) -> Emitted {
        decl_code(*self, env, ctx)
    }

    fn translate_byte(&self, env: &mut Environment, extension: usize) -> (r: Result<
        Vec<OpCode>,
        Error,
    >) {
        translate_decl(self, env, context(extension))
    }
}

impl TransByteCode for VarDecl {
    open spec fn emitted(&self, env: Scopes, ctx: Context) -> Emitted {
        declaration(self.ident@, self.initval.exp, env, ctx)
    }

    fn translate_byte(&self, env: &mut Environment, extension: usize) -> (r: Result<
        Vec<OpCode>,
        Error,
    >) {
        translate_declaration(&self.ident, &self.initval.exp, env, context(extension))
    }
}

impl TransByteCode for ValDecl {
    open spec fn emitted(&self, env: Scopes, ctx: Context) -> Emitted {
        declaration(self.ident@, self.initval.exp, env, ctx)
    }

    fn translate_byte(&self, env: &mut Environment, extension: usize) -> (r: Result<
        Vec<OpCode>,
        Error,
    >) {
        translate_declaration(&self.ident, &self.initval.exp, env, context(extension))
    }
}

impl TransByteCode for Exp {
    open spec fn emitted(&self, env: Scopes, ctx: Context) -> Emitted {
        Emitted { env, code: exp_code(*self, env) }
    }

    fn translate_byte(&self, env: &mut Environment, extension: usize) -> (r: Result<
        Vec<OpCode>,
        Error,
    >) {
        translate_exp(self, env)
    }
}

impl TransByteCode for InitVal {
    open spec fn emitted(&self, env: Scopes, ctx: Context) -> Emitted {
        Emitted { env, code: exp_code(self.exp, env) }
    }

    fn translate_byte(&self, env: &mut Environment, extension: usize) -> (r: Result<
        Vec<OpCode>,
        Error,
    >) {
        translate_exp(&self.exp, env)
    }
}

impl TransByteCode for LOrExp {
    open spec fn emitted(&self, env: Scopes, ctx: Context) -> Emitted {
        Emitted { env, code: lor_code(*self, env) }
    }

    fn translate_byte(&self, env: &mut Environment, extension: usize) -> (r: Result<
        Vec<OpCode>,
        Error,
    >) {
        translate_lor(self, env)
    }
}

impl TransByteCode for LAndExp {
    open spec fn emitted(&self, env: Scopes, ctx: Context) -> Emitted {
        Emitted { env, code: land_code(*self, env) }
    }

    fn translate_byte(&self, env: &mut Environment, extension: usize) -> (r: Result<
        Vec<OpCode>,
        Error,
    >) {
        translate_land(self, env)
    }
}

impl TransByteCode for EqExp {
    open spec fn emitted(&self, env: Scopes, ctx: Context) -> Emitted {
        Emitted { env, code: eq_code(*self, env) }
    }

    fn translate_byte(&self, env: &mut Environment, extension: usize) -> (r: Result<
        Vec<OpCode>,
        Error,
    >) {
        translate_eq(self, env)
    }
}

impl TransByteCode for RelExp {
    open spec fn emitted(&self, env: Scopes, ctx: Context) -> Emitted {
        Emitted { env, code: rel_code(*self, env) }
    }

    fn translate_byte(&self, env: &mut Environment, extension: usize) -> (r: Result<
        Vec<OpCode>,
        Error,
    >) {
        translate_rel(self, env)
    }
}

impl TransByteCode for AddExp {
    open spec fn emitted(&self, env: Scopes, ctx: Context) -> Emitted {
        Emitted { env, code: add_code(*self, env) }
    }

    fn translate_byte(&self, env: &mut Environment, extension: usize) -> (r: Result<
        Vec<OpCode>,
        Error,
    >) {
        translate_add(self, env)
    }
}

impl TransByteCode for MulExp {
    open spec fn emitted(&self, env: Scopes, ctx: Context) -> Emitted {
        Emitted { env, code: mul_code(*self, env) }
    }

    fn translate_byte(&self, env: &mut Environment, extension: usize) -> (r: Result<
        Vec<OpCode>,
        Error,
    >) {
        translate_mul(self, env)
    }
}

impl TransByteCode for UnaryExp {
    open spec fn emitted(&self, env: Scopes, ctx: Context) -> Emitted {
        Emitted { env, code: unary_code(*self, env) }
    }

    fn translate_byte(&self, env: &mut Environment, extension: usize) -> (r: Result<
        Vec<OpCode>,
        Error,
    >) {
        translate_unary(self, env)
    }
}

impl TransByteCode for PrimaryExp {
    open spec fn emitted(&self, env: Scopes, ctx: Context) -> Emitted {
        Emitted { env, code: primary_code(*self, env) }
    }

    fn translate_byte(&self, env: &mut Environment, extension: usize) -> (r: Result<
        Vec<OpCode>,
        Error,
    >) {
        translate_primary(self, env)
    }
}

impl TransByteCode for LVal {
    open spec fn emitted(&self, env: Scopes, ctx: Context) -> Emitted {
        Emitted { env, code: lval_code(*self, env) }
    }

    fn translate_byte(&self, env: &mut Environment, extension: usize) -> (r: Result<
        Vec<OpCode>,
        Error,
    >) {
        translate_lval(self, env)
    }
}

} // verus!
