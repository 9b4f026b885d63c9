//! The tree-walking interpreter.

pub mod environment;
pub mod eval;
pub mod semantics;
pub mod values;

use crate::ast::{
    AddExp, BlockItem, Decl, EqExp, Exp, InitVal, LAndExp, LOrExp, MulExp, PrimaryExp, RelExp,
    Stmt, UnaryExp,
};
use crate::error::Error;
use eval::Interpreter;
use semantics::{
    eval_add, eval_eq, eval_exp, eval_land, eval_lor, eval_mul, eval_primary, eval_rel,
    eval_unary, exec_decl, exec_item, exec_stmt, Evaluated, Executed, Store, World,
};
use values::Label;
use vstd::prelude::*;

verus! {

/// A node of the syntax tree that has a value.
pub trait Evaluate {
    /// The store after the node is evaluated and its value, or the error.
    spec fn value(&self, w: World, st: Store, fuel: nat) -> Evaluated;

    /// Evaluates the node: its value, or `None` for a call that yields
    /// none. `fuel` limits how deep calls and loops may be nested.
    fn eval(&self, env: &mut Interpreter<'_>, fuel: usize) -> (r: Result<Option<i32>, Error>)
        requires
            old(env).wf(),
        ensures
            final(env).wf(),
            final(env).world() == old(env).world(),
            match self.value(old(env).world(), old(env)@, fuel as nat) {
                Ok((st, v)) => r == Ok::<Option<i32>, Error>(v) && final(env)@ == st,
                Err(e) => r == Err::<Option<i32>, Error>(e),
            },
    ;
}

/// A node of the syntax tree that can be run.
pub trait Execute {
    /// The store after the node has run and how it ended, or the error.
    spec fn effect(&self, w: World, st: Store, fuel: nat) -> Executed;

    /// Runs the node: how it ended, or `None` where it just ended. `fuel`
    /// limits how deep calls and loops may be nested.
    fn run(&self, env: &mut Interpreter<'_>, fuel: usize) -> (r: Result<Option<Label>, Error>)
        requires
            old(env).wf(),
        ensures
            final(env).wf(),
            final(env).world() == old(env).world(),
            match self.effect(old(env).world(), old(env)@, fuel as nat) {
                Ok((st, label)) => r == Ok::<Option<Label>, Error>(label) && final(env)@ == st,
                Err(e) => r == Err::<Option<Label>, Error>(e),
            },
    ;
}

impl Evaluate for Exp {
    open spec fn value(&self, w: World, st: Store, fuel: nat) -> Evaluated {
        eval_exp(*self, w, st, fuel)
    }

    fn eval(&self, env: &mut Interpreter<'_>, fuel: usize) -> (r: Result<Option<i32>, Error>) {
        env.eval_exp(self, fuel)
    }
}

impl Evaluate for InitVal {
    open spec fn value(&self, w: World, st: Store, fuel: nat) -> Evaluated {
        eval_exp(self.exp, w, st, fuel)
    }

    fn eval(&self, env: &mut Interpreter<'_>, fuel: usize) -> (r: Result<Option<i32>, Error>) {
        env.eval_exp(&self.exp, fuel)
    }
}

impl Evaluate for LOrExp {
    open spec fn value(&self, w: World, st: Store, fuel: nat) -> Evaluated {
        eval_lor(*self, w, st, fuel)
    }

    fn eval(&self, env: &mut Interpreter<'_>, fuel: usize) -> (r: Result<Option<i32>, Error>) {
        env.eval_lor(self, fuel)
    }
}

impl Evaluate for LAndExp {
    open spec fn value(&self, w: World, st: Store, fuel: nat) -> Evaluated {
        eval_land(*self, w, st, fuel)
    }

    fn eval(&self, env: &mut Interpreter<'_>, fuel: usize) -> (r: Result<Option<i32>, Error>) {
        env.eval_land(self, fuel)
    }
}

impl Evaluate for EqExp {
    open spec fn value(&self, w: World, st: Store, fuel: nat) -> Evaluated {
        eval_eq(*self, w, st, fuel)
    }

    fn eval(&self, env: &mut Interpreter<'_>, fuel: usize) -> (r: Result<Option<i32>, Error>) {
        env.eval_eq(self, fuel)
    }
}

impl Evaluate for RelExp {
    open spec fn value(&self, w: World, st: Store, fuel: nat) -> Evaluated {
        eval_rel(*self, w, st, fuel)
    }

    fn eval(&self, env: &mut Interpreter<'_>, fuel: usize) -> (r: Result<Option<i32>, Error>) {
        env.eval_rel(self, fuel)
    }
}

impl Evaluate for AddExp {
    open spec fn value(&self, w: World, st: Store, fuel: nat) -> Evaluated {
        eval_add(*self, w, st, fuel)
    }

    fn eval(&self, env: &mut Interpreter<'_>, fuel: usize) -> (r: Result<Option<i32>, Error>) {
        env.eval_add(self, fuel)
    }
}

impl Evaluate for MulExp {
    open spec fn value(&self, w: World, st: Store, fuel: nat) -> Evaluated {
        eval_mul(*self, w, st, fuel)
    }

    fn eval(&self, env: &mut Interpreter<'_>, fuel: usize) -> (r: Result<Option<i32>, Error>) {
        env.eval_mul(self, fuel)
    }
}

impl Evaluate for UnaryExp {
    open spec fn value(&self, w: World, st: Store, fuel: nat) -> Evaluated {
        eval_unary(*self, w, st, fuel)
    }

    fn eval(&self, env: &mut Interpreter<'_>, fuel: usize) -> (r: Result<Option<i32>, Error>) {
        env.eval_unary(self, fuel)
    }
}

impl Evaluate for PrimaryExp {
    open spec fn value(&self, w: World, st: Store, fuel: nat) -> Evaluated {
        eval_primary(*self, w, st, fuel)
    }

    fn eval(&self, env: &mut Interpreter<'_>, fuel: usize) -> (r: Result<Option<i32>, Error>) {
        env.eval_primary(self, fuel)
    }
}

impl Execute for Decl {
    open spec fn effect(&self, w: World, st: Store, fuel: nat) -> Executed {
        exec_decl(*self, w, st, fuel)
    }

    fn run(&self, env: &mut Interpreter<'_>, fuel: usize) -> (r: Result<Option<Label>, Error>) {
        env.exec_decl(self, fuel)
    }
}

impl Execute for BlockItem {
    open spec fn effect(&self, w: World, st: Store, fuel: nat) -> Executed {
        exec_item(*self, w, st, fuel)
    }

    fn run(&self, env: &mut Interpreter<'_>, fuel: usize) -> (r: Result<Option<Label>, Error>) {
        env.exec_item(self, fuel)
    }
}

impl Execute for Stmt {
    open spec fn effect(&self, w: World, st: Store, fuel: nat) -> Executed {
        exec_stmt(*self, w, st, fuel)
    }

    fn run(&self, env: &mut Interpreter<'_>, fuel: usize) -> (r: Result<Option<Label>, Error>) {
        env.exec_stmt(self, fuel)
    }
}

} // verus!
