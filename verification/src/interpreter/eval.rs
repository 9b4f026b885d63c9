//! The interpreter: it walks the syntax tree and does what `semantics` says.

use crate::ast::{
    AddExp, BinaryOp, Block, BlockItem, CompUnit, Decl, EqExp, Exp, FuncDef, FuncRParams,
    GlobalDef, LAndExp, LOrExp, LVal, MulExp, PrimaryExp, RelExp, Stmt, UnaryExp, UnaryOp,
};
use crate::bytecode_translation::scheme::param_names;
use crate::error::{Error, Trouble};
use crate::interpreter::environment::Environment;
use crate::interpreter::semantics::{
    apply, bound, called, closed, declared, eval_add, eval_args, eval_eq, eval_exp, eval_land,
    eval_lor, eval_mul, eval_primary, eval_prints, eval_rel, eval_unary, exec_decl, exec_else,
    exec_globals, exec_item, exec_items, exec_stmt, exec_while, fresh, function_from, inside, left,
    remainder, run_unit, Store, World,
};
use crate::interpreter::values::{Label, Type, Value};
use crate::vm::{divide, flag, magnitude, Output};
use vstd::prelude::*;
use vstd::string::StringExecFns;

verus! {

/// The remainder as the interpreter computes it.
fn modulo(a: i32, b: i32) -> (r: i32)
    requires
        b != 0,
    ensures
        r == remainder(a, b),
{
    if a == i32::MIN && b == -1 {
        return 0;
    }
    let q = divide(a, b);
    proof {
        let ma = magnitude(a);
        let mb = magnitude(b);
        let t = ma / mb;
        assert(0 <= t * mb <= ma) by (nonlinear_arith)
            requires
                ma >= 0,
                mb >= 1,
                t == ma / mb,
        ;
        assert(0 <= t <= ma) by (nonlinear_arith)
            requires
                ma >= 0,
                mb >= 1,
                t == ma / mb,
        ;
        if mb == 1 {
            assert(t == ma) by (nonlinear_arith)
                requires
                    mb == 1,
                    t == ma / mb,
            ;
        } else {
            assert(t < 0x8000_0000) by (nonlinear_arith)
                requires
                    0 <= ma <= 0x8000_0000,
                    mb >= 2,
                    t == ma / mb,
            ;
        }
        assert(q == t || q == -t);
        assert(q * b == t * mb || q * b == -(t * mb)) by (nonlinear_arith)
            requires
                q == t || q == -t,
                b == mb || b == -mb,
        ;
        assert((a >= 0) == (q * b >= 0) || q * b == 0) by (nonlinear_arith)
            requires
                (a >= 0 && b > 0 && q == t) || (a < 0 && b < 0 && q == t) || (a >= 0 && b < 0 && q
                    == -t) || (a < 0 && b > 0 && q == -t),
                t >= 0,
        ;
    }
    a - q * b
}

/// What a binary operator computes.
fn compute(o: &BinaryOp, a: i32, b: i32) -> (r: Result<i32, Error>)
    ensures
        r == apply(*o, a, b),
{
    match o {
        BinaryOp::Add => Ok(a.wrapping_add(b)),
        BinaryOp::Sub => Ok(a.wrapping_sub(b)),
        BinaryOp::Mul => Ok(a.wrapping_mul(b)),
        BinaryOp::Div => if b == 0 {
            Err(Error::InterpreterError(Trouble::DivisionByZero))
        } else {
            Ok(divide(a, b))
        },
        BinaryOp::Mod => if b == 0 {
            Err(Error::InterpreterError(Trouble::DivisionByZero))
        } else {
            Ok(modulo(a, b))
        },
        BinaryOp::Lt => Ok(truth(a < b)),
        BinaryOp::Gt => Ok(truth(a > b)),
        BinaryOp::Leq => Ok(truth(a <= b)),
        BinaryOp::Geq => Ok(truth(a >= b)),
        BinaryOp::Eq => Ok(truth(a == b)),
        BinaryOp::Neq => Ok(truth(a != b)),
    }
}

/// 1 for true, 0 for false.
fn truth(b: bool) -> (r: i32)
    ensures
        r == flag(b),
{
    if b {
        1
    } else {
        0
    }
}

/// Whether `ident` is the name `name`.
fn is_name(ident: &String, name: &str) -> (b: bool)
    ensures
        b == (ident@ == name@),
{
    let other = String::from_str(name);
    *ident == other
}

/// The first function from index `i` on that is called `name`.
fn find_function<'a>(defs: &'a Vec<GlobalDef>, name: &String, i: usize) -> (r: Option<&'a FuncDef>)
    ensures
        match function_from(defs@, name@, i as nat) {
            Some(f) => r matches Some(found) && *found == f,
            None => r is None,
        },
    decreases defs.len() - i,
{
    if i >= defs.len() {
        return None;
    }
    match &defs[i] {
        GlobalDef::FuncDef(f) => if f.ident == *name {
            Some(f)
        } else {
            find_function(defs, name, i + 1)
        },
        GlobalDef::Decl(_) => find_function(defs, name, i + 1),
    }
}

/// The interpreter at work on a program: the program and its input, the
/// values of the names, how much of the input is read, and what is written.
pub struct Interpreter<'a> {
    unit: &'a CompUnit,
    input: &'a Vec<i32>,
    env: Environment,
    used: usize,
    output: Vec<Output>,
}

impl<'a> View for Interpreter<'a> {
    type V = Store;

    closed spec fn view(&self) -> Store {
        Store { values: self.env@, used: self.used as nat, output: self.output@ }
    }
}

impl<'a> Interpreter<'a> {
    /// The program and the input.
    pub closed spec fn world(&self) -> World {
        World { unit: *self.unit, input: self.input@ }
    }

    /// There is a global scope, and no more of the input is read than there is.
    pub closed spec fn wf(&self) -> bool {
        self.env.wf() && self.used <= self.input.len()
    }

    /// An interpreter before the program runs.
    pub fn new(unit: &'a CompUnit, input: &'a Vec<i32>) -> (it: Self)
        ensures
            it.wf(),
            it@ == fresh(),
            it.world() == (World { unit: *unit, input: input@ }),
    {
        Interpreter { unit, input, env: Environment::new(), used: 0, output: Vec::new() }
    }

    /// What the program has written.
    pub fn output(self) -> (out: Vec<Output>)
        ensures
            out@ == self@.output,
    {
        self.output
    }

    /// Evaluates an expression: its value, or `None` for a call that yields none.
    pub fn eval_exp(&mut self, e: &Exp, fuel: usize) -> (r: Result<Option<i32>, Error>)
        requires
            old(self).wf(),
        ensures
            final(self).wf(),
            final(self).world() == old(self).world(),
            match eval_exp(*e, old(self).world(), old(self)@, fuel as nat) {
                Ok((st, v)) => r == Ok::<Option<i32>, Error>(v) && final(self)@ == st,
                Err(e) => r == Err::<Option<i32>, Error>(e),
            },
        decreases fuel, 1nat, *e, 0nat,
    {
        self.eval_lor(&e.lor_exp, fuel)
    }

    /// Evaluates an expression of `||` rank.
    pub fn eval_lor(&mut self, e: &LOrExp, fuel: usize) -> (r: Result<Option<i32>, Error>)
        requires
            old(self).wf(),
        ensures
            final(self).wf(),
            final(self).world() == old(self).world(),
            match eval_lor(*e, old(self).world(), old(self)@, fuel as nat) {
                Ok((st, v)) => r == Ok::<Option<i32>, Error>(v) && final(self)@ == st,
                Err(e) => r == Err::<Option<i32>, Error>(e),
            },
        decreases fuel, 1nat, *e, 0nat,
    {
        match e {
            LOrExp::And(inner) => self.eval_land(inner, fuel),
            LOrExp::Or(lhs, rhs) => {
                let a = match self.eval_lor(lhs, fuel) {
                    Ok(a) => a,
                    Err(e) => {
                        return Err(e);
                    },
                };
                let b = match self.eval_land(rhs, fuel) {
                    Ok(b) => b,
                    Err(e) => {
                        return Err(e);
                    },
                };
                match (a, b) {
                    (Some(x), Some(y)) => Ok(Some(truth(x != 0 || y != 0))),
                    _ => Err(Error::MissingExpression),
                }
            },
        }
    }

    /// Evaluates an expression of `&&` rank.
    pub fn eval_land(&mut self, e: &LAndExp, fuel: usize) -> (r: Result<Option<i32>, Error>)
        requires
            old(self).wf(),
        ensures
            final(self).wf(),
            final(self).world() == old(self).world(),
            match eval_land(*e, old(self).world(), old(self)@, fuel as nat) {
                Ok((st, v)) => r == Ok::<Option<i32>, Error>(v) && final(self)@ == st,
                Err(e) => r == Err::<Option<i32>, Error>(e),
            },
        decreases fuel, 1nat, *e, 0nat,
    {
        match e {
            LAndExp::Eq(inner) => self.eval_eq(inner, fuel),
            LAndExp::And(lhs, rhs) => {
                let a = match self.eval_land(lhs, fuel) {
                    Ok(a) => a,
                    Err(e) => {
                        return Err(e);
                    },
                };
                let b = match self.eval_eq(rhs, fuel) {
                    Ok(b) => b,
                    Err(e) => {
                        return Err(e);
                    },
                };
                match (a, b) {
                    (Some(x), Some(y)) => Ok(Some(truth(x != 0 && y != 0))),
                    _ => Err(Error::MissingExpression),
                }
            },
        }
    }

    /// Evaluates an expression of `==` rank.
    pub fn eval_eq(&mut self, e: &EqExp, fuel: usize) -> (r: Result<Option<i32>, Error>)
        requires
            old(self).wf(),
        ensures
            final(self).wf(),
            final(self).world() == old(self).world(),
            match eval_eq(*e, old(self).world(), old(self)@, fuel as nat) {
                Ok((st, v)) => r == Ok::<Option<i32>, Error>(v) && final(self)@ == st,
                Err(e) => r == Err::<Option<i32>, Error>(e),
            },
        decreases fuel, 1nat, *e, 0nat,
    {
        match e {
            EqExp::Rel(inner) => self.eval_rel(inner, fuel),
            EqExp::Eq(lhs, o, rhs) => {
                let a = match self.eval_eq(lhs, fuel) {
                    Ok(a) => a,
                    Err(e) => {
                        return Err(e);
                    },
                };
                let b = match self.eval_rel(rhs, fuel) {
                    Ok(b) => b,
                    Err(e) => {
                        return Err(e);
                    },
                };
                match (a, b) {
                    (Some(x), Some(y)) => match compute(o, x, y) {
                        Ok(v) => Ok(Some(v)),
                        Err(e) => Err(e),
                    },
                    _ => Err(Error::MissingExpression),
                }
            },
        }
    }

    /// Evaluates an expression of `<` rank.
    pub fn eval_rel(&mut self, e: &RelExp, fuel: usize) -> (r: Result<Option<i32>, Error>)
        requires
            old(self).wf(),
        ensures
            final(self).wf(),
            final(self).world() == old(self).world(),
            match eval_rel(*e, old(self).world(), old(self)@, fuel as nat) {
                Ok((st, v)) => r == Ok::<Option<i32>, Error>(v) && final(self)@ == st,
                Err(e) => r == Err::<Option<i32>, Error>(e),
            },
        decreases fuel, 1nat, *e, 0nat,
    {
        match e {
            RelExp::Add(inner) => self.eval_add(inner, fuel),
            RelExp::Rel(lhs, o, rhs) => {
                let a = match self.eval_rel(lhs, fuel) {
                    Ok(a) => a,
                    Err(e) => {
                        return Err(e);
                    },
                };
                let b = match self.eval_add(rhs, fuel) {
                    Ok(b) => b,
                    Err(e) => {
                        return Err(e);
                    },
                };
                match (a, b) {
                    (Some(x), Some(y)) => match compute(o, x, y) {
                        Ok(v) => Ok(Some(v)),
                        Err(e) => Err(e),
                    },
                    _ => Err(Error::MissingExpression),
                }
            },
        }
    }

    /// Evaluates an expression of `+` rank.
    pub fn eval_add(&mut self, e: &AddExp, fuel: usize) -> (r: Result<Option<i32>, Error>)
        requires
            old(self).wf(),
        ensures
            final(self).wf(),
            final(self).world() == old(self).world(),
            match eval_add(*e, old(self).world(), old(self)@, fuel as nat) {
                Ok((st, v)) => r == Ok::<Option<i32>, Error>(v) && final(self)@ == st,
                Err(e) => r == Err::<Option<i32>, Error>(e),
            },
        decreases fuel, 1nat, *e, 0nat,
    {
        match e {
            AddExp::Mul(inner) => self.eval_mul(inner, fuel),
            AddExp::Add(lhs, o, rhs) => {
                let a = match self.eval_add(lhs, fuel) {
                    Ok(a) => a,
                    Err(e) => {
                        return Err(e);
                    },
                };
                let b = match self.eval_mul(rhs, fuel) {
                    Ok(b) => b,
                    Err(e) => {
                        return Err(e);
                    },
                };
                match (a, b) {
                    (Some(x), Some(y)) => match compute(o, x, y) {
                        Ok(v) => Ok(Some(v)),
                        Err(e) => Err(e),
                    },
                    _ => Err(Error::MissingExpression),
                }
            },
        }
    }

    /// Evaluates an expression of `*` rank.
    pub fn eval_mul(&mut self, e: &MulExp, fuel: usize) -> (r: Result<Option<i32>, Error>)
        requires
            old(self).wf(),
        ensures
            final(self).wf(),
            final(self).world() == old(self).world(),
            match eval_mul(*e, old(self).world(), old(self)@, fuel as nat) {
                Ok((st, v)) => r == Ok::<Option<i32>, Error>(v) && final(self)@ == st,
                Err(e) => r == Err::<Option<i32>, Error>(e),
            },
        decreases fuel, 1nat, *e, 0nat,
    {
        match e {
            MulExp::Unary(inner) => self.eval_unary(inner, fuel),
            MulExp::Mul(lhs, o, rhs) => {
                let a = match self.eval_mul(lhs, fuel) {
                    Ok(a) => a,
                    Err(e) => {
                        return Err(e);
                    },
                };
                let b = match self.eval_unary(rhs, fuel) {
                    Ok(b) => b,
                    Err(e) => {
                        return Err(e);
                    },
                };
                match (a, b) {
                    (Some(x), Some(y)) => match compute(o, x, y) {
                        Ok(v) => Ok(Some(v)),
                        Err(e) => Err(e),
                    },
                    _ => Err(Error::MissingExpression),
                }
            },
        }
    }

    /// Evaluates a unary expression or a call.
    pub fn eval_unary(&mut self, e: &UnaryExp, fuel: usize) -> (r: Result<Option<i32>, Error>)
        requires
            old(self).wf(),
        ensures
            final(self).wf(),
            final(self).world() == old(self).world(),
            match eval_unary(*e, old(self).world(), old(self)@, fuel as nat) {
                Ok((st, v)) => r == Ok::<Option<i32>, Error>(v) && final(self)@ == st,
                Err(e) => r == Err::<Option<i32>, Error>(e),
            },
        decreases fuel, 1nat, *e, 1nat,
    {
        match e {
            UnaryExp::Pri(pri) => self.eval_primary(pri, fuel),
            UnaryExp::Unary(o, una) => match self.eval_unary(una, fuel) {
                Err(e) => Err(e),
                Ok(None) => Err(Error::MissingExpression),
                Ok(Some(x)) => match o {
                    UnaryOp::Neg => Ok(Some(0i32.wrapping_sub(x))),
                    UnaryOp::Not => Ok(Some(truth(x == 0))),
                },
            },
            UnaryExp::FuncCall { ident, funcrparams } => {
                if is_name(ident, "print") {
                    match funcrparams {
                        Some(params) => match self.eval_prints(params, 0, fuel) {
                            Ok(()) => Ok(None),
                            Err(e) => Err(e),
                        },
                        None => Ok(None),
                    }
                } else if is_name(ident, "getint") {
                    if self.used < self.input.len() {
                        let v = self.input[self.used];
                        self.used = self.used + 1;
                        Ok(Some(v))
                    } else {
                        Err(Error::InterpreterError(Trouble::OutOfInput))
                    }
                } else {
                    let unit = self.unit;
                    match find_function(&unit.globaldefs, ident, 0) {
                        None => Err(Error::SymbolNotFound),
                        Some(f) => {
                            let args = match funcrparams {
                                Some(params) => match self.eval_args(params, 0, fuel) {
                                    Ok(args) => args,
                                    Err(e) => {
                                        return Err(e);
                                    },
                                },
                                None => Vec::new(),
                            };
                            self.call_func(f, args, fuel)
                        },
                    }
                }
            },
        }
    }

    /// Calls `f` with the arguments `args`: binds the parameters in a new
    /// scope above the global one, runs the body with a limit that is lower
    /// by one, and gives the caller its scopes back.
    pub fn call_func(&mut self, f: &FuncDef, args: Vec<i32>, fuel: usize) -> (r: Result<
        Option<i32>,
        Error,
    >)
        requires
            old(self).wf(),
        ensures
            final(self).wf(),
            final(self).world() == old(self).world(),
            ({
                let given = Ok::<(Store, Seq<i32>), Error>((old(self)@, args@));
                let body = if fuel == 0 {
                    Err(Error::InterpreterError(Trouble::OutOfFuel))
                } else {
                    exec_items(
                        f.block,
                        0,
                        old(self).world(),
                        inside(*f, given),
                        (fuel - 1) as nat,
                    )
                };
                match called(*f, given, body) {
                    Ok((st, v)) => r == Ok::<Option<i32>, Error>(v) && final(self)@ == st,
                    Err(e) => r == Err::<Option<i32>, Error>(e),
                }
            }),
        decreases fuel, 0nat, *f, 0nat,
    {
        let count = match &f.funcfparams {
            Some(params) => params.params.len(),
            None => 0,
        };
        if args.len() != count {
            return Err(Error::CallError(f.ident.clone()));
        }
        let saved = self.env.push_func();
        let ghost start = self.env@;
        proof {
            assert(param_names(*f).len() == count);
        }
        match &f.funcfparams {
            Some(params) => {
                let mut i: usize = 0;
                while i < count
                    invariant
                        i <= count,
                        count == params.params.len(),
                        count == args.len(),
                        f.funcfparams == Some(*params),
                        param_names(*f).len() == count,
                        start == old(self)@.values.called(),
                        self.env.wf(),
                        self.wf(),
                        self.world() == old(self).world(),
                        self@.used == old(self)@.used,
                        self@.output == old(self)@.output,
                        bound(start, param_names(*f), args@, 0) == bound(
                            self@.values,
                            param_names(*f),
                            args@,
                            i as nat,
                        ),
                    decreases count - i,
                {
                    proof {
                        assert(param_names(*f)[i as int] == params.params@[i as int].ident@);
                    }
                    match self.env.new_value(
                        &params.params[i].ident,
                        Value::Var(Type::I32(args[i])),
                    ) {
                        Ok(()) => {},
                        Err(e) => {
                            return Err(e);
                        },
                    }
                    i = i + 1;
                }
            },
            None => {},
        }
        if fuel == 0 {
            return Err(Error::InterpreterError(Trouble::OutOfFuel));
        }
        let body = self.exec_items(&f.block, 0, fuel - 1);
        match body {
            Err(e) => Err(e),
            Ok(label) => {
                self.env.pop_func(saved);
                match label {
                    Some(Label::Type(Some(Type::I32(v)))) => Ok(Some(v)),
                    _ => Ok(None),
                }
            },
        }
    }

    /// Evaluates and writes the arguments of `print` from the `i`-th on.
    fn eval_prints(&mut self, params: &FuncRParams, i: usize, fuel: usize) -> (r: Result<(), Error>)
        requires
            old(self).wf(),
        ensures
            final(self).wf(),
            final(self).world() == old(self).world(),
            match eval_prints(*params, i as nat, old(self).world(), old(self)@, fuel as nat) {
                Ok(st) => r is Ok && final(self)@ == st,
                Err(e) => r == Err::<(), Error>(e),
            },
        decreases fuel, 1nat, *params, params.exps.len() - i,
    {
        if i >= params.exps.len() {
            return Ok(());
        }
        match self.eval_exp(&params.exps[i], fuel) {
            Err(e) => Err(e),
            Ok(v) => {
                match v {
                    Some(x) => {
                        self.output.push(Output::Item(x));
                        self.output.push(Output::Newline);
                    },
                    None => {},
                }
                self.eval_prints(params, i + 1, fuel)
            },
        }
    }

    /// Evaluates the arguments from the `i`-th on, in order.
    fn eval_args(&mut self, params: &FuncRParams, i: usize, fuel: usize) -> (r: Result<
        Vec<i32>,
        Error,
    >)
        requires
            old(self).wf(),
        ensures
            final(self).wf(),
            final(self).world() == old(self).world(),
            match eval_args(*params, i as nat, old(self).world(), old(self)@, fuel as nat) {
                Ok((st, values)) => r matches Ok(v) && v@ == values && final(self)@ == st,
                Err(e) => r == Err::<Vec<i32>, Error>(e),
            },
        decreases fuel, 1nat, *params, params.exps.len() - i,
    {
        if i >= params.exps.len() {
            return Ok(Vec::new());
        }
        match self.eval_exp(&params.exps[i], fuel) {
            Err(e) => Err(e),
            Ok(None) => Err(Error::MissingExpression),
            Ok(Some(x)) => match self.eval_args(params, i + 1, fuel) {
                Err(e) => Err(e),
                Ok(rest) => {
                    let mut values = Vec::new();
                    values.push(x);
                    let mut rest = rest;
                    values.append(&mut rest);
                    Ok(values)
                },
            },
        }
    }

    /// Evaluates a primary expression.
    pub fn eval_primary(&mut self, e: &PrimaryExp, fuel: usize) -> (r: Result<Option<i32>, Error>)
        requires
            old(self).wf(),
        ensures
            final(self).wf(),
            final(self).world() == old(self).world(),
            match eval_primary(*e, old(self).world(), old(self)@, fuel as nat) {
                Ok((st, v)) => r == Ok::<Option<i32>, Error>(v) && final(self)@ == st,
                Err(e) => r == Err::<Option<i32>, Error>(e),
            },
        decreases fuel, 1nat, *e, 0nat,
    {
        match e {
            PrimaryExp::Exp(exp) => self.eval_exp(exp, fuel),
            PrimaryExp::Number(num) => Ok(Some(*num)),
            PrimaryExp::LVal(lval) => match self.env.value(&lval.ident) {
                Ok(v) => Ok(Some(v.get())),
                Err(e) => Err(e),
            },
        }
    }

    /// Runs a declaration: `constant` says whether `val` declares the name.
    fn declare(&mut self, ident: &String, constant: bool, init: &Exp, fuel: usize) -> (r: Result<
        Option<Label>,
        Error,
    >)
        requires
            old(self).wf(),
        ensures
            final(self).wf(),
            final(self).world() == old(self).world(),
            match declared(
                ident@,
                constant,
                eval_exp(*init, old(self).world(), old(self)@, fuel as nat),
            ) {
                Ok((st, label)) => r == Ok::<Option<Label>, Error>(label) && final(self)@ == st,
                Err(e) => r == Err::<Option<Label>, Error>(e),
            },
        decreases fuel, 2nat, *init, 0nat,
    {
        match self.eval_exp(init, fuel) {
            Err(e) => Err(e),
            Ok(None) => Err(Error::MissingExpression),
            Ok(Some(x)) => match self.env.new_value(ident, Value::new(constant, Type::I32(x))) {
                Err(e) => Err(e),
                Ok(()) => Ok(None),
            },
        }
    }

    /// Runs a declaration.
    pub fn exec_decl(&mut self, d: &Decl, fuel: usize) -> (r: Result<Option<Label>, Error>)
        requires
            old(self).wf(),
        ensures
            final(self).wf(),
            final(self).world() == old(self).world(),
            match exec_decl(*d, old(self).world(), old(self)@, fuel as nat) {
                Ok((st, label)) => r == Ok::<Option<Label>, Error>(label) && final(self)@ == st,
                Err(e) => r == Err::<Option<Label>, Error>(e),
            },
        decreases fuel, 3nat, *d, 0nat,
    {
        match d {
            Decl::VarDecl(decl) => self.declare(&decl.ident, false, &decl.initval.exp, fuel),
            Decl::ValDecl(decl) => self.declare(&decl.ident, true, &decl.initval.exp, fuel),
        }
    }

    /// Runs a statement: how it ended, or `None` where it just ended.
    pub fn exec_stmt(&mut self, s: &Stmt, fuel: usize) -> (r: Result<Option<Label>, Error>)
        requires
            old(self).wf(),
        ensures
            final(self).wf(),
            final(self).world() == old(self).world(),
            match exec_stmt(*s, old(self).world(), old(self)@, fuel as nat) {
                Ok((st, label)) => r == Ok::<Option<Label>, Error>(label) && final(self)@ == st,
                Err(e) => r == Err::<Option<Label>, Error>(e),
            },
        decreases fuel, 4nat, *s, 1nat,
    {
        match s {
            Stmt::Assign(lval, exp) => match self.eval_exp(exp, fuel) {
                Err(e) => Err(e),
                Ok(None) => Err(Error::MissingExpression),
                Ok(Some(x)) => match self.env.update_value(&lval.ident, Value::Var(Type::I32(x))) {
                    Err(e) => Err(e),
                    Ok(()) => Ok(None),
                },
            },
            Stmt::Block(block) => {
                self.env.enter();
                match self.exec_items(block, 0, fuel) {
                    Err(e) => Err(e),
                    Ok(label) => {
                        self.env.exit();
                        Ok(label)
                    },
                }
            },
            Stmt::Exp(exp) => match exp {
                None => Ok(None),
                Some(exp) => match self.eval_exp(exp, fuel) {
                    Err(e) => Err(e),
                    Ok(_) => Ok(None),
                },
            },
            Stmt::Ret(ret) => match ret {
                None => Ok(Some(Label::Type(None))),
                Some(exp) => match self.eval_exp(exp, fuel) {
                    Err(e) => Err(e),
                    Ok(Some(x)) => Ok(Some(Label::Type(Some(Type::I32(x))))),
                    Ok(None) => Ok(Some(Label::Type(None))),
                },
            },
            Stmt::If { condition, then_branch, else_branch } => match self.eval_exp(
                condition,
                fuel,
            ) {
                Err(e) => Err(e),
                Ok(None) => Err(Error::MissingExpression),
                Ok(Some(c)) => if c != 0 {
                    self.exec_stmt(then_branch, fuel)
                } else {
                    self.exec_else(else_branch, fuel)
                },
            },
            Stmt::While { .. } => self.run_loop(s, fuel),
            Stmt::FuncDef(_) => Err(Error::InterpreterError(Trouble::NestedFunction)),
            Stmt::Continue => Ok(Some(Label::Continue)),
            Stmt::Break => Ok(Some(Label::Break)),
        }
    }

    fn exec_else(&mut self, s: &Option<Box<Stmt>>, fuel: usize) -> (r: Result<Option<Label>, Error>)
        requires
            old(self).wf(),
        ensures
            final(self).wf(),
            final(self).world() == old(self).world(),
            match exec_else(*s, old(self).world(), old(self)@, fuel as nat) {
                Ok((st, label)) => r == Ok::<Option<Label>, Error>(label) && final(self)@ == st,
                Err(e) => r == Err::<Option<Label>, Error>(e),
            },
        decreases fuel, 4nat, *s, 0nat,
    {
        match s {
            None => Ok(None),
            Some(other) => self.exec_stmt(other, fuel),
        }
    }

    /// Runs the loop `s`.
    fn run_loop(&mut self, s: &Stmt, fuel: usize) -> (r: Result<Option<Label>, Error>)
        requires
            old(self).wf(),
            *s is While,
        ensures
            final(self).wf(),
            final(self).world() == old(self).world(),
            match exec_while(*s, old(self).world(), old(self)@, fuel as nat) {
                Ok((st, label)) => r == Ok::<Option<Label>, Error>(label) && final(self)@ == st,
                Err(e) => r == Err::<Option<Label>, Error>(e),
            },
        decreases fuel, 4nat, *s, 0nat,
    {
        match s {
            Stmt::While { condition, loopbody } => {
                let mut left = fuel;
                loop
                    invariant
                        self.wf(),
                        self.world() == old(self).world(),
                        left <= fuel,
                        *s == (Stmt::While { condition: *condition, loopbody: *loopbody }),
                        exec_while(*s, old(self).world(), old(self)@, fuel as nat) == exec_while(
                            *s,
                            self.world(),
                            self@,
                            left as nat,
                        ),
                    decreases left,
                {
                    if left == 0 {
                        return Err(Error::InterpreterError(Trouble::OutOfFuel));
                    }
                    left = left - 1;
                    match self.eval_exp(condition, left) {
                        Err(e) => {
                            return Err(e);
                        },
                        Ok(None) => {
                            return Err(Error::MissingExpression);
                        },
                        Ok(Some(c)) => {
                            if c == 0 {
                                return Ok(None);
                            }
                        },
                    }
                    match self.exec_stmt(loopbody, left) {
                        Err(e) => {
                            return Err(e);
                        },
                        Ok(Some(Label::Break)) => {
                            return Ok(None);
                        },
                        Ok(Some(Label::Type(v))) => {
                            return Ok(Some(Label::Type(v)));
                        },
                        Ok(_) => {},
                    }
                }
            },
            _ => Ok(None),
        }
    }

    /// Runs the items of a block from the `i`-th on.
    fn exec_items(&mut self, b: &Block, i: usize, fuel: usize) -> (r: Result<Option<Label>, Error>)
        requires
            old(self).wf(),
        ensures
            final(self).wf(),
            final(self).world() == old(self).world(),
            match exec_items(*b, i as nat, old(self).world(), old(self)@, fuel as nat) {
                Ok((st, label)) => r == Ok::<Option<Label>, Error>(label) && final(self)@ == st,
                Err(e) => r == Err::<Option<Label>, Error>(e),
            },
        decreases fuel, 4nat, *b, b.items.len() - i,
    {
        if i >= b.items.len() {
            return Ok(None);
        }
        match self.exec_item(&b.items[i], fuel) {
            Err(e) => Err(e),
            Ok(Some(label)) => Ok(Some(label)),
            Ok(None) => self.exec_items(b, i + 1, fuel),
        }
    }

    /// Runs an item of a block.
    pub fn exec_item(&mut self, item: &BlockItem, fuel: usize) -> (r: Result<Option<Label>, Error>)
        requires
            old(self).wf(),
        ensures
            final(self).wf(),
            final(self).world() == old(self).world(),
            match exec_item(*item, old(self).world(), old(self)@, fuel as nat) {
                Ok((st, label)) => r == Ok::<Option<Label>, Error>(label) && final(self)@ == st,
                Err(e) => r == Err::<Option<Label>, Error>(e),
            },
        decreases fuel, 4nat, *item, 0nat,
    {
        match item {
            BlockItem::Decl(decl) => self.exec_decl(decl, fuel),
            BlockItem::Stmt(stmt) => self.exec_stmt(stmt, fuel),
        }
    }
}

impl<'a> Interpreter<'a> {
    /// Runs the global declarations from the `i`-th on, in order.
    fn exec_globals(&mut self, i: usize, fuel: usize) -> (r: Result<(), Error>)
        requires
            old(self).wf(),
        ensures
            final(self).wf(),
            final(self).world() == old(self).world(),
            match exec_globals(
                old(self).world().unit.globaldefs@,
                i as nat,
                old(self).world(),
                old(self)@,
                fuel as nat,
            ) {
                Ok(st) => r is Ok && final(self)@ == st,
                Err(e) => r == Err::<(), Error>(e),
            },
        decreases self.unit.globaldefs.len() - i,
    {
        let unit = self.unit;
        if i >= unit.globaldefs.len() {
            return Ok(());
        }
        match &unit.globaldefs[i] {
            GlobalDef::FuncDef(_) => self.exec_globals(i + 1, fuel),
            GlobalDef::Decl(decl) => match self.exec_decl(decl, fuel) {
                Err(e) => Err(e),
                Ok(_) => self.exec_globals(i + 1, fuel),
            },
        }
    }

    /// Runs the program: the global declarations in order, then `main`
    /// without arguments, if the program has a function of that name.
    ///
    /// `fuel` limits how deep calls and loops may be nested and how often a
    /// loop may run; a program that needs more ends with `OutOfFuel`.
    pub fn run(&mut self, fuel: usize) -> (r: Result<(), Error>)
        requires
            old(self).wf(),
            old(self)@ == fresh(),
        ensures
            final(self).wf(),
            final(self).world() == old(self).world(),
            match run_unit(old(self).world(), fuel as nat) {
                Ok(st) => r is Ok && final(self)@ == st,
                Err(e) => r == Err::<(), Error>(e),
            },
    {
        match self.exec_globals(0, fuel) {
            Err(e) => {
                return Err(e);
            },
            Ok(()) => {},
        }
        let unit = self.unit;
        let name = String::from_str("main");
        match find_function(&unit.globaldefs, &name, 0) {
            None => Ok(()),
            Some(f) => match self.call_func(f, Vec::new(), fuel) {
                Err(e) => Err(e),
                Ok(_) => Ok(()),
            },
        }
    }
}

impl FuncDef {
    /// Calls this function with the arguments `args` in the interpreter
    /// `env`: what `Interpreter::call_func` does, said of the function.
    pub fn call(&self, args: Vec<i32>, env: &mut Interpreter<'_>, fuel: usize) -> (r: Result<
        Option<i32>,
        Error,
    >)
        requires
            old(env).wf(),
        ensures
            final(env).wf(),
            final(env).world() == old(env).world(),
            ({
                let given = Ok::<(Store, Seq<i32>), Error>((old(env)@, args@));
                let body = if fuel == 0 {
                    Err(Error::InterpreterError(Trouble::OutOfFuel))
                } else {
                    exec_items(
                        self.block,
                        0,
                        old(env).world(),
                        inside(*self, given),
                        (fuel - 1) as nat,
                    )
                };
                match called(*self, given, body) {
                    Ok((st, v)) => r == Ok::<Option<i32>, Error>(v) && final(env)@ == st,
                    Err(e) => r == Err::<Option<i32>, Error>(e),
                }
            }),
    {
        env.call_func(self, args, fuel)
    }
}

/// Runs `unit` with the integers of `input` for `getint`, and gives what
/// the program writes.
///
/// `fuel` limits how deep calls and loops may be nested and how often a
/// loop may run; a program that needs more ends with `OutOfFuel`.
pub fn interpret(unit: &CompUnit, input: &Vec<i32>, fuel: usize) -> (r: Result<Vec<Output>, Error>)
    ensures
        match run_unit(World { unit: *unit, input: input@ }, fuel as nat) {
            Ok(st) => r matches Ok(out) && out@ == st.output,
            Err(e) => r == Err::<Vec<Output>, Error>(e),
        },
{
    let mut it = Interpreter::new(unit, input);
    match it.run(fuel) {
        Err(e) => Err(e),
        Ok(()) => Ok(it.output()),
    }
}

} // verus!
