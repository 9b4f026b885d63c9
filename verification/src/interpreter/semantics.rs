//! What a program means: the interpreter as a mathematical function.
//!
//! Every function takes the program and its input, the store before, and a
//! limit: calls and loops may be nested, and a loop may run, only as far as
//! the limit allows. It gives the store after together with its result, or
//! the error.

use crate::ast::{
    AddExp, BinaryOp, Block, BlockItem, CompUnit, Decl, EqExp, Exp, FuncDef, FuncRParams,
    GlobalDef, LAndExp, LOrExp, LVal, MulExp, PrimaryExp, RelExp, Stmt, UnaryExp, UnaryOp,
};
use crate::bytecode_translation::environment::Name;
use crate::bytecode_translation::scheme::{getint_name, main_name, param_names, print_name};
use crate::error::{Error, Trouble};
use crate::interpreter::environment::Values;
use crate::interpreter::values::{Label, Type, Value};
use crate::vm::{flag, quotient, Output};
use vstd::prelude::*;
use vstd::wrapping::i32_specs;

verus! {

/// What the interpreter works on: the program and the integers it can read.
pub struct World {
    pub unit: CompUnit,
    pub input: Seq<i32>,
}

/// What the interpreter changes: the values of the names, how many
/// integers of the input are read, and what is written.
pub struct Store {
    pub values: Values,
    pub used: nat,
    pub output: Seq<Output>,
}

/// The value of an expression: `None` for a call that yields none.
pub type Evaluated = Result<(Store, Option<i32>), Error>;

/// The end of a statement: `None` where it just ended.
pub type Executed = Result<(Store, Option<Label>), Error>;

/// The remainder of `a` by `b` with the sign of `a`, as the quotient rounds toward zero.
pub open spec fn remainder(a: i32, b: i32) -> i32
    recommends
        b != 0,
{
    if a == i32::MIN && b == -1 {
        0
    } else {
        (a - quotient(a, b) * b) as i32
    }
}

/// What a binary operator computes. Addition, subtraction and
/// multiplication wrap; comparisons give 1 or 0.
pub open spec fn apply(o: BinaryOp, a: i32, b: i32) -> Result<i32, Error> {
    match o {
        BinaryOp::Add => Ok(i32_specs::wrapping_add(a, b)),
        BinaryOp::Sub => Ok(i32_specs::wrapping_sub(a, b)),
        BinaryOp::Mul => Ok(i32_specs::wrapping_mul(a, b)),
        BinaryOp::Div => if b == 0 {
            Err(Error::InterpreterError(Trouble::DivisionByZero))
        } else {
            Ok(quotient(a, b))
        },
        BinaryOp::Mod => if b == 0 {
            Err(Error::InterpreterError(Trouble::DivisionByZero))
        } else {
            Ok(remainder(a, b))
        },
        BinaryOp::Lt => Ok(flag(a < b)),
        BinaryOp::Gt => Ok(flag(a > b)),
        BinaryOp::Leq => Ok(flag(a <= b)),
        BinaryOp::Geq => Ok(flag(a >= b)),
        BinaryOp::Eq => Ok(flag(a == b)),
        BinaryOp::Neq => Ok(flag(a != b)),
    }
}

/// What a unary operator computes: the negation wraps, and `!` gives 1 for 0 and 0 for anything else.
pub open spec fn negate(o: UnaryOp, a: i32) -> i32 {
    match o {
        UnaryOp::Neg => i32_specs::wrapping_sub(0, a),
        UnaryOp::Not => flag(a == 0),
    }
}

/// A binary node: `rhs` is the value of the right operand, evaluated in
/// the store that the left operand, whose value is `a`, left.
pub open spec fn combined(a: Option<i32>, rhs: Evaluated, o: BinaryOp) -> Evaluated {
    match rhs {
        Err(e) => Err(e),
        Ok((st, b)) => match (a, b) {
            (Some(x), Some(y)) => match apply(o, x, y) {
                Ok(v) => Ok((st, Some(v))),
                Err(e) => Err(e),
            },
            _ => Err(Error::MissingExpression),
        },
    }
}

/// `a || b` or `a && b`: both operands are evaluated, and the result is 1 or 0.
pub open spec fn connected(a: Option<i32>, rhs: Evaluated, or: bool) -> Evaluated {
    match rhs {
        Err(e) => Err(e),
        Ok((st, b)) => match (a, b) {
            (Some(x), Some(y)) => Ok(
                (
                    st,
                    Some(
                        if or {
                            flag(x != 0 || y != 0)
                        } else {
                            flag(x != 0 && y != 0)
                        },
                    ),
                ),
            ),
            _ => Err(Error::MissingExpression),
        },
    }
}

/// The first function from index `i` on that is called `name`.
pub open spec fn function_from(defs: Seq<GlobalDef>, name: Name, i: nat) -> Option<FuncDef>
    decreases defs.len() - i,
{
    if i >= defs.len() {
        None
    } else {
        match defs[i as int] {
            GlobalDef::FuncDef(f) => if f.ident@ == name {
                Some(f)
            } else {
                function_from(defs, name, i + 1)
            },
            GlobalDef::Decl(_) => function_from(defs, name, i + 1),
        }
    }
}

/// The values with the names from the `i`-th on bound, as variables, to the
/// arguments with the same index.
pub open spec fn bound(values: Values, names: Seq<Name>, args: Seq<i32>, i: nat) -> Result<
    Values,
    Error,
>
    decreases names.len() - i,
{
    if i >= names.len() || i >= args.len() {
        Ok(values)
    } else {
        match values.declare(names[i as int], Value::Var(Type::I32(args[i as int]))) {
            Err(e) => Err(e),
            Ok(next) => bound(next, names, args, i + 1),
        }
    }
}

/// The store in which the body of `f` runs when it is called with `args`
/// from the store `st`: the callee sees the global scope and its
/// parameters. Fails with `CallError` where the number of arguments is not
/// that of the parameters.
pub open spec fn entered(f: FuncDef, args: Seq<i32>, st: Store) -> Result<Store, Error> {
    if args.len() != param_names(f).len() {
        Err(Error::CallError(f.ident))
    } else {
        match bound(st.values.called(), param_names(f), args, 0) {
            Err(e) => Err(e),
            Ok(values) => Ok(Store { values, ..st }),
        }
    }
}

/// The store and the value after a call: `body` is how the body ended,
/// and `before` the store from which the call was made.
pub open spec fn left(body: Executed, before: Store) -> Evaluated {
    match body {
        Err(e) => Err(e),
        Ok((st, label)) => Ok(
            (
                Store { values: st.values.returned(before.values.locals()), ..st },
                match label {
                    Some(Label::Type(Some(Type::I32(v)))) => Some(v),
                    _ => None,
                },
            ),
        ),
    }
}

/// The store before a program runs.
pub open spec fn fresh() -> Store {
    Store { values: Values::empty(), used: 0, output: Seq::empty() }
}

/// The store in which the body of `f` runs, where `args` is what
/// evaluating the arguments gave.
pub open spec fn inside(f: FuncDef, args: Result<(Store, Seq<i32>), Error>) -> Store {
    match args {
        Err(_) => fresh(),
        Ok((st, values)) => match entered(f, values, st) {
            Err(_) => st,
            Ok(inside) => inside,
        },
    }
}

/// The call of `f`: `args` is what evaluating the arguments gave, and
/// `body` how the body ended when it ran in the store `inside(f, args)`
/// with a limit that is lower by one, or `OutOfFuel` where the limit is 0.
pub open spec fn called(f: FuncDef, args: Result<(Store, Seq<i32>), Error>, body: Executed)
    -> Evaluated {
    match args {
        Err(e) => Err(e),
        Ok((st, values)) => match entered(f, values, st) {
            Err(e) => Err(e),
            Ok(_) => left(body, st),
        },
    }
}

/// The value of an expression.
pub open spec fn eval_exp(e: Exp, w: World, st: Store, fuel: nat) -> Evaluated
    decreases fuel, 0nat, e, 0nat,
{
    eval_lor(e.lor_exp, w, st, fuel)
}

/// The value of an expression of `||` rank: the left operand is evaluated first.
pub open spec fn eval_lor(e: LOrExp, w: World, st: Store, fuel: nat) -> Evaluated
    decreases fuel, 0nat, e, 0nat,
{
    match e {
        LOrExp::And(inner) => eval_land(inner, w, st, fuel),
        LOrExp::Or(lhs, rhs) => match eval_lor(*lhs, w, st, fuel) {
            Err(e) => Err(e),
            Ok((mid, a)) => connected(a, eval_land(rhs, w, mid, fuel), true),
        },
    }
}

/// The value of an expression of `&&` rank: the left operand is evaluated first.
pub open spec fn eval_land(e: LAndExp, w: World, st: Store, fuel: nat) -> Evaluated
    decreases fuel, 0nat, e, 0nat,
{
    match e {
        LAndExp::Eq(inner) => eval_eq(inner, w, st, fuel),
        LAndExp::And(lhs, rhs) => match eval_land(*lhs, w, st, fuel) {
            Err(e) => Err(e),
            Ok((mid, a)) => connected(a, eval_eq(rhs, w, mid, fuel), false),
        },
    }
}

/// The value of an expression of `==` rank: the left operand is evaluated first.
pub open spec fn eval_eq(e: EqExp, w: World, st: Store, fuel: nat) -> Evaluated
    decreases fuel, 0nat, e, 0nat,
{
    match e {
        EqExp::Rel(inner) => eval_rel(inner, w, st, fuel),
        EqExp::Eq(lhs, o, rhs) => match eval_eq(*lhs, w, st, fuel) {
            Err(e) => Err(e),
            Ok((mid, a)) => combined(a, eval_rel(rhs, w, mid, fuel), o),
        },
    }
}

/// The value of an expression of `<` rank: the left operand is evaluated first.
pub open spec fn eval_rel(e: RelExp, w: World, st: Store, fuel: nat) -> Evaluated
    decreases fuel, 0nat, e, 0nat,
{
    match e {
        RelExp::Add(inner) => eval_add(inner, w, st, fuel),
        RelExp::Rel(lhs, o, rhs) => match eval_rel(*lhs, w, st, fuel) {
            Err(e) => Err(e),
            Ok((mid, a)) => combined(a, eval_add(rhs, w, mid, fuel), o),
        },
    }
}

/// The value of an expression of `+` rank: the left operand is evaluated first.
pub open spec fn eval_add(e: AddExp, w: World, st: Store, fuel: nat) -> Evaluated
    decreases fuel, 0nat, e, 0nat,
{
    match e {
        AddExp::Mul(inner) => eval_mul(inner, w, st, fuel),
        AddExp::Add(lhs, o, rhs) => match eval_add(*lhs, w, st, fuel) {
            Err(e) => Err(e),
            Ok((mid, a)) => combined(a, eval_mul(rhs, w, mid, fuel), o),
        },
    }
}

/// The value of an expression of `*` rank: the left operand is evaluated first.
pub open spec fn eval_mul(e: MulExp, w: World, st: Store, fuel: nat) -> Evaluated
    decreases fuel, 0nat, e, 0nat,
{
    match e {
        MulExp::Unary(inner) => eval_unary(inner, w, st, fuel),
        MulExp::Mul(lhs, o, rhs) => match eval_mul(*lhs, w, st, fuel) {
            Err(e) => Err(e),
            Ok((mid, a)) => combined(a, eval_unary(rhs, w, mid, fuel), o),
        },
    }
}

/// A unary node, or a call.
///
/// `print` writes the value of each argument on a line of its own, in
/// order, and yields nothing. `getint` yields the next integer of the
/// input. Any other call evaluates the arguments in order and runs the body
/// of the function, which may be defined anywhere in the program.
pub open spec fn eval_unary(e: UnaryExp, w: World, st: Store, fuel: nat) -> Evaluated
    decreases fuel, 0nat, e, 1nat,
{
    match e {
        UnaryExp::Pri(pri) => eval_primary(pri, w, st, fuel),
        UnaryExp::Unary(o, una) => match eval_unary(*una, w, st, fuel) {
            Err(e) => Err(e),
            Ok((after, v)) => match v {
                Some(x) => Ok((after, Some(negate(o, x)))),
                None => Err(Error::MissingExpression),
            },
        },
        UnaryExp::FuncCall { ident, funcrparams } => if ident@ == print_name() {
            match funcrparams {
                Some(params) => match eval_prints(params, 0, w, st, fuel) {
                    Ok(after) => Ok((after, None)),
                    Err(e) => Err(e),
                },
                None => Ok((st, None)),
            }
        } else if ident@ == getint_name() {
            if st.used < w.input.len() {
                Ok((Store { used: st.used + 1, ..st }, Some(w.input[st.used as int])))
            } else {
                Err(Error::InterpreterError(Trouble::OutOfInput))
            }
        } else {
            match function_from(w.unit.globaldefs@, ident@, 0) {
                None => Err(Error::SymbolNotFound),
                Some(f) => {
                    let args = match funcrparams {
                        Some(params) => eval_args(params, 0, w, st, fuel),
                        None => Ok((st, Seq::empty())),
                    };
                    if fuel == 0 {
                        called(f, args, Err(Error::InterpreterError(Trouble::OutOfFuel)))
                    } else {
                        called(
                            f,
                            args,
                            exec_items(f.block, 0, w, inside(f, args), (fuel - 1) as nat),
                        )
                    }
                },
            }
        },
    }
}

/// The arguments of `print` from the `i`-th on: the value of each is
/// written, followed by a line break; an argument without a value writes nothing.
pub open spec fn eval_prints(params: FuncRParams, i: nat, w: World, st: Store, fuel: nat) -> Result<
    Store,
    Error,
>
    decreases fuel, 0nat, params, params.exps.len() - i,
{
    if i >= params.exps.len() {
        Ok(st)
    } else {
        match eval_exp(params.exps@[i as int], w, st, fuel) {
            Err(e) => Err(e),
            Ok((after, v)) => eval_prints(
                params,
                i + 1,
                w,
                match v {
                    Some(x) => Store {
                        output: after.output.push(Output::Item(x)).push(Output::Newline),
                        ..after
                    },
                    None => after,
                },
                fuel,
            ),
        }
    }
}

/// The values of the arguments from the `i`-th on, evaluated in order.
pub open spec fn eval_args(params: FuncRParams, i: nat, w: World, st: Store, fuel: nat) -> Result<
    (Store, Seq<i32>),
    Error,
>
    decreases fuel, 0nat, params, params.exps.len() - i,
{
    if i >= params.exps.len() {
        Ok((st, Seq::empty()))
    } else {
        match eval_exp(params.exps@[i as int], w, st, fuel) {
            Err(e) => Err(e),
            Ok((after, v)) => match v {
                None => Err(Error::MissingExpression),
                Some(x) => match eval_args(params, i + 1, w, after, fuel) {
                    Err(e) => Err(e),
                    Ok((end, rest)) => Ok((end, seq![x] + rest)),
                },
            },
        }
    }
}

/// The value of a primary expression.
pub open spec fn eval_primary(e: PrimaryExp, w: World, st: Store, fuel: nat) -> Evaluated
    decreases fuel, 0nat, e, 0nat,
{
    match e {
        PrimaryExp::Exp(exp) => eval_exp(*exp, w, st, fuel),
        PrimaryExp::Number(num) => Ok((st, Some(num))),
        PrimaryExp::LVal(lval) => eval_lval(lval, st),
    }
}

/// The value of a name.
pub open spec fn eval_lval(lval: LVal, st: Store) -> Evaluated {
    match st.values.lookup(lval.ident@) {
        Some(v) => Ok((st, Some(v.number()))),
        None => Err(Error::SymbolNotFound),
    }
}

/// A declaration: `init` is what evaluating the initialiser gave.
pub open spec fn declared(ident: Name, constant: bool, init: Evaluated) -> Executed {
    match init {
        Err(e) => Err(e),
        Ok((st, v)) => match v {
            None => Err(Error::MissingExpression),
            Some(x) => {
                let value = if constant {
                    Value::Const(Type::I32(x))
                } else {
                    Value::Var(Type::I32(x))
                };
                match st.values.declare(ident, value) {
                    Err(e) => Err(e),
                    Ok(values) => Ok((Store { values, ..st }, None)),
                }
            },
        },
    }
}

/// A declaration: the initialiser is evaluated and the name is bound to its value.
pub open spec fn exec_decl(d: Decl, w: World, st: Store, fuel: nat) -> Executed
    decreases fuel, 1nat, d, 0nat,
{
    match d {
        Decl::VarDecl(decl) => declared(
            decl.ident@,
            false,
            eval_exp(decl.initval.exp, w, st, fuel),
        ),
        Decl::ValDecl(decl) => declared(decl.ident@, true, eval_exp(decl.initval.exp, w, st, fuel)),
    }
}

/// An assignment: `value` is what evaluating the right side gave.
pub open spec fn assigned(ident: Name, value: Evaluated) -> Executed {
    match value {
        Err(e) => Err(e),
        Ok((st, v)) => match v {
            None => Err(Error::MissingExpression),
            Some(x) => match st.values.assign(ident, Value::Var(Type::I32(x))) {
                Err(e) => Err(e),
                Ok(values) => Ok((Store { values, ..st }, None)),
            },
        },
    }
}

/// `return e`: `value` is what evaluating `e` gave.
pub open spec fn returned(value: Evaluated) -> Executed {
    match value {
        Err(e) => Err(e),
        Ok((st, v)) => Ok(
            (
                st,
                Some(
                    Label::Type(
                        match v {
                            Some(x) => Some(Type::I32(x)),
                            None => None,
                        },
                    ),
                ),
            ),
        ),
    }
}

/// The end of a block: its scope is closed.
pub open spec fn closed(inner: Executed) -> Executed {
    match inner {
        Err(e) => Err(e),
        Ok((st, label)) => Ok((Store { values: st.values.exit(), ..st }, label)),
    }
}

/// A statement.
pub open spec fn exec_stmt(s: Stmt, w: World, st: Store, fuel: nat) -> Executed
    decreases fuel, 2nat, s, 1nat,
{
    match s {
        Stmt::Assign(lval, exp) => assigned(lval.ident@, eval_exp(exp, w, st, fuel)),
        Stmt::Block(block) => closed(
            exec_items(block, 0, w, Store { values: st.values.enter(), ..st }, fuel),
        ),
        Stmt::Exp(None) => Ok((st, None)),
        Stmt::Exp(Some(exp)) => match eval_exp(exp, w, st, fuel) {
            Err(e) => Err(e),
            Ok((after, _)) => Ok((after, None)),
        },
        Stmt::Ret(None) => Ok((st, Some(Label::Type(None)))),
        Stmt::Ret(Some(exp)) => returned(eval_exp(exp, w, st, fuel)),
        Stmt::If { condition, then_branch, else_branch } => match eval_exp(condition, w, st, fuel) {
            Err(e) => Err(e),
            Ok((after, v)) => match v {
                None => Err(Error::MissingExpression),
                Some(c) => if c != 0 {
                    exec_stmt(*then_branch, w, after, fuel)
                } else {
                    exec_else(else_branch, w, after, fuel)
                },
            },
        },
        Stmt::While { .. } => exec_while(s, w, st, fuel),
        Stmt::FuncDef(_) => Err(Error::InterpreterError(Trouble::NestedFunction)),
        Stmt::Continue => Ok((st, Some(Label::Continue))),
        Stmt::Break => Ok((st, Some(Label::Break))),
    }
}

/// The `else` branch of an `if`, where it has one.
pub open spec fn exec_else(s: Option<Box<Stmt>>, w: World, st: Store, fuel: nat) -> Executed
    decreases fuel, 2nat, s, 0nat,
{
    match s {
        None => Ok((st, None)),
        Some(other) => exec_stmt(*other, w, st, fuel),
    }
}

/// The loop `s`: as long as the condition is not 0 the body runs, each
/// time with a limit that is lower by one. `break` ends the loop, `continue`
/// the turn, and `return` ends the loop and what stands around it.
pub open spec fn exec_while(s: Stmt, w: World, st: Store, fuel: nat) -> Executed
    decreases fuel, 2nat, s, 0nat,
{
    match s {
        Stmt::While { condition, loopbody } => if fuel == 0 {
            Err(Error::InterpreterError(Trouble::OutOfFuel))
        } else {
            match eval_exp(condition, w, st, (fuel - 1) as nat) {
                Err(e) => Err(e),
                Ok((after, v)) => match v {
                    None => Err(Error::MissingExpression),
                    Some(c) => if c == 0 {
                        Ok((after, None))
                    } else {
                        match exec_stmt(*loopbody, w, after, (fuel - 1) as nat) {
                            Err(e) => Err(e),
                            Ok((end, label)) => match label {
                                Some(Label::Break) => Ok((end, None)),
                                Some(Label::Type(v)) => Ok((end, Some(Label::Type(v)))),
                                _ => exec_while(s, w, end, (fuel - 1) as nat),
                            },
                        }
                    },
                },
            }
        },
        _ => Ok((st, None)),
    }
}

/// The items of a block from the `i`-th on: they run in order until one
/// of them ends with `return`, `break` or `continue`.
pub open spec fn exec_items(b: Block, i: nat, w: World, st: Store, fuel: nat) -> Executed
    decreases fuel, 2nat, b, b.items.len() - i,
{
    if i >= b.items.len() {
        Ok((st, None))
    } else {
        match exec_item(b.items@[i as int], w, st, fuel) {
            Err(e) => Err(e),
            Ok((after, label)) => match label {
                Some(l) => Ok((after, Some(l))),
                None => exec_items(b, i + 1, w, after, fuel),
            },
        }
    }
}

/// An item of a block.
pub open spec fn exec_item(item: BlockItem, w: World, st: Store, fuel: nat) -> Executed
    decreases fuel, 2nat, item, 0nat,
{
    match item {
        BlockItem::Decl(decl) => exec_decl(decl, w, st, fuel),
        BlockItem::Stmt(stmt) => exec_stmt(stmt, w, st, fuel),
    }
}

/// The global declarations from the `i`-th on, in order.
pub open spec fn exec_globals(defs: Seq<GlobalDef>, i: nat, w: World, st: Store, fuel: nat) -> Result<
    Store,
    Error,
>
    decreases defs.len() - i,
{
    if i >= defs.len() {
        Ok(st)
    } else {
        match defs[i as int] {
            GlobalDef::FuncDef(_) => exec_globals(defs, i + 1, w, st, fuel),
            GlobalDef::Decl(decl) => match exec_decl(decl, w, st, fuel) {
                Err(e) => Err(e),
                Ok((after, _)) => exec_globals(defs, i + 1, w, after, fuel),
            },
        }
    }
}

/// A run of the program: the global declarations in order, then `main`,
/// if the program has one.
pub open spec fn run_unit(w: World, fuel: nat) -> Result<Store, Error> {
    match exec_globals(w.unit.globaldefs@, 0, w, fresh(), fuel) {
        Err(e) => Err(e),
        Ok(st) => match function_from(w.unit.globaldefs@, main_name(), 0) {
            None => Ok(st),
            Some(f) => {
                let args = Ok::<(Store, Seq<i32>), Error>((st, Seq::empty()));
                let body = if fuel == 0 {
                    Err(Error::InterpreterError(Trouble::OutOfFuel))
                } else {
                    exec_items(f.block, 0, w, inside(f, args), (fuel - 1) as nat)
                };
                match called(f, args, body) {
                    Err(e) => Err(e),
                    Ok((end, _)) => Ok(end),
                }
            },
        },
    }
}

} // verus!
