//! Where the two ways to run a program agree.
//!
//! An expression that calls no function and uses no `!` has the same value
//! in the interpreter and on the machine (`lemma_expressions_agree`).
//! Declarations and assignments of such expressions or of `getint()`,
//! calls of `print` with such arguments and empty statements do the same
//! on both (`lemma_straight_line_agrees`). A program of such global
//! declarations and a `main` of such items writes the same on both, and
//! the machine halts within as many steps as the program has instructions
//! (`lemma_straight_program_agrees`).
//!
//! `!` is left out because the two differ on it: the interpreter computes
//! the logical negation, the machine the bitwise complement.

use crate::ast::{
    AddExp, Block, BlockItem, CompUnit, Decl, EqExp, Exp, FuncDef, FuncRParams, GlobalDef,
    LAndExp, LOrExp, LVal, MulExp, PrimaryExp, RelExp, Stmt, UnaryExp, UnaryOp,
};
use crate::bytecode_translation::environment::{
    distinct, lemma_declared_slot, lemma_position, position, Function, Name, Scopes,
};
use crate::bytecode_translation::laws::bare;
use crate::bytecode_translation::scheme::{
    add_code, add_op, assign_code, binary, block_code, decl_code, declaration, declare_all,
    defines_function, eq_code, eq_op, exp_code, followed, func_code, functions_code,
    getint_name, globals_code, item_code, items_code, land_code, load_op, lor_code, lval_code,
    main_name, mul_code, mul_op, offset, param_names, primary_code, print_name, prints_code,
    rel_code, rel_op, store_op, unary_code, unit_code, Context, Emitted,
};
use crate::error::{Error, Fault, Trouble};
use crate::interpreter::environment::{find, Values};
use crate::interpreter::semantics::{
    apply, assigned, called, declared, eval_add, eval_eq, eval_exp,
    eval_land, eval_lor, eval_lval, eval_mul, eval_primary, eval_prints, eval_rel, eval_unary,
    exec_decl, exec_globals, exec_item, exec_items, fresh, function_from, inside, run_unit,
    Evaluated, Store, World,
};
use crate::interpreter::values::{Type, Value};
use crate::vm::{binop_value, grown, Action, Machine, OpCode, Output, RunEnd, Stop};
use vstd::prelude::*;

verus! {

/// The input that is left after a run of at most `fuel` steps.
pub open spec fn unread(m: Machine, input: Seq<i32>, fuel: nat) -> Seq<i32>
    decreases fuel,
{
    if fuel == 0 {
        input
    } else {
        match m.advance(input) {
            None => input,
            Some((next, rest, _)) => unread(next, rest, (fuel - 1) as nat),
        }
    }
}

/// A run of `a + b` steps is a run of `a` steps and then, if the machine
/// got through them, a run of `b` steps from where it stands.
pub proof fn lemma_run_compose(m: Machine, input: Seq<i32>, a: nat, b: nat, output: Seq<Output>)
    ensures
        ({
            let first = m.run_from(input, a, output);
            m.run_from(input, a + b, output) == if first.stop == Ok::<Stop, Fault>(
                Stop::Exhausted,
            ) {
                first.machine.run_from(unread(m, input, a), b, first.output)
            } else {
                first
            }
        }),
        unread(m, input, a + b) == if m.run_from(input, a, output).stop == Ok::<Stop, Fault>(
            Stop::Exhausted,
        ) {
            unread(m.run_from(input, a, output).machine, unread(m, input, a), b)
        } else {
            unread(m, input, a)
        },
    decreases a,
{
    if a > 0 {
        match m.advance(input) {
            None => {
                assert(m.ending(input) != Ok::<Stop, Fault>(Stop::Exhausted));
            },
            Some((next, rest, written)) => {
                lemma_run_compose(next, rest, (a - 1) as nat, b, output + written);
                lemma_unread_any(next, rest, (a - 1) as nat, output + written, output);
            },
        }
    }
}

/// Whether a run gets through its steps does not depend on what was written before.
proof fn lemma_unread_any(m: Machine, input: Seq<i32>, fuel: nat, out1: Seq<Output>, out2: Seq<Output>)
    ensures
        m.run_from(input, fuel, out1).stop == m.run_from(input, fuel, out2).stop,
        m.run_from(input, fuel, out1).machine == m.run_from(input, fuel, out2).machine,
    decreases fuel,
{
    if fuel > 0 {
        match m.advance(input) {
            None => {},
            Some((next, rest, written)) => {
                lemma_unread_any(next, rest, (fuel - 1) as nat, out1 + written, out2 + written);
            },
        }
    }
}

/// The machine `m` after it has computed `v`: `n` instructions further,
/// with `v` on top of the operand stack.
pub open spec fn with_value(m: Machine, n: nat, v: i32) -> Machine {
    Machine { pc: (m.pc + n) as usize, stack: m.stack.push(v), ..m }
}

/// In `n` steps the machine computes `v`: it gets through the steps, and
/// all that changes is that it stands `n` instructions further with `v` on
/// top of the operand stack. It reads nothing and writes nothing.
pub open spec fn computes(m: Machine, input: Seq<i32>, n: nat, v: i32) -> bool {
    &&& forall|out: Seq<Output>| #[trigger]
        m.run_from(input, n, out) == (RunEnd {
            machine: with_value(m, n, v),
            output: out,
            stop: Ok(Stop::Exhausted),
        })
    &&& unread(m, input, n) == input
}

/// Within `n` steps the machine meets the fault `fault`.
pub open spec fn breaks(m: Machine, input: Seq<i32>, n: nat, fault: Fault) -> bool {
    forall|out: Seq<Output>| (#[trigger] m.run_from(input, n, out)).stop == Err::<Stop, Fault>(fault)
}

/// The machine stands at the code `code`.
pub open spec fn stands_at(m: Machine, code: Seq<OpCode>) -> bool {
    &&& m.wf()
    &&& m.code.len() <= usize::MAX
    &&& m.pc + code.len() <= m.code.len()
    &&& m.code.subrange(m.pc as int, m.pc + code.len()) == code
}

/// A machine that stands at code stands at its first part, and after the
/// first part it stands at the rest.
pub proof fn lemma_stands_split(m: Machine, first: Seq<OpCode>, rest: Seq<OpCode>, v: i32)
    requires
        stands_at(m, first + rest),
    ensures
        stands_at(m, first),
        stands_at(with_value(m, first.len(), v), rest),
{
    let code = first + rest;
    assert(m.code.subrange(m.pc as int, m.pc + first.len()) =~= first) by {
        assert forall|i: int| 0 <= i < first.len() implies m.code[m.pc + i] == first[i] by {
            assert(m.code.subrange(m.pc as int, m.pc + code.len())[i] == code[i]);
        }
    }
    let next = with_value(m, first.len(), v);
    assert(next.code.subrange(next.pc as int, next.pc + rest.len()) =~= rest) by {
        assert forall|i: int| 0 <= i < rest.len() implies next.code[next.pc + i] == rest[i] by {
            assert(m.code.subrange(m.pc as int, m.pc + code.len())[first.len() + i] == code[
                first.len() + i
            ]);
        }
    }
}

/// A fault in the first part of a run is a fault of the whole run.
pub proof fn lemma_breaks_first(m: Machine, input: Seq<i32>, a: nat, b: nat, fault: Fault)
    requires
        breaks(m, input, a, fault),
    ensures
        breaks(m, input, a + b, fault),
{
    assert forall|out: Seq<Output>| (#[trigger] m.run_from(input, a + b, out)).stop == Err::<
        Stop,
        Fault,
    >(fault) by {
        lemma_run_compose(m, input, a, b, out);
        assert(m.run_from(input, a, out).stop == Err::<Stop, Fault>(fault));
    }
}

/// A fault after a value was computed is a fault of the whole run.
pub proof fn lemma_breaks_second(m: Machine, input: Seq<i32>, a: nat, x: i32, b: nat, fault: Fault)
    requires
        computes(m, input, a, x),
        breaks(with_value(m, a, x), input, b, fault),
    ensures
        breaks(m, input, a + b, fault),
{
    assert forall|out: Seq<Output>| (#[trigger] m.run_from(input, a + b, out)).stop == Err::<
        Stop,
        Fault,
    >(fault) by {
        lemma_run_compose(m, input, a, b, out);
        let first = m.run_from(input, a, out);
        assert(first.machine == with_value(m, a, x));
        assert(with_value(m, a, x).run_from(input, b, out).stop == Err::<Stop, Fault>(fault));
    }
}

/// A run of one step.
pub proof fn lemma_one_step(m: Machine, input: Seq<i32>, out: Seq<Output>)
    ensures
        match m.advance(input) {
            Some((next, rest, written)) => m.run_from(input, 1, out) == (RunEnd {
                machine: next,
                output: out + written,
                stop: Ok(Stop::Exhausted),
            }) && unread(m, input, 1) == rest,
            None => m.run_from(input, 1, out) == (RunEnd {
                machine: m,
                output: out,
                stop: m.ending(input),
            }) && unread(m, input, 1) == input,
        },
{
    match m.advance(input) {
        Some((next, rest, written)) => {
            assert(next.run_from(rest, 0, out + written) == (RunEnd {
                machine: next,
                output: out + written,
                stop: Ok(Stop::Exhausted),
            }));
            assert(unread(next, rest, 0) == rest);
        },
        None => {},
    }
}

/// An instruction that pushes `v` and does nothing else computes `v` in one step.
pub proof fn lemma_push_computes(m: Machine, input: Seq<i32>, op: OpCode, v: i32)
    requires
        stands_at(m, seq![op]),
        m.effect(op) == Ok::<(Machine, crate::vm::Action), Fault>(
            (with_value(m, 1, v), crate::vm::Action::Continue),
        ),
    ensures
        computes(m, input, 1, v),
{
    assert(m.code[m.pc as int] == m.code.subrange(m.pc as int, m.pc + 1)[0]);
    assert(m.advance(input) == Some((with_value(m, 1, v), input, Seq::<Output>::empty())));
    assert forall|out: Seq<Output>| #[trigger]
        m.run_from(input, 1, out) == (RunEnd {
            machine: with_value(m, 1, v),
            output: out,
            stop: Ok(Stop::Exhausted),
        }) by {
        lemma_one_step(m, input, out);
        assert(out + Seq::<Output>::empty() =~= out);
    }
    lemma_one_step(m, input, Seq::empty());
}

/// Code that computes `x`, followed by the negation, computes the negation of `x`.
pub proof fn lemma_negation_computes(m: Machine, input: Seq<i32>, code: Seq<OpCode>, x: i32)
    requires
        stands_at(m, code.push(OpCode::UniOpNeg)),
        computes(m, input, code.len(), x),
    ensures
        computes(
            m,
            input,
            code.len() + 1,
            vstd::wrapping::i32_specs::wrapping_sub(0, x),
        ),
{
    let v = vstd::wrapping::i32_specs::wrapping_sub(0, x);
    let n = code.len();
    let mid = with_value(m, n, x);
    assert(code.push(OpCode::UniOpNeg) =~= code + seq![OpCode::UniOpNeg]);
    lemma_stands_split(m, code, seq![OpCode::UniOpNeg], x);
    assert(mid.code[mid.pc as int] == mid.code.subrange(mid.pc as int, mid.pc + 1)[0]);
    assert(mid.stack.take(mid.stack.len() - 1) =~= m.stack);
    assert(mid.top(0) == x);
    assert(mid.advance(input) == Some((with_value(m, n + 1, v), input, Seq::<Output>::empty())));
    assert forall|out: Seq<Output>| #[trigger]
        m.run_from(input, n + 1, out) == (RunEnd {
            machine: with_value(m, n + 1, v),
            output: out,
            stop: Ok(Stop::Exhausted),
        }) by {
        lemma_run_compose(m, input, n, 1, out);
        assert(m.run_from(input, n, out).machine == mid);
        lemma_one_step(mid, input, out);
        assert(out + Seq::<Output>::empty() =~= out);
    }
    lemma_run_compose(m, input, n, 1, Seq::empty());
    assert(m.run_from(input, n, Seq::empty()).machine == mid);
    lemma_one_step(mid, input, Seq::empty());
}

/// Whether `op` is one of the twelve binary operators.
pub open spec fn is_binary(op: OpCode) -> bool {
    binop_value(op, 0, 1) is Ok
}

/// Code that computes `a`, code that computes `b`, and a binary operator
/// compute what the operator makes of `a` and `b`, or meet its fault.
pub proof fn lemma_binary_computes(
    m: Machine,
    input: Seq<i32>,
    lhs: Seq<OpCode>,
    rhs: Seq<OpCode>,
    op: OpCode,
    a: i32,
    b: i32,
)
    requires
        stands_at(m, (lhs + rhs).push(op)),
        computes(m, input, lhs.len(), a),
        computes(with_value(m, lhs.len(), a), input, rhs.len(), b),
        is_binary(op),
    ensures
        match binop_value(op, a, b) {
            Ok(v) => computes(m, input, lhs.len() + rhs.len() + 1, v),
            Err(fault) => breaks(m, input, lhs.len() + rhs.len() + 1, fault),
        },
{
    let n = lhs.len() + rhs.len();
    let first = with_value(m, lhs.len(), a);
    let mid = with_value(first, rhs.len(), b);
    assert((lhs + rhs).push(op) =~= lhs + (rhs + seq![op]));
    lemma_stands_split(m, lhs, rhs + seq![op], a);
    lemma_stands_split(first, rhs, seq![op], b);
    assert(mid.code[mid.pc as int] == mid.code.subrange(mid.pc as int, mid.pc + 1)[0]);
    assert(mid.stack.take(mid.stack.len() - 2) =~= m.stack);
    assert(mid.top(0) == b && mid.top(1) == a);
    match binop_value(op, a, b) {
        Ok(v) => {
            assert(mid.pop_n(2).push(v).stack =~= m.stack.push(v));
            assert(mid.advance(input) == Some(
                (with_value(m, n + 1, v), input, Seq::<Output>::empty()),
            ));
        },
        Err(fault) => {
            assert(mid.advance(input) is None);
            assert(mid.ending(input) == Err::<Stop, Fault>(fault));
        },
    }
    assert forall|out: Seq<Output>|
        match binop_value(op, a, b) {
            Ok(v) => #[trigger] m.run_from(input, n + 1, out) == (RunEnd {
                machine: with_value(m, n + 1, v),
                output: out,
                stop: Ok(Stop::Exhausted),
            }),
            Err(fault) => m.run_from(input, n + 1, out).stop == Err::<Stop, Fault>(fault),
        } by {
        lemma_run_compose(m, input, lhs.len(), rhs.len() + 1, out);
        assert(m.run_from(input, lhs.len(), out).machine == first);
        lemma_run_compose(first, input, rhs.len(), 1, out);
        assert(first.run_from(input, rhs.len(), out).machine == mid);
        lemma_one_step(mid, input, out);
        assert(out + Seq::<Output>::empty() =~= out);
    }
    lemma_run_compose(m, input, lhs.len(), rhs.len() + 1, Seq::empty());
    assert(m.run_from(input, lhs.len(), Seq::empty()).machine == first);
    lemma_run_compose(first, input, rhs.len(), 1, Seq::empty());
    assert(first.run_from(input, rhs.len(), Seq::empty()).machine == mid);
    lemma_one_step(mid, input, Seq::empty());
}

/// What `find` finds is the first binding of the name, and it finds
/// nothing only where there is none.
pub proof fn lemma_find(scope: Seq<(Name, Value)>, name: Name, from: nat)
    ensures
        match find(scope, name, from) {
            Some(j) => from <= j < scope.len() && scope[j as int].0 == name,
            None => forall|j: int| from <= j < scope.len() ==> scope[j].0 != name,
        },
    decreases scope.len() - from,
{
    if from < scope.len() && scope[from as int].0 != name {
        lemma_find(scope, name, from + 1);
    }
}

/// A scope of the compiler, a scope of the interpreter and a frame of the
/// machine hold the same: every name that the compiler declared has a slot
/// in the frame, the interpreter binds it, and the slot holds its value;
/// and the interpreter binds no other name.
pub open spec fn scope_agrees(names: Seq<Name>, bindings: Seq<(Name, Value)>, frame: Seq<i32>)
    -> bool {
    &&& frame.len() <= usize::MAX
    &&& names.len() <= frame.len()
    &&& forall|i: int|
        0 <= i < names.len() ==> (find(bindings, #[trigger] names[i], 0) matches Some(j)
            && bindings[j as int].1.number() == frame[i])
    &&& forall|j: int|
        0 <= j < bindings.len() ==> position(names, (#[trigger] bindings[j]).0, 0) is Some
}

/// The environment of the compiler, the values of the interpreter and the
/// frames of the machine hold the same, scope by scope and frame by frame.
pub open spec fn agrees(env: Scopes, values: Values, frames: Seq<Seq<i32>>) -> bool {
    &&& env.wf()
    &&& frames.len() <= usize::MAX
    &&& env.scopes.len() == frames.len()
    &&& values.scopes.len() == frames.len()
    &&& forall|k: int|
        0 <= k < frames.len() ==> scope_agrees(
            env.scopes[k],
            values.scopes[k],
            #[trigger] frames[k],
        )
}

/// Where the compiler finds a name, the interpreter finds its value, and
/// the machine holds that value in the slot that the compiler found.
pub proof fn lemma_resolve_agrees(
    env: Scopes,
    values: Values,
    frames: Seq<Seq<i32>>,
    name: Name,
    dep: nat,
)
    requires
        agrees(env, values, frames),
    ensures
        match env.resolve_from(name, dep) {
            Some((d, slot)) => {
                &&& d < frames.len()
                &&& slot < frames[frames.len() - 1 - d].len()
                &&& values.lookup_from(name, dep) matches Some(v) && v.number()
                    == frames[frames.len() - 1 - d][slot as int]
            },
            None => true,
        },
    decreases frames.len() - dep,
{
    if dep < frames.len() {
        let k = frames.len() - 1 - dep;
        assert(scope_agrees(env.scopes[k], values.scopes[k], frames[k]));
        lemma_position(env.scopes[k], name, 0);
        lemma_find(values.scopes[k], name, 0);
        match position(env.scopes[k], name, 0) {
            Some(slot) => {
                assert(env.scopes[k][slot as int] == name);
            },
            None => {
                if let Some(j) = find(values.scopes[k], name, 0) {
                    lemma_position(env.scopes[k], values.scopes[k][j as int].0, 0);
                }
                lemma_resolve_agrees(env, values, frames, name, dep + 1);
            },
        }
    }
}

/// What evaluating an expression gave agrees with what running its code
/// gives: where the interpreter gives a value and leaves the store as it
/// was, the machine computes the same value; where the interpreter meets a
/// division by zero, so does the machine; and nothing else happens.
pub open spec fn alike(
    code: Result<Seq<OpCode>, Error>,
    evaluated: Evaluated,
    st: Store,
    m: Machine,
    input: Seq<i32>,
) -> bool {
    code matches Ok(c) ==> (stands_at(m, c) ==> match evaluated {
        Ok((after, v)) => after == st && (v matches Some(x) && computes(m, input, c.len(), x)),
        Err(e) => e == Error::InterpreterError(Trouble::DivisionByZero) && breaks(
            m,
            input,
            c.len(),
            Fault::DivisionByZero,
        ),
    })
}

/// A variable has the same value in the interpreter and on the machine.
pub proof fn lemma_lval_alike(lval: LVal, env: Scopes, st: Store, m: Machine, input: Seq<i32>)
    requires
        agrees(env, st.values, m.frames),
    ensures
        alike(lval_code(lval, env), eval_lval(lval, st), st, m, input),
{
    if let Ok(code) = lval_code(lval, env) {
        if stands_at(m, code) {
            lemma_resolve_agrees(env, st.values, m.frames, lval.ident@, 0);
            let (dep, slot) = env.resolve(lval.ident@)->0;
            let v = st.values.lookup(lval.ident@)->0.number();
            assert(code =~= seq![load_op(env, dep, slot)]);
            lemma_push_computes(m, input, load_op(env, dep, slot), v);
        }
    }
}

/// Whether an expression calls no function and uses no `!`.
pub open spec fn quiet_exp(e: Exp) -> bool
    decreases e,
{
    quiet_lor(e.lor_exp)
}

/// Whether an expression of `||` rank calls no function and uses no `!`.
pub open spec fn quiet_lor(e: LOrExp) -> bool
    decreases e,
{
    match e {
        LOrExp::And(inner) => quiet_land(inner),
        LOrExp::Or(lhs, rhs) => quiet_lor(*lhs) && quiet_land(rhs),
    }
}

/// Whether an expression of `&&` rank calls no function and uses no `!`.
pub open spec fn quiet_land(e: LAndExp) -> bool
    decreases e,
{
    match e {
        LAndExp::Eq(inner) => quiet_eq(inner),
        LAndExp::And(lhs, rhs) => quiet_land(*lhs) && quiet_eq(rhs),
    }
}

/// Whether an expression of `==` rank calls no function and uses no `!`.
pub open spec fn quiet_eq(e: EqExp) -> bool
    decreases e,
{
    match e {
        EqExp::Rel(inner) => quiet_rel(inner),
        EqExp::Eq(lhs, _, rhs) => quiet_eq(*lhs) && quiet_rel(rhs),
    }
}

/// Whether an expression of `<` rank calls no function and uses no `!`.
pub open spec fn quiet_rel(e: RelExp) -> bool
    decreases e,
{
    match e {
        RelExp::Add(inner) => quiet_add(inner),
        RelExp::Rel(lhs, _, rhs) => quiet_rel(*lhs) && quiet_add(rhs),
    }
}

/// Whether an expression of `+` rank calls no function and uses no `!`.
pub open spec fn quiet_add(e: AddExp) -> bool
    decreases e,
{
    match e {
        AddExp::Mul(inner) => quiet_mul(inner),
        AddExp::Add(lhs, _, rhs) => quiet_add(*lhs) && quiet_mul(rhs),
    }
}

/// Whether an expression of `*` rank calls no function and uses no `!`.
pub open spec fn quiet_mul(e: MulExp) -> bool
    decreases e,
{
    match e {
        MulExp::Unary(inner) => quiet_unary(inner),
        MulExp::Mul(lhs, _, rhs) => quiet_mul(*lhs) && quiet_unary(rhs),
    }
}

/// Whether a unary expression calls no function and uses no `!`.
pub open spec fn quiet_unary(e: UnaryExp) -> bool
    decreases e,
{
    match e {
        UnaryExp::Pri(pri) => quiet_primary(pri),
        UnaryExp::Unary(o, una) => o == UnaryOp::Neg && quiet_unary(*una),
        UnaryExp::FuncCall { .. } => false,
    }
}

/// Whether a primary expression calls no function and uses no `!`.
pub open spec fn quiet_primary(e: PrimaryExp) -> bool
    decreases e,
{
    match e {
        PrimaryExp::Exp(exp) => quiet_exp(*exp),
        PrimaryExp::Number(_) => true,
        PrimaryExp::LVal(_) => true,
    }
}

/// Whether the instruction `op` computes what the interpreter makes of the
/// operator `o`, and meets a division by zero where the interpreter does.
pub open spec fn same_operator(op: OpCode, o: crate::ast::BinaryOp) -> bool {
    forall|x: i32, y: i32|
        match #[trigger] binop_value(op, x, y) {
            Ok(v) => apply(o, x, y) == Ok::<i32, Error>(v),
            Err(fault) => fault == Fault::DivisionByZero && apply(o, x, y) == Err::<i32, Error>(
                Error::InterpreterError(Trouble::DivisionByZero),
            ),
        }
}

/// The value of a binary node agrees, if the values of its operands do.
proof fn lemma_node_alike(
    lcode: Seq<OpCode>,
    rcode: Seq<OpCode>,
    op: OpCode,
    a: i32,
    right: Evaluated,
    result: Evaluated,
    st: Store,
    m: Machine,
    input: Seq<i32>,
)
    requires
        stands_at(m, (lcode + rcode).push(op)),
        computes(m, input, lcode.len(), a),
        alike(Ok(rcode), right, st, with_value(m, lcode.len(), a), input),
        is_binary(op),
        match right {
            Err(e) => result == Err::<(Store, Option<i32>), Error>(e),
            Ok((after, b)) => b matches Some(y) ==> match binop_value(op, a, y) {
                Ok(v) => result == Ok::<(Store, Option<i32>), Error>((after, Some(v))),
                Err(fault) => fault == Fault::DivisionByZero && result == Err::<
                    (Store, Option<i32>),
                    Error,
                >(Error::InterpreterError(Trouble::DivisionByZero)),
            },
        },
    ensures
        alike(Ok((lcode + rcode).push(op)), result, st, m, input),
{
    let first = with_value(m, lcode.len(), a);
    assert((lcode + rcode).push(op) =~= lcode + (rcode + seq![op]));
    lemma_stands_split(m, lcode, rcode + seq![op], a);
    lemma_stands_split(first, rcode, seq![op], 0);
    match right {
        Err(_) => {
            lemma_breaks_second(m, input, lcode.len(), a, rcode.len(), Fault::DivisionByZero);
            lemma_breaks_first(m, input, lcode.len() + rcode.len(), 1, Fault::DivisionByZero);
        },
        Ok((after, b)) => {
            lemma_binary_computes(m, input, lcode, rcode, op, a, b->0);
        },
    }
}

proof fn lemma_exp_alike(
    e: Exp,
    env: Scopes,
    w: World,
    st: Store,
    fuel: nat,
    m: Machine,
    input: Seq<i32>,
)
    requires
        quiet_exp(e),
        agrees(env, st.values, m.frames),
    ensures
        alike(exp_code(e, env), eval_exp(e, w, st, fuel), st, m, input),
    decreases e,
{
    lemma_lor_alike(e.lor_exp, env, w, st, fuel, m, input);
}

proof fn lemma_lor_alike(
    e: LOrExp,
    env: Scopes,
    w: World,
    st: Store,
    fuel: nat,
    m: Machine,
    input: Seq<i32>,
)
    requires
        quiet_lor(e),
        agrees(env, st.values, m.frames),
    ensures
        alike(lor_code(e, env), eval_lor(e, w, st, fuel), st, m, input),
    decreases e,
{
    match e {
        LOrExp::And(inner) => lemma_land_alike(inner, env, w, st, fuel, m, input),
        LOrExp::Or(lhs, rhs) => {
            if let Ok(code) = lor_code(e, env) {
                if stands_at(m, code) {
                    let lcode = lor_code(*lhs, env)->Ok_0;
                    let rcode = land_code(rhs, env)->Ok_0;
                    let op = OpCode::BinOpOr;
                    
                    assert(code =~= lcode + (rcode + seq![op]));
                    lemma_stands_split(m, lcode, rcode + seq![op], 0);
                    lemma_lor_alike(*lhs, env, w, st, fuel, m, input);
                    match eval_lor(*lhs, w, st, fuel) {
                        Err(_) => {
                            lemma_breaks_first(
                                m,
                                input,
                                lcode.len(),
                                rcode.len() + 1,
                                Fault::DivisionByZero,
                            );
                        },
                        Ok((mid, a)) => {
                            let first = with_value(m, lcode.len(), a->0);
                            lemma_stands_split(m, lcode, rcode + seq![op], a->0);
                            lemma_stands_split(first, rcode, seq![op], 0);
                            lemma_land_alike(rhs, env, w, st, fuel, first, input);
                            lemma_node_alike(
                                lcode,
                                rcode,
                                op,
                                a->0,
                                eval_land(rhs, w, st, fuel),
                                eval_lor(e, w, st, fuel),
                                st,
                                m,
                                input,
                            );
                        },
                    }
                }
            }
        },
    }
}

proof fn lemma_land_alike(
    e: LAndExp,
    env: Scopes,
    w: World,
    st: Store,
    fuel: nat,
    m: Machine,
    input: Seq<i32>,
)
    requires
        quiet_land(e),
        agrees(env, st.values, m.frames),
    ensures
        alike(land_code(e, env), eval_land(e, w, st, fuel), st, m, input),
    decreases e,
{
    match e {
        LAndExp::Eq(inner) => lemma_eq_alike(inner, env, w, st, fuel, m, input),
        LAndExp::And(lhs, rhs) => {
            if let Ok(code) = land_code(e, env) {
                if stands_at(m, code) {
                    let lcode = land_code(*lhs, env)->Ok_0;
                    let rcode = eq_code(rhs, env)->Ok_0;
                    let op = OpCode::BinOpAnd;
                    
                    assert(code =~= lcode + (rcode + seq![op]));
                    lemma_stands_split(m, lcode, rcode + seq![op], 0);
                    lemma_land_alike(*lhs, env, w, st, fuel, m, input);
                    match eval_land(*lhs, w, st, fuel) {
                        Err(_) => {
                            lemma_breaks_first(
                                m,
                                input,
                                lcode.len(),
                                rcode.len() + 1,
                                Fault::DivisionByZero,
                            );
                        },
                        Ok((mid, a)) => {
                            let first = with_value(m, lcode.len(), a->0);
                            lemma_stands_split(m, lcode, rcode + seq![op], a->0);
                            lemma_stands_split(first, rcode, seq![op], 0);
                            lemma_eq_alike(rhs, env, w, st, fuel, first, input);
                            lemma_node_alike(
                                lcode,
                                rcode,
                                op,
                                a->0,
                                eval_eq(rhs, w, st, fuel),
                                eval_land(e, w, st, fuel),
                                st,
                                m,
                                input,
                            );
                        },
                    }
                }
            }
        },
    }
}

proof fn lemma_eq_alike(
    e: EqExp,
    env: Scopes,
    w: World,
    st: Store,
    fuel: nat,
    m: Machine,
    input: Seq<i32>,
)
    requires
        quiet_eq(e),
        agrees(env, st.values, m.frames),
    ensures
        alike(eq_code(e, env), eval_eq(e, w, st, fuel), st, m, input),
    decreases e,
{
    match e {
        EqExp::Rel(inner) => lemma_rel_alike(inner, env, w, st, fuel, m, input),
        EqExp::Eq(lhs, o, rhs) => {
            if let Ok(code) = eq_code(e, env) {
                if stands_at(m, code) {
                    let lcode = eq_code(*lhs, env)->Ok_0;
                    let rcode = rel_code(rhs, env)->Ok_0;
                    let op = eq_op(o)->0;
                    assert(same_operator(op, o));
                    assert(code =~= lcode + (rcode + seq![op]));
                    lemma_stands_split(m, lcode, rcode + seq![op], 0);
                    lemma_eq_alike(*lhs, env, w, st, fuel, m, input);
                    match eval_eq(*lhs, w, st, fuel) {
                        Err(_) => {
                            lemma_breaks_first(
                                m,
                                input,
                                lcode.len(),
                                rcode.len() + 1,
                                Fault::DivisionByZero,
                            );
                        },
                        Ok((mid, a)) => {
                            let first = with_value(m, lcode.len(), a->0);
                            lemma_stands_split(m, lcode, rcode + seq![op], a->0);
                            lemma_stands_split(first, rcode, seq![op], 0);
                            lemma_rel_alike(rhs, env, w, st, fuel, first, input);
                            lemma_node_alike(
                                lcode,
                                rcode,
                                op,
                                a->0,
                                eval_rel(rhs, w, st, fuel),
                                eval_eq(e, w, st, fuel),
                                st,
                                m,
                                input,
                            );
                        },
                    }
                }
            }
        },
    }
}

proof fn lemma_rel_alike(
    e: RelExp,
    env: Scopes,
    w: World,
    st: Store,
    fuel: nat,
    m: Machine,
    input: Seq<i32>,
)
    requires
        quiet_rel(e),
        agrees(env, st.values, m.frames),
    ensures
        alike(rel_code(e, env), eval_rel(e, w, st, fuel), st, m, input),
    decreases e,
{
    match e {
        RelExp::Add(inner) => lemma_add_alike(inner, env, w, st, fuel, m, input),
        RelExp::Rel(lhs, o, rhs) => {
            if let Ok(code) = rel_code(e, env) {
                if stands_at(m, code) {
                    let lcode = rel_code(*lhs, env)->Ok_0;
                    let rcode = add_code(rhs, env)->Ok_0;
                    let op = rel_op(o)->0;
                    assert(same_operator(op, o));
                    assert(code =~= lcode + (rcode + seq![op]));
                    lemma_stands_split(m, lcode, rcode + seq![op], 0);
                    lemma_rel_alike(*lhs, env, w, st, fuel, m, input);
                    match eval_rel(*lhs, w, st, fuel) {
                        Err(_) => {
                            lemma_breaks_first(
                                m,
                                input,
                                lcode.len(),
                                rcode.len() + 1,
                                Fault::DivisionByZero,
                            );
                        },
                        Ok((mid, a)) => {
                            let first = with_value(m, lcode.len(), a->0);
                            lemma_stands_split(m, lcode, rcode + seq![op], a->0);
                            lemma_stands_split(first, rcode, seq![op], 0);
                            lemma_add_alike(rhs, env, w, st, fuel, first, input);
                            lemma_node_alike(
                                lcode,
                                rcode,
                                op,
                                a->0,
                                eval_add(rhs, w, st, fuel),
                                eval_rel(e, w, st, fuel),
                                st,
                                m,
                                input,
                            );
                        },
                    }
                }
            }
        },
    }
}

proof fn lemma_add_alike(
    e: AddExp,
    env: Scopes,
    w: World,
    st: Store,
    fuel: nat,
    m: Machine,
    input: Seq<i32>,
)
    requires
        quiet_add(e),
        agrees(env, st.values, m.frames),
    ensures
        alike(add_code(e, env), eval_add(e, w, st, fuel), st, m, input),
    decreases e,
{
    match e {
        AddExp::Mul(inner) => lemma_mul_alike(inner, env, w, st, fuel, m, input),
        AddExp::Add(lhs, o, rhs) => {
            if let Ok(code) = add_code(e, env) {
                if stands_at(m, code) {
                    let lcode = add_code(*lhs, env)->Ok_0;
                    let rcode = mul_code(rhs, env)->Ok_0;
                    let op = add_op(o)->0;
                    assert(same_operator(op, o));
                    assert(code =~= lcode + (rcode + seq![op]));
                    lemma_stands_split(m, lcode, rcode + seq![op], 0);
                    lemma_add_alike(*lhs, env, w, st, fuel, m, input);
                    match eval_add(*lhs, w, st, fuel) {
                        Err(_) => {
                            lemma_breaks_first(
                                m,
                                input,
                                lcode.len(),
                                rcode.len() + 1,
                                Fault::DivisionByZero,
                            );
                        },
                        Ok((mid, a)) => {
                            let first = with_value(m, lcode.len(), a->0);
                            lemma_stands_split(m, lcode, rcode + seq![op], a->0);
                            lemma_stands_split(first, rcode, seq![op], 0);
                            lemma_mul_alike(rhs, env, w, st, fuel, first, input);
                            lemma_node_alike(
                                lcode,
                                rcode,
                                op,
                                a->0,
                                eval_mul(rhs, w, st, fuel),
                                eval_add(e, w, st, fuel),
                                st,
                                m,
                                input,
                            );
                        },
                    }
                }
            }
        },
    }
}

proof fn lemma_mul_alike(
    e: MulExp,
    env: Scopes,
    w: World,
    st: Store,
    fuel: nat,
    m: Machine,
    input: Seq<i32>,
)
    requires
        quiet_mul(e),
        agrees(env, st.values, m.frames),
    ensures
        alike(mul_code(e, env), eval_mul(e, w, st, fuel), st, m, input),
    decreases e,
{
    match e {
        MulExp::Unary(inner) => lemma_unary_alike(inner, env, w, st, fuel, m, input),
        MulExp::Mul(lhs, o, rhs) => {
            if let Ok(code) = mul_code(e, env) {
                if stands_at(m, code) {
                    let lcode = mul_code(*lhs, env)->Ok_0;
                    let rcode = unary_code(rhs, env)->Ok_0;
                    let op = mul_op(o)->0;
                    assert(same_operator(op, o));
                    assert(code =~= lcode + (rcode + seq![op]));
                    lemma_stands_split(m, lcode, rcode + seq![op], 0);
                    lemma_mul_alike(*lhs, env, w, st, fuel, m, input);
                    match eval_mul(*lhs, w, st, fuel) {
                        Err(_) => {
                            lemma_breaks_first(
                                m,
                                input,
                                lcode.len(),
                                rcode.len() + 1,
                                Fault::DivisionByZero,
                            );
                        },
                        Ok((mid, a)) => {
                            let first = with_value(m, lcode.len(), a->0);
                            lemma_stands_split(m, lcode, rcode + seq![op], a->0);
                            lemma_stands_split(first, rcode, seq![op], 0);
                            lemma_unary_alike(rhs, env, w, st, fuel, first, input);
                            lemma_node_alike(
                                lcode,
                                rcode,
                                op,
                                a->0,
                                eval_unary(rhs, w, st, fuel),
                                eval_mul(e, w, st, fuel),
                                st,
                                m,
                                input,
                            );
                        },
                    }
                }
            }
        },
    }
}

proof fn lemma_unary_alike(
    e: UnaryExp,
    env: Scopes,
    w: World,
    st: Store,
    fuel: nat,
    m: Machine,
    input: Seq<i32>,
)
    requires
        quiet_unary(e),
        agrees(env, st.values, m.frames),
    ensures
        alike(unary_code(e, env), eval_unary(e, w, st, fuel), st, m, input),
    decreases e,
{
    match e {
        UnaryExp::Pri(pri) => lemma_primary_alike(pri, env, w, st, fuel, m, input),
        UnaryExp::Unary(_, una) => {
            if let Ok(code) = unary_code(e, env) {
                if stands_at(m, code) {
                    let inner = unary_code(*una, env)->Ok_0;
                    assert(code =~= inner + seq![OpCode::UniOpNeg]);
                    lemma_stands_split(m, inner, seq![OpCode::UniOpNeg], 0);
                    lemma_unary_alike(*una, env, w, st, fuel, m, input);
                    match eval_unary(*una, w, st, fuel) {
                        Err(_) => {
                            lemma_breaks_first(m, input, inner.len(), 1, Fault::DivisionByZero);
                        },
                        Ok((_, x)) => {
                            lemma_negation_computes(m, input, inner, x->0);
                        },
                    }
                }
            }
        },
        UnaryExp::FuncCall { .. } => {},
    }
}

proof fn lemma_primary_alike(
    e: PrimaryExp,
    env: Scopes,
    w: World,
    st: Store,
    fuel: nat,
    m: Machine,
    input: Seq<i32>,
)
    requires
        quiet_primary(e),
        agrees(env, st.values, m.frames),
    ensures
        alike(primary_code(e, env), eval_primary(e, w, st, fuel), st, m, input),
    decreases e,
{
    match e {
        PrimaryExp::Exp(exp) => lemma_exp_alike(*exp, env, w, st, fuel, m, input),
        PrimaryExp::Number(num) => {
            if stands_at(m, seq![OpCode::LoadConst(num)]) {
                lemma_push_computes(m, input, OpCode::LoadConst(num), num);
            }
        },
        PrimaryExp::LVal(lval) => lemma_lval_alike(lval, env, st, m, input),
    }
}

/// The two ways to run a program agree on expressions. Let an expression
/// call no function and use no `!`, let it compile to `code`, and let the
/// machine stand at `code` with frames that hold what the environment of
/// the compiler and the values of the interpreter say. Then, where the
/// interpreter gives the value `v` (and it leaves the store as it was), the
/// machine gets through `code`, stands behind it with `v` on top of the
/// operand stack, and has changed nothing else; and where the interpreter
/// meets a division by zero, so does the machine. The interpreter does
/// nothing else with such an expression.
pub proof fn lemma_expressions_agree(
    e: Exp,
    env: Scopes,
    w: World,
    st: Store,
    fuel: nat,
    m: Machine,
    input: Seq<i32>,
    code: Seq<OpCode>,
)
    requires
        quiet_exp(e),
        exp_code(e, env) == Ok::<Seq<OpCode>, Error>(code),
        stands_at(m, code),
        agrees(env, st.values, m.frames),
    ensures
        match eval_exp(e, w, st, fuel) {
            Ok((after, value)) => {
                &&& after == st
                &&& value matches Some(v) && m.run(input, code.len()) == (RunEnd {
                    machine: with_value(m, code.len(), v),
                    output: Seq::empty(),
                    stop: Ok(Stop::Exhausted),
                })
            },
            Err(e) => {
                &&& e == Error::InterpreterError(Trouble::DivisionByZero)
                &&& m.run(input, code.len()).stop == Err::<Stop, Fault>(Fault::DivisionByZero)
            },
        },
{
    lemma_exp_alike(e, env, w, st, fuel, m, input);
    assert(m.run(input, code.len()) == m.run_from(input, code.len(), Seq::empty()));
}

/// In `n` steps the machine, which has written `out`, gets to `end`: it
/// gets through the steps, `rest` is what it has not read of `input`, and
/// `written` is all it has written.
pub open spec fn performs(
    m: Machine,
    input: Seq<i32>,
    n: nat,
    out: Seq<Output>,
    end: Machine,
    rest: Seq<i32>,
    written: Seq<Output>,
) -> bool {
    &&& m.run_from(input, n, out) == (RunEnd {
        machine: end,
        output: written,
        stop: Ok(Stop::Exhausted),
    })
    &&& unread(m, input, n) == rest
}

/// One performance after the other is a performance.
pub proof fn lemma_performs_then(
    m: Machine,
    input: Seq<i32>,
    a: nat,
    out: Seq<Output>,
    mid: Machine,
    rest: Seq<i32>,
    written: Seq<Output>,
    b: nat,
    end: Machine,
    left: Seq<i32>,
    all: Seq<Output>,
)
    requires
        performs(m, input, a, out, mid, rest, written),
        performs(mid, rest, b, written, end, left, all),
    ensures
        performs(m, input, a + b, out, end, left, all),
{
    lemma_run_compose(m, input, a, b, out);
}

/// A machine that computes a value performs just that.
pub proof fn lemma_computes_performs(m: Machine, input: Seq<i32>, n: nat, v: i32, out: Seq<Output>)
    requires
        computes(m, input, n, v),
    ensures
        performs(m, input, n, out, with_value(m, n, v), input, out),
{
    assert(m.run_from(input, n, out) == (RunEnd {
        machine: with_value(m, n, v),
        output: out,
        stop: Ok(Stop::Exhausted),
    }));
}

/// Whether `e` is nothing but a call of `getint`.
pub open spec fn reads(e: Exp) -> bool {
    bare(e) matches Some(UnaryExp::FuncCall { ident, .. }) && ident@ != print_name() && ident@
        == getint_name()
}

/// Whether `e` yields a value without calling a function of the program
/// and without `!`: it calls no function at all, or it is nothing but a
/// call of `getint`.
pub open spec fn simple_exp(e: Exp) -> bool {
    quiet_exp(e) || reads(e)
}

/// The store `st` and the input `input` of the machine are in step: the
/// machine has before it what the interpreter has not read.
pub open spec fn in_step(w: World, st: Store, input: Seq<i32>) -> bool {
    st.used <= w.input.len() && input == w.input.skip(st.used as int)
}

/// A call of `getint` and nothing else: its code and its value.
proof fn lemma_reads(e: Exp, env: Scopes, w: World, st: Store, fuel: nat)
    requires
        reads(e),
    ensures
        exp_code(e, env) == Ok::<Seq<OpCode>, Error>(seq![OpCode::GetInt]),
        eval_exp(e, w, st, fuel) == if st.used < w.input.len() {
            Ok::<(Store, Option<i32>), Error>(
                (Store { used: st.used + 1, ..st }, Some(w.input[st.used as int])),
            )
        } else {
            Err(Error::InterpreterError(Trouble::OutOfInput))
        },
{
    let una = bare(e)->0;
    assert(exp_code(e, env) == unary_code(una, env)) by {
        reveal_with_fuel(exp_code, 2);
        reveal_with_fuel(lor_code, 2);
        reveal_with_fuel(land_code, 2);
        reveal_with_fuel(eq_code, 2);
        reveal_with_fuel(rel_code, 2);
        reveal_with_fuel(add_code, 2);
        reveal_with_fuel(mul_code, 2);
    }
    assert(eval_exp(e, w, st, fuel) == eval_unary(una, w, st, fuel)) by {
        reveal_with_fuel(eval_exp, 2);
        reveal_with_fuel(eval_lor, 2);
        reveal_with_fuel(eval_land, 2);
        reveal_with_fuel(eval_eq, 2);
        reveal_with_fuel(eval_rel, 2);
        reveal_with_fuel(eval_add, 2);
        reveal_with_fuel(eval_mul, 2);
    }
}

/// The value of a simple expression: where the interpreter gives the value
/// `x`, it changes nothing but what is read of the input, and the machine
/// performs the code of the expression and ends with `x` on top of the
/// operand stack and with the input in step.
pub proof fn lemma_simple_value(
    e: Exp,
    env: Scopes,
    w: World,
    st: Store,
    fuel: nat,
    m: Machine,
    input: Seq<i32>,
    out: Seq<Output>,
    code: Seq<OpCode>,
)
    requires
        simple_exp(e),
        exp_code(e, env) == Ok::<Seq<OpCode>, Error>(code),
        stands_at(m, code),
        agrees(env, st.values, m.frames),
        in_step(w, st, input),
        eval_exp(e, w, st, fuel) is Ok,
    ensures
        ({
            let (after, value) = eval_exp(e, w, st, fuel)->Ok_0;
            &&& value is Some
            &&& after.values == st.values
            &&& after.output == st.output
            &&& in_step(w, after, unread(m, input, code.len()))
            &&& performs(
                m,
                input,
                code.len(),
                out,
                with_value(m, code.len(), value->0),
                unread(m, input, code.len()),
                out,
            )
        }),
{
    if quiet_exp(e) {
        lemma_exp_alike(e, env, w, st, fuel, m, input);
        let (after, value) = eval_exp(e, w, st, fuel)->Ok_0;
        lemma_computes_performs(m, input, code.len(), value->0, out);
    } else {
        lemma_reads(e, env, w, st, fuel);
        assert(m.code[m.pc as int] == m.code.subrange(m.pc as int, m.pc + 1)[0]);
        let x = w.input[st.used as int];
        assert(input[0] == x);
        assert(input.drop_first() =~= w.input.skip(st.used as int + 1));
        assert(m.advance(input) == Some(
            (with_value(m, 1, x), input.drop_first(), Seq::<Output>::empty()),
        ));
        lemma_one_step(m, input, out);
        assert(out + Seq::<Output>::empty() =~= out);
    }
}

/// What `find` finds after one more binding.
proof fn lemma_find_push(scope: Seq<(Name, Value)>, binding: (Name, Value), name: Name, from: nat)
    requires
        from <= scope.len(),
    ensures
        find(scope.push(binding), name, from) == match find(scope, name, from) {
            Some(j) => Some(j),
            None => if binding.0 == name {
                Some(scope.len())
            } else {
                None
            },
        },
    decreases scope.len() - from,
{
    let more = scope.push(binding);
    if from < scope.len() {
        assert(more[from as int] == scope[from as int]);
        if scope[from as int].0 != name {
            lemma_find_push(scope, binding, name, from + 1);
        }
    } else {
        assert(more[from as int] == binding);
        assert(find(more, name, from + 1) is None);
    }
}

/// What `find` finds after the value of a binding has changed.
proof fn lemma_find_update(scope: Seq<(Name, Value)>, j: int, v: Value, name: Name, from: nat)
    requires
        0 <= j < scope.len(),
    ensures
        find(scope.update(j, (scope[j].0, v)), name, from) == find(scope, name, from),
    decreases scope.len() - from,
{
    let changed = scope.update(j, (scope[j].0, v));
    if from < scope.len() {
        assert(changed[from as int].0 == scope[from as int].0);
        if scope[from as int].0 != name {
            lemma_find_update(scope, j, v, name, from + 1);
        }
    }
}

/// A scope still agrees after a name was declared: the compiler gives it
/// the next slot, the interpreter binds it, and the machine stores its
/// value in that slot.
proof fn lemma_scope_declared(
    names: Seq<Name>,
    bindings: Seq<(Name, Value)>,
    frame: Seq<i32>,
    name: Name,
    value: Value,
)
    requires
        scope_agrees(names, bindings, frame),
        distinct(names),
        position(names, name, 0) is None,
        names.len() < usize::MAX,
    ensures
        find(bindings, name, 0) is None,
        scope_agrees(
            names.push(name),
            bindings.push((name, value)),
            grown(frame, names.len() + 1).update(names.len() as int, value.number()),
        ),
        distinct(names.push(name)),
{
    let slot = names.len() as int;
    let names2 = names.push(name);
    let bindings2 = bindings.push((name, value));
    let frame2 = grown(frame, names.len() + 1).update(slot, value.number());
    lemma_position(names, name, 0);
    lemma_find(bindings, name, 0);
    if let Some(j) = find(bindings, name, 0) {
        lemma_position(names, bindings[j as int].0, 0);
    }
    lemma_declared_slot(names, name, name);
    assert forall|i: int| 0 <= i < names2.len() implies (find(bindings2, #[trigger] names2[i], 0)
        matches Some(j) && bindings2[j as int].1.number() == frame2[i]) by {
        lemma_find_push(bindings, (name, value), names2[i], 0);
        if i < slot {
            assert(names2[i] == names[i]);
            lemma_find(bindings, names[i], 0);
        }
    }
    assert forall|j: int| 0 <= j < bindings2.len() implies position(
        names2,
        (#[trigger] bindings2[j]).0,
        0,
    ) is Some by {
        if j < bindings.len() {
            assert(bindings2[j] == bindings[j]);
            lemma_declared_slot(names, name, bindings[j].0);
        }
    }
}

/// A scope still agrees after a variable was assigned to: the interpreter
/// changes its binding, and the machine stores the value in its slot.
proof fn lemma_scope_assigned(
    names: Seq<Name>,
    bindings: Seq<(Name, Value)>,
    frame: Seq<i32>,
    slot: int,
    j: int,
    value: Value,
)
    requires
        scope_agrees(names, bindings, frame),
        distinct(names),
        0 <= slot < names.len(),
        0 <= j,
        find(bindings, names[slot], 0) == Some(j as nat),
    ensures
        scope_agrees(
            names,
            bindings.update(j, (names[slot], value)),
            frame.update(slot, value.number()),
        ),
{
    let name = names[slot];
    lemma_find(bindings, name, 0);
    assert(0 <= j < bindings.len() && bindings[j].0 == name);
    let bindings2 = bindings.update(j, (name, value));
    let frame2 = frame.update(slot, value.number());
    assert forall|i: int| 0 <= i < names.len() implies (find(bindings2, #[trigger] names[i], 0)
        matches Some(k) && bindings2[k as int].1.number() == frame2[i]) by {
        lemma_find_update(bindings, j, value, names[i], 0);
        lemma_find(bindings, names[i], 0);
    }
    assert forall|k: int| 0 <= k < bindings2.len() implies position(
        names,
        (#[trigger] bindings2[k]).0,
        0,
    ) is Some by {
        assert(bindings2[k].0 == bindings[k].0);
    }
}

/// The machine `m` after it has stored `x` in slot `slot` of frame
/// `index`, `n` instructions further.
pub open spec fn with_stored(m: Machine, n: nat, index: int, slot: usize, x: i32) -> Machine {
    Machine {
        pc: (m.pc + n) as usize,
        frames: m.frames.update(
            index,
            grown(m.frames[index], (slot + 1) as nat).update(slot as int, x),
        ),
        ..m
    }
}

/// The frame that the store instruction `op` writes to, if it is one and
/// the frame is there.
pub open spec fn store_target(m: Machine, op: OpCode) -> Option<(int, usize)> {
    match op {
        OpCode::StoreGlobal(slot) => Some((0, slot)),
        OpCode::StoreVar(depth, slot) => if depth < m.frames.len() {
            Some((m.frames.len() - 1 - depth, slot))
        } else {
            None
        },
        _ => None,
    }
}

/// Code that computes `x`, followed by a store, puts `x` into the slot and
/// leaves the operand stack as it was.
proof fn lemma_store_performs(
    m: Machine,
    input: Seq<i32>,
    out: Seq<Output>,
    code: Seq<OpCode>,
    x: i32,
    op: OpCode,
    rest: Seq<i32>,
)
    requires
        stands_at(m, code.push(op)),
        performs(m, input, code.len(), out, with_value(m, code.len(), x), rest, out),
        store_target(m, op) matches Some((index, slot)) && slot < usize::MAX,
    ensures
        ({
            let (index, slot) = store_target(m, op)->0;
            performs(
                m,
                input,
                code.len() + 1,
                out,
                with_stored(m, code.len() + 1, index, slot, x),
                rest,
                out,
            )
        }),
{
    let n = code.len();
    let (index, slot) = store_target(m, op)->0;
    let mid = with_value(m, n, x);
    let end = with_stored(m, n + 1, index, slot, x);
    assert(code.push(op) =~= code + seq![op]);
    lemma_stands_split(m, code, seq![op], x);
    assert(mid.code[mid.pc as int] == mid.code.subrange(mid.pc as int, mid.pc + 1)[0]);
    assert(mid.stack.take(mid.stack.len() - 1) =~= m.stack);
    assert(mid.top(0) == x);
    assert(mid.advance(rest) == Some((end, rest, Seq::<Output>::empty())));
    lemma_one_step(mid, rest, out);
    assert(out + Seq::<Output>::empty() =~= out);
    lemma_performs_then(m, input, n, out, mid, rest, out, 1, end, rest, out);
}

/// What a straight-line item did on the machine is what it did in the
/// interpreter: the machine got through the `n` instructions of the item,
/// has written what the interpreter has written, has before it what the
/// interpreter has not read, holds in its frames what the compiler and the
/// interpreter say, and its operand stack and its pending calls are as
/// they were.
pub open spec fn kept_pace(
    env: Scopes,
    st: Store,
    w: World,
    m: Machine,
    input: Seq<i32>,
    n: nat,
    out: Seq<Output>,
) -> bool {
    let end = m.run_from(input, n, out);
    &&& end.stop == Ok::<Stop, Fault>(Stop::Exhausted)
    &&& end.output == st.output
    &&& in_step(w, st, unread(m, input, n))
    &&& agrees(env, st.values, end.machine.frames)
    &&& end.machine.stack == m.stack
    &&& end.machine.calls == m.calls
    &&& end.machine.code == m.code
    &&& end.machine.pc == m.pc + n
}

/// A declaration whose initialiser is simple does the same on the machine
/// as in the interpreter.
pub proof fn lemma_declaration_agrees(
    ident: Name,
    constant: bool,
    init: Exp,
    env: Scopes,
    ctx: Context,
    w: World,
    st: Store,
    fuel: nat,
    m: Machine,
    input: Seq<i32>,
)
    requires
        simple_exp(init),
        declaration(ident, init, env, ctx).code is Ok,
        declared(ident, constant, eval_exp(init, w, st, fuel))
            is Ok,
        stands_at(
            m,
            declaration(ident, init, env, ctx).code->Ok_0,
        ),
        agrees(env, st.values, m.frames),
        in_step(w, st, input),
        env.scope(0).len() < usize::MAX,
        ctx.in_global == 1 ==> m.frames.len() == 1,
    ensures
        ({
            let compiled = declaration(ident, init, env, ctx);
            let run = declared(
                ident,
                constant,
                eval_exp(init, w, st, fuel),
            )->Ok_0;
            run.1 is None && kept_pace(
                compiled.env,
                run.0,
                w,
                m,
                input,
                compiled.code->Ok_0.len(),
                st.output,
            )
        }),
{
    let compiled = declaration(ident, init, env, ctx);
    let code = compiled.code->Ok_0;
    let value_code = exp_code(init, env)->Ok_0;
    let slot = env.scope(0).len() as usize;
    let op = code.last();
    let last = m.frames.len() - 1;
    assert(code == value_code.push(op));
    assert(code =~= value_code + seq![op]);
    lemma_stands_split(m, value_code, seq![op], 0);
    lemma_simple_value(init, env, w, st, fuel, m, input, st.output, value_code);
    let (after, value) = eval_exp(init, w, st, fuel)->Ok_0;
    let x = value->0;
    let rest = unread(m, input, value_code.len());
    assert(store_target(m, op) == Some((last, slot)));
    lemma_store_performs(m, input, st.output, value_code, x, op, rest);
    let end = with_stored(m, code.len(), last, slot, x);
    let bound = if constant {
        Value::Const(Type::I32(x))
    } else {
        Value::Var(Type::I32(x))
    };
    assert(scope_agrees(env.scopes[last], st.values.scopes[last], m.frames[last]));
    lemma_scope_declared(env.scopes[last], st.values.scopes[last], m.frames[last], ident, bound);
    let run = declared(
        ident,
        constant,
        eval_exp(init, w, st, fuel),
    )->Ok_0;
    assert forall|k: int| 0 <= k < end.frames.len() implies scope_agrees(
        compiled.env.scopes[k],
        run.0.values.scopes[k],
        #[trigger] end.frames[k],
    ) by {
        if k != last {
            assert(scope_agrees(env.scopes[k], st.values.scopes[k], m.frames[k]));
        }
    }
    assert(compiled.env.wf()) by {
        assert forall|k: int| 0 <= k < compiled.env.scopes.len() implies distinct(
            #[trigger] compiled.env.scopes[k],
        ) by {
            if k != last {
                assert(distinct(env.scopes[k]));
            }
        }
    }
}

/// Where the compiler finds a variable, the interpreter changes its
/// binding, and storing the value in the slot that the compiler found
/// keeps the frames in agreement.
proof fn lemma_assign_agrees(
    env: Scopes,
    values: Values,
    frames: Seq<Seq<i32>>,
    name: Name,
    x: i32,
    dep: nat,
)
    requires
        agrees(env, values, frames),
        env.resolve_from(name, dep) is Some,
        values.assign_from(name, Value::Var(Type::I32(x)), dep) is Ok,
    ensures
        ({
            let (d, slot) = env.resolve_from(name, dep)->0;
            let k = frames.len() - 1 - d;
            &&& d < frames.len()
            &&& slot < frames[k].len()
            &&& agrees(
                env,
                values.assign_from(name, Value::Var(Type::I32(x)), dep)->Ok_0,
                frames.update(k, frames[k].update(slot as int, x)),
            )
        }),
    decreases frames.len() - dep,
{
    if dep < frames.len() {
        let k = frames.len() - 1 - dep;
        let value = Value::Var(Type::I32(x));
        assert(scope_agrees(env.scopes[k], values.scopes[k], frames[k]));
        lemma_position(env.scopes[k], name, 0);
        lemma_find(values.scopes[k], name, 0);
        match position(env.scopes[k], name, 0) {
            Some(slot) => {
                assert(env.scopes[k][slot as int] == name);
                let j = find(values.scopes[k], name, 0)->0;
                lemma_scope_assigned(
                    env.scopes[k],
                    values.scopes[k],
                    frames[k],
                    slot as int,
                    j as int,
                    value,
                );
                let after = values.assign_from(name, value, dep)->Ok_0;
                let stored = frames.update(k, frames[k].update(slot as int, x));
                assert forall|i: int| 0 <= i < stored.len() implies scope_agrees(
                    env.scopes[i],
                    after.scopes[i],
                    #[trigger] stored[i],
                ) by {
                    if i != k {
                        assert(scope_agrees(env.scopes[i], values.scopes[i], frames[i]));
                    }
                }
            },
            None => {
                if let Some(j) = find(values.scopes[k], name, 0) {
                    lemma_position(env.scopes[k], values.scopes[k][j as int].0, 0);
                }
                lemma_assign_agrees(env, values, frames, name, x, dep + 1);
            },
        }
    }
}

/// An assignment whose right side is simple does the same on the machine
/// as in the interpreter.
pub proof fn lemma_assignment_agrees(
    lval: LVal,
    exp: Exp,
    env: Scopes,
    w: World,
    st: Store,
    fuel: nat,
    m: Machine,
    input: Seq<i32>,
)
    requires
        simple_exp(exp),
        assign_code(lval, exp, env) is Ok,
        assigned(lval.ident@, eval_exp(exp, w, st, fuel)) is Ok,
        stands_at(m, assign_code(lval, exp, env)->Ok_0),
        agrees(env, st.values, m.frames),
        in_step(w, st, input),
    ensures
        ({
            let run = assigned(lval.ident@, eval_exp(exp, w, st, fuel))->Ok_0;
            run.1 is None && kept_pace(
                env,
                run.0,
                w,
                m,
                input,
                assign_code(lval, exp, env)->Ok_0.len(),
                st.output,
            )
        }),
{
    let code = assign_code(lval, exp, env)->Ok_0;
    let value_code = exp_code(exp, env)->Ok_0;
    let (dep, slot) = env.resolve(lval.ident@)->0;
    let op = store_op(env, dep, slot);
    assert(code == value_code.push(op));
    assert(code =~= value_code + seq![op]);
    lemma_stands_split(m, value_code, seq![op], 0);
    lemma_simple_value(exp, env, w, st, fuel, m, input, st.output, value_code);
    let (after, value) = eval_exp(exp, w, st, fuel)->Ok_0;
    let x = value->0;
    let rest = unread(m, input, value_code.len());
    lemma_assign_agrees(env, st.values, m.frames, lval.ident@, x, 0);
    let k = m.frames.len() - 1 - dep;
    assert(store_target(m, op) == Some((k, slot)));
    lemma_store_performs(m, input, st.output, value_code, x, op, rest);
    let end = with_stored(m, code.len(), k, slot, x);
    assert(grown(m.frames[k], (slot + 1) as nat) == m.frames[k]);
    assert(end.frames == m.frames.update(k, m.frames[k].update(slot as int, x)));
}

/// The machine `m`, `n` instructions further.
pub open spec fn moved(m: Machine, n: nat) -> Machine {
    Machine { pc: (m.pc + n) as usize, ..m }
}

/// Code that computes `x`, followed by `PrintItem` and `PrintNewline`,
/// writes `x` and a line break and leaves the machine as it was, but for
/// where it stands.
proof fn lemma_print_performs(
    m: Machine,
    input: Seq<i32>,
    out: Seq<Output>,
    code: Seq<OpCode>,
    x: i32,
)
    requires
        stands_at(m, code.push(OpCode::PrintItem).push(OpCode::PrintNewline)),
        computes(m, input, code.len(), x),
    ensures
        performs(
            m,
            input,
            code.len() + 2,
            out,
            moved(m, code.len() + 2),
            input,
            out.push(Output::Item(x)).push(Output::Newline),
        ),
{
    let n = code.len();
    let first = with_value(m, n, x);
    let second = moved(m, n + 1);
    let end = moved(m, n + 2);
    let tail = seq![OpCode::PrintItem, OpCode::PrintNewline];
    assert(code.push(OpCode::PrintItem).push(OpCode::PrintNewline) =~= code + tail);
    lemma_stands_split(m, code, tail, x);
    assert(first.code[first.pc as int] == first.code.subrange(first.pc as int, first.pc + 2)[0]);
    assert(first.code[first.pc + 1] == first.code.subrange(first.pc as int, first.pc + 2)[1]);
    assert(first.stack.take(first.stack.len() - 1) =~= m.stack);
    assert(first.top(0) == x);
    assert(first.advance(input) == Some((second, input, seq![Output::Item(x)])));
    assert(second.advance(input) == Some((end, input, seq![Output::Newline])));
    lemma_computes_performs(m, input, n, x, out);
    lemma_one_step(first, input, out);
    assert(out + seq![Output::Item(x)] =~= out.push(Output::Item(x)));
    lemma_one_step(second, input, out.push(Output::Item(x)));
    assert(out.push(Output::Item(x)) + seq![Output::Newline] =~= out.push(Output::Item(x)).push(
        Output::Newline,
    ));
    lemma_performs_then(
        m,
        input,
        n,
        out,
        first,
        input,
        out,
        1,
        second,
        input,
        out.push(Output::Item(x)),
    );
    lemma_performs_then(
        m,
        input,
        n + 1,
        out,
        second,
        input,
        out.push(Output::Item(x)),
        1,
        end,
        input,
        out.push(Output::Item(x)).push(Output::Newline),
    );
}

/// Whether the arguments from the `i`-th on call no function and use no `!`.
pub open spec fn quiet_args(params: FuncRParams, i: nat) -> bool
    decreases params.exps.len() - i,
{
    if i >= params.exps.len() {
        true
    } else {
        quiet_exp(params.exps@[i as int]) && quiet_args(params, i + 1)
    }
}

/// A machine that stands at code stands, further on, at each part of it.
pub proof fn lemma_stands_part(m: Machine, code: Seq<OpCode>, from: nat, part: Seq<OpCode>)
    requires
        stands_at(m, code),
        from + part.len() <= code.len(),
        code.subrange(from as int, from as int + part.len()) == part,
    ensures
        stands_at(moved(m, from), part),
{
    let next = moved(m, from);
    assert(next.code.subrange(next.pc as int, next.pc + part.len()) =~= part) by {
        assert forall|k: int| 0 <= k < part.len() implies next.code[next.pc + k] == part[k] by {
            assert(m.code.subrange(m.pc as int, m.pc + code.len())[from + k] == code[from + k]);
            assert(code.subrange(from as int, from as int + part.len())[k] == code[from + k]);
        }
    }
}

/// If the machine performs a first part and only moves on by it, and keeps
/// pace over a second part, then it keeps pace over both.
pub proof fn lemma_kept_pace_then(
    env: Scopes,
    st: Store,
    w: World,
    m: Machine,
    input: Seq<i32>,
    a: nat,
    out: Seq<Output>,
    rest: Seq<i32>,
    written: Seq<Output>,
    b: nat,
)
    requires
        m.pc + a <= usize::MAX,
        performs(m, input, a, out, moved(m, a), rest, written),
        kept_pace(env, st, w, moved(m, a), rest, b, written),
    ensures
        kept_pace(env, st, w, m, input, a + b, out),
{
    lemma_run_compose(m, input, a, b, out);
}

/// One argument of `print`: the machine writes its value and a line
/// break, as the interpreter does, and only moves on.
proof fn lemma_print_argument(
    arg: Exp,
    env: Scopes,
    w: World,
    st: Store,
    fuel: nat,
    m: Machine,
    input: Seq<i32>,
)
    requires
        quiet_exp(arg),
        exp_code(arg, env) is Ok,
        eval_exp(arg, w, st, fuel) is Ok,
        stands_at(
            m,
            exp_code(arg, env)->Ok_0.push(OpCode::PrintItem).push(OpCode::PrintNewline),
        ),
        agrees(env, st.values, m.frames),
    ensures
        ({
            let (after, value) = eval_exp(arg, w, st, fuel)->Ok_0;
            let n = exp_code(arg, env)->Ok_0.len() + 2;
            &&& after == st
            &&& value is Some
            &&& performs(
                m,
                input,
                n,
                st.output,
                moved(m, n),
                input,
                st.output.push(Output::Item(value->0)).push(Output::Newline),
            )
        }),
{
    let value_code = exp_code(arg, env)->Ok_0;
    let item = value_code.push(OpCode::PrintItem).push(OpCode::PrintNewline);
    assert(item.subrange(0, value_code.len() as int) =~= value_code);
    assert(moved(m, 0) == m);
    lemma_stands_part(m, item, 0, value_code);
    lemma_exp_alike(arg, env, w, st, fuel, m, input);
    let x = eval_exp(arg, w, st, fuel)->Ok_0.1->0;
    lemma_print_performs(m, input, st.output, value_code, x);
}

/// What `prints_code` and `eval_prints` say of the first argument and of the rest.
proof fn lemma_prints_unfolded(
    params: FuncRParams,
    i: nat,
    env: Scopes,
    w: World,
    st: Store,
    fuel: nat,
)
    requires
        i < params.exps.len(),
        prints_code(params, i, env) is Ok,
        eval_prints(params, i, w, st, fuel) is Ok,
    ensures
        ({
            let arg = params.exps@[i as int];
            &&& exp_code(arg, env) is Ok
            &&& prints_code(params, i + 1, env) is Ok
            &&& prints_code(params, i, env)->Ok_0 == exp_code(arg, env)->Ok_0.push(
                OpCode::PrintItem,
            ).push(OpCode::PrintNewline) + prints_code(params, i + 1, env)->Ok_0
            &&& eval_exp(arg, w, st, fuel) matches Ok((after, value)) && eval_prints(
                params,
                i,
                w,
                st,
                fuel,
            ) == eval_prints(
                params,
                i + 1,
                w,
                match value {
                    Some(x) => Store {
                        output: after.output.push(Output::Item(x)).push(Output::Newline),
                        ..after
                    },
                    None => after,
                },
                fuel,
            )
        }),
{
}

/// `print` writes the same on the machine as in the interpreter.
proof fn lemma_prints_agree(
    params: FuncRParams,
    i: nat,
    env: Scopes,
    w: World,
    st: Store,
    fuel: nat,
    m: Machine,
    input: Seq<i32>,
)
    requires
        quiet_args(params, i),
        prints_code(params, i, env) is Ok,
        eval_prints(params, i, w, st, fuel) is Ok,
        stands_at(m, prints_code(params, i, env)->Ok_0),
        agrees(env, st.values, m.frames),
        in_step(w, st, input),
    ensures
        kept_pace(
            env,
            eval_prints(params, i, w, st, fuel)->Ok_0,
            w,
            m,
            input,
            prints_code(params, i, env)->Ok_0.len(),
            st.output,
        ),
    decreases params.exps.len() - i,
{
    let code = prints_code(params, i, env)->Ok_0;
    if i < params.exps.len() {
        lemma_prints_unfolded(params, i, env, w, st, fuel);
        let arg = params.exps@[i as int];
        let item = exp_code(arg, env)->Ok_0.push(OpCode::PrintItem).push(OpCode::PrintNewline);
        let rest_code = prints_code(params, i + 1, env)->Ok_0;
        assert(code.subrange(0, item.len() as int) =~= item);
        assert(code.subrange(item.len() as int, item.len() as int + rest_code.len())
            =~= rest_code);
        assert(moved(m, 0) == m);
        lemma_stands_part(m, code, 0, item);
        lemma_stands_part(m, code, item.len(), rest_code);
        lemma_print_argument(arg, env, w, st, fuel, m, input);
        let x = eval_exp(arg, w, st, fuel)->Ok_0.1->0;
        let written = st.output.push(Output::Item(x)).push(Output::Newline);
        let st1 = Store { output: written, ..st };
        lemma_prints_agree(params, i + 1, env, w, st1, fuel, moved(m, item.len()), input);
        lemma_kept_pace_then(
            env,
            eval_prints(params, i, w, st, fuel)->Ok_0,
            w,
            m,
            input,
            item.len(),
            st.output,
            input,
            written,
            rest_code.len(),
        );
    }
}

/// Whether `e` is nothing but a call of `print` whose arguments call no
/// function and use no `!`.
pub open spec fn quiet_print(e: Exp) -> bool {
    bare(e) matches Some(UnaryExp::FuncCall { ident, funcrparams }) && ident@ == print_name() && (
    funcrparams matches Some(params) ==> quiet_args(params, 0))
}

/// Whether an item is straight-line and leaves nothing on the operand
/// stack: a declaration or an assignment of a simple expression, a call of
/// `print` with quiet arguments, or the empty statement.
pub open spec fn simple_item(item: BlockItem) -> bool {
    match item {
        BlockItem::Decl(Decl::VarDecl(decl)) => simple_exp(decl.initval.exp),
        BlockItem::Decl(Decl::ValDecl(decl)) => simple_exp(decl.initval.exp),
        BlockItem::Stmt(Stmt::Assign(_, exp)) => simple_exp(exp),
        BlockItem::Stmt(Stmt::Exp(None)) => true,
        BlockItem::Stmt(Stmt::Exp(Some(exp))) => quiet_print(exp),
        _ => false,
    }
}

/// Whether the items from the `i`-th on are simple.
pub open spec fn simple_items(b: Block, i: nat) -> bool
    decreases b.items.len() - i,
{
    if i >= b.items.len() {
        true
    } else {
        simple_item(b.items@[i as int]) && simple_items(b, i + 1)
    }
}

/// A machine that takes no step keeps pace.
proof fn lemma_kept_pace_still(env: Scopes, st: Store, w: World, m: Machine, input: Seq<i32>)
    requires
        agrees(env, st.values, m.frames),
        in_step(w, st, input),
        m.pc <= usize::MAX,
    ensures
        kept_pace(env, st, w, m, input, 0, st.output),
{
}

/// A call of `print` as a statement writes the same on the machine as in
/// the interpreter.
proof fn lemma_print_agrees(
    e: Exp,
    env: Scopes,
    w: World,
    st: Store,
    fuel: nat,
    m: Machine,
    input: Seq<i32>,
)
    requires
        quiet_print(e),
        exp_code(e, env) is Ok,
        eval_exp(e, w, st, fuel) is Ok,
        stands_at(m, exp_code(e, env)->Ok_0),
        agrees(env, st.values, m.frames),
        in_step(w, st, input),
    ensures
        kept_pace(
            env,
            eval_exp(e, w, st, fuel)->Ok_0.0,
            w,
            m,
            input,
            exp_code(e, env)->Ok_0.len(),
            st.output,
        ),
{
    let una = bare(e)->0;
    assert(exp_code(e, env) == unary_code(una, env)) by {
        reveal_with_fuel(exp_code, 2);
        reveal_with_fuel(lor_code, 2);
        reveal_with_fuel(land_code, 2);
        reveal_with_fuel(eq_code, 2);
        reveal_with_fuel(rel_code, 2);
        reveal_with_fuel(add_code, 2);
        reveal_with_fuel(mul_code, 2);
    }
    assert(eval_exp(e, w, st, fuel) == eval_unary(una, w, st, fuel)) by {
        reveal_with_fuel(eval_exp, 2);
        reveal_with_fuel(eval_lor, 2);
        reveal_with_fuel(eval_land, 2);
        reveal_with_fuel(eval_eq, 2);
        reveal_with_fuel(eval_rel, 2);
        reveal_with_fuel(eval_add, 2);
        reveal_with_fuel(eval_mul, 2);
    }
    match una {
        UnaryExp::FuncCall { ident, funcrparams: Some(params) } => {
            lemma_prints_agree(params, 0, env, w, st, fuel, m, input);
        },
        _ => {
            lemma_kept_pace_still(env, st, w, m, input);
        },
    }
}

/// A simple item does the same on the machine as in the interpreter.
pub proof fn lemma_item_agrees(
    item: BlockItem,
    env: Scopes,
    ctx: Context,
    w: World,
    st: Store,
    fuel: nat,
    m: Machine,
    input: Seq<i32>,
)
    requires
        simple_item(item),
        item_code(item, env, ctx).code is Ok,
        exec_item(item, w, st, fuel) is Ok,
        stands_at(m, item_code(item, env, ctx).code->Ok_0),
        agrees(env, st.values, m.frames),
        in_step(w, st, input),
        env.scope(0).len() < usize::MAX,
        ctx.in_global == 1 ==> m.frames.len() == 1,
    ensures
        exec_item(item, w, st, fuel)->Ok_0.1 is None,
        kept_pace(
            item_code(item, env, ctx).env,
            exec_item(item, w, st, fuel)->Ok_0.0,
            w,
            m,
            input,
            item_code(item, env, ctx).code->Ok_0.len(),
            st.output,
        ),
        item_code(item, env, ctx).env.scopes.len() == env.scopes.len(),
        item_code(item, env, ctx).env.scope(0).len() <= env.scope(0).len() + 1,
{
    match item {
        BlockItem::Decl(Decl::VarDecl(decl)) => {
            lemma_declaration_agrees(
                decl.ident@,
                false,
                decl.initval.exp,
                env,
                ctx,
                w,
                st,
                fuel,
                m,
                input,
            );
        },
        BlockItem::Decl(Decl::ValDecl(decl)) => {
            lemma_declaration_agrees(
                decl.ident@,
                true,
                decl.initval.exp,
                env,
                ctx,
                w,
                st,
                fuel,
                m,
                input,
            );
        },
        BlockItem::Stmt(Stmt::Assign(lval, exp)) => {
            lemma_assignment_agrees(lval, exp, env, w, st, fuel, m, input);
        },
        BlockItem::Stmt(Stmt::Exp(None)) => {
            lemma_kept_pace_still(env, st, w, m, input);
        },
        BlockItem::Stmt(Stmt::Exp(Some(exp))) => {
            lemma_print_agrees(exp, env, w, st, fuel, m, input);
        },
        _ => {},
    }
}

/// Keeping pace over one stretch and then over the next is keeping pace
/// over both.
pub proof fn lemma_kept_pace_chain(
    env1: Scopes,
    st1: Store,
    env2: Scopes,
    st2: Store,
    w: World,
    m: Machine,
    input: Seq<i32>,
    a: nat,
    b: nat,
    out: Seq<Output>,
)
    requires
        kept_pace(env1, st1, w, m, input, a, out),
        kept_pace(
            env2,
            st2,
            w,
            m.run_from(input, a, out).machine,
            unread(m, input, a),
            b,
            st1.output,
        ),
    ensures
        kept_pace(env2, st2, w, m, input, a + b, out),
{
    lemma_run_compose(m, input, a, b, out);
}

/// What `items_code` and `exec_items` say of the first item and of the rest.
proof fn lemma_items_unfolded(
    b: Block,
    i: nat,
    env: Scopes,
    ctx: Context,
    w: World,
    st: Store,
    fuel: nat,
)
    requires
        i < b.items.len(),
        items_code(b, i, env, ctx).code is Ok,
        exec_items(b, i, w, st, fuel) is Ok,
    ensures
        ({
            let item = b.items@[i as int];
            let first = item_code(item, env, ctx);
            &&& first.code is Ok
            &&& offset(ctx.addr, first.code->Ok_0.len()) is Some
            &&& exec_item(item, w, st, fuel) is Ok
            &&& ({
                let next = ctx.at(offset(ctx.addr, first.code->Ok_0.len())->0);
                let rest = items_code(b, i + 1, first.env, next);
                &&& rest.code is Ok
                &&& items_code(b, i, env, ctx).env == rest.env
                &&& items_code(b, i, env, ctx).code->Ok_0 == first.code->Ok_0 + rest.code->Ok_0
            })
            &&& (exec_item(item, w, st, fuel)->Ok_0.1 is None ==> exec_items(b, i, w, st, fuel)
                == exec_items(b, i + 1, w, exec_item(item, w, st, fuel)->Ok_0.0, fuel))
        }),
{
}

proof fn lemma_items_agree(
    b: Block,
    i: nat,
    env: Scopes,
    ctx: Context,
    w: World,
    st: Store,
    fuel: nat,
    m: Machine,
    input: Seq<i32>,
)
    requires
        simple_items(b, i),
        i <= b.items.len(),
        items_code(b, i, env, ctx).code is Ok,
        exec_items(b, i, w, st, fuel) is Ok,
        stands_at(m, items_code(b, i, env, ctx).code->Ok_0),
        agrees(env, st.values, m.frames),
        in_step(w, st, input),
        env.scope(0).len() + (b.items.len() - i) < usize::MAX,
        ctx.in_global == 1 ==> m.frames.len() == 1,
    ensures
        exec_items(b, i, w, st, fuel)->Ok_0.1 is None,
        kept_pace(
            items_code(b, i, env, ctx).env,
            exec_items(b, i, w, st, fuel)->Ok_0.0,
            w,
            m,
            input,
            items_code(b, i, env, ctx).code->Ok_0.len(),
            st.output,
        ),
    decreases b.items.len() - i,
{
    if i < b.items.len() {
        lemma_items_unfolded(b, i, env, ctx, w, st, fuel);
        let item = b.items@[i as int];
        let first = item_code(item, env, ctx);
        let code = items_code(b, i, env, ctx).code->Ok_0;
        let first_code = first.code->Ok_0;
        let next = ctx.at(offset(ctx.addr, first_code.len())->0);
        let rest_code = items_code(b, i + 1, first.env, next).code->Ok_0;
        assert(code.subrange(0, first_code.len() as int) =~= first_code);
        assert(code.subrange(first_code.len() as int, first_code.len() as int + rest_code.len())
            =~= rest_code);
        assert(moved(m, 0) == m);
        lemma_stands_part(m, code, 0, first_code);
        lemma_stands_part(m, code, first_code.len(), rest_code);
        lemma_item_agrees(item, env, ctx, w, st, fuel, m, input);
        let st1 = exec_item(item, w, st, fuel)->Ok_0.0;
        let mid = m.run_from(input, first_code.len(), st.output).machine;
        let rest = unread(m, input, first_code.len());
        assert(stands_at(mid, rest_code)) by {
            assert(mid.code == moved(m, first_code.len()).code);
            assert(mid.pc == moved(m, first_code.len()).pc);
        }
        lemma_items_agree(b, i + 1, first.env, next, w, st1, fuel, mid, rest);
        lemma_kept_pace_chain(
            first.env,
            st1,
            items_code(b, i, env, ctx).env,
            exec_items(b, i, w, st, fuel)->Ok_0.0,
            w,
            m,
            input,
            first_code.len(),
            rest_code.len(),
            st.output,
        );
    } else {
        lemma_kept_pace_still(env, st, w, m, input);
    }
}

/// The two ways to run a program agree on straight-line code. Let the
/// items of a block be declarations and assignments of expressions that
/// call no function but, at most, are a call of `getint`, calls of `print`
/// with arguments that call no function, and empty statements, and let no
/// expression use `!`. Let the items compile to `code`, let the interpreter
/// get through them, and let the machine stand at `code` with frames that
/// hold what the compiler and the interpreter say, and with the input
/// before it that the interpreter has not read. Then the machine gets
/// through `code`, one step for each instruction; it writes what the
/// interpreter writes and reads what the interpreter reads; its frames
/// hold what the compiler and the interpreter say afterwards; and its
/// operand stack and its pending calls are as they were.
pub proof fn lemma_straight_line_agrees(
    b: Block,
    env: Scopes,
    ctx: Context,
    w: World,
    st: Store,
    fuel: nat,
    m: Machine,
    input: Seq<i32>,
)
    requires
        simple_items(b, 0),
        items_code(b, 0, env, ctx).code is Ok,
        exec_items(b, 0, w, st, fuel) is Ok,
        stands_at(m, items_code(b, 0, env, ctx).code->Ok_0),
        agrees(env, st.values, m.frames),
        in_step(w, st, input),
        env.scope(0).len() + b.items.len() < usize::MAX,
        ctx.in_global == 1 ==> m.frames.len() == 1,
    ensures
        exec_items(b, 0, w, st, fuel)->Ok_0.1 is None,
        kept_pace(
            items_code(b, 0, env, ctx).env,
            exec_items(b, 0, w, st, fuel)->Ok_0.0,
            w,
            m,
            input,
            items_code(b, 0, env, ctx).code->Ok_0.len(),
            st.output,
        ),
{
    lemma_items_agree(b, 0, env, ctx, w, st, fuel, m, input);
}

/// Whether a global definition is a declaration of a simple expression.
pub open spec fn simple_global(def: GlobalDef) -> bool {
    match def {
        GlobalDef::Decl(decl) => simple_item(BlockItem::Decl(decl)),
        GlobalDef::FuncDef(_) => false,
    }
}

/// Whether a program is straight-line: it declares its globals with
/// simple expressions and then defines `main`, without parameters and with
/// a body of simple items, and nothing else.
pub open spec fn straight_program(unit: CompUnit) -> bool {
    let defs = unit.globaldefs@;
    &&& defs.len() >= 1
    &&& forall|k: int| 0 <= k < defs.len() - 1 ==> simple_global(#[trigger] defs[k])
    &&& defs.last() matches GlobalDef::FuncDef(f) && f.ident@ == main_name() && param_names(
        f,
    ).len() == 0 && simple_items(f.block, 0)
}

/// What `globals_code` and `exec_globals` say of a declaration and of the
/// definitions after it.
proof fn lemma_globals_unfolded(
    defs: Seq<GlobalDef>,
    i: nat,
    env: Scopes,
    addr: usize,
    w: World,
    st: Store,
    fuel: nat,
)
    requires
        i < defs.len(),
        defs[i as int] is Decl,
        globals_code(defs, i, env, addr).code is Ok,
        exec_globals(defs, i, w, st, fuel) is Ok,
    ensures
        ({
            let decl = defs[i as int]->Decl_0;
            let ctx = Context { dep: 0, in_global: 1, addr };
            let first = decl_code(decl, env, ctx);
            &&& first == item_code(BlockItem::Decl(decl), env, ctx)
            &&& first.code is Ok
            &&& offset(addr, first.code->Ok_0.len()) is Some
            &&& exec_decl(decl, w, st, fuel) is Ok
            &&& exec_decl(decl, w, st, fuel) == exec_item(BlockItem::Decl(decl), w, st, fuel)
            &&& ({
                let next = offset(addr, first.code->Ok_0.len())->0;
                let rest = globals_code(defs, i + 1, first.env, next);
                &&& rest.code is Ok
                &&& globals_code(defs, i, env, addr).env == rest.env
                &&& globals_code(defs, i, env, addr).code->Ok_0 == first.code->Ok_0
                    + rest.code->Ok_0
            })
            &&& exec_globals(defs, i, w, st, fuel) == exec_globals(
                defs,
                i + 1,
                w,
                exec_decl(decl, w, st, fuel)->Ok_0.0,
                fuel,
            )
        }),
{
}

/// The global declarations of a straight-line program do the same on the
/// machine as in the interpreter.
proof fn lemma_globals_agree(
    defs: Seq<GlobalDef>,
    i: nat,
    env: Scopes,
    addr: usize,
    w: World,
    st: Store,
    fuel: nat,
    m: Machine,
    input: Seq<i32>,
)
    requires
        1 <= defs.len(),
        i <= defs.len() - 1,
        forall|k: int| i <= k < defs.len() - 1 ==> simple_global(#[trigger] defs[k]),
        defs.last() is FuncDef,
        globals_code(defs, i, env, addr).code is Ok,
        exec_globals(defs, i, w, st, fuel) is Ok,
        stands_at(m, globals_code(defs, i, env, addr).code->Ok_0),
        agrees(env, st.values, m.frames),
        in_step(w, st, input),
        env.scope(0).len() + (defs.len() - i) < usize::MAX,
        m.frames.len() == 1,
    ensures
        kept_pace(
            globals_code(defs, i, env, addr).env,
            exec_globals(defs, i, w, st, fuel)->Ok_0,
            w,
            m,
            input,
            globals_code(defs, i, env, addr).code->Ok_0.len(),
            st.output,
        ),
        globals_code(defs, i, env, addr).env.funcs == env.funcs,
        globals_code(defs, i, env, addr).env.loops == env.loops,
        globals_code(defs, i, env, addr).env.scopes.len() == env.scopes.len(),
    decreases defs.len() - i,
{
    if i < defs.len() - 1 {
        assert(simple_global(defs[i as int]));
        lemma_globals_unfolded(defs, i, env, addr, w, st, fuel);
        let decl = defs[i as int]->Decl_0;
        let item = BlockItem::Decl(decl);
        let ctx = Context { dep: 0, in_global: 1, addr };
        let first = item_code(item, env, ctx);
        let code = globals_code(defs, i, env, addr).code->Ok_0;
        let first_code = first.code->Ok_0;
        let next = offset(addr, first_code.len())->0;
        let rest_code = globals_code(defs, i + 1, first.env, next).code->Ok_0;
        assert(code.subrange(0, first_code.len() as int) =~= first_code);
        assert(code.subrange(first_code.len() as int, first_code.len() as int + rest_code.len())
            =~= rest_code);
        assert(moved(m, 0) == m);
        lemma_stands_part(m, code, 0, first_code);
        lemma_stands_part(m, code, first_code.len(), rest_code);
        lemma_item_agrees(item, env, ctx, w, st, fuel, m, input);
        let st1 = exec_item(item, w, st, fuel)->Ok_0.0;
        let mid = m.run_from(input, first_code.len(), st.output).machine;
        let rest = unread(m, input, first_code.len());
        assert(stands_at(mid, rest_code)) by {
            assert(mid.code == moved(m, first_code.len()).code);
            assert(mid.pc == moved(m, first_code.len()).pc);
        }
        lemma_globals_agree(defs, i + 1, first.env, next, w, st1, fuel, mid, rest);
        lemma_kept_pace_chain(
            first.env,
            st1,
            globals_code(defs, i, env, addr).env,
            exec_globals(defs, i, w, st, fuel)->Ok_0,
            w,
            m,
            input,
            first_code.len(),
            rest_code.len(),
            st.output,
        );
    } else {
        assert(globals_code(defs, i + 1, env, addr).code == Ok::<Seq<OpCode>, Error>(
            Seq::empty(),
        ));
        assert(exec_globals(defs, i + 1, w, st, fuel) == Ok::<Store, Error>(st));
        lemma_kept_pace_still(env, st, w, m, input);
    }
}

/// In a program whose last definition is its only function, called
/// `main`, that function is found from every index on, and the code of the
/// functions is the code of that one.
proof fn lemma_only_main(defs: Seq<GlobalDef>, i: nat, env: Scopes, addr: usize)
    requires
        1 <= defs.len(),
        i <= defs.len() - 1,
        forall|k: int| i <= k < defs.len() - 1 ==> (#[trigger] defs[k]) is Decl,
        defs.last() matches GlobalDef::FuncDef(f) && f.ident@ == main_name(),
    ensures
        defines_function(defs, i),
        function_from(defs, main_name(), i) == Some(defs.last()->FuncDef_0),
        functions_code(defs, i, env, addr) == functions_code(
            defs,
            (defs.len() - 1) as nat,
            env,
            addr,
        ),
    decreases defs.len() - i,
{
    if i < defs.len() - 1 {
        assert(defs[i as int] is Decl);
        lemma_only_main(defs, i + 1, env, addr);
    }
}

/// The code of a function without parameters that nothing has defined
/// before is the code of its body, compiled in a new scope.
proof fn lemma_main_code(defs: Seq<GlobalDef>, env: Scopes, addr: usize)
    requires
        1 <= defs.len(),
        defs.last() matches GlobalDef::FuncDef(f) && f.ident@ == main_name() && param_names(
            f,
        ).len() == 0,
        env.funcs.len() == 0,
        functions_code(defs, (defs.len() - 1) as nat, env, addr).code is Ok,
    ensures
        ({
            let f = defs.last()->FuncDef_0;
            let inner = env.define(
                Function { name: f.ident@, addr, params: param_names(f) },
            ).push_scope();
            let ctx = Context { dep: 0, in_global: 0, addr };
            let linked = functions_code(defs, (defs.len() - 1) as nat, env, addr);
            &&& items_code(f.block, 0, inner, ctx.inside(addr)).code is Ok
            &&& linked.code->Ok_0 == items_code(f.block, 0, inner, ctx.inside(addr)).code->Ok_0
            &&& linked.main == Some(addr)
            &&& addr + linked.code->Ok_0.len() <= usize::MAX
        }),
{
    let f = defs.last()->FuncDef_0;
    let n = (defs.len() - 1) as nat;
    let recorded = env.define(Function { name: f.ident@, addr, params: param_names(f) });
    let ctx = Context { dep: 0, in_global: 0, addr };
    assert(defs[n as int] == defs.last());
    assert(env.function(f.ident@) is None);
    assert(declare_all(recorded.push_scope(), param_names(f), 0) == Ok::<Scopes, Error>(
        recorded.push_scope(),
    ));
    assert(block_code(f.block, recorded.push_scope(), ctx) == items_code(
        f.block,
        0,
        recorded.push_scope(),
        ctx.inside(addr),
    ));
    let first = func_code(f, env, addr);
    assert(first.code == items_code(f.block, 0, recorded.push_scope(), ctx.inside(addr)).code);
    assert(first.code is Ok);
    let next = offset(addr, first.code->Ok_0.len())->0;
    assert(functions_code(defs, n + 1, first.env, next).code == Ok::<Seq<OpCode>, Error>(
        Seq::empty(),
    ));
    assert(first.code->Ok_0 + Seq::<OpCode>::empty() =~= first.code->Ok_0);
}

/// A declaration leaves the functions, the loops and the number of scopes
/// as they were.
proof fn lemma_decl_keeps(d: Decl, env: Scopes, ctx: Context)
    requires
        env.scopes.len() >= 1,
    ensures
        decl_code(d, env, ctx).env.funcs == env.funcs,
        decl_code(d, env, ctx).env.loops == env.loops,
        decl_code(d, env, ctx).env.scopes.len() == env.scopes.len(),
{
}

/// The global declarations leave the functions, the loops and the number
/// of scopes as they were.
proof fn lemma_globals_keep(defs: Seq<GlobalDef>, i: nat, env: Scopes, addr: usize)
    requires
        env.scopes.len() >= 1,
    ensures
        globals_code(defs, i, env, addr).env.funcs == env.funcs,
        globals_code(defs, i, env, addr).env.loops == env.loops,
        globals_code(defs, i, env, addr).env.scopes.len() == env.scopes.len(),
    decreases defs.len() - i,
{
    if i < defs.len() {
        match defs[i as int] {
            GlobalDef::FuncDef(_) => lemma_globals_keep(defs, i + 1, env, addr),
            GlobalDef::Decl(decl) => {
                let first = decl_code(decl, env, Context { dep: 0, in_global: 1, addr });
                lemma_decl_keeps(decl, env, Context { dep: 0, in_global: 1, addr });
                if first.code is Ok && offset(addr, first.code->Ok_0.len()) is Some {
                    let next = offset(addr, first.code->Ok_0.len())->0;
                    lemma_globals_keep(defs, i + 1, first.env, next);
                }
            },
        }
    }
}

/// The code of the global declarations of a program.
pub open spec fn globals_of(unit: CompUnit) -> Emitted {
    globals_code(unit.globaldefs@, 0, Scopes::empty(), 0)
}

/// The last definition of a program, where it is a function.
pub open spec fn main_of(unit: CompUnit) -> FuncDef {
    unit.globaldefs@.last()->FuncDef_0
}

/// The address behind the global declarations and the start call.
pub open spec fn entry_of(unit: CompUnit) -> usize {
    (globals_of(unit).code->Ok_0.len() + 1) as usize
}

/// The environment in which the body of `main` is compiled.
pub open spec fn body_env(unit: CompUnit) -> Scopes {
    globals_of(unit).env.define(
        Function {
            name: main_of(unit).ident@,
            addr: entry_of(unit),
            params: param_names(main_of(unit)),
        },
    ).push_scope()
}

/// The context in which the body of `main` is compiled.
pub open spec fn body_ctx(unit: CompUnit) -> Context {
    Context { dep: 0, in_global: 0, addr: entry_of(unit) }.inside(entry_of(unit))
}

/// The code of the body of `main`.
pub open spec fn body_of(unit: CompUnit) -> Emitted {
    items_code(main_of(unit).block, 0, body_env(unit), body_ctx(unit))
}

/// Whether `code` is the global declarations of `unit`, the call of
/// `main`, and the body of `main`.
pub open spec fn laid_out(unit: CompUnit, code: Seq<OpCode>) -> bool {
    &&& globals_of(unit).code is Ok
    &&& body_of(unit).code is Ok
    &&& globals_of(unit).env.scopes.len() == 1
    &&& globals_of(unit).env.funcs.len() == 0
    &&& code.len() <= usize::MAX
    &&& code == globals_of(unit).code->Ok_0.push(OpCode::Call(entry_of(unit), 0)) + body_of(
        unit,
    ).code->Ok_0
}

/// The code of a straight-line program is laid out in this way.
proof fn lemma_program_code(unit: CompUnit)
    requires
        straight_program(unit),
        unit_code(unit, Scopes::empty(), 0).code is Ok,
    ensures
        laid_out(unit, unit_code(unit, Scopes::empty(), 0).code->Ok_0),
{
    let defs = unit.globaldefs@;
    let globals = globals_of(unit);
    let decls = globals.code->Ok_0;
    assert forall|k: int| 0 <= k < defs.len() - 1 implies (#[trigger] defs[k]) is Decl by {
        assert(simple_global(defs[k]));
    }
    lemma_only_main(defs, 0, globals.env, 0);
    lemma_globals_keep(defs, 0, Scopes::empty(), 0);
    let first = offset(0, decls.len() + 1)->0;
    assert(first == entry_of(unit));
    lemma_only_main(defs, 0, globals.env, first);
    lemma_main_code(defs, globals.env, first);
}

/// How the interpreter runs a straight-line program: the global
/// declarations, then the body of `main` in a store of its own.
proof fn lemma_program_run(w: World, fuel: nat)
    requires
        straight_program(w.unit),
        run_unit(w, fuel) is Ok,
    ensures
        fuel > 0,
        exec_globals(w.unit.globaldefs@, 0, w, fresh(), fuel) is Ok,
        ({
            let st = exec_globals(w.unit.globaldefs@, 0, w, fresh(), fuel)->Ok_0;
            let body = exec_items(
                main_of(w.unit).block,
                0,
                w,
                Store { values: st.values.called(), ..st },
                (fuel - 1) as nat,
            );
            &&& body is Ok
            &&& run_unit(w, fuel)->Ok_0.output == body->Ok_0.0.output
        }),
{
    let defs = w.unit.globaldefs@;
    let f = main_of(w.unit);
    assert forall|k: int| 0 <= k < defs.len() - 1 implies (#[trigger] defs[k]) is Decl by {
        assert(simple_global(defs[k]));
    }
    lemma_only_main(defs, 0, Scopes::empty(), 0);
    let st = exec_globals(defs, 0, w, fresh(), fuel)->Ok_0;
    let args = Ok::<(Store, Seq<i32>), Error>((st, Seq::empty()));
    assert(inside(f, args) == Store { values: st.values.called(), ..st });
}

/// A call without arguments takes one step: the machine enters an empty
/// frame, notes where to return to, and goes to the target.
proof fn lemma_call_step(m: Machine, input: Seq<i32>, out: Seq<Output>, target: usize)
    requires
        m.pc < m.code.len() <= usize::MAX,
        m.code[m.pc as int] == OpCode::Call(target, 0),
        target <= m.code.len(),
    ensures
        m.run_from(input, 1, out) == (RunEnd {
            machine: Machine {
                frames: m.frames.push(Seq::empty()),
                calls: m.calls.push((0usize, (m.pc + 1) as usize)),
                pc: target,
                ..m
            },
            output: out,
            stop: Ok(Stop::Exhausted),
        }),
        unread(m, input, 1) == input,
{
    let next = Machine {
        frames: m.frames.push(Seq::empty()),
        calls: m.calls.push((0usize, (m.pc + 1) as usize)),
        pc: target,
        ..m
    };
    assert(m.stack.take(m.stack.len() - 0) =~= m.stack);
    assert(m.arguments(0) =~= Seq::<i32>::empty());
    assert(m.step() == Ok::<(Machine, Action), Fault>((next, Action::Continue)));
    assert(m.advance(input) == Some((next, input, Seq::<Output>::empty())));
    lemma_one_step(m, input, out);
    assert(out + Seq::<Output>::empty() =~= out);
}

/// A machine at the end of its program halts.
proof fn lemma_halts(m: Machine, input: Seq<i32>, out: Seq<Output>, fuel: nat)
    requires
        m.pc == m.code.len(),
        fuel > 0,
    ensures
        m.run_from(input, fuel, out) == (RunEnd {
            machine: m,
            output: out,
            stop: Ok(Stop::Halted),
        }),
{
    assert(m.advance(input) is None);
}

/// The store after the global declarations of a program.
pub open spec fn globals_store(w: World, fuel: nat) -> Store {
    exec_globals(w.unit.globaldefs@, 0, w, fresh(), fuel)->Ok_0
}

/// The store in which the body of `main` starts.
pub open spec fn body_store(w: World, fuel: nat) -> Store {
    Store { values: globals_store(w, fuel).values.called(), ..globals_store(w, fuel) }
}

/// The machine gets through the global declarations of a straight-line
/// program as the interpreter does.
proof fn lemma_program_globals(w: World, fuel: nat, code: Seq<OpCode>)
    requires
        straight_program(w.unit),
        w.unit.globaldefs@.len() < usize::MAX,
        laid_out(w.unit, code),
        exec_globals(w.unit.globaldefs@, 0, w, fresh(), fuel) is Ok,
    ensures
        kept_pace(
            globals_of(w.unit).env,
            globals_store(w, fuel),
            w,
            Machine::start(code),
            w.input,
            globals_of(w.unit).code->Ok_0.len(),
            Seq::empty(),
        ),
{
    let defs = w.unit.globaldefs@;
    let decls = globals_of(w.unit).code->Ok_0;
    let m0 = Machine::start(code);
    assert(w.input.skip(0) =~= w.input);
    assert(code.subrange(0, decls.len() as int) =~= decls);
    assert(stands_at(m0, decls));
    assert(scope_agrees(Seq::<Name>::empty(), Seq::<(Name, Value)>::empty(), Seq::<i32>::empty()));
    assert(agrees(Scopes::empty(), fresh().values, m0.frames));
    assert(in_step(w, fresh(), w.input));
    assert(Scopes::empty().scope(0).len() == 0);
    lemma_globals_agree(defs, 0, Scopes::empty(), 0, w, fresh(), fuel, m0, w.input);
}

/// When a function without parameters is called from the global scope,
/// the environment in which its body is compiled, the values with which
/// the interpreter enters it and the frames of the machine after the call
/// hold the same.
proof fn lemma_call_agrees(env: Scopes, entry: Function, values: Values, frames: Seq<Seq<i32>>)
    requires
        agrees(env, values, frames),
        frames.len() == 1,
        env.funcs.len() == 0,
    ensures
        agrees(env.define(entry).push_scope(), values.called(), frames.push(Seq::empty())),
{
    let inner = env.define(entry).push_scope();
    let entered = frames.push(Seq::empty());
    assert(scope_agrees(Seq::<Name>::empty(), Seq::<(Name, Value)>::empty(), Seq::<i32>::empty()));
    assert forall|k: int| 0 <= k < inner.scopes.len() implies distinct(
        #[trigger] inner.scopes[k],
    ) by {
        if k == 0 {
            assert(distinct(env.scopes[0]));
        }
    }
    assert forall|k: int| 0 <= k < entered.len() implies scope_agrees(
        inner.scopes[k],
        values.called().scopes[k],
        #[trigger] entered[k],
    ) by {
        if k == 0 {
            assert(scope_agrees(env.scopes[0], values.scopes[0], frames[0]));
        }
    }
}

/// After the global declarations and the start call, the machine stands at
/// the body of `main` with what the interpreter has when it enters `main`.
proof fn lemma_reaches_main(w: World, fuel: nat, code: Seq<OpCode>)
    requires
        straight_program(w.unit),
        w.unit.globaldefs@.len() < usize::MAX,
        laid_out(w.unit, code),
        exec_globals(w.unit.globaldefs@, 0, w, fresh(), fuel) is Ok,
    ensures
        ({
            let n = globals_of(w.unit).code->Ok_0.len() + 1;
            let m = Machine::start(code);
            let end = m.run_from(w.input, n, Seq::empty());
            &&& end.stop == Ok::<Stop, Fault>(Stop::Exhausted)
            &&& end.output == body_store(w, fuel).output
            &&& in_step(w, body_store(w, fuel), unread(m, w.input, n))
            &&& agrees(body_env(w.unit), body_store(w, fuel).values, end.machine.frames)
            &&& stands_at(end.machine, body_of(w.unit).code->Ok_0)
            &&& end.machine.pc + body_of(w.unit).code->Ok_0.len() == code.len()
            &&& end.machine.code == code
        }),
{
    let globals = globals_of(w.unit);
    let decls = globals.code->Ok_0;
    let first = entry_of(w.unit);
    let body = body_of(w.unit).code->Ok_0;
    let st1 = globals_store(w, fuel);
    lemma_program_globals(w, fuel, code);
    let m0 = Machine::start(code);
    let after = m0.run_from(w.input, decls.len(), Seq::empty());
    let m1 = after.machine;
    let in1 = unread(m0, w.input, decls.len());
    assert(code[decls.len() as int] == OpCode::Call(first, 0));
    lemma_call_step(m1, in1, after.output, first);
    let m2 = m1.run_from(in1, 1, after.output).machine;
    lemma_run_compose(m0, w.input, decls.len(), 1, Seq::empty());
    assert(code.subrange(first as int, first + body.len()) =~= body);
    assert(stands_at(m2, body));
    lemma_call_agrees(
        globals.env,
        Function {
            name: main_of(w.unit).ident@,
            addr: first,
            params: param_names(main_of(w.unit)),
        },
        st1.values,
        m1.frames,
    );
}

/// The interpreter and the machine agree on straight-line programs.
///
/// Let a straight-line program compile to `code`, and let the interpreter
/// run it to the end on the input `w.input`. Then the machine that starts
/// with `code` and the same input halts within `steps` steps, for every
/// `steps` above the length of `code`, and has then written what the
/// interpreter writes.
pub proof fn lemma_straight_program_agrees(w: World, fuel: nat, steps: nat)
    requires
        straight_program(w.unit),
        w.unit.globaldefs@.len() < usize::MAX,
        main_of(w.unit).block.items.len() < usize::MAX,
        unit_code(w.unit, Scopes::empty(), 0).code is Ok,
        run_unit(w, fuel) is Ok,
        steps > unit_code(w.unit, Scopes::empty(), 0).code->Ok_0.len(),
    ensures
        ({
            let code = unit_code(w.unit, Scopes::empty(), 0).code->Ok_0;
            let end = Machine::start(code).run(w.input, steps);
            &&& end.stop == Ok::<Stop, Fault>(Stop::Halted)
            &&& end.output == run_unit(w, fuel)->Ok_0.output
        }),
{
    let code = unit_code(w.unit, Scopes::empty(), 0).code->Ok_0;
    let n = globals_of(w.unit).code->Ok_0.len() + 1;
    let body = body_of(w.unit).code->Ok_0;
    lemma_program_code(w.unit);
    lemma_program_run(w, fuel);
    lemma_reaches_main(w, fuel, code);
    let m0 = Machine::start(code);
    let entered = m0.run_from(w.input, n, Seq::empty());
    let m2 = entered.machine;
    let in2 = unread(m0, w.input, n);
    lemma_straight_line_agrees(
        main_of(w.unit).block,
        body_env(w.unit),
        body_ctx(w.unit),
        w,
        body_store(w, fuel),
        (fuel - 1) as nat,
        m2,
        in2,
    );
    let last = m2.run_from(in2, body.len(), entered.output);
    let k = (steps - code.len()) as nat;
    lemma_halts(last.machine, unread(m2, in2, body.len()), last.output, k);
    lemma_run_compose(m2, in2, body.len(), k, entered.output);
    lemma_run_compose(m0, w.input, n, body.len() + k, Seq::empty());
    assert(n + (body.len() + k) == steps);
}

} // verus!
