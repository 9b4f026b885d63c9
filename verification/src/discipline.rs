//! Stack discipline: what straight-line code does to the operand stack.

use crate::vm::{Machine, OpCode, Output, Stop};
use vstd::prelude::*;

verus! {

/// Whether `op` always moves on to the next instruction and pops and pushes
/// a fixed number of operands.
pub open spec fn straight(op: OpCode) -> bool {
    match op {
        OpCode::Jmp(_)
        | OpCode::JmpTrue(_)
        | OpCode::JmpFalse(_)
        | OpCode::Call(_, _)
        | OpCode::Ret
        | OpCode::StorePC
        | OpCode::LoadPC
        | OpCode::MakeClosure => false,
        _ => true,
    }
}

/// How many operands the straight instruction `op` pops.
pub open spec fn demand(op: OpCode) -> nat {
    match op {
        OpCode::StoreGlobal(_)
        | OpCode::StoreVar(_, _)
        | OpCode::UniOpNot
        | OpCode::UniOpNeg
        | OpCode::PrintItem
        | OpCode::Pop => 1,
        OpCode::BinOpAdd
        | OpCode::BinOpSub
        | OpCode::BinOpMul
        | OpCode::BinOpDiv
        | OpCode::BinOpGt
        | OpCode::BinOpGe
        | OpCode::BinOpLt
        | OpCode::BinOpLe
        | OpCode::BinOpEq
        | OpCode::BinOpNe
        | OpCode::BinOpOr
        | OpCode::BinOpAnd => 2,
        _ => 0,
    }
}

/// How many operands the straight instruction `op` pushes.
pub open spec fn supply(op: OpCode) -> nat {
    match op {
        OpCode::StoreGlobal(_)
        | OpCode::StoreVar(_, _)
        | OpCode::PrintItem
        | OpCode::PrintNewline
        | OpCode::Pop
        | OpCode::EnterScope(_)
        | OpCode::LeaveScope => 0,
        _ => 1,
    }
}

/// The number of operands that `code` from index `from` on leaves on top of
/// `have` operands of its own, if all of it is straight and never pops more
/// than it has: `None` otherwise.
pub open spec fn settle(code: Seq<OpCode>, from: nat, have: nat) -> Option<nat>
    decreases code.len() - from,
{
    if from >= code.len() {
        Some(have)
    } else if !straight(code[from as int]) || have < demand(code[from as int]) {
        None
    } else {
        settle(
            code,
            from + 1,
            (have - demand(code[from as int]) + supply(code[from as int])) as nat,
        )
    }
}

/// Code that leaves `k` operands on top of whatever it finds: from any
/// number of operands of its own it goes to `k` more.
pub open spec fn leaves(code: Seq<OpCode>, k: nat) -> bool {
    forall|have: nat| #[trigger] settle(code, 0, have) == Some(have + k)
}

/// What `settle` says of code that is put together from two parts.
pub proof fn lemma_settle_concat(a: Seq<OpCode>, b: Seq<OpCode>, from: nat, have: nat)
    requires
        from <= a.len(),
    ensures
        settle(a + b, from, have) == match settle(a, from, have) {
            Some(then) => settle(b, 0, then),
            None => None,
        },
    decreases a.len() - from,
{
    if from < a.len() {
        let op = a[from as int];
        assert((a + b)[from as int] == op);
        if straight(op) && have >= demand(op) {
            lemma_settle_concat(a, b, from + 1, (have - demand(op) + supply(op)) as nat);
        }
    } else {
        lemma_settle_shift(a, b, 0, have);
    }
}

/// `settle` looks only at the code from `from` on.
proof fn lemma_settle_shift(a: Seq<OpCode>, b: Seq<OpCode>, from: nat, have: nat)
    ensures
        settle(a + b, a.len() + from, have) == settle(b, from, have),
    decreases b.len() - from,
{
    if from < b.len() {
        let op = b[from as int];
        assert((a + b)[a.len() as int + from] == op);
        if straight(op) && have >= demand(op) {
            lemma_settle_shift(a, b, from + 1, (have - demand(op) + supply(op)) as nat);
        }
    }
}

/// Code put together from a part that leaves `j` operands and a part that
/// leaves `k` leaves `j + k`.
pub proof fn lemma_leaves_concat(a: Seq<OpCode>, j: nat, b: Seq<OpCode>, k: nat)
    requires
        leaves(a, j),
        leaves(b, k),
    ensures
        leaves(a + b, j + k),
{
    assert forall|have: nat| #[trigger] settle(a + b, 0, have) == Some(have + j + k) by {
        lemma_settle_concat(a, b, 0, have);
        assert(settle(a, 0, have) == Some(have + j));
        assert(settle(b, 0, have + j) == Some(have + j + k));
    }
}

/// A straight instruction that finds its operands either faults or goes on
/// to the next instruction with the operands below its own untouched.
pub proof fn lemma_straight_step(m: Machine, input: Seq<i32>)
    requires
        m.wf(),
        m.pc < m.code.len() <= usize::MAX,
        straight(m.code[m.pc as int]),
        m.stack.len() >= demand(m.code[m.pc as int]),
    ensures
        m.advance(input) matches Some((next, _, _)) ==> {
            let op = m.code[m.pc as int];
            let kept = m.stack.len() - demand(op);
            &&& next.wf()
            &&& next.code == m.code
            &&& next.pc == m.pc + 1
            &&& next.stack.len() == kept + supply(op)
            &&& next.stack.take(kept) == m.stack.take(kept)
        },
{
    let op = m.code[m.pc as int];
    let kept = m.stack.len() - demand(op);
    if let Some((next, _, _)) = m.advance(input) {
        assert(next.stack.take(kept) =~= m.stack.take(kept));
    }
}

/// Stack discipline of straight-line code. Let the machine stand at a
/// stretch of code of which `settle` says that it leaves `k` operands on top
/// of the `have` topmost. If the machine gets through the stretch, one step
/// for each instruction, then it stands at the end of the stretch, the
/// operands below the `have` topmost are as they were, and `k` operands lie
/// above them.
pub proof fn lemma_straight_line(
    m: Machine,
    input: Seq<i32>,
    output: Seq<Output>,
    stretch: Seq<OpCode>,
    from: nat,
    have: nat,
    k: nat,
)
    requires
        m.wf(),
        m.code.len() <= usize::MAX,
        from <= stretch.len(),
        m.pc >= from,
        m.pc - from + stretch.len() <= m.code.len(),
        m.code.subrange(m.pc - from, m.pc - from + stretch.len()) == stretch,
        have <= m.stack.len(),
        settle(stretch, from, have) == Some(k),
    ensures
        ({
            let end = m.run_from(input, (stretch.len() - from) as nat, output);
            end.stop == Ok::<Stop, crate::error::Fault>(Stop::Exhausted) ==> {
                &&& end.machine.pc == m.pc - from + stretch.len()
                &&& end.machine.stack.len() == m.stack.len() - have + k
                &&& end.machine.stack.take(m.stack.len() - have) == m.stack.take(
                    m.stack.len() - have,
                )
            }
        }),
    decreases stretch.len() - from,
{
    let below = m.stack.len() - have;
    if from < stretch.len() {
        let op = stretch[from as int];
        assert(m.code[m.pc as int] == m.code.subrange(
            m.pc - from,
            m.pc - from + stretch.len(),
        )[from as int]);
        lemma_straight_step(m, input);
        match m.advance(input) {
            None => {},
            Some((next, rest, written)) => {
                let kept = m.stack.len() - demand(op);
                let more = (have - demand(op) + supply(op)) as nat;
                lemma_straight_line(next, rest, output + written, stretch, from + 1, more, k);
                let end = next.run_from(rest, (stretch.len() - from - 1) as nat, output + written);
                if end.stop == Ok::<Stop, crate::error::Fault>(Stop::Exhausted) {
                    assert(next.stack.take(below) =~= next.stack.take(kept).take(below));
                    assert(m.stack.take(below) =~= m.stack.take(kept).take(below));
                }
            },
        }
    } else {
        assert(m.stack.take(below) =~= m.stack.take(below));
    }
}

} // verus!
