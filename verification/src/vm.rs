//! The instruction set and the stack machine that executes it.

use crate::error::{Error, Fault};
use crate::text::{line_int, parse_int};
use vstd::prelude::*;
use vstd::wrapping::i32_specs;

verus! {

/// One instruction of the stack machine.
///
/// Addresses held by `Jmp`, `JmpTrue`, `JmpFalse` and `Call` are indices into
/// the instruction list. Variable references are `(depth, slot)` pairs where
/// depth 0 is the innermost live frame.
#[derive(Debug, Clone, Copy, PartialEq, Eq, Structural)]
pub enum OpCode {
    /// Push a constant.
    LoadConst(i32),
    /// Push 1.
    LoadTrue,
    /// Push 0.
    LoadFalse,
    /// Push 0.
    LoadNull,
    /// Push slot `.0` of the globals frame.
    LoadGlobal(usize),
    /// Pop into slot `.0` of the globals frame, growing it with zeros.
    StoreGlobal(usize),
    BinOpAdd,
    BinOpSub,
    BinOpMul,
    BinOpDiv,
    BinOpGt,
    BinOpGe,
    BinOpLt,
    BinOpLe,
    BinOpEq,
    BinOpNe,
    BinOpOr,
    BinOpAnd,
    /// Continue at the given address.
    Jmp(usize),
    /// Pop; continue at the given address when the value is 1.
    JmpTrue(usize),
    /// Pop; continue at the given address when the value is not 1.
    JmpFalse(usize),
    /// Pop and emit the value.
    PrintItem,
    /// Emit a line break.
    PrintNewline,
    /// Read an integer and push it.
    GetInt,
    /// Discard the top of the operand stack.
    Pop,
    /// Replace the top by its bitwise complement.
    UniOpNot,
    /// Replace the top by its two's-complement negation.
    UniOpNeg,
    /// Remember the current address on the call stack.
    StorePC,
    /// Return to the address on top of the call stack without leaving the current frame first.
    LoadPC,
    /// Pop into `(depth, slot)`, growing the frame with zeros.
    StoreVar(usize, usize),
    /// Push the value at `(depth, slot)`.
    LoadVar(usize, usize),
    /// Push an empty frame; the operand is reserved.
    EnterScope(usize),
    /// Pop the current frame.
    LeaveScope,
    /// Reserved.
    MakeClosure,
    /// Call the function at address `.0` with `.1` arguments.
    Call(usize, usize),
    /// Return from the current function.
    Ret,
}


/// What the embedding program has to do after a step of the machine.
#[derive(Debug, Clone, Copy, PartialEq, Eq, Structural)]
pub enum Action {
    /// Nothing: take the next step.
    Continue,
    /// Write this integer in decimal, without a line break.
    Print(i32),
    /// Write a line break.
    Newline,
    /// The next instruction is `GetInt`: read an integer and hand it to `receive`.
    Input,
    /// The program counter is past the last instruction.
    Halt,
}

/// One thing that a program wrote.
#[derive(Debug, Clone, Copy, PartialEq, Eq, Structural)]
pub enum Output {
    /// An integer, written in decimal.
    Item(i32),
    /// A line break.
    Newline,
}

/// Why `run` came back without an error.
#[derive(Debug, Clone, Copy, PartialEq, Eq, Structural)]
pub enum Stop {
    /// The program counter is past the last instruction.
    Halted,
    /// The next instruction is `GetInt` and the input is used up.
    Starved,
    /// The step limit is reached.
    Exhausted,
}

/// The state of the machine as a mathematical value.
pub struct Machine {
    /// The operand stack, top last.
    pub stack: Seq<i32>,
    /// The frames, innermost last; frame 0 holds the globals.
    pub frames: Seq<Seq<i32>>,
    /// The pending calls, innermost last: how many block frames to drop on
    /// return beyond the callee's own, and the return address.
    pub calls: Seq<(usize, usize)>,
    /// The address of the next instruction.
    pub pc: usize,
    /// The program.
    pub code: Seq<OpCode>,
}

/// `frame`, padded with zeros to at least `len` slots.
pub open spec fn grown(frame: Seq<i32>, len: nat) -> Seq<i32> {
    if frame.len() >= len {
        frame
    } else {
        frame + Seq::new((len - frame.len()) as nat, |i: int| 0i32)
    }
}

/// The absolute value of `a`.
pub open spec fn magnitude(a: i32) -> int {
    if a < 0 {
        -(a as int)
    } else {
        a as int
    }
}

/// The quotient of `a` by `b`, rounded toward zero: the quotient of the
/// absolute values with the sign of the operands' product. The one quotient
/// that does not fit 32 bits wraps to the most negative integer.
pub open spec fn quotient(a: i32, b: i32) -> i32
    recommends
        b != 0,
{
    let q = magnitude(a) / magnitude(b);
    if a == i32::MIN && b == -1 {
        i32::MIN
    } else if (a < 0) == (b < 0) {
        q as i32
    } else {
        (-q) as i32
    }
}

/// The bitwise complement of `v`, which is what `UniOpNot` computes: the
/// complement of 0 is -1, not 1.
pub open spec fn complement(v: i32) -> i32 {
    (-1 - v) as i32
}

/// `complement` flips every bit.
pub proof fn lemma_complement(v: i32)
    ensures
        complement(v) == !v,
{
    assert((-1 - v) as i32 == !v) by (bit_vector);
}

/// 1 for true, 0 for false.
pub open spec fn flag(b: bool) -> i32 {
    if b {
        1
    } else {
        0
    }
}

/// What a binary operator computes from the left operand `v1` and the right operand `v2`.
pub open spec fn binop_value(op: OpCode, v1: i32, v2: i32) -> Result<i32, Fault> {
    match op {
        OpCode::BinOpAdd => Ok(i32_specs::wrapping_add(v1, v2)),
        OpCode::BinOpSub => Ok(i32_specs::wrapping_sub(v1, v2)),
        OpCode::BinOpMul => Ok(i32_specs::wrapping_mul(v1, v2)),
        OpCode::BinOpDiv => if v2 == 0 {
            Err(Fault::DivisionByZero)
        } else {
            Ok(quotient(v1, v2))
        },
        OpCode::BinOpGt => Ok(flag(v1 > v2)),
        OpCode::BinOpGe => Ok(flag(v1 >= v2)),
        OpCode::BinOpLt => Ok(flag(v1 < v2)),
        OpCode::BinOpLe => Ok(flag(v1 <= v2)),
        OpCode::BinOpEq => Ok(flag(v1 == v2)),
        OpCode::BinOpNe => Ok(flag(v1 != v2)),
        OpCode::BinOpOr => Ok(flag(v1 != 0 || v2 != 0)),
        OpCode::BinOpAnd => Ok(flag(v1 != 0 && v2 != 0)),
        _ => Err(Fault::IllegalInstruction),
    }
}

impl Machine {
    /// The machine before its first step.
    pub open spec fn start(code: Seq<OpCode>) -> Machine {
        Machine {
            stack: Seq::empty(),
            frames: seq![Seq::<i32>::empty()],
            calls: Seq::empty(),
            pc: 0,
            code,
        }
    }

    /// The globals frame is there.
    pub open spec fn wf(self) -> bool {
        self.frames.len() >= 1
    }

    /// The `i`-th operand from the top.
    pub open spec fn top(self, i: int) -> i32 {
        self.stack[self.stack.len() - 1 - i]
    }

    /// With `v` on top of the operand stack.
    pub open spec fn push(self, v: i32) -> Machine {
        Machine { stack: self.stack.push(v), ..self }
    }

    /// Without the `n` topmost operands.
    pub open spec fn pop_n(self, n: int) -> Machine {
        Machine { stack: self.stack.take(self.stack.len() - n), ..self }
    }

    /// At the instruction with the address `pc`.
    pub open spec fn goto(self, pc: usize) -> Machine {
        Machine { pc, ..self }
    }

    /// At the following instruction.
    pub open spec fn next(self) -> Machine {
        self.goto((self.pc + 1) as usize)
    }

    /// The index of the frame that lies `depth` frames below the innermost.
    pub open spec fn frame_index(self, depth: usize) -> int {
        self.frames.len() - 1 - depth
    }

    /// With `v` in slot `slot` of frame `index`, which grows to hold it.
    pub open spec fn store(self, index: int, slot: usize, v: i32) -> Machine {
        Machine {
            frames: self.frames.update(
                index,
                grown(self.frames[index], (slot + 1) as nat).update(slot as int, v),
            ),
            ..self
        }
    }

    /// With one more frame.
    pub open spec fn enter(self, frame: Seq<i32>) -> Machine {
        Machine { frames: self.frames.push(frame), ..self }
    }

    /// Without the `n` innermost frames; the globals frame always stays.
    pub open spec fn leave(self, n: int) -> Machine {
        if n >= self.frames.len() - 1 {
            Machine { frames: self.frames.take(1), ..self }
        } else {
            Machine { frames: self.frames.take(self.frames.len() - n), ..self }
        }
    }

    /// With one more pending call.
    pub open spec fn called(self, unwind: usize, ret: usize) -> Machine {
        Machine { calls: self.calls.push((unwind, ret)), ..self }
    }

    /// Without the innermost pending call.
    pub open spec fn returned(self) -> Machine {
        Machine { calls: self.calls.drop_last(), ..self }
    }

    /// With the innermost pending call, if there is one, owing one more block frame.
    pub open spec fn owing(self) -> Machine {
        if self.calls.len() == 0 {
            self
        } else {
            let (unwind, ret) = self.calls.last();
            let more = if unwind < usize::MAX {
                (unwind + 1) as usize
            } else {
                unwind
            };
            Machine { calls: self.calls.update(self.calls.len() - 1, (more, ret)), ..self }
        }
    }

    /// The frame that `Call` builds from the `argc` topmost operands: the top goes to slot 0.
    pub open spec fn arguments(self, argc: usize) -> Seq<i32> {
        Seq::new(argc as nat, |i: int| self.top(i))
    }

    /// Whether the next instruction is `GetInt`.
    pub open spec fn awaits_input(self) -> bool {
        self.pc < self.code.len() && self.code[self.pc as int] == OpCode::GetInt
    }

    /// What a binary operator does to the operand stack.
    pub open spec fn binop(self, op: OpCode) -> Result<Machine, Fault> {
        if self.stack.len() < 2 {
            Err(Fault::StackUnderflow)
        } else {
            match binop_value(op, self.top(1), self.top(0)) {
                Ok(v) => Ok(self.pop_n(2).push(v)),
                Err(fault) => Err(fault),
            }
        }
    }

    /// What the instruction `op` does to the machine that stands at it.
    pub open spec fn effect(self, op: OpCode) -> Result<(Machine, Action), Fault> {
        match op {
            OpCode::LoadConst(c) => Ok((self.next().push(c), Action::Continue)),
            OpCode::LoadTrue => Ok((self.next().push(1), Action::Continue)),
            OpCode::LoadFalse => Ok((self.next().push(0), Action::Continue)),
            OpCode::LoadNull => Ok((self.next().push(0), Action::Continue)),
            OpCode::LoadGlobal(slot) => if slot < self.frames[0].len() {
                Ok((self.next().push(self.frames[0][slot as int]), Action::Continue))
            } else {
                Err(Fault::BadReference)
            },
            OpCode::StoreGlobal(slot) => if self.stack.len() < 1 {
                Err(Fault::StackUnderflow)
            } else if slot == usize::MAX {
                Err(Fault::BadReference)
            } else {
                Ok((self.next().pop_n(1).store(0, slot, self.top(0)), Action::Continue))
            },
            OpCode::LoadVar(depth, slot) => if depth < self.frames.len() && slot
                < self.frames[self.frame_index(depth)].len() {
                Ok(
                    (
                        self.next().push(self.frames[self.frame_index(depth)][slot as int]),
                        Action::Continue,
                    ),
                )
            } else {
                Err(Fault::BadReference)
            },
            OpCode::StoreVar(depth, slot) => if self.stack.len() < 1 {
                Err(Fault::StackUnderflow)
            } else if depth >= self.frames.len() || slot == usize::MAX {
                Err(Fault::BadReference)
            } else {
                Ok(
                    (
                        self.next().pop_n(1).store(self.frame_index(depth), slot, self.top(0)),
                        Action::Continue,
                    ),
                )
            },
            OpCode::BinOpAdd
            | OpCode::BinOpSub
            | OpCode::BinOpMul
            | OpCode::BinOpDiv
            | OpCode::BinOpGt
            | OpCode::BinOpGe
            | OpCode::BinOpLt
            | OpCode::BinOpLe
            | OpCode::BinOpEq
            | OpCode::BinOpNe
            | OpCode::BinOpOr
            | OpCode::BinOpAnd => match self.binop(op) {
                Ok(m) => Ok((m.next(), Action::Continue)),
                Err(fault) => Err(fault),
            },
            OpCode::UniOpNot => if self.stack.len() < 1 {
                Err(Fault::StackUnderflow)
            } else {
                Ok((self.next().pop_n(1).push(complement(self.top(0))), Action::Continue))
            },
            OpCode::UniOpNeg => if self.stack.len() < 1 {
                Err(Fault::StackUnderflow)
            } else {
                Ok(
                    (
                        self.next().pop_n(1).push(i32_specs::wrapping_sub(0, self.top(0))),
                        Action::Continue,
                    ),
                )
            },
            OpCode::Jmp(target) => if target > self.code.len() {
                Err(Fault::JumpOutOfRange)
            } else {
                Ok((self.goto(target), Action::Continue))
            },
            OpCode::JmpTrue(target) => if self.stack.len() < 1 {
                Err(Fault::StackUnderflow)
            } else if self.top(0) != 1 {
                Ok((self.next().pop_n(1), Action::Continue))
            } else if target > self.code.len() {
                Err(Fault::JumpOutOfRange)
            } else {
                Ok((self.goto(target).pop_n(1), Action::Continue))
            },
            OpCode::JmpFalse(target) => if self.stack.len() < 1 {
                Err(Fault::StackUnderflow)
            } else if self.top(0) == 1 {
                Ok((self.next().pop_n(1), Action::Continue))
            } else if target > self.code.len() {
                Err(Fault::JumpOutOfRange)
            } else {
                Ok((self.goto(target).pop_n(1), Action::Continue))
            },
            OpCode::PrintItem => if self.stack.len() < 1 {
                Err(Fault::StackUnderflow)
            } else {
                Ok((self.next().pop_n(1), Action::Print(self.top(0))))
            },
            OpCode::PrintNewline => Ok((self.next(), Action::Newline)),
            OpCode::GetInt => Ok((self, Action::Input)),
            OpCode::Pop => if self.stack.len() < 1 {
                Err(Fault::StackUnderflow)
            } else {
                Ok((self.next().pop_n(1), Action::Continue))
            },
            OpCode::StorePC => Ok(
                (self.next().called(0, (self.pc + 1) as usize), Action::Continue),
            ),
            OpCode::LoadPC => if self.calls.len() == 0 {
                Err(Fault::ReturnWithoutCall)
            } else {
                Ok(
                    (
                        self.returned().leave(self.calls.last().0 as int).goto(self.calls.last().1),
                        Action::Continue,
                    ),
                )
            },
            OpCode::EnterScope(_) => Ok(
                (self.next().enter(Seq::empty()).owing(), Action::Continue),
            ),
            OpCode::LeaveScope => Ok((self.next().leave(1), Action::Continue)),
            OpCode::MakeClosure => Err(Fault::IllegalInstruction),
            OpCode::Call(target, argc) => if self.stack.len() < argc {
                Err(Fault::StackUnderflow)
            } else if target > self.code.len() {
                Err(Fault::JumpOutOfRange)
            } else {
                Ok(
                    (
                        self.pop_n(argc as int).enter(self.arguments(argc)).called(
                            0,
                            (self.pc + 1) as usize,
                        ).goto(target),
                        Action::Continue,
                    ),
                )
            },
            OpCode::Ret => if self.calls.len() == 0 {
                Err(Fault::ReturnWithoutCall)
            } else {
                Ok(
                    (
                        self.returned().leave(1).leave(self.calls.last().0 as int).goto(
                            self.calls.last().1,
                        ),
                        Action::Continue,
                    ),
                )
            },
        }
    }

    /// One step: the machine after it and what the embedding program has to
    /// do, or the fault. A machine whose program counter is past the last
    /// instruction halts; one that stands at `GetInt` waits, unchanged.
    pub open spec fn step(self) -> Result<(Machine, Action), Fault> {
        if self.pc >= self.code.len() {
            Ok((self, Action::Halt))
        } else {
            self.effect(self.code[self.pc as int])
        }
    }

    /// What handing `value` to a machine does: one that waits at `GetInt`
    /// pushes the integer and moves on, or fails where there is none; any
    /// other machine stays as it is.
    pub open spec fn receive(self, value: Option<i32>) -> Result<Machine, Fault> {
        if !self.awaits_input() {
            Ok(self)
        } else {
            match value {
                Some(v) => Ok(self.next().push(v)),
                None => Err(Fault::MalformedInput),
            }
        }
    }
}


/// How a run ended.
pub struct RunEnd {
    /// The machine at the end.
    pub machine: Machine,
    /// What the program wrote, in order.
    pub output: Seq<Output>,
    /// Why the run ended: a reason to stop, or the fault met at the
    /// instruction the machine stands at.
    pub stop: Result<Stop, Fault>,
}

impl Machine {
    /// One step of a run that takes its input from `input`: the machine and
    /// the input after it and what was written, or `None` where the run ends
    /// here. A machine that stands at `GetInt` takes the first integer of the input.
    pub open spec fn advance(self, input: Seq<i32>) -> Option<(Machine, Seq<i32>, Seq<Output>)> {
        match self.step() {
            Err(_) => None,
            Ok((m, Action::Halt)) => None,
            Ok((m, Action::Input)) => if input.len() == 0 {
                None
            } else {
                Some((self.next().push(input[0]), input.drop_first(), Seq::empty()))
            },
            Ok((m, Action::Print(v))) => Some((m, input, seq![Output::Item(v)])),
            Ok((m, Action::Newline)) => Some((m, input, seq![Output::Newline])),
            Ok((m, Action::Continue)) => Some((m, input, Seq::empty())),
        }
    }

    /// Why a run ends at a machine that does not advance.
    pub open spec fn ending(self, input: Seq<i32>) -> Result<Stop, Fault>
        recommends
            self.advance(input) is None,
    {
        match self.step() {
            Err(fault) => Err(fault),
            Ok((_, Action::Input)) => Ok(Stop::Starved),
            Ok(_) => Ok(Stop::Halted),
        }
    }

    /// A run of at most `fuel` steps that has written `output` so far.
    pub open spec fn run_from(self, input: Seq<i32>, fuel: nat, output: Seq<Output>) -> RunEnd
        decreases fuel,
    {
        if fuel == 0 {
            RunEnd { machine: self, output, stop: Ok(Stop::Exhausted) }
        } else {
            match self.advance(input) {
                None => RunEnd { machine: self, output, stop: self.ending(input) },
                Some((m, rest, written)) => m.run_from(rest, (fuel - 1) as nat, output + written),
            }
        }
    }

    /// A run of at most `fuel` steps with the integers of `input` for `GetInt`:
    /// it ends when the machine halts, at a fault, at `GetInt` with the input
    /// used up, or when the steps are used up.
    pub open spec fn run(self, input: Seq<i32>, fuel: nat) -> RunEnd {
        self.run_from(input, fuel, Seq::empty())
    }

    /// How many frames the next step pushes.
    pub open spec fn entering(self) -> nat {
        if self.pc < self.code.len() && (self.code[self.pc as int] is EnterScope
            || self.code[self.pc as int] is Call) {
            1
        } else {
            0
        }
    }

    /// How many frames the next step pops: one for `LeaveScope`, one and what
    /// the pending call owes for `Ret`, what the pending call owes for
    /// `LoadPC`, in each case as far as there are frames above the globals.
    pub open spec fn leaving(self) -> nat {
        let above = (self.frames.len() - 1) as nat;
        let wanted: nat = if self.pc >= self.code.len() {
            0
        } else {
            match self.code[self.pc as int] {
                OpCode::LeaveScope => 1,
                OpCode::Ret => if self.calls.len() == 0 {
                    0
                } else {
                    (1 + self.calls.last().0) as nat
                },
                OpCode::LoadPC => if self.calls.len() == 0 {
                    0
                } else {
                    self.calls.last().0 as nat
                },
                _ => 0,
            }
        };
        if wanted <= above {
            wanted
        } else {
            above
        }
    }

    /// How many frames a run of at most `fuel` steps pushes.
    pub open spec fn entered(self, input: Seq<i32>, fuel: nat) -> nat
        decreases fuel,
    {
        if fuel == 0 {
            0
        } else {
            match self.advance(input) {
                None => 0,
                Some((m, rest, _)) => self.entering() + m.entered(rest, (fuel - 1) as nat),
            }
        }
    }

    /// How many frames a run of at most `fuel` steps pops.
    pub open spec fn left(self, input: Seq<i32>, fuel: nat) -> nat
        decreases fuel,
    {
        if fuel == 0 {
            0
        } else {
            match self.advance(input) {
                None => 0,
                Some((m, rest, _)) => self.leaving() + m.left(rest, (fuel - 1) as nat),
            }
        }
    }
}

/// A step that succeeds changes the number of frames by what it pushes and
/// pops, and never pops the globals frame.
pub proof fn lemma_step_frames(m: Machine)
    requires
        m.wf(),
        m.step() is Ok,
    ensures
        m.step()->Ok_0.0.wf(),
        m.step()->Ok_0.0.frames.len() == m.frames.len() + m.entering() - m.leaving(),
        m.step()->Ok_0.0.code == m.code,
{
}

/// A step that succeeds pushes one pending call where the instruction is
/// `Call` or `StorePC`, pops one where it is `Ret` or `LoadPC`, and leaves
/// the pending calls alone otherwise, but for what the innermost owes.
pub proof fn lemma_step_calls(m: Machine)
    requires
        m.step() is Ok,
        m.pc < m.code.len(),
    ensures
        ({
            let op = m.code[m.pc as int];
            let next = m.step()->Ok_0.0;
            &&& op is Call || op is StorePC ==> next.calls.len() == m.calls.len() + 1
                && next.calls.drop_last() == m.calls
            &&& op is Ret || op is LoadPC ==> next.calls.len() + 1 == m.calls.len() && next.calls
                == m.calls.drop_last()
            &&& !(op is Call || op is StorePC || op is Ret || op is LoadPC) ==> next.calls.len()
                == m.calls.len()
        }),
{
    let op = m.code[m.pc as int];
    let next = m.step()->Ok_0.0;
    if op is Call || op is StorePC {
        assert(next.calls.drop_last() =~= m.calls);
    }
}

/// Along every run the frames are accounted for: their number at the end is
/// the number at the start, plus the frames pushed by `EnterScope` and
/// `Call`, minus the frames popped by `LeaveScope`, `Ret` and `LoadPC`; and
/// the globals frame is never popped.
pub proof fn lemma_run_frames(m: Machine, input: Seq<i32>, fuel: nat, output: Seq<Output>)
    requires
        m.wf(),
    ensures
        m.run_from(input, fuel, output).machine.wf(),
        m.run_from(input, fuel, output).machine.frames.len() + m.left(input, fuel)
            == m.frames.len() + m.entered(input, fuel),
        m.run_from(input, fuel, output).machine.code == m.code,
    decreases fuel,
{
    if fuel > 0 {
        match m.advance(input) {
            None => {},
            Some((next, rest, written)) => {
                lemma_step_frames(m);
                lemma_run_frames(next, rest, (fuel - 1) as nat, output + written);
            },
        }
    }
}

/// Frame discipline: a run from the start of a program ends with one frame
/// for the globals and one more for each frame pushed and not popped; so it
/// ends with exactly one frame live if and only if as many frames were
/// popped as were pushed.
pub proof fn lemma_frame_discipline(code: Seq<OpCode>, input: Seq<i32>, fuel: nat)
    ensures
        ({
            let start = Machine::start(code);
            let end = start.run(input, fuel).machine;
            &&& end.frames.len() >= 1
            &&& end.frames.len() == 1 + start.entered(input, fuel) - start.left(input, fuel)
            &&& end.frames.len() == 1 <==> start.entered(input, fuel) == start.left(input, fuel)
        }),
{
    lemma_run_frames(Machine::start(code), input, fuel, Seq::empty());
}

/// A run from the start of a program that pops as many frames as it
/// pushes ends with exactly one frame live: the globals frame.
pub proof fn lemma_one_frame_live(code: Seq<OpCode>, input: Seq<i32>, fuel: nat)
    requires
        Machine::start(code).entered(input, fuel) == Machine::start(code).left(input, fuel),
    ensures
        Machine::start(code).run(input, fuel).machine.frames.len() == 1,
{
    lemma_frame_discipline(code, input, fuel);
}

/// Divides as the machine does.
pub fn divide(a: i32, b: i32) -> (r: i32)
    requires
        b != 0,
    ensures
        r == quotient(a, b),
{
    let checked = a.checked_div(b);
    proof {
        let ma = magnitude(a);
        let mb = magnitude(b);
        assert(0 <= ma / mb <= ma) by (nonlinear_arith)
            requires
                ma >= 0,
                mb >= 1,
        ;
        if mb == 1 {
            assert(ma / mb == ma) by (nonlinear_arith)
                requires
                    mb == 1,
            ;
        } else {
            assert(ma / mb < 0x8000_0000) by (nonlinear_arith)
                requires
                    0 <= ma <= 0x8000_0000,
                    mb >= 2,
            ;
        }
        assert(a as int * -1 == -(a as int));
        assert(b as int * -1 == -(b as int));
        assert((ma / mb) * -1 == -(ma / mb));
    }
    match checked {
        Some(q) => q,
        None => i32::MIN,
    }
}

/// The virtual machine: an operand stack, a stack of frames, a stack of
/// pending calls, a program counter and the program.
#[derive(Debug)]
pub struct VM {
    stack: Vec<i32>,
    frames: Vec<Vec<i32>>,
    pc_stack: Vec<(usize, usize)>,
    pc: usize,
    code: Vec<OpCode>,
}

/// The frames as sequences of their slots.
pub open spec fn frames_view(frames: Seq<Vec<i32>>) -> Seq<Seq<i32>> {
    Seq::new(frames.len(), |i: int| frames[i]@)
}

impl View for VM {
    type V = Machine;

    closed spec fn view(&self) -> Machine {
        Machine {
            stack: self.stack@,
            frames: frames_view(self.frames@),
            calls: self.pc_stack@,
            pc: self.pc,
            code: self.code@,
        }
    }
}

impl VM {
    /// The globals frame is there.
    pub open spec fn wf(&self) -> bool {
        self@.wf()
    }

    /// A machine that is about to run `code`: no operands, one empty frame
    /// for the globals, no pending calls, program counter 0.
    pub fn new(code: Vec<OpCode>) -> (vm: Self)
        ensures
            vm@ == Machine::start(code@),
            vm.wf(),
    {
        let mut frames: Vec<Vec<i32>> = Vec::new();
        frames.push(Vec::new());
        let vm = VM { stack: Vec::new(), frames, pc_stack: Vec::new(), pc: 0, code };
        assert(vm@.frames =~= seq![Seq::<i32>::empty()]);
        vm
    }

    /// The address of the next instruction.
    pub fn pc(&self) -> (pc: usize)
        ensures
            pc == self@.pc,
    {
        self.pc
    }

    /// How many frames are live, the globals frame included.
    pub fn depth(&self) -> (n: usize)
        ensures
            n == self@.frames.len(),
    {
        self.frames.len()
    }

    /// How many calls are pending.
    pub fn calls(&self) -> (n: usize)
        ensures
            n == self@.calls.len(),
    {
        self.pc_stack.len()
    }

    /// The operand stack, top last.
    pub fn operands(&self) -> (stack: Vec<i32>)
        ensures
            stack@ == self@.stack,
    {
        let mut stack: Vec<i32> = Vec::new();
        let mut i: usize = 0;
        while i < self.stack.len()
            invariant
                i <= self.stack.len(),
                stack@ =~= self.stack@.take(i as int),
            decreases self.stack.len() - i,
        {
            stack.push(self.stack[i]);
            i = i + 1;
        }
        assert(self.stack@.take(self.stack.len() as int) =~= self.stack@);
        stack
    }

    /// The frame that lies `depth` frames below the innermost, if there is one.
    pub fn frame(&self, depth: usize) -> (frame: Option<Vec<i32>>)
        ensures
            match frame {
                Some(slots) => depth < self@.frames.len() && slots@
                    == self@.frames[self@.frame_index(depth)],
                None => depth >= self@.frames.len(),
            },
    {
        if depth >= self.frames.len() {
            return None;
        }
        let source = &self.frames[self.frames.len() - 1 - depth];
        let mut slots: Vec<i32> = Vec::new();
        let mut i: usize = 0;
        while i < source.len()
            invariant
                i <= source.len(),
                slots@ =~= source@.take(i as int),
            decreases source.len() - i,
        {
            slots.push(source[i]);
            i = i + 1;
        }
        assert(source@.take(source.len() as int) =~= source@);
        Some(slots)
    }

    /// Lets the innermost pending call owe one more block frame.
    fn del_addone(&mut self)
        ensures
            final(self)@ == old(self)@.owing(),
    {
        let n = self.pc_stack.len();
        if n > 0 {
            let (unwind, ret) = self.pc_stack[n - 1];
            if unwind < usize::MAX {
                self.pc_stack.set(n - 1, (unwind + 1, ret));
            }
            assert(self@.calls =~= old(self)@.owing().calls);
        }
    }

    /// Pushes a frame of `var_count` zeros.
    fn enter_scope(&mut self, var_count: usize)
        ensures
            final(self)@ == old(self)@.enter(Seq::new(var_count as nat, |i: int| 0i32)),
    {
        let mut frame: Vec<i32> = Vec::new();
        while frame.len() < var_count
            invariant
                frame.len() <= var_count,
                frame@ =~= Seq::new(frame.len() as nat, |i: int| 0i32),
            decreases var_count - frame.len(),
        {
            frame.push(0);
        }
        self.enter_frame(frame);
    }

    /// Pushes `frame`.
    fn enter_frame(&mut self, frame: Vec<i32>)
        ensures
            final(self)@ == old(self)@.enter(frame@),
    {
        self.frames.push(frame);
        assert(self@.frames =~= old(self)@.frames.push(frame@));
    }

    /// Pops the innermost frame, unless it is the globals frame.
    fn leave_scope(&mut self)
        requires
            old(self).wf(),
        ensures
            final(self)@ == old(self)@.leave(1),
            final(self).wf(),
    {
        self.leave_scopes(1);
    }

    /// Pops the `n` innermost frames, but never the globals frame.
    fn leave_scopes(&mut self, n: usize)
        requires
            old(self).wf(),
        ensures
            final(self)@ == old(self)@.leave(n as int),
            final(self).wf(),
    {
        let len = self.frames.len();
        if n >= len - 1 {
            self.frames.truncate(1);
        } else {
            self.frames.truncate(len - n);
        }
        assert(self@.frames =~= old(self)@.leave(n as int).frames);
    }

    /// Pushes an operand.
    fn push(&mut self, x: i32)
        ensures
            final(self)@ == old(self)@.push(x),
    {
        self.stack.push(x);
    }

    /// Pops an operand.
    fn pop(&mut self) -> (x: i32)
        requires
            old(self)@.stack.len() >= 1,
        ensures
            x == old(self)@.top(0),
            final(self)@ == old(self)@.pop_n(1),
    {
        let x = self.stack.pop().unwrap();
        assert(self@.stack =~= old(self)@.pop_n(1).stack);
        x
    }

    /// The fault `fault`, met at the instruction the machine stands at.
    fn fault(&self, fault: Fault) -> (e: Error)
        ensures
            e == Error::VMError(fault, self@.pc),
    {
        Error::VMError(fault, self.pc)
    }

    /// Puts `v` into slot `slot` of frame `index`, growing the frame with zeros.
    fn store(&mut self, index: usize, slot: usize, v: i32)
        requires
            index < old(self)@.frames.len(),
            slot < usize::MAX,
        ensures
            final(self)@ == old(self)@.store(index as int, slot, v),
    {
        let ghost before = self.frames@[index as int]@;
        let frame = &mut self.frames[index];
        while frame.len() <= slot
            invariant
                slot < usize::MAX,
                before.len() <= frame.len(),
                frame.len() <= slot + 1 || frame.len() == before.len(),
                frame@ =~= before + Seq::new((frame.len() - before.len()) as nat, |i: int| 0i32),
            decreases slot + 1 - frame.len(),
        {
            frame.push(0);
        }
        assert(frame@ =~= grown(before, (slot + 1) as nat));
        frame.set(slot, v);
        assert(self@.frames =~= old(self)@.store(index as int, slot, v).frames);
    }

    /// The value in slot `slot` of frame `index`, if there is such a slot.
    fn load(&self, index: usize, slot: usize) -> (r: Option<i32>)
        requires
            index < self@.frames.len(),
        ensures
            r == if slot < self@.frames[index as int].len() {
                Some(self@.frames[index as int][slot as int])
            } else {
                None
            },
    {
        if slot < self.frames[index].len() {
            Some(self.frames[index][slot])
        } else {
            None
        }
    }

    /// Applies the binary operator `op` to the two topmost operands: pops the
    /// right one, then the left one, and pushes the result.
    ///
    /// Fails, and leaves the machine as it is, when fewer than two operands
    /// are there, when `op` divides by zero, and when `op` is no binary operator.
    fn binop(&mut self, op: OpCode) -> (r: Result<(), Error>)
        ensures
            match old(self)@.binop(op) {
                Ok(m) => r is Ok && final(self)@ == m,
                Err(fault) => r == Err::<(), Error>(Error::VMError(fault, old(self)@.pc))
                    && final(self)@ == old(self)@,
            },
    {
        let n = self.stack.len();
        if n < 2 {
            return Err(self.fault(Fault::StackUnderflow));
        }
        let v2 = self.stack[n - 1];
        let v1 = self.stack[n - 2];
        let v = match op {
            OpCode::BinOpAdd => v1.wrapping_add(v2),
            OpCode::BinOpSub => v1.wrapping_sub(v2),
            OpCode::BinOpMul => v1.wrapping_mul(v2),
            OpCode::BinOpDiv => {
                if v2 == 0 {
                    return Err(self.fault(Fault::DivisionByZero));
                }
                divide(v1, v2)
            },
            OpCode::BinOpGt => if v1 > v2 {
                1
            } else {
                0
            },
            OpCode::BinOpGe => if v1 >= v2 {
                1
            } else {
                0
            },
            OpCode::BinOpLt => if v1 < v2 {
                1
            } else {
                0
            },
            OpCode::BinOpLe => if v1 <= v2 {
                1
            } else {
                0
            },
            OpCode::BinOpEq => if v1 == v2 {
                1
            } else {
                0
            },
            OpCode::BinOpNe => if v1 != v2 {
                1
            } else {
                0
            },
            OpCode::BinOpOr => if v1 != 0 || v2 != 0 {
                1
            } else {
                0
            },
            OpCode::BinOpAnd => if v1 == 0 || v2 == 0 {
                0
            } else {
                1
            },
            _ => {
                return Err(self.fault(Fault::IllegalInstruction));
            },
        };
        self.pop();
        self.pop();
        self.push(v);
        assert(self@.stack =~= old(self)@.pop_n(2).push(v).stack);
        Ok(())
    }

    /// Moves the topmost `argc` operands into a new frame, the top to slot 0.
    fn take_arguments(&mut self, argc: usize)
        requires
            old(self)@.stack.len() >= argc,
        ensures
            final(self)@ == old(self)@.pop_n(argc as int).enter(old(self)@.arguments(argc)),
    {
        let mut frame: Vec<i32> = Vec::new();
        let mut i: usize = 0;
        assert(self@.stack =~= old(self)@.pop_n(0).stack);
        while i < argc
            invariant
                i <= argc,
                old(self)@.stack.len() >= argc,
                self@ == old(self)@.pop_n(i as int),
                frame@ =~= old(self)@.arguments(i),
            decreases argc - i,
        {
            let v = self.pop();
            frame.push(v);
            i = i + 1;
            assert(self@.stack =~= old(self)@.pop_n(i as int).stack);
        }
        self.enter_frame(frame);
    }

    /// Executes one instruction.
    ///
    /// A machine whose program counter is past the last instruction halts.
    /// One that stands at `GetInt` asks for input and does not move: hand the
    /// integer to `receive`. On a fault the machine stays as it is, and the
    /// error names the fault and the address of the instruction.
    pub fn step(&mut self) -> (r: Result<Action, Error>)
        requires
            old(self).wf(),
        ensures
            final(self).wf(),
            match old(self)@.step() {
                Ok((m, action)) => r == Ok::<Action, Error>(action) && final(self)@ == m,
                Err(fault) => r == Err::<Action, Error>(Error::VMError(fault, old(self)@.pc))
                    && final(self)@ == old(self)@,
            },
    {
        if self.pc >= self.code.len() {
            return Ok(Action::Halt);
        }
        let op = self.code[self.pc];
        let next = self.pc + 1;
        let depth = self.frames.len();
        let operands = self.stack.len();
        match op {
            OpCode::LoadConst(v) => {
                self.push(v);
            },
            OpCode::LoadTrue => {
                self.push(1);
            },
            OpCode::LoadFalse => {
                self.push(0);
            },
            OpCode::LoadNull => {
                self.push(0);
            },
            OpCode::LoadGlobal(pos) => {
                match self.load(0, pos) {
                    Some(v) => self.push(v),
                    None => {
                        return Err(self.fault(Fault::BadReference));
                    },
                }
            },
            OpCode::StoreGlobal(pos) => {
                if operands < 1 {
                    return Err(self.fault(Fault::StackUnderflow));
                }
                if pos == usize::MAX {
                    return Err(self.fault(Fault::BadReference));
                }
                let v = self.pop();
                self.store(0, pos, v);
            },
            OpCode::BinOpAdd
            | OpCode::BinOpSub
            | OpCode::BinOpMul
            | OpCode::BinOpDiv
            | OpCode::BinOpGt
            | OpCode::BinOpGe
            | OpCode::BinOpLt
            | OpCode::BinOpLe
            | OpCode::BinOpEq
            | OpCode::BinOpNe
            | OpCode::BinOpOr
            | OpCode::BinOpAnd => {
                match self.binop(op) {
                    Ok(()) => {},
                    Err(e) => {
                        return Err(e);
                    },
                }
            },
            OpCode::Jmp(target) => {
                if target > self.code.len() {
                    return Err(self.fault(Fault::JumpOutOfRange));
                }
                self.pc = target;
                return Ok(Action::Continue);
            },
            OpCode::JmpTrue(target) => {
                if operands < 1 {
                    return Err(self.fault(Fault::StackUnderflow));
                }
                if self.stack[operands - 1] == 1 {
                    if target > self.code.len() {
                        return Err(self.fault(Fault::JumpOutOfRange));
                    }
                    self.pop();
                    self.pc = target;
                    return Ok(Action::Continue);
                }
                self.pop();
            },
            OpCode::JmpFalse(target) => {
                if operands < 1 {
                    return Err(self.fault(Fault::StackUnderflow));
                }
                if self.stack[operands - 1] != 1 {
                    if target > self.code.len() {
                        return Err(self.fault(Fault::JumpOutOfRange));
                    }
                    self.pop();
                    self.pc = target;
                    return Ok(Action::Continue);
                }
                self.pop();
            },
            OpCode::PrintItem => {
                if operands < 1 {
                    return Err(self.fault(Fault::StackUnderflow));
                }
                let c = self.pop();
                self.pc = next;
                return Ok(Action::Print(c));
            },
            OpCode::PrintNewline => {
                self.pc = next;
                return Ok(Action::Newline);
            },
            OpCode::GetInt => {
                return Ok(Action::Input);
            },
            OpCode::Pop => {
                if operands < 1 {
                    return Err(self.fault(Fault::StackUnderflow));
                }
                self.pop();
            },
            OpCode::UniOpNot => {
                if operands < 1 {
                    return Err(self.fault(Fault::StackUnderflow));
                }
                let v = self.pop();
                proof {
                    lemma_complement(v);
                }
                self.push(!v);
            },
            OpCode::UniOpNeg => {
                if operands < 1 {
                    return Err(self.fault(Fault::StackUnderflow));
                }
                let v = self.pop();
                self.push(0i32.wrapping_sub(v));
            },
            OpCode::StoreVar(scope_i, pos) => {
                if operands < 1 {
                    return Err(self.fault(Fault::StackUnderflow));
                }
                if scope_i >= depth || pos == usize::MAX {
                    return Err(self.fault(Fault::BadReference));
                }
                let v = self.pop();
                self.store(depth - scope_i - 1, pos, v);
            },
            OpCode::LoadVar(scope_i, pos) => {
                if scope_i >= depth {
                    return Err(self.fault(Fault::BadReference));
                }
                match self.load(depth - scope_i - 1, pos) {
                    Some(v) => self.push(v),
                    None => {
                        return Err(self.fault(Fault::BadReference));
                    },
                }
            },
            OpCode::EnterScope(_) => {
                self.enter_scope(0);
                self.del_addone();
                assert(Seq::new(0nat, |i: int| 0i32) =~= Seq::<i32>::empty());
            },
            OpCode::LeaveScope => {
                self.leave_scope();
            },
            OpCode::MakeClosure => {
                return Err(self.fault(Fault::IllegalInstruction));
            },
            OpCode::Call(target, args_count) => {
                if operands < args_count {
                    return Err(self.fault(Fault::StackUnderflow));
                }
                if target > self.code.len() {
                    return Err(self.fault(Fault::JumpOutOfRange));
                }
                self.take_arguments(args_count);
                self.pc_stack.push((0, next));
                self.pc = target;
                return Ok(Action::Continue);
            },
            OpCode::Ret => {
                if self.pc_stack.len() == 0 {
                    return Err(self.fault(Fault::ReturnWithoutCall));
                }
                let (dep, pc) = self.pc_stack.pop().unwrap();
                self.leave_scope();
                self.leave_scopes(dep);
                self.pc = pc;
                return Ok(Action::Continue);
            },
            OpCode::StorePC => {
                self.pc_stack.push((0, next));
            },
            OpCode::LoadPC => {
                if self.pc_stack.len() == 0 {
                    return Err(self.fault(Fault::ReturnWithoutCall));
                }
                let (dep, pc) = self.pc_stack.pop().unwrap();
                self.leave_scopes(dep);
                self.pc = pc;
                return Ok(Action::Continue);
            },
        }
        self.pc = next;
        Ok(Action::Continue)
    }

    /// Whether the machine stands at `GetInt`.
    pub fn awaits_input(&self) -> (b: bool)
        ensures
            b == self@.awaits_input(),
    {
        if self.pc < self.code.len() {
            match self.code[self.pc] {
                OpCode::GetInt => true,
                _ => false,
            }
        } else {
            false
        }
    }

    /// Hands the machine the integer it asked for, or `None` where what was
    /// read is no integer.
    ///
    /// A machine that stands at `GetInt` pushes the integer, moves on and
    /// answers `true`; with `None` it fails and stays as it is. A machine that
    /// stands elsewhere ignores the value and answers `false`.
    pub fn receive(&mut self, value: Option<i32>) -> (r: Result<bool, Error>)
        ensures
            old(self).wf() ==> final(self).wf(),
            match old(self)@.receive(value) {
                Ok(m) => r == Ok::<bool, Error>(old(self)@.awaits_input()) && final(self)@ == m,
                Err(fault) => r == Err::<bool, Error>(Error::VMError(fault, old(self)@.pc))
                    && final(self)@ == old(self)@,
            },
    {
        if !self.awaits_input() {
            return Ok(false);
        }
        let len = self.code.len();
        assert(self.pc < len);
        match value {
            Some(v) => {
                self.push(v);
                self.pc = self.pc + 1;
                Ok(true)
            },
            None => Err(self.fault(Fault::MalformedInput)),
        }
    }

    /// Hands the machine a line of input: see `receive`, which gets the
    /// integer that the line holds, or `None` where it holds none.
    pub fn feed(&mut self, line: &Vec<u8>) -> (r: Result<bool, Error>)
        ensures
            old(self).wf() ==> final(self).wf(),
            match old(self)@.receive(line_int(line@)) {
                Ok(m) => r == Ok::<bool, Error>(old(self)@.awaits_input()) && final(self)@ == m,
                Err(fault) => r == Err::<bool, Error>(Error::VMError(fault, old(self)@.pc))
                    && final(self)@ == old(self)@,
            },
    {
        self.receive(parse_int(line))
    }

    /// Runs the program for at most `limit` steps, with the integers of
    /// `input` for `GetInt`, and collects what it writes.
    ///
    /// Returns what was written and why the run ended: the machine halted,
    /// stands at `GetInt` with the input used up, or has taken `limit` steps;
    /// or the fault, with the address of the instruction.
    pub fn run(&mut self, input: &Vec<i32>, limit: usize) -> (r: (Vec<Output>, Result<Stop, Error>))
        requires
            old(self).wf(),
        ensures
            final(self).wf(),
            ({
                let end = old(self)@.run(input@, limit as nat);
                &&& final(self)@ == end.machine
                &&& r.0@ == end.output
                &&& r.1 == match end.stop {
                    Ok(stop) => Ok::<Stop, Error>(stop),
                    Err(fault) => Err(Error::VMError(fault, end.machine.pc)),
                }
            }),
    {
        let mut out: Vec<Output> = Vec::new();
        let mut used: usize = 0;
        let mut steps: usize = 0;
        assert(input@.skip(0) =~= input@);
        while steps < limit
            invariant
                self.wf(),
                used <= input.len(),
                steps <= limit,
                old(self)@.run(input@, limit as nat) == self@.run_from(
                    input@.skip(used as int),
                    (limit - steps) as nat,
                    out@,
                ),
            decreases limit - steps,
        {
            let ghost written = out@;
            let ghost rest = input@.skip(used as int);
            match self.step() {
                Err(e) => {
                    return (out, Err(e));
                },
                Ok(Action::Halt) => {
                    return (out, Ok(Stop::Halted));
                },
                Ok(Action::Input) => {
                    if used >= input.len() {
                        return (out, Ok(Stop::Starved));
                    }
                    let fed = self.receive(Some(input[used]));
                    used = used + 1;
                    proof {
                        assert(rest.drop_first() =~= input@.skip(used as int));
                        assert(out@ + Seq::<Output>::empty() =~= out@);
                    }
                },
                Ok(Action::Print(v)) => {
                    out.push(Output::Item(v));
                    proof {
                        assert(written + seq![Output::Item(v)] =~= out@);
                    }
                },
                Ok(Action::Newline) => {
                    out.push(Output::Newline);
                    proof {
                        assert(written + seq![Output::Newline] =~= out@);
                    }
                },
                Ok(Action::Continue) => {
                    proof {
                        assert(out@ + Seq::<Output>::empty() =~= out@);
                    }
                },
            }
            steps = steps + 1;
        }
        (out, Ok(Stop::Exhausted))
    }
}

} // verus!
