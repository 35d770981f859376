//! The machine read as nested calls, and the proof that its steps compute
//! that reading.
//!
//! In the nested reading an instruction that yields to the scheduler runs the
//! whole resumption before it returns: the scheduler takes the earliest
//! event, runs the instructions from `begin` up to the resumed one in a loop
//! (each followed by a move to the next position), and then completes the
//! resumed instruction. The instructions in that loop may yield in turn. The
//! reading is defined by recursion on an amount of effort, since nothing
//! bounds a program.

use vstd::prelude::*;
use crate::error::VmError;
use crate::machine::{Outcome, VmState};
use crate::program::{Instruction, TraceEvent};
use crate::values::GpssValue;

verus! {

/// What the nested reading gives.
#[verifier::ext_equal]
pub struct Nested {
    pub state: VmState,
    pub failure: Option<VmError>,
    /// How many numbers were used, counted from the start of the supply.
    pub at: nat,
    /// Whether the effort allowed was enough.
    pub complete: bool,
}

/// The number at a place in the supply; 0 beyond its end.
pub open spec fn number_at(numbers: Seq<i32>, at: nat) -> i32 {
    if at < numbers.len() {
        numbers[at as int]
    } else {
        0
    }
}

/// The reading ended with this outcome.
pub open spec fn settled(outcome: Outcome, at: nat) -> Nested {
    Nested { state: outcome.state, failure: outcome.failure, at, complete: true }
}

/// The effort did not suffice.
pub open spec fn exhausted(state: VmState, at: nat) -> Nested {
    Nested { state, failure: None, at, complete: false }
}

/// The instruction at the current position, with everything it leads to.
pub open spec fn nested_instruction(s: VmState, effort: nat, numbers: Seq<i32>, at: nat) -> Nested
    decreases effort,
{
    if effort == 0 {
        exhausted(s, at)
    } else if s.pc >= s.code.len() {
        settled(s.failed(VmError::MalformedResumption), at)
    } else {
        match s.code[s.pc as int] {
            Instruction::Generate(_) => {
                let (p, time) = s.stack_pop_time();
                match time {
                    Err(e) => settled(p.failed(e), at),
                    Ok(t) => if p.clock + t > u64::MAX {
                        settled(p.failed(VmError::InvalidTime), at)
                    } else {
                        let wake = (p.clock + t) as u64;
                        nested_closest(
                            p.traced(TraceEvent::WakeTimeGenerate(wake)).scheduled(p.pc, wake, None),
                            (effort - 1) as nat,
                            numbers,
                            at,
                        )
                    },
                }
            },
            Instruction::Advance(_) => {
                let (p, time) = s.stack_pop_time();
                match time {
                    Err(e) => settled(p.failed(e), at),
                    Ok(t) => if p.clock + t > u64::MAX {
                        settled(p.failed(VmError::InvalidTime), at)
                    } else {
                        let wake = (p.clock + t) as u64;
                        nested_closest(
                            p.traced(TraceEvent::WakeTimeAdvance(wake)).scheduled(
                                p.pc,
                                wake,
                                p.transact,
                            ),
                            (effort - 1) as nat,
                            numbers,
                            at,
                        )
                    },
                }
            },
            Instruction::Terminate(_) => {
                let (p, value) = s.stack_pop();
                match value {
                    Ok(GpssValue::UnsignedInteger(count)) => {
                        let q = p.traced(TraceEvent::Terminate(count));
                        if count > q.starts {
                            settled(q.failed(VmError::StartUnderflow), at)
                        } else {
                            let t = VmState { starts: (q.starts - count) as u32, transact: None, ..q };
                            if t.events.len() > 0 && t.starts > 0 {
                                nested_closest(t, (effort - 1) as nat, numbers, at)
                            } else {
                                settled(t.traced(TraceEvent::Stop).next(), at)
                            }
                        }
                    },
                    Ok(_) => settled(p.failed(VmError::TypeMismatch), at),
                    Err(e) => settled(p.failed(e), at),
                }
            },
            Instruction::Print(address) => settled(s.print(address), at),
            Instruction::PrintClock => settled(s.print_clock(), at),
            Instruction::Transfer(target) => settled(s.transfer(target), at),
            Instruction::TestVar(else_goto) => {
                let (p, value) = s.stack_pop();
                match value {
                    Ok(GpssValue::Boolean(condition)) => settled(p.test_var(else_goto, condition), at),
                    Ok(_) => settled(p.failed(VmError::TypeMismatch), at),
                    Err(e) => settled(p.failed(e), at),
                }
            },
            Instruction::SaveValue(address) => {
                let (p, value) = s.stack_pop();
                match value {
                    Ok(v) => settled(p.save_value(address, v), at),
                    Err(e) => settled(p.failed(e), at),
                }
            },
            Instruction::Push(address) => settled(s.push(address), at),
        }
    }
}

/// The scheduler's turn: with nothing pending, nothing happens. Otherwise
/// the earliest event is taken, the instructions that prepare the operand of
/// its instruction run in a loop, and the instruction is completed; where
/// that is a `Generate`, the next number of the supply is used.
pub open spec fn nested_closest(s: VmState, effort: nat, numbers: Seq<i32>, at: nat) -> Nested
    decreases effort,
{
    if effort == 0 {
        exhausted(s, at)
    } else if s.events.len() == 0 {
        settled(s.done(), at)
    } else {
        let woken = s.perform_closest();
        if woken.failure.is_some() {
            settled(woken, at)
        } else {
            let end = woken.state.resuming.last();
            let prepared = nested_loop(woken.state, end, (effort - 1) as nat, numbers, at);
            if !prepared.complete || prepared.failure.is_some() {
                prepared
            } else {
                settled(
                    prepared.state.completion(number_at(numbers, prepared.at)),
                    if prepared.state.code[end as int] is Generate {
                        prepared.at + 1
                    } else {
                        prepared.at
                    },
                )
            }
        }
    }
}

/// The loop over the instructions that prepare an operand: while the
/// position is before `end`, the instruction there runs and the position
/// moves on by one.
pub open spec fn nested_loop(s: VmState, end: u32, effort: nat, numbers: Seq<i32>, at: nat) -> Nested
    decreases effort,
{
    if effort == 0 {
        exhausted(s, at)
    } else if s.pc >= end {
        settled(s.done(), at)
    } else {
        let ran = nested_instruction(s, (effort - 1) as nat, numbers, at);
        if !ran.complete || ran.failure.is_some() {
            ran
        } else {
            let moved = ran.state.next();
            if moved.failure.is_some() {
                settled(moved, ran.at)
            } else {
                nested_loop(moved.state, end, (effort - 1) as nat, numbers, ran.at)
            }
        }
    }
}

/// The main loop: while entities are left to start and the position is
/// inside the program, the instruction there runs.
pub open spec fn nested_process(s: VmState, effort: nat, numbers: Seq<i32>, at: nat) -> Nested
    decreases effort,
{
    if !s.can_run() {
        settled(s.done(), at)
    } else if effort == 0 {
        exhausted(s, at)
    } else {
        let ran = nested_instruction(s, (effort - 1) as nat, numbers, at);
        if !ran.complete || ran.failure.is_some() {
            ran
        } else {
            nested_process(ran.state, (effort - 1) as nat, numbers, ran.at)
        }
    }
}

impl Outcome {
    /// The run that goes on from this outcome, unless it is a failure.
    pub open spec fn then_run(self, numbers: Seq<i32>) -> Outcome {
        if self.failure.is_some() {
            self
        } else {
            self.state.run(numbers)
        }
    }
}

impl Nested {
    /// The state and the failure of the reading.
    pub open spec fn outcome(self) -> Outcome {
        Outcome { state: self.state, failure: self.failure }
    }
}

/// A run of two parts is the run of the second part from where the first
/// ended.
pub proof fn lemma_run_append(s: VmState, first: Seq<i32>, second: Seq<i32>)
    ensures
        s.run(first + second) == s.run(first).then_run(second),
    decreases second.len(),
{
    if second.len() == 0 {
        assert(first + second =~= first);
    } else {
        assert((first + second).drop_last() =~= first + second.drop_last());
        assert((first + second).last() == second.last());
        lemma_run_append(s, first, second.drop_last());
    }
}

/// A run begins with a step.
pub proof fn lemma_run_first(s: VmState, number: i32, rest: Seq<i32>)
    ensures
        s.run(seq![number] + rest) == s.step(number).then_run(rest),
{
    lemma_run_append(s, seq![number], rest);
    assert(seq![number].drop_last() =~= Seq::<i32>::empty());
    assert(s.run(seq![number].drop_last()) == s.done());
}

/// The steps of the machine compute what an instruction does in the nested
/// reading: after the step of the instruction, some further steps reach the
/// state in which the instruction returns.
pub proof fn lemma_instruction(t: VmState, effort: nat, numbers: Seq<i32>, at: nat) -> (steps: Seq<
    i32,
>)
    requires
        nested_instruction(t, effort, numbers, at).complete,
    ensures
        t.process_instruction().then_run(steps) == nested_instruction(
            t,
            effort,
            numbers,
            at,
        ).outcome().then_returned(),
        nested_instruction(t, effort, numbers, at).failure.is_none() ==> nested_instruction(
            t,
            effort,
            numbers,
            at,
        ).state.resuming == t.resuming,
    decreases effort,
{
    let none = Seq::<i32>::empty();
    if t.pc >= t.code.len() {
        none
    } else {
        match t.code[t.pc as int] {
            Instruction::Generate(_) => {
                let (p, time) = t.stack_pop_time();
                match time {
                    Err(e) => none,
                    Ok(d) => if p.clock + d > u64::MAX {
                        none
                    } else {
                        let wake = (p.clock + d) as u64;
                        lemma_closest(
                            p.traced(TraceEvent::WakeTimeGenerate(wake)).scheduled(p.pc, wake, None),
                            (effort - 1) as nat,
                            numbers,
                            at,
                        )
                    },
                }
            },
            Instruction::Advance(_) => {
                let (p, time) = t.stack_pop_time();
                match time {
                    Err(e) => none,
                    Ok(d) => if p.clock + d > u64::MAX {
                        none
                    } else {
                        let wake = (p.clock + d) as u64;
                        lemma_closest(
                            p.traced(TraceEvent::WakeTimeAdvance(wake)).scheduled(
                                p.pc,
                                wake,
                                p.transact,
                            ),
                            (effort - 1) as nat,
                            numbers,
                            at,
                        )
                    },
                }
            },
            Instruction::Terminate(_) => {
                let (p, value) = t.stack_pop();
                match value {
                    Ok(GpssValue::UnsignedInteger(count)) => {
                        let q = p.traced(TraceEvent::Terminate(count));
                        if count > q.starts {
                            none
                        } else {
                            let r = VmState { starts: (q.starts - count) as u32, transact: None, ..q };
                            if r.events.len() > 0 && r.starts > 0 {
                                lemma_closest(r, (effort - 1) as nat, numbers, at)
                            } else {
                                none
                            }
                        }
                    },
                    _ => none,
                }
            },
            _ => none,
        }
    }
}

/// The steps of the machine compute the scheduler's turn of the nested
/// reading.
pub proof fn lemma_closest(q: VmState, effort: nat, numbers: Seq<i32>, at: nat) -> (steps: Seq<i32>)
    requires
        nested_closest(q, effort, numbers, at).complete,
    ensures
        q.perform_closest().then_run(steps) == nested_closest(
            q,
            effort,
            numbers,
            at,
        ).outcome().then_returned(),
        nested_closest(q, effort, numbers, at).failure.is_none() ==> nested_closest(
            q,
            effort,
            numbers,
            at,
        ).state.resuming == q.resuming,
    decreases effort,
{
    let none = Seq::<i32>::empty();
    if q.events.len() == 0 {
        none
    } else {
        let woken = q.perform_closest();
        if woken.failure.is_some() {
            none
        } else {
            let end = woken.state.resuming.last();
            assert(woken.state.resuming == q.resuming.push(end));
            let prepared = nested_loop(woken.state, end, (effort - 1) as nat, numbers, at);
            let first = lemma_loop(woken.state, end, (effort - 1) as nat, numbers, at);
            if prepared.failure.is_some() {
                first
            } else {
                let number = number_at(numbers, prepared.at);
                let steps = first.push(number);
                assert(steps.drop_last() =~= first);
                assert(prepared.state.step(number) == prepared.state.finish_resumption(number));
                assert(prepared.state.resuming.drop_last() =~= q.resuming);
                steps
            }
        }
    }
}

/// The steps of the machine compute the loop of the nested reading.
pub proof fn lemma_loop(u: VmState, end: u32, effort: nat, numbers: Seq<i32>, at: nat) -> (steps:
    Seq<i32>)
    requires
        nested_loop(u, end, effort, numbers, at).complete,
        u.resuming.len() > 0,
        u.resuming.last() == end,
    ensures
        u.run(steps) == nested_loop(u, end, effort, numbers, at).outcome(),
        nested_loop(u, end, effort, numbers, at).failure.is_none() ==> nested_loop(
            u,
            end,
            effort,
            numbers,
            at,
        ).state.resuming == u.resuming && nested_loop(u, end, effort, numbers, at).state.pc >= end,
    decreases effort,
{
    let none = Seq::<i32>::empty();
    if u.pc >= end {
        none
    } else {
        let ran = nested_instruction(u, (effort - 1) as nat, numbers, at);
        let inner = lemma_instruction(u, (effort - 1) as nat, numbers, at);
        let first = seq![0i32] + inner;
        lemma_run_first(u, 0, inner);
        assert(u.step(0) == u.process_instruction());
        if ran.failure.is_some() {
            first
        } else {
            let moved = ran.state.next();
            assert(ran.outcome().then_returned() == moved);
            if moved.failure.is_some() {
                first
            } else {
                let rest = lemma_loop(moved.state, end, (effort - 1) as nat, numbers, ran.at);
                lemma_run_append(u, first, rest);
                first + rest
            }
        }
    }
}

/// The steps of the machine compute the main loop of the nested reading:
/// whenever that reading comes to an end, some run of the machine ends in
/// the same state, with the same failure if there is one, and halted if
/// there is none.
pub proof fn lemma_process(s: VmState, effort: nat, numbers: Seq<i32>, at: nat) -> (steps: Seq<i32>)
    requires
        s.resuming.len() == 0,
        nested_process(s, effort, numbers, at).complete,
    ensures
        s.run(steps) == nested_process(s, effort, numbers, at).outcome(),
        nested_process(s, effort, numbers, at).failure.is_none() ==> nested_process(
            s,
            effort,
            numbers,
            at,
        ).state.halted(),
    decreases effort,
{
    let none = Seq::<i32>::empty();
    if !s.can_run() {
        none
    } else {
        let ran = nested_instruction(s, (effort - 1) as nat, numbers, at);
        let inner = lemma_instruction(s, (effort - 1) as nat, numbers, at);
        let first = seq![0i32] + inner;
        lemma_run_first(s, 0, inner);
        assert(s.step(0) == s.process_instruction());
        if ran.failure.is_some() {
            first
        } else {
            let rest = lemma_process(ran.state, (effort - 1) as nat, numbers, ran.at);
            lemma_run_append(s, first, rest);
            first + rest
        }
    }
}

} // verus!
