//! The machine as a mathematical object: its state and what each instruction
//! and each resumption does to it.
//!
//! The machine moves in steps. A step runs one instruction or completes one
//! resumption. A resumption first runs again the instructions that prepare
//! the operand of the resumed instruction; while it does, the resumed
//! instruction's position stands in `resuming`, the innermost resumption
//! last. An instruction that yields to the scheduler has returned when the
//! resumption that it started is completed. [`crate::nested`] reads the same
//! machine as nested calls and proves that the steps compute that reading.

use vstd::prelude::*;
use crate::error::VmError;
use crate::float::{is_valid_time, seconds_as_millis};
use crate::program::{Instruction, OutputLine, TraceEvent};
use crate::scheduler::{
    arrival_position, lemma_arrival_position, lemma_arrival_position_bounds,
    lemma_stable_insert_ordered, stable_insert, time_ordered, Event,
};
use crate::values::{GpssValue, Transact};

verus! {

/// The state of a machine.
#[verifier::ext_equal]
pub struct VmState {
    pub code: Seq<Instruction>,
    pub pc: u32,
    pub transact: Option<Transact>,
    pub starts: u32,
    pub clock: u64,
    /// The pending events, in the order in which they will leave.
    pub events: Seq<Event>,
    pub memory: Seq<GpssValue>,
    pub stack: Seq<GpssValue>,
    /// The instructions whose resumption is under way, innermost last.
    pub resuming: Seq<u32>,
    pub output: Seq<OutputLine>,
    pub trace: Seq<TraceEvent>,
    pub tracing: bool,
    /// How many values were ever pushed on the stack.
    pub pushes: nat,
    /// How many values were ever popped off the stack.
    pub pops: nat,
}

/// The state that an operation leaves, and the failure that ended it, if any.
#[verifier::ext_equal]
pub struct Outcome {
    pub state: VmState,
    pub failure: Option<VmError>,
}

impl Outcome {
    /// The failure as the result of a call.
    pub open spec fn result(self) -> Result<(), VmError> {
        match self.failure {
            Some(e) => Err(e),
            None => Ok(()),
        }
    }

    /// What follows the return of an instruction, unless it failed.
    pub open spec fn then_returned(self) -> Outcome {
        if self.failure.is_some() {
            self
        } else {
            self.state.returned()
        }
    }
}

impl VmState {
    /// The operation ended well in this state.
    pub open spec fn done(self) -> Outcome {
        Outcome { state: self, failure: None }
    }

    /// The operation failed in this state.
    pub open spec fn failed(self, error: VmError) -> Outcome {
        Outcome { state: self, failure: Some(error) }
    }

    /// The state with a record added to the trace, where tracing is on.
    pub open spec fn traced(self, record: TraceEvent) -> VmState {
        if self.tracing {
            VmState { trace: self.trace.push(record), ..self }
        } else {
            self
        }
    }

    /// The state with a line added to the output.
    pub open spec fn printed(self, line: OutputLine) -> VmState {
        VmState { output: self.output.push(line), ..self }
    }

    /// The state with a value pushed on the stack.
    pub open spec fn pushed(self, value: GpssValue) -> VmState {
        VmState { stack: self.stack.push(value), pushes: self.pushes + 1, ..self }
    }

    /// The state with the top of a non-empty stack removed.
    pub open spec fn popped(self) -> VmState {
        VmState { stack: self.stack.drop_last(), pops: self.pops + 1, ..self }
    }

    /// The state with an event added to the pending ones.
    pub open spec fn scheduled(self, instruction_id: u32, wake_time: u64, transact: Option<Transact>) -> VmState {
        VmState {
            events: stable_insert(self.events, (Event { instruction_id, wake_time, transact })),
            ..self
        }
    }

    /// Pops a value: the state after, and the value or `StackUnderflow`.
    pub open spec fn stack_pop(self) -> (VmState, Result<GpssValue, VmError>) {
        if self.stack.len() == 0 {
            (self, Err(VmError::StackUnderflow))
        } else {
            (self.popped(), Ok(self.stack.last()))
        }
    }

    /// Pops a time in seconds: the state after, and the milliseconds, or why
    /// there are none. A value of the wrong tag or no valid time is popped
    /// all the same.
    pub open spec fn stack_pop_time(self) -> (VmState, Result<u64, VmError>) {
        if self.stack.len() == 0 {
            (self, Err(VmError::StackUnderflow))
        } else {
            match self.stack.last() {
                GpssValue::Float(bits) => if is_valid_time(bits) {
                    (self.popped(), Ok(seconds_as_millis(bits) as u64))
                } else {
                    (self.popped(), Err(VmError::InvalidTime))
                },
                _ => (self.popped(), Err(VmError::TypeMismatch)),
            }
        }
    }

    /// Moves to the next instruction. A position beyond `u32::MAX` is no
    /// place to resume.
    pub open spec fn next(self) -> Outcome {
        if self.pc == u32::MAX {
            self.failed(VmError::MalformedResumption)
        } else {
            VmState { pc: (self.pc + 1) as u32, ..self }.done()
        }
    }

    /// What follows the return of an instruction: inside a resumption the
    /// position moves on once more, as the loop over the prepared
    /// instructions does.
    pub open spec fn returned(self) -> Outcome {
        if self.resuming.len() == 0 {
            self.done()
        } else {
            self.next()
        }
    }

    /// `Push`: reads a cell and pushes its value.
    pub open spec fn push(self, address: usize) -> Outcome {
        if address >= self.memory.len() {
            self.failed(VmError::MemoryHole)
        } else {
            let value = self.memory[address as int];
            self.traced(TraceEvent::Push(value)).pushed(value).next()
        }
    }

    /// `SaveValue`, after its operand was popped: overwrites a cell, or adds
    /// the first free one.
    pub open spec fn save_value(self, address: usize, value: GpssValue) -> Outcome {
        let s = self.traced(TraceEvent::SavingValue { value, address });
        if address < s.memory.len() {
            VmState { memory: s.memory.update(address as int, value), ..s }.next()
        } else if address == s.memory.len() {
            VmState { memory: s.memory.push(value), ..s }.next()
        } else {
            s.failed(VmError::MemoryHole)
        }
    }

    /// `Print`: emits the value of a cell.
    pub open spec fn print(self, address: usize) -> Outcome {
        if address >= self.memory.len() {
            self.failed(VmError::MemoryHole)
        } else {
            self.printed(OutputLine::Value(self.memory[address as int])).next()
        }
    }

    /// `PrintClock`: emits the clock.
    pub open spec fn print_clock(self) -> Outcome {
        self.printed(OutputLine::Clock(self.clock)).next()
    }

    /// `Transfer`: jumps.
    pub open spec fn transfer(self, target: u32) -> Outcome {
        VmState { pc: target, ..self.traced(TraceEvent::Transfer { from: self.pc, to: target }) }.done()
    }

    /// `TestVar`, after its condition was popped.
    pub open spec fn test_var(self, else_goto: u32, condition: bool) -> Outcome {
        let s = self.traced(TraceEvent::Condition(condition));
        if condition {
            s.next()
        } else {
            VmState { pc: else_goto, ..s }.done()
        }
    }

    /// Starts the resumption of the instruction at `end`: the instructions
    /// from `start` up to it are to run first.
    pub open spec fn process_from_to(self, start: u32, end: u32) -> Outcome {
        VmState { pc: start, resuming: self.resuming.push(end), ..self }.done()
    }

    /// Takes the earliest event: the clock moves to it, its transact becomes
    /// the current one, and the resumption of its instruction starts. With
    /// nothing pending, the instruction that yielded just returns.
    pub open spec fn perform_closest(self) -> Outcome {
        if self.events.len() == 0 {
            self.returned()
        } else {
            let event = self.events[0];
            let s = VmState {
                events: self.events.drop_first(),
                clock: event.wake_time,
                transact: event.transact,
                ..self
            }.traced(TraceEvent::WokeUp(event.wake_time));
            if event.instruction_id >= s.code.len() {
                s.failed(VmError::MalformedResumption)
            } else {
                match s.code[event.instruction_id as int] {
                    Instruction::Generate(begin) => s.process_from_to(begin, event.instruction_id),
                    Instruction::Advance(begin) => s.process_from_to(begin, event.instruction_id),
                    _ => s.failed(VmError::MalformedResumption),
                }
            }
        }
    }

    /// `Generate`, after its time was popped: schedules the next arrival and
    /// yields to the scheduler.
    pub open spec fn generate(self, time: u64) -> Outcome {
        if self.clock + time > u64::MAX {
            self.failed(VmError::InvalidTime)
        } else {
            let wake = (self.clock + time) as u64;
            self.traced(TraceEvent::WakeTimeGenerate(wake)).scheduled(self.pc, wake, None).perform_closest()
        }
    }

    /// `Advance`, after its time was popped: parks the current transact and
    /// yields to the scheduler.
    pub open spec fn advance(self, time: u64) -> Outcome {
        if self.clock + time > u64::MAX {
            self.failed(VmError::InvalidTime)
        } else {
            let wake = (self.clock + time) as u64;
            self.traced(TraceEvent::WakeTimeAdvance(wake)).scheduled(
                self.pc,
                wake,
                self.transact,
            ).perform_closest()
        }
    }

    /// `Terminate`, after its count was popped: the current transact is
    /// destroyed; the scheduler goes on if it has anything left to do.
    pub open spec fn terminate(self, count: u32) -> Outcome {
        let s = self.traced(TraceEvent::Terminate(count));
        if count > s.starts {
            s.failed(VmError::StartUnderflow)
        } else {
            let t = VmState { starts: (s.starts - count) as u32, transact: None, ..s };
            if t.events.len() > 0 && t.starts > 0 {
                t.perform_closest()
            } else {
                t.traced(TraceEvent::Stop).next().then_returned()
            }
        }
    }

    /// Runs the instruction at the current position.
    pub open spec fn process_instruction(self) -> Outcome {
        if self.pc >= self.code.len() {
            self.failed(VmError::MalformedResumption)
        } else {
            match self.code[self.pc as int] {
                Instruction::Generate(_) => {
                    let (s, time) = self.stack_pop_time();
                    match time {
                        Ok(t) => s.generate(t),
                        Err(e) => s.failed(e),
                    }
                },
                Instruction::Advance(_) => {
                    let (s, time) = self.stack_pop_time();
                    match time {
                        Ok(t) => s.advance(t),
                        Err(e) => s.failed(e),
                    }
                },
                Instruction::Terminate(_) => {
                    let (s, value) = self.stack_pop();
                    match value {
                        Ok(GpssValue::UnsignedInteger(count)) => s.terminate(count),
                        Ok(_) => s.failed(VmError::TypeMismatch),
                        Err(e) => s.failed(e),
                    }
                },
                Instruction::Print(address) => self.print(address).then_returned(),
                Instruction::PrintClock => self.print_clock().then_returned(),
                Instruction::Transfer(target) => self.transfer(target).then_returned(),
                Instruction::TestVar(else_goto) => {
                    let (s, value) = self.stack_pop();
                    match value {
                        Ok(GpssValue::Boolean(condition)) => s.test_var(else_goto, condition).then_returned(),
                        Ok(_) => s.failed(VmError::TypeMismatch),
                        Err(e) => s.failed(e),
                    }
                },
                Instruction::SaveValue(address) => {
                    let (s, value) = self.stack_pop();
                    match value {
                        Ok(v) => s.save_value(address, v).then_returned(),
                        Err(e) => s.failed(e),
                    }
                },
                Instruction::Push(address) => self.push(address).then_returned(),
            }
        }
    }

    /// The completion of the innermost resumption, whose operand is prepared.
    /// A resumed `Generate` pops its time, creates the transact that arrives,
    /// with `number` as its first parameter, and schedules the arrival after
    /// it; a resumed `Advance` only goes on. Both continue behind the
    /// resumed instruction.
    pub open spec fn completion(self, number: i32) -> Outcome {
        if self.resuming.len() == 0 {
            self.done()
        } else {
            let id = self.resuming.last();
            let s = VmState { resuming: self.resuming.drop_last(), pc: id, ..self };
            if id >= s.code.len() {
                s.failed(VmError::MalformedResumption)
            } else {
                match s.code[id as int] {
                    Instruction::Generate(_) => {
                        let (p, time) = s.stack_pop_time();
                        match time {
                            Err(e) => p.failed(e),
                            Ok(t) => if p.clock + t > u64::MAX {
                                p.failed(VmError::InvalidTime)
                            } else {
                                VmState {
                                    transact: Some(Transact::generated_spec(number)),
                                    ..p.traced(TraceEvent::DoingGenerate)
                                }.scheduled(id, (p.clock + t) as u64, None).next()
                            },
                        }
                    },
                    Instruction::Advance(_) => s.traced(TraceEvent::DoingAdvance).next(),
                    _ => s.next(),
                }
            }
        }
    }

    /// Completes the innermost resumption and returns from the instruction
    /// that yielded to it.
    pub open spec fn finish_resumption(self, number: i32) -> Outcome {
        self.completion(number).then_returned()
    }

    /// The main loop goes on: entities are left to start and the position is
    /// inside the program.
    pub open spec fn can_run(self) -> bool {
        self.starts > 0 && self.pc < self.code.len()
    }

    /// Nothing is left to do: no resumption is under way and the main loop
    /// has ended.
    pub open spec fn halted(self) -> bool {
        self.resuming.len() == 0 && !self.can_run()
    }

    /// The next step completes a resumption.
    pub open spec fn finishes_next(self) -> bool {
        self.resuming.len() > 0 && self.pc >= self.resuming.last()
    }

    /// The next step completes the resumption of a `Generate`; only such a
    /// step uses its number.
    pub open spec fn draws_next(self) -> bool {
        &&& self.finishes_next()
        &&& self.resuming.last() < self.code.len()
        &&& self.code[self.resuming.last() as int] is Generate
    }

    /// One step: an instruction, or the completion of a resumption. A halted
    /// machine stays as it is.
    pub open spec fn step(self, number: i32) -> Outcome {
        if self.resuming.len() > 0 {
            if self.pc < self.resuming.last() {
                self.process_instruction()
            } else {
                self.finish_resumption(number)
            }
        } else if self.can_run() {
            self.process_instruction()
        } else {
            self.done()
        }
    }

    /// Step after step, one for each number, up to the first failure.
    pub open spec fn run(self, numbers: Seq<i32>) -> Outcome
        decreases numbers.len(),
    {
        if numbers.len() == 0 {
            self.done()
        } else {
            let before = self.run(numbers.drop_last());
            if before.failure.is_some() {
                before
            } else {
                before.state.step(numbers.last())
            }
        }
    }
}

impl VmState {
    /// What holds of every state that a machine reaches: the pending events
    /// stand in time order, none is due before the clock, and the stack holds
    /// what was pushed and not popped.
    pub open spec fn inv(self) -> bool {
        &&& time_ordered(self.events)
        &&& forall|i: int| 0 <= i < self.events.len() ==> (#[trigger] self.events[i]).wake_time >= self.clock
        &&& self.stack.len() + self.pops == self.pushes
    }

    /// This state may come after `earlier` in a run: the program is the same,
    /// the clock has not gone back, no entities to start were added, and the
    /// counts of pushes and pops have not gone down.
    pub open spec fn follows(self, earlier: VmState) -> bool {
        &&& self.code == earlier.code
        &&& self.clock >= earlier.clock
        &&& self.starts <= earlier.starts
        &&& self.pushes >= earlier.pushes
        &&& self.pops >= earlier.pops
    }

    /// Scheduling an event that is not due before the clock keeps the
    /// invariant.
    pub proof fn lemma_scheduled(self, instruction_id: u32, wake_time: u64, transact: Option<Transact>)
        requires
            self.inv(),
            wake_time >= self.clock,
        ensures
            self.scheduled(instruction_id, wake_time, transact).inv(),
    {
        let event = Event { instruction_id, wake_time, transact };
        lemma_stable_insert_ordered(self.events, event);
        lemma_arrival_position(self.events, wake_time);
        let at = arrival_position(self.events, wake_time);
        let after = stable_insert(self.events, event);
        assert forall|i: int| 0 <= i < after.len() implies (#[trigger] after[i]).wake_time
            >= self.clock by {
            if i < at {
                assert(after[i] == self.events[i]);
            } else if i > at {
                assert(after[i] == self.events[i - 1]);
            }
        }
    }

    /// An event that is taken from the queue is not due before the clock, and
    /// taking it keeps the invariant: the clock never goes back.
    pub proof fn lemma_perform_closest(self)
        requires
            self.inv(),
        ensures
            self.events.len() > 0 ==> self.events[0].wake_time >= self.clock,
            self.perform_closest().state.inv(),
            self.perform_closest().state.follows(self),
    {
        if self.events.len() > 0 {
            let rest = self.events.drop_first();
            assert forall|i: int| 0 <= i < rest.len() implies (#[trigger] rest[i]).wake_time
                >= self.events[0].wake_time by {
                assert(rest[i] == self.events[i + 1]);
            }
            assert forall|i: int, j: int| 0 <= i < j < rest.len() implies (#[trigger] rest[i]).wake_time
                <= (#[trigger] rest[j]).wake_time by {
                assert(rest[i] == self.events[i + 1]);
                assert(rest[j] == self.events[j + 1]);
            }
        }
    }

    /// `Generate` keeps the invariant.
    pub proof fn lemma_generate(self, time: u64)
        requires
            self.inv(),
        ensures
            self.generate(time).state.inv(),
            self.generate(time).state.follows(self),
    {
        if self.clock + time <= u64::MAX {
            let wake = (self.clock + time) as u64;
            let s = self.traced(TraceEvent::WakeTimeGenerate(wake));
            s.lemma_scheduled(self.pc, wake, None);
            s.scheduled(self.pc, wake, None).lemma_perform_closest();
        }
    }

    /// `Advance` keeps the invariant.
    pub proof fn lemma_advance(self, time: u64)
        requires
            self.inv(),
        ensures
            self.advance(time).state.inv(),
            self.advance(time).state.follows(self),
    {
        if self.clock + time <= u64::MAX {
            let wake = (self.clock + time) as u64;
            let s = self.traced(TraceEvent::WakeTimeAdvance(wake));
            s.lemma_scheduled(self.pc, wake, self.transact);
            s.scheduled(self.pc, wake, self.transact).lemma_perform_closest();
        }
    }

    /// `Terminate` keeps the invariant and never adds entities to start.
    pub proof fn lemma_terminate(self, count: u32)
        requires
            self.inv(),
        ensures
            self.terminate(count).state.inv(),
            self.terminate(count).state.follows(self),
    {
        let s = self.traced(TraceEvent::Terminate(count));
        if count <= s.starts {
            let t = VmState { starts: (s.starts - count) as u32, transact: None, ..s };
            t.lemma_perform_closest();
        }
    }

    /// An instruction keeps the invariant.
    pub proof fn lemma_process_instruction(self)
        requires
            self.inv(),
        ensures
            self.process_instruction().state.inv(),
            self.process_instruction().state.follows(self),
    {
        if self.pc < self.code.len() {
            match self.code[self.pc as int] {
                Instruction::Generate(_) => {
                    let (s, time) = self.stack_pop_time();
                    if let Ok(t) = time {
                        s.lemma_generate(t);
                    }
                },
                Instruction::Advance(_) => {
                    let (s, time) = self.stack_pop_time();
                    if let Ok(t) = time {
                        s.lemma_advance(t);
                    }
                },
                Instruction::Terminate(_) => {
                    let (s, value) = self.stack_pop();
                    if let Ok(GpssValue::UnsignedInteger(count)) = value {
                        s.lemma_terminate(count);
                    }
                },
                _ => {},
            }
        }
    }

    /// The completion of a resumption keeps the invariant.
    pub proof fn lemma_finish_resumption(self, number: i32)
        requires
            self.inv(),
        ensures
            self.finish_resumption(number).state.inv(),
            self.finish_resumption(number).state.follows(self),
    {
        if self.resuming.len() > 0 {
            let id = self.resuming.last();
            let s = VmState { resuming: self.resuming.drop_last(), pc: id, ..self };
            if id < s.code.len() {
                if let Instruction::Generate(_) = s.code[id as int] {
                    let (p, time) = s.stack_pop_time();
                    if let Ok(t) = time {
                        if p.clock + t <= u64::MAX {
                            let q = VmState {
                                transact: Some(Transact::generated_spec(number)),
                                ..p.traced(TraceEvent::DoingGenerate)
                            };
                            q.lemma_scheduled(id, (p.clock + t) as u64, None);
                        }
                    }
                }
            }
        }
    }

    /// In every step the invariant is kept, the clock does not go back, the
    /// entities left to start do not grow in number, and no more values have
    /// been popped than pushed.
    pub proof fn lemma_step(self, number: i32)
        requires
            self.inv(),
        ensures
            self.step(number).state.inv(),
            self.step(number).state.follows(self),
            self.step(number).state.pops <= self.step(number).state.pushes,
    {
        self.lemma_process_instruction();
        self.lemma_finish_resumption(number);
    }

    /// The same holds of a run of any length, and of every state on its way.
    pub proof fn lemma_run(self, numbers: Seq<i32>)
        requires
            self.inv(),
        ensures
            self.run(numbers).state.inv(),
            self.run(numbers).state.follows(self),
            self.run(numbers).state.pops <= self.run(numbers).state.pushes,
        decreases numbers.len(),
    {
        if numbers.len() > 0 {
            self.lemma_run(numbers.drop_last());
            let before = self.run(numbers.drop_last());
            if before.failure.is_none() {
                before.state.lemma_step(numbers.last());
            }
        }
    }

    /// The position holds a `Generate` or an `Advance`, the instructions that
    /// can be resumed.
    pub open spec fn yields_at(self, position: u32) -> bool {
        position < self.code.len() && (self.code[position as int] is Generate
            || self.code[position as int] is Advance)
    }

    /// Every pending event and every resumption under way belongs to a
    /// `Generate` or an `Advance` of the program.
    pub open spec fn resumable(self) -> bool {
        &&& forall|i: int|
            0 <= i < self.events.len() ==> self.yields_at((#[trigger] self.events[i]).instruction_id)
        &&& forall|i: int| 0 <= i < self.resuming.len() ==> self.yields_at(#[trigger] self.resuming[i])
    }

    /// Scheduling an event for a `Generate` or an `Advance` keeps the state
    /// resumable.
    pub proof fn lemma_scheduled_resumable(
        self,
        instruction_id: u32,
        wake_time: u64,
        transact: Option<Transact>,
    )
        requires
            self.resumable(),
            self.yields_at(instruction_id),
        ensures
            self.scheduled(instruction_id, wake_time, transact).resumable(),
    {
        let event = Event { instruction_id, wake_time, transact };
        lemma_arrival_position_bounds(self.events, wake_time);
        let at = arrival_position(self.events, wake_time);
        let after = stable_insert(self.events, event);
        assert forall|i: int| 0 <= i < after.len() implies self.yields_at(
            (#[trigger] after[i]).instruction_id,
        ) by {
            if i < at {
                assert(after[i] == self.events[i]);
            } else if i > at {
                assert(after[i] == self.events[i - 1]);
            }
        }
    }

    /// In a resumable state no event leads where nothing can be resumed:
    /// taking the earliest event does not fail, and the state stays
    /// resumable.
    pub proof fn lemma_perform_closest_resumable(self)
        requires
            self.resumable(),
            self.events.len() > 0,
        ensures
            self.perform_closest().failure.is_none(),
            self.perform_closest().state.resumable(),
    {
        let event = self.events[0];
        assert(self.yields_at(event.instruction_id));
        let rest = self.events.drop_first();
        assert forall|i: int| 0 <= i < rest.len() implies self.yields_at(
            (#[trigger] rest[i]).instruction_id,
        ) by {
            assert(rest[i] == self.events[i + 1]);
        }
        let after = self.perform_closest().state;
        assert forall|i: int| 0 <= i < after.resuming.len() implies after.yields_at(
            #[trigger] after.resuming[i],
        ) by {
            if i < self.resuming.len() {
                assert(after.resuming[i] == self.resuming[i]);
            }
        }
    }

    /// A machine keeps its state resumable: what it schedules belongs to the
    /// `Generate` or `Advance` that scheduled it.
    pub proof fn lemma_step_resumable(self, number: i32)
        requires
            self.resumable(),
        ensures
            self.step(number).state.resumable(),
    {
        if self.resuming.len() > 0 && self.pc >= self.resuming.last() {
            let id = self.resuming.last();
            assert(self.yields_at(id));
            let s = VmState { resuming: self.resuming.drop_last(), pc: id, ..self };
            assert forall|i: int| 0 <= i < s.resuming.len() implies s.yields_at(
                #[trigger] s.resuming[i],
            ) by {
                assert(s.resuming[i] == self.resuming[i]);
            }
            if let Instruction::Generate(_) = s.code[id as int] {
                let (p, time) = s.stack_pop_time();
                if let Ok(t) = time {
                    if p.clock + t <= u64::MAX {
                        let q = VmState {
                            transact: Some(Transact::generated_spec(number)),
                            ..p.traced(TraceEvent::DoingGenerate)
                        };
                        q.lemma_scheduled_resumable(id, (p.clock + t) as u64, None);
                    }
                }
            }
        } else if self.pc < self.code.len() {
            match self.code[self.pc as int] {
                Instruction::Generate(_) => {
                    let (p, time) = self.stack_pop_time();
                    if let Ok(t) = time {
                        if p.clock + t <= u64::MAX {
                            let wake = (p.clock + t) as u64;
                            let q = p.traced(TraceEvent::WakeTimeGenerate(wake));
                            q.lemma_scheduled_resumable(p.pc, wake, None);
                            lemma_arrival_position_bounds(q.events, wake);
                            q.scheduled(p.pc, wake, None).lemma_perform_closest_resumable();
                        }
                    }
                },
                Instruction::Advance(_) => {
                    let (p, time) = self.stack_pop_time();
                    if let Ok(t) = time {
                        if p.clock + t <= u64::MAX {
                            let wake = (p.clock + t) as u64;
                            let q = p.traced(TraceEvent::WakeTimeAdvance(wake));
                            q.lemma_scheduled_resumable(p.pc, wake, p.transact);
                            lemma_arrival_position_bounds(q.events, wake);
                            q.scheduled(p.pc, wake, p.transact).lemma_perform_closest_resumable();
                        }
                    }
                },
                Instruction::Terminate(_) => {
                    let (p, value) = self.stack_pop();
                    if let Ok(GpssValue::UnsignedInteger(count)) = value {
                        let q = p.traced(TraceEvent::Terminate(count));
                        if count <= q.starts {
                            let r = VmState { starts: (q.starts - count) as u32, transact: None, ..q };
                            if r.events.len() > 0 && r.starts > 0 {
                                r.lemma_perform_closest_resumable();
                            }
                        }
                    }
                },
                _ => {},
            }
        }
    }

    /// Every state of a run that starts resumable is resumable: no event of
    /// such a run leads where nothing can be resumed.
    pub proof fn lemma_run_resumable(self, numbers: Seq<i32>)
        requires
            self.resumable(),
        ensures
            self.run(numbers).state.resumable(),
        decreases numbers.len(),
    {
        if numbers.len() > 0 {
            self.lemma_run_resumable(numbers.drop_last());
            let before = self.run(numbers.drop_last());
            if before.failure.is_none() {
                before.state.lemma_step_resumable(numbers.last());
            }
        }
    }

    /// A run that has failed stays failed: more numbers change nothing.
    pub proof fn lemma_run_stops(self, numbers: Seq<i32>, k: int)
        requires
            0 <= k <= numbers.len(),
            self.run(numbers.take(k)).failure.is_some(),
        ensures
            self.run(numbers) == self.run(numbers.take(k)),
        decreases numbers.len() - k,
    {
        if k == numbers.len() {
            assert(numbers.take(k) =~= numbers);
        } else {
            assert(numbers.drop_last().take(k) =~= numbers.take(k));
            self.lemma_run_stops(numbers.drop_last(), k);
        }
    }

    /// A halted machine stays as it is, whatever the number.
    pub proof fn lemma_halted_stays(self, number: i32)
        requires
            self.halted(),
        ensures
            self.step(number) == self.done(),
    {
    }

    /// Only a step that completes the resumption of a `Generate` depends on
    /// its number.
    pub proof fn lemma_number_unused(self, first: i32, second: i32)
        requires
            !self.draws_next(),
        ensures
            self.step(first) == self.step(second),
    {
    }
}

/// The program that the example interpreter runs.
pub open spec fn example_code() -> Seq<Instruction> {
    seq![
        Instruction::Push(1),
        Instruction::SaveValue(0),
        Instruction::Push(0),
        Instruction::Generate(2),
        Instruction::Transfer(5),
        Instruction::Push(2),
        Instruction::Advance(5),
        Instruction::Push(4),
        Instruction::TestVar(10),
        Instruction::PrintClock,
        Instruction::Push(3),
        Instruction::Terminate(8),
        Instruction::Push(3),
        Instruction::Terminate(10),
    ]
}

/// The memory that the example interpreter starts with: the two numbers are
/// 0.01 and 0.02 in single precision.
pub open spec fn example_memory() -> Seq<GpssValue> {
    seq![
        GpssValue::UnsignedInteger(0),
        GpssValue::Float(0x3C23_D70A),
        GpssValue::Float(0x3CA3_D70A),
        GpssValue::UnsignedInteger(1),
        GpssValue::Boolean(false),
    ]
}

impl VmState {
    /// The state in which a machine starts.
    pub open spec fn initial(code: Seq<Instruction>, memory: Seq<GpssValue>, starts: u32) -> VmState {
        VmState {
            code,
            pc: 0,
            transact: None,
            starts,
            clock: 0,
            events: Seq::empty(),
            memory,
            stack: Seq::empty(),
            resuming: Seq::empty(),
            output: Seq::empty(),
            trace: Seq::empty(),
            tracing: true,
            pushes: 0,
            pops: 0,
        }
    }

    /// A machine starts in a state that satisfies the invariant and is
    /// resumable.
    pub proof fn lemma_initial(code: Seq<Instruction>, memory: Seq<GpssValue>, starts: u32)
        ensures
            VmState::initial(code, memory, starts).inv(),
            VmState::initial(code, memory, starts).resumable(),
    {
    }
}

} // verus!
