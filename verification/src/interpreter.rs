//! The interpreter: the machine of [`crate::machine`] on vectors and a heap.

use vstd::prelude::*;
use crate::error::VmError;
use crate::float::seconds_to_millis;
use crate::machine::{example_code, example_memory, VmState};
use crate::program::{Instruction, OutputLine, TraceEvent};
use crate::random::RandomSource;
use crate::scheduler::{Event, EventQueue};
use crate::values::{GpssValue, Transact};

verus! {

/// How many entities a simulation starts unless it is told otherwise.
pub const DEFAULT_STARTS: u32 = 15;

/// State of the interpreter.
pub struct Interpreter {
    /// The program.
    instructions: Vec<Instruction>,
    /// The position of the current instruction.
    current_instruction: u32,
    /// The transact that is active.
    current_transact: Option<Transact>,
    /// How many entities are left to start; the simulation stops at zero.
    start_entities: u32,
    /// The clock of the simulation, in milliseconds.
    current_time: u64,
    /// The pending events.
    events: EventQueue,
    /// The global memory.
    memory: Vec<GpssValue>,
    /// The operand stack.
    stack: Vec<GpssValue>,
    /// The instructions whose resumption is under way, innermost last.
    resuming: Vec<u32>,
    /// The lines emitted and not yet taken.
    output: Vec<OutputLine>,
    /// The trace records emitted and not yet taken.
    trace: Vec<TraceEvent>,
    /// Whether trace records are kept.
    tracing: bool,
    pushes: Ghost<nat>,
    pops: Ghost<nat>,
    random: RandomSource,
}

impl View for Interpreter {
    type V = VmState;

    closed spec fn view(&self) -> VmState {
        VmState {
            code: self.instructions@,
            pc: self.current_instruction,
            transact: self.current_transact,
            starts: self.start_entities,
            clock: self.current_time,
            events: self.events@,
            memory: self.memory@,
            stack: self.stack@,
            resuming: self.resuming@,
            output: self.output@,
            trace: self.trace@,
            tracing: self.tracing,
            pushes: self.pushes@,
            pops: self.pops@,
        }
    }
}

impl Interpreter {
    /// The queue is sound and the state is one that a machine can reach.
    pub closed spec fn wf(&self) -> bool {
        self.events.wf() && self@.inv()
    }

    /// A well-formed interpreter is in a state that satisfies the invariant
    /// of the machine.
    pub proof fn lemma_wf_inv(&self)
        requires
            self.wf(),
        ensures
            self@.inv(),
    {
    }

    fn log(&mut self, record: TraceEvent)
        ensures
            final(self)@ == old(self)@.traced(record),
            final(self).events == old(self).events,
    {
        if self.tracing {
            self.trace.push(record);
        }
    }

    fn next_instruction(&mut self) -> (r: Result<(), VmError>)
        ensures
            final(self)@ == old(self)@.next().state,
            r == old(self)@.next().result(),
            final(self).events == old(self).events,
    {
        if self.current_instruction == u32::MAX {
            Err(VmError::MalformedResumption)
        } else {
            self.current_instruction = self.current_instruction + 1;
            Ok(())
        }
    }

    fn returned(&mut self) -> (r: Result<(), VmError>)
        ensures
            final(self)@ == old(self)@.returned().state,
            r == old(self)@.returned().result(),
            final(self).events == old(self).events,
    {
        if self.resuming.len() == 0 {
            Ok(())
        } else {
            self.next_instruction()
        }
    }

    /// Pushes a value on the operand stack.
    pub fn push_value(&mut self, value: GpssValue)
        requires
            old(self).wf(),
        ensures
            final(self).wf(),
            final(self)@ == old(self)@.pushed(value),
    {
        self.stack.push(value);
        self.pushes = Ghost(self.pushes@ + 1);
    }

    /// Pops the top of the operand stack.
    pub fn stack_pop(&mut self) -> (r: Result<GpssValue, VmError>)
        requires
            old(self).wf(),
        ensures
            final(self).wf(),
            (final(self)@, r) == old(self)@.stack_pop(),
    {
        match self.stack.pop() {
            Some(value) => {
                self.pops = Ghost(self.pops@ + 1);
                Ok(value)
            },
            None => Err(VmError::StackUnderflow),
        }
    }

    /// Pops a time in seconds and gives it in milliseconds.
    pub fn stack_pop_time(&mut self) -> (r: Result<u64, VmError>)
        requires
            old(self).wf(),
        ensures
            final(self).wf(),
            (final(self)@, r) == old(self)@.stack_pop_time(),
    {
        match self.stack_pop() {
            Err(e) => Err(e),
            Ok(GpssValue::Float(bits)) => seconds_to_millis(bits),
            Ok(_) => Err(VmError::TypeMismatch),
        }
    }

    /// Reads a memory cell.
    pub fn mem_read(&self, address: usize) -> (r: Result<GpssValue, VmError>)
        ensures
            address < self@.memory.len() ==> r == Ok::<GpssValue, VmError>(
                self@.memory[address as int],
            ),
            address >= self@.memory.len() ==> r == Err::<GpssValue, VmError>(VmError::MemoryHole),
    {
        if address < self.memory.len() {
            Ok(self.memory[address])
        } else {
            Err(VmError::MemoryHole)
        }
    }

    /// Writes a memory cell: one that exists is overwritten, the first free
    /// one is added, and any beyond that is a hole.
    pub fn mem_write(&mut self, address: usize, value: GpssValue) -> (r: Result<(), VmError>)
        requires
            old(self).wf(),
        ensures
            final(self).wf(),
            address < old(self)@.memory.len() ==> r.is_ok() && final(self)@ == (VmState {
                memory: old(self)@.memory.update(address as int, value),
                ..old(self)@
            }),
            address == old(self)@.memory.len() ==> r.is_ok() && final(self)@ == (VmState {
                memory: old(self)@.memory.push(value),
                ..old(self)@
            }),
            address > old(self)@.memory.len() ==> r == Err::<(), VmError>(VmError::MemoryHole)
                && final(self)@ == old(self)@,
    {
        if address < self.memory.len() {
            self.memory.set(address, value);
            Ok(())
        } else if address == self.memory.len() {
            self.memory.push(value);
            Ok(())
        } else {
            Err(VmError::MemoryHole)
        }
    }

    /// `Push`: reads a cell and pushes its value.
    fn push(&mut self, var_id: usize) -> (r: Result<(), VmError>)
        requires
            old(self).wf(),
        ensures
            final(self).wf(),
            final(self)@ == old(self)@.push(var_id).state,
            r == old(self)@.push(var_id).result(),
    {
        let value = self.mem_read(var_id)?;
        self.log(TraceEvent::Push(value));
        self.push_value(value);
        self.next_instruction()
    }

    /// `SaveValue`, after its operand was popped.
    fn save_value(&mut self, var_id: usize, object: GpssValue) -> (r: Result<(), VmError>)
        requires
            old(self).wf(),
        ensures
            final(self).wf(),
            final(self)@ == old(self)@.save_value(var_id, object).state,
            r == old(self)@.save_value(var_id, object).result(),
    {
        self.log(TraceEvent::SavingValue { value: object, address: var_id });
        self.mem_write(var_id, object)?;
        self.next_instruction()
    }

    /// `Print`: emits the value of a cell.
    fn print(&mut self, var_id: usize) -> (r: Result<(), VmError>)
        requires
            old(self).wf(),
        ensures
            final(self).wf(),
            final(self)@ == old(self)@.print(var_id).state,
            r == old(self)@.print(var_id).result(),
    {
        let value = self.mem_read(var_id)?;
        self.output.push(OutputLine::Value(value));
        self.next_instruction()
    }

    /// `PrintClock`: emits the clock.
    fn print_clock(&mut self) -> (r: Result<(), VmError>)
        requires
            old(self).wf(),
        ensures
            final(self).wf(),
            final(self)@ == old(self)@.print_clock().state,
            r == old(self)@.print_clock().result(),
    {
        self.output.push(OutputLine::Clock(self.current_time));
        self.next_instruction()
    }

    /// `Transfer`: jumps.
    fn transfer(&mut self, instruction_id: u32) -> (r: Result<(), VmError>)
        requires
            old(self).wf(),
        ensures
            final(self).wf(),
            final(self)@ == old(self)@.transfer(instruction_id).state,
            r == old(self)@.transfer(instruction_id).result(),
    {
        self.log(TraceEvent::Transfer { from: self.current_instruction, to: instruction_id });
        self.current_instruction = instruction_id;
        Ok(())
    }

    /// `TestVar`, after its condition was popped.
    fn test_var(&mut self, else_goto: u32, cond_result: bool) -> (r: Result<(), VmError>)
        requires
            old(self).wf(),
        ensures
            final(self).wf(),
            final(self)@ == old(self)@.test_var(else_goto, cond_result).state,
            r == old(self)@.test_var(else_goto, cond_result).result(),
    {
        self.log(TraceEvent::Condition(cond_result));
        if cond_result {
            self.next_instruction()
        } else {
            self.current_instruction = else_goto;
            Ok(())
        }
    }

    /// Schedules an event in the future.
    fn create_event(&mut self, instruction_id: u32, wake_time: u64, transact: Option<Transact>)
        requires
            old(self).wf(),
            wake_time >= old(self)@.clock,
        ensures
            final(self).wf(),
            final(self)@ == old(self)@.scheduled(instruction_id, wake_time, transact),
    {
        proof {
            self@.lemma_scheduled(instruction_id, wake_time, transact);
        }
        self.events.schedule(instruction_id, wake_time, transact);
    }

    /// Starts the resumption of the instruction at `end`: the instructions
    /// from `start` up to it run first.
    fn process_from_to(&mut self, start: u32, end: u32) -> (r: Result<(), VmError>)
        requires
            old(self).wf(),
        ensures
            final(self).wf(),
            final(self)@ == old(self)@.process_from_to(start, end).state,
            r == old(self)@.process_from_to(start, end).result(),
    {
        self.current_instruction = start;
        self.resuming.push(end);
        Ok(())
    }

    /// Takes the earliest event and starts its resumption.
    fn perform_closest(&mut self) -> (r: Result<(), VmError>)
        requires
            old(self).wf(),
        ensures
            final(self).wf(),
            final(self)@ == old(self)@.perform_closest().state,
            r == old(self)@.perform_closest().result(),
            final(self)@.clock >= old(self)@.clock,
    {
        proof {
            self@.lemma_perform_closest();
        }
        match self.events.pop_next() {
            None => self.returned(),
            Some(nearest_event) => {
                self.current_time = nearest_event.wake_time;
                self.current_transact = nearest_event.transact;
                self.log(TraceEvent::WokeUp(nearest_event.wake_time));
                if nearest_event.instruction_id as usize >= self.instructions.len() {
                    return Err(VmError::MalformedResumption);
                }
                match self.instructions[nearest_event.instruction_id as usize] {
                    Instruction::Generate(begin) => {
                        self.process_from_to(begin, nearest_event.instruction_id)
                    },
                    Instruction::Advance(begin) => {
                        self.process_from_to(begin, nearest_event.instruction_id)
                    },
                    _ => Err(VmError::MalformedResumption),
                }
            },
        }
    }

    /// `Generate`, after its time was popped.
    fn generate(&mut self, time: u64) -> (r: Result<(), VmError>)
        requires
            old(self).wf(),
        ensures
            final(self).wf(),
            final(self)@ == old(self)@.generate(time).state,
            r == old(self)@.generate(time).result(),
    {
        let wake_time: u64 = match self.current_time.checked_add(time) {
            Some(t) => t,
            None => {
                return Err(VmError::InvalidTime);
            },
        };
        self.log(TraceEvent::WakeTimeGenerate(wake_time));
        self.create_event(self.current_instruction, wake_time, None);
        self.perform_closest()
    }

    /// `Advance`, after its time was popped.
    fn advance(&mut self, time: u64) -> (r: Result<(), VmError>)
        requires
            old(self).wf(),
        ensures
            final(self).wf(),
            final(self)@ == old(self)@.advance(time).state,
            r == old(self)@.advance(time).result(),
    {
        let wake_time: u64 = match self.current_time.checked_add(time) {
            Some(t) => t,
            None => {
                return Err(VmError::InvalidTime);
            },
        };
        self.log(TraceEvent::WakeTimeAdvance(wake_time));
        self.create_event(self.current_instruction, wake_time, self.current_transact);
        self.perform_closest()
    }

    /// `Terminate`, after its count was popped.
    fn terminate(&mut self, count: u32) -> (r: Result<(), VmError>)
        requires
            old(self).wf(),
        ensures
            final(self).wf(),
            final(self)@ == old(self)@.terminate(count).state,
            r == old(self)@.terminate(count).result(),
            final(self)@.starts <= old(self)@.starts,
    {
        proof {
            self@.lemma_terminate(count);
        }
        self.log(TraceEvent::Terminate(count));
        if count > self.start_entities {
            return Err(VmError::StartUnderflow);
        }
        self.start_entities = self.start_entities - count;
        self.current_transact = None;
        if self.events.len() > 0 && self.start_entities > 0 {
            self.perform_closest()
        } else {
            self.log(TraceEvent::Stop);
            self.next_instruction()?;
            self.returned()
        }
    }

    /// Executes the current instruction.
    fn process_instruction(&mut self) -> (r: Result<(), VmError>)
        requires
            old(self).wf(),
        ensures
            final(self).wf(),
            final(self)@ == old(self)@.process_instruction().state,
            r == old(self)@.process_instruction().result(),
    {
        proof {
            self@.lemma_process_instruction();
        }
        if self.current_instruction as usize >= self.instructions.len() {
            return Err(VmError::MalformedResumption);
        }
        match self.instructions[self.current_instruction as usize] {
            Instruction::Generate(_) => {
                let time = self.stack_pop_time()?;
                self.generate(time)
            },
            Instruction::Advance(_) => {
                let time = self.stack_pop_time()?;
                self.advance(time)
            },
            Instruction::Terminate(_) => {
                let count = self.stack_pop()?.to_u32()?;
                self.terminate(count)
            },
            Instruction::Print(var_id) => {
                self.print(var_id)?;
                self.returned()
            },
            Instruction::PrintClock => {
                self.print_clock()?;
                self.returned()
            },
            Instruction::Transfer(instruction_id) => {
                self.transfer(instruction_id)?;
                self.returned()
            },
            Instruction::TestVar(else_goto) => {
                let cond_result = self.stack_pop()?.to_bool()?;
                self.test_var(else_goto, cond_result)?;
                self.returned()
            },
            Instruction::SaveValue(var_id) => {
                let object = self.stack_pop()?;
                self.save_value(var_id, object)?;
                self.returned()
            },
            Instruction::Push(var_id) => {
                self.push(var_id)?;
                self.returned()
            },
        }
    }

    /// Completes the innermost resumption; a resumed `Generate` creates its
    /// transact from `number`.
    fn finish_resumption(&mut self, number: i32) -> (r: Result<(), VmError>)
        requires
            old(self).wf(),
        ensures
            final(self).wf(),
            final(self)@ == old(self)@.finish_resumption(number).state,
            r == old(self)@.finish_resumption(number).result(),
    {
        proof {
            self@.lemma_finish_resumption(number);
        }
        let id: u32 = match self.resuming.pop() {
            Some(id) => id,
            None => {
                return Ok(());
            },
        };
        self.current_instruction = id;
        if id as usize >= self.instructions.len() {
            return Err(VmError::MalformedResumption);
        }
        match self.instructions[id as usize] {
            Instruction::Generate(_) => {
                let time = self.stack_pop_time()?;
                let wake_time: u64 = match self.current_time.checked_add(time) {
                    Some(t) => t,
                    None => {
                        return Err(VmError::InvalidTime);
                    },
                };
                self.log(TraceEvent::DoingGenerate);
                self.current_transact = Some(Transact::generated(number));
                self.create_event(id, wake_time, None);
                self.next_instruction()?;
                self.returned()
            },
            Instruction::Advance(_) => {
                self.log(TraceEvent::DoingAdvance);
                self.next_instruction()?;
                self.returned()
            },
            _ => {
                self.next_instruction()?;
                self.returned()
            },
        }
    }

    /// One step with a given number: an instruction, or the completion of a
    /// resumption. A halted interpreter stays as it is.
    pub fn step_with(&mut self, number: i32) -> (r: Result<(), VmError>)
        requires
            old(self).wf(),
        ensures
            final(self).wf(),
            final(self)@ == old(self)@.step(number).state,
            r == old(self)@.step(number).result(),
            final(self)@.follows(old(self)@),
    {
        proof {
            self@.lemma_step(number);
        }
        let depth: usize = self.resuming.len();
        if depth > 0 {
            if self.current_instruction < self.resuming[depth - 1] {
                self.process_instruction()
            } else {
                self.finish_resumption(number)
            }
        } else if self.can_run() {
            self.process_instruction()
        } else {
            Ok(())
        }
    }

    /// One step; where it completes the resumption of a `Generate`, the
    /// number of the new transact is drawn from the random source.
    pub fn step(&mut self) -> (r: Result<(), VmError>)
        requires
            old(self).wf(),
        ensures
            final(self).wf(),
            exists|number: i32|
                final(self)@ == (#[trigger] old(self)@.step(number)).state && r == old(self)@.step(
                    number,
                ).result(),
            final(self)@.follows(old(self)@),
    {
        let number: i32 = if self.draws_next() {
            self.random.next_i32()
        } else {
            0
        };
        self.step_with(number)
    }

    /// Runs until the machine halts or fails, for at most `max_steps` steps.
    /// `Ok(true)` says that it halted, `Ok(false)` that the steps ran out
    /// first; it can then be run on.
    pub fn process(&mut self, max_steps: u64) -> (r: Result<bool, VmError>)
        requires
            old(self).wf(),
        ensures
            final(self).wf(),
            exists|numbers: Seq<i32>|
                {
                    &&& numbers.len() <= max_steps
                    &&& (#[trigger] old(self)@.run(numbers)).state == final(self)@
                    &&& old(self)@.run(numbers).failure == (match r {
                        Ok(_) => None::<VmError>,
                        Err(e) => Some(e),
                    })
                    &&& r == Ok::<bool, VmError>(false) ==> numbers.len() == max_steps
                },
            r.is_ok() ==> r == Ok::<bool, VmError>(final(self)@.halted()),
            final(self)@.follows(old(self)@),
    {
        let mut steps: u64 = 0;
        let ghost mut numbers: Seq<i32> = Seq::empty();
        while steps < max_steps && !self.is_halted()
            invariant
                self.wf(),
                steps <= max_steps,
                numbers.len() == steps,
                old(self)@.inv(),
                old(self)@.run(numbers) == self@.done(),
            decreases max_steps - steps,
        {
            let number: i32 = if self.draws_next() {
                self.random.next_i32()
            } else {
                0
            };
            let ghost before = numbers;
            let outcome = self.step_with(number);
            proof {
                numbers = before.push(number);
                assert(numbers.drop_last() =~= before);
                old(self)@.lemma_run(numbers);
            }
            steps = steps + 1;
            if let Err(e) = outcome {
                return Err(e);
            }
        }
        proof {
            old(self)@.lemma_run(numbers);
        }
        Ok(self.is_halted())
    }

    /// Runs one step for each of the given numbers, up to the first failure:
    /// a run whose generated transacts are chosen by the caller.
    pub fn run_with(&mut self, numbers: &Vec<i32>) -> (r: Result<(), VmError>)
        requires
            old(self).wf(),
        ensures
            final(self).wf(),
            final(self)@ == old(self)@.run(numbers@).state,
            r == old(self)@.run(numbers@).result(),
            final(self)@.follows(old(self)@),
    {
        let mut i: usize = 0;
        proof {
            assert(numbers@.take(0) =~= Seq::<i32>::empty());
        }
        while i < numbers.len()
            invariant
                self.wf(),
                i <= numbers@.len(),
                old(self)@.inv(),
                old(self)@.run(numbers@.take(i as int)) == self@.done(),
            decreases numbers@.len() - i,
        {
            let outcome = self.step_with(numbers[i]);
            proof {
                assert(numbers@.take(i + 1).drop_last() =~= numbers@.take(i as int));
                old(self)@.lemma_run(numbers@.take(i + 1));
                if outcome.is_err() {
                    old(self)@.lemma_run_stops(numbers@, i + 1);
                }
            }
            i = i + 1;
            if let Err(e) = outcome {
                return Err(e);
            }
        }
        proof {
            assert(numbers@.take(numbers@.len() as int) =~= numbers@);
            old(self)@.lemma_run(numbers@);
        }
        Ok(())
    }

    /// Whether the main loop goes on.
    pub fn can_run(&self) -> (b: bool)
        ensures
            b == self@.can_run(),
    {
        self.start_entities > 0 && (self.current_instruction as usize) < self.instructions.len()
    }

    /// Whether nothing is left to do.
    pub fn is_halted(&self) -> (b: bool)
        ensures
            b == self@.halted(),
    {
        self.resuming.len() == 0 && !self.can_run()
    }

    /// Whether the next step completes a resumption.
    pub fn finishes_next(&self) -> (b: bool)
        ensures
            b == self@.finishes_next(),
    {
        let depth: usize = self.resuming.len();
        depth > 0 && self.current_instruction >= self.resuming[depth - 1]
    }

    /// Whether the next step completes the resumption of a `Generate`, and so
    /// uses a random number.
    pub fn draws_next(&self) -> (b: bool)
        ensures
            b == self@.draws_next(),
    {
        let depth: usize = self.resuming.len();
        if depth == 0 {
            return false;
        }
        let id: u32 = self.resuming[depth - 1];
        if self.current_instruction < id || id as usize >= self.instructions.len() {
            return false;
        }
        match self.instructions[id as usize] {
            Instruction::Generate(_) => true,
            _ => false,
        }
    }

    /// An interpreter for a program and a memory image, with a given number
    /// of entities to start and a given source of random numbers.
    pub fn build_with(
        instructions: Vec<Instruction>,
        memory: Vec<GpssValue>,
        starts: u32,
        random: RandomSource,
    ) -> (vm: Interpreter)
        ensures
            vm.wf(),
            vm@ == VmState::initial(instructions@, memory@, starts),
    {
        Interpreter {
            instructions,
            current_instruction: 0,
            current_transact: None,
            start_entities: starts,
            current_time: 0,
            events: EventQueue::new(),
            memory,
            stack: Vec::new(),
            resuming: Vec::new(),
            output: Vec::new(),
            trace: Vec::new(),
            tracing: true,
            pushes: Ghost(0),
            pops: Ghost(0),
            random,
        }
    }

    /// An interpreter for a program and a memory image, with fifteen
    /// entities to start and the random numbers of the thread.
    pub fn build_interpreter(instructions: Vec<Instruction>, memory: Vec<GpssValue>) -> (vm:
        Interpreter)
        ensures
            vm.wf(),
            vm@ == VmState::initial(instructions@, memory@, DEFAULT_STARTS),
    {
        Interpreter::build_with(instructions, memory, DEFAULT_STARTS, RandomSource::thread())
    }

    /// Program example
    pub fn build_test_interpreter() -> (vm: Interpreter)
        ensures
            vm.wf(),
            vm@ == VmState::initial(example_code(), example_memory(), DEFAULT_STARTS),
    {
        let instructions = vec![
            Instruction::Push(1),
            Instruction::SaveValue(0),
            Instruction::Push(0),
            Instruction::Generate(2),
            Instruction::Transfer(5),
            Instruction::Push(2),
            Instruction::Advance(5),
            Instruction::Push(4),
            Instruction::TestVar(10),
            Instruction::PrintClock,
            Instruction::Push(3),
            Instruction::Terminate(8),
            Instruction::Push(3),
            Instruction::Terminate(10),
        ];
        let memory = vec![
            GpssValue::UnsignedInteger(0),
            GpssValue::Float(0x3C23_D70A),
            GpssValue::Float(0x3CA3_D70A),
            GpssValue::UnsignedInteger(1),
            GpssValue::Boolean(false),
        ];
        assert(instructions@ =~= example_code());
        assert(memory@ =~= example_memory());
        Interpreter::build_interpreter(instructions, memory)
    }

    /// Turns the keeping of trace records on or off.
    pub fn set_tracing(&mut self, tracing: bool)
        requires
            old(self).wf(),
        ensures
            final(self).wf(),
            final(self)@ == (VmState { tracing, ..old(self)@ }),
    {
        self.tracing = tracing;
    }

    /// Hands out the lines that were emitted; the interpreter keeps none.
    pub fn take_output(&mut self) -> (lines: Vec<OutputLine>)
        requires
            old(self).wf(),
        ensures
            final(self).wf(),
            lines@ == old(self)@.output,
            final(self)@ == (VmState { output: Seq::empty(), ..old(self)@ }),
    {
        let mut lines: Vec<OutputLine> = Vec::new();
        core::mem::swap(&mut lines, &mut self.output);
        lines
    }

    /// Hands out the trace records that were emitted; the interpreter keeps
    /// none.
    pub fn take_trace(&mut self) -> (records: Vec<TraceEvent>)
        requires
            old(self).wf(),
        ensures
            final(self).wf(),
            records@ == old(self)@.trace,
            final(self)@ == (VmState { trace: Seq::empty(), ..old(self)@ }),
    {
        let mut records: Vec<TraceEvent> = Vec::new();
        core::mem::swap(&mut records, &mut self.trace);
        records
    }

    /// The position of the current instruction.
    pub fn pc(&self) -> (pc: u32)
        ensures
            pc == self@.pc,
    {
        self.current_instruction
    }

    /// The clock, in milliseconds.
    pub fn clock_ms(&self) -> (clock: u64)
        ensures
            clock == self@.clock,
    {
        self.current_time
    }

    /// How many entities are left to start.
    pub fn remaining_starts(&self) -> (starts: u32)
        ensures
            starts == self@.starts,
    {
        self.start_entities
    }

    /// The transact that is active.
    pub fn current_transact(&self) -> (transact: Option<Transact>)
        ensures
            transact == self@.transact,
    {
        self.current_transact
    }

    /// The program.
    pub fn instructions(&self) -> (code: &Vec<Instruction>)
        ensures
            code@ == self@.code,
    {
        &self.instructions
    }

    /// The global memory.
    pub fn memory(&self) -> (memory: &Vec<GpssValue>)
        ensures
            memory@ == self@.memory,
    {
        &self.memory
    }

    /// The operand stack, its top last.
    pub fn stack(&self) -> (stack: &Vec<GpssValue>)
        ensures
            stack@ == self@.stack,
    {
        &self.stack
    }

    /// The instructions whose resumption is under way, innermost last.
    pub fn resuming(&self) -> (resuming: &Vec<u32>)
        ensures
            resuming@ == self@.resuming,
    {
        &self.resuming
    }

    /// The lines emitted and not yet taken.
    pub fn output(&self) -> (lines: &Vec<OutputLine>)
        ensures
            lines@ == self@.output,
    {
        &self.output
    }

    /// The trace records emitted and not yet taken.
    pub fn trace(&self) -> (records: &Vec<TraceEvent>)
        ensures
            records@ == self@.trace,
    {
        &self.trace
    }

    /// How many events are pending.
    pub fn pending_events(&self) -> (n: usize)
        requires
            self.wf(),
        ensures
            n == self@.events.len(),
    {
        self.events.len()
    }

    /// The event that is due next, if one is pending.
    pub fn next_event(&self) -> (event: Option<Event>)
        requires
            self.wf(),
        ensures
            event == (if self@.events.len() == 0 {
                None::<Event>
            } else {
                Some(self@.events[0])
            }),
    {
        self.events.peek()
    }
}

} // verus!
