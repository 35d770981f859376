//! What the machine reads and what it emits: instructions, output lines and
//! trace records.

use vstd::prelude::*;
use crate::values::GpssValue;

verus! {

/// One instruction of a program. `Generate`, `Advance` and `Terminate` carry
/// the position from which their operand is prepared again on resumption.
#[derive(Clone, Copy, Debug, PartialEq, Eq, Structural)]
pub enum Instruction {
    /// Pops a time; schedules the next arrival and yields to the scheduler.
    Generate(u32),
    /// Pops a time; parks the current transact for that long.
    Advance(u32),
    /// Pops a count; takes it off the entities that are left to start.
    Terminate(u32),
    /// Emits the value in a memory cell.
    Print(usize),
    /// Emits the clock.
    PrintClock,
    /// Jumps.
    Transfer(u32),
    /// Pops a condition; goes on when it holds, jumps when it does not.
    TestVar(u32),
    /// Pops a value and writes it to a memory cell.
    SaveValue(usize),
    /// Pushes the value in a memory cell.
    Push(usize),
}

/// A line on the output channel.
#[derive(Clone, Copy, Debug, PartialEq, Eq, Structural)]
pub enum OutputLine {
    /// The clock, in milliseconds.
    Clock(u64),
    /// A value of the memory.
    Value(GpssValue),
}

/// A record on the trace channel.
#[derive(Clone, Copy, Debug, PartialEq, Eq, Structural)]
pub enum TraceEvent {
    /// `Generate` scheduled an arrival for this time.
    WakeTimeGenerate(u64),
    /// `Advance` parked a transact until this time.
    WakeTimeAdvance(u64),
    /// `Terminate` took this count.
    Terminate(u32),
    /// `Terminate` did not yield to the scheduler.
    Stop,
    /// A jump from one position to another.
    Transfer { from: u32, to: u32 },
    /// The condition that `TestVar` found.
    Condition(bool),
    /// The value that `SaveValue` writes, and the cell.
    SavingValue { value: GpssValue, address: usize },
    /// The value that `Push` read.
    Push(GpssValue),
    /// The clock moved to this time for an event.
    WokeUp(u64),
    /// A `Generate` was resumed.
    DoingGenerate,
    /// An `Advance` was resumed.
    DoingAdvance,
}

} // verus!
