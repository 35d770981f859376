use gpss_vm::error::VmError;
use gpss_vm::interpreter::Interpreter;
use gpss_vm::program::Instruction;
use gpss_vm::random::RandomSource;
use gpss_vm::values::GpssValue;

use Instruction::{Advance, Generate, Print, Push, SaveValue, Terminate, TestVar, Transfer};

fn float(x: f32) -> GpssValue {
    GpssValue::Float(x.to_bits())
}

fn machine(code: Vec<Instruction>, memory: Vec<GpssValue>, starts: u32) -> Interpreter {
    Interpreter::build_with(code, memory, starts, RandomSource::seeded(1))
}

#[test]
fn pop_on_empty_stack_underflows() {
    let mut vm = machine(vec![SaveValue(0)], vec![], 1);
    assert_eq!(vm.stack_pop(), Err(VmError::StackUnderflow));
    assert_eq!(vm.stack_pop_time(), Err(VmError::StackUnderflow));
    assert_eq!(vm.process(10), Err(VmError::StackUnderflow));
}

#[test]
fn push_then_pop_returns_the_value() {
    let mut vm = machine(vec![], vec![], 1);
    vm.push_value(GpssValue::Integer(1));
    vm.push_value(GpssValue::Integer(2));
    assert_eq!(vm.stack(), &vec![GpssValue::Integer(1), GpssValue::Integer(2)]);
    assert_eq!(vm.stack_pop(), Ok(GpssValue::Integer(2)));
    assert_eq!(vm.stack_pop(), Ok(GpssValue::Integer(1)));
    assert_eq!(vm.stack_pop(), Err(VmError::StackUnderflow));
    assert!(vm.stack().is_empty());
}

#[test]
fn pop_time_converts_seconds() {
    let mut vm = machine(vec![], vec![], 1);
    vm.push_value(float(0.25));
    assert_eq!(vm.stack_pop_time(), Ok(250));
    vm.push_value(GpssValue::UnsignedInteger(250));
    assert_eq!(vm.stack_pop_time(), Err(VmError::TypeMismatch));
    assert!(vm.stack().is_empty());
    vm.push_value(float(-0.25));
    assert_eq!(vm.stack_pop_time(), Err(VmError::InvalidTime));
    vm.push_value(float(f32::NAN));
    assert_eq!(vm.stack_pop_time(), Err(VmError::InvalidTime));
    vm.push_value(float(f32::INFINITY));
    assert_eq!(vm.stack_pop_time(), Err(VmError::InvalidTime));
}

#[test]
fn memory_write_overwrites_appends_or_fails() {
    let mut vm = machine(vec![], vec![GpssValue::Integer(1)], 1);
    assert_eq!(vm.mem_write(0, GpssValue::Integer(5)), Ok(()));
    assert_eq!(vm.mem_write(1, GpssValue::Integer(6)), Ok(()));
    assert_eq!(vm.mem_write(3, GpssValue::Integer(7)), Err(VmError::MemoryHole));
    assert_eq!(vm.memory(), &vec![GpssValue::Integer(5), GpssValue::Integer(6)]);
    assert_eq!(vm.mem_read(1), Ok(GpssValue::Integer(6)));
    assert_eq!(vm.mem_read(2), Err(VmError::MemoryHole));
}

#[test]
fn save_value_beyond_the_first_free_cell_is_a_hole() {
    let mut vm = machine(vec![Push(0), SaveValue(2)], vec![GpssValue::Integer(1)], 1);
    assert_eq!(vm.process(10), Err(VmError::MemoryHole));
    assert_eq!(vm.memory(), &vec![GpssValue::Integer(1)]);
}

#[test]
fn reading_a_missing_cell_is_a_hole() {
    let mut vm = machine(vec![Push(3)], vec![GpssValue::Integer(1)], 1);
    assert_eq!(vm.process(10), Err(VmError::MemoryHole));
    let mut vm = machine(vec![Print(1)], vec![GpssValue::Integer(1)], 1);
    assert_eq!(vm.process(10), Err(VmError::MemoryHole));
}

#[test]
fn test_var_needs_a_boolean() {
    let mut vm = machine(vec![Push(0), TestVar(0)], vec![GpssValue::Integer(1)], 1);
    assert_eq!(vm.process(10), Err(VmError::TypeMismatch));
}

#[test]
fn terminate_needs_an_unsigned_count() {
    let mut vm = machine(vec![Push(0), Terminate(0)], vec![GpssValue::Integer(1)], 1);
    assert_eq!(vm.process(10), Err(VmError::TypeMismatch));
}

#[test]
fn terminate_of_too_many_underflows() {
    let mut vm = machine(vec![Push(0), Terminate(0)], vec![GpssValue::UnsignedInteger(3)], 2);
    assert_eq!(vm.process(10), Err(VmError::StartUnderflow));
    assert_eq!(vm.remaining_starts(), 2);
    let mut vm = machine(vec![Push(0), Terminate(0)], vec![GpssValue::UnsignedInteger(2)], 2);
    assert_eq!(vm.process(10), Ok(true));
    assert_eq!(vm.remaining_starts(), 0);
}

#[test]
fn generate_needs_a_valid_time() {
    let mut vm = machine(vec![Push(0), Generate(0)], vec![float(-1.0)], 1);
    assert_eq!(vm.process(10), Err(VmError::InvalidTime));
    let mut vm = machine(vec![Push(0), Generate(0)], vec![float(f32::NAN)], 1);
    assert_eq!(vm.process(10), Err(VmError::InvalidTime));
    let mut vm = machine(vec![Push(0), Advance(0)], vec![float(f32::INFINITY)], 1);
    assert_eq!(vm.process(10), Err(VmError::InvalidTime));
    let mut vm = machine(vec![Push(0), Advance(0)], vec![GpssValue::UnsignedInteger(1)], 1);
    assert_eq!(vm.process(10), Err(VmError::TypeMismatch));
}

#[test]
fn wake_time_beyond_the_clock_is_invalid() {
    // 1.0e16 s fits the clock once, not twice.
    let mut vm = machine(vec![Push(0), Generate(0), Transfer(0)], vec![float(1.0e16)], 1);
    assert_eq!(vm.process(100), Err(VmError::InvalidTime));
    assert_eq!(vm.clock_ms(), (1.0e16f32 * 1000.0) as u64);
}

#[test]
fn jump_beyond_the_program_halts() {
    let mut vm = machine(vec![Transfer(u32::MAX)], vec![], 1);
    assert_eq!(vm.process(10), Ok(true));
    assert_eq!(vm.pc(), u32::MAX);
    assert_eq!(vm.remaining_starts(), 1);
}

#[test]
fn position_beyond_the_last_is_no_place_to_resume() {
    // Inside the prepared instructions of the Generate, the jump leaves no next position.
    let mut vm = machine(
        vec![Push(0), Transfer(3), Transfer(u32::MAX), Generate(2)],
        vec![float(0.001)],
        1,
    );
    assert_eq!(vm.process(100), Err(VmError::MalformedResumption));
}

#[test]
fn zero_time_generate_wakes_at_the_clock() {
    let mut vm = machine(vec![Push(0), Generate(0), Push(1), Terminate(2)], vec![float(0.0), GpssValue::UnsignedInteger(1)], 2);
    assert_eq!(vm.process(1000), Ok(true));
    assert_eq!(vm.clock_ms(), 0);
    assert_eq!(vm.remaining_starts(), 0);
}

#[test]
fn pops_never_exceed_pushes() {
    let mut vm = machine(vec![], vec![], 1);
    let mut seed: u64 = 0x1234_5678_9ABC_DEF1;
    let mut pushes = 0u32;
    let mut pops = 0u32;
    for _ in 0..2000 {
        seed ^= seed << 13;
        seed ^= seed >> 7;
        seed ^= seed << 17;
        if seed % 3 == 0 {
            vm.push_value(GpssValue::Integer(pushes as i32));
            pushes += 1;
        } else {
            match vm.stack_pop() {
                Ok(_) => pops += 1,
                Err(e) => {
                    assert_eq!(e, VmError::StackUnderflow);
                    assert_eq!(pops, pushes);
                }
            }
        }
        assert!(pops <= pushes);
        assert_eq!(vm.stack().len() as u32, pushes - pops);
    }
    assert!(pops > 100);
}

#[test]
fn run_with_chooses_the_generated_transacts() {
    let mut vm = machine(
        vec![Push(0), Generate(0), Push(1), Terminate(0)],
        vec![float(0.005), GpssValue::UnsignedInteger(0)],
        1,
    );
    assert_eq!(vm.run_with(&vec![1, 2, 3, 44]), Ok(()));
    assert_eq!(vm.current_transact().map(|t| t.params[0]), Some(GpssValue::Integer(44)));
    assert_eq!(vm.clock_ms(), 5);
    assert_eq!(vm.run_with(&vec![]), Ok(()));
    assert_eq!(vm.pc(), 2);
    let mut failing = machine(vec![Push(0), SaveValue(5), Push(0)], vec![GpssValue::Integer(1)], 1);
    assert_eq!(failing.run_with(&vec![0, 0, 0, 0]), Err(VmError::MemoryHole));
    assert!(failing.stack().is_empty());
    assert_eq!(failing.pc(), 1);
}
