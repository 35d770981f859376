use gpss_vm::error::VmError;
use gpss_vm::interpreter::{Interpreter, DEFAULT_STARTS};
use gpss_vm::program::{Instruction, OutputLine, TraceEvent};
use gpss_vm::random::RandomSource;
use gpss_vm::values::GpssValue;

use Instruction::{Advance, Generate, Print, PrintClock, Push, SaveValue, Terminate, TestVar, Transfer};

fn float(x: f32) -> GpssValue {
    GpssValue::Float(x.to_bits())
}

fn machine(code: Vec<Instruction>, memory: Vec<GpssValue>, starts: u32) -> Interpreter {
    Interpreter::build_with(code, memory, starts, RandomSource::seeded(1))
}

fn woke_up(vm: &Interpreter) -> Vec<u64> {
    vm.trace()
        .iter()
        .filter_map(|record| match record {
            TraceEvent::WokeUp(time) => Some(*time),
            _ => None,
        })
        .collect()
}

fn printed(vm: &Interpreter) -> Vec<String> {
    vm.output().iter().map(|line| line.text("")).collect()
}

#[test]
fn minimal_single_arrival() {
    let mut vm = machine(
        vec![Push(0), Generate(0), Push(1), Terminate(0)],
        vec![float(0.005), GpssValue::UnsignedInteger(1)],
        1,
    );
    assert_eq!(vm.process(1000), Ok(true));
    assert_eq!(vm.clock_ms(), 5);
    assert_eq!(vm.remaining_starts(), 0);
    assert!(vm.is_halted());
    assert!(vm.output().is_empty());
    assert_eq!(woke_up(&vm), vec![5]);
    let texts: Vec<String> = vm.trace().iter().map(|record| record.text("0.005")).collect();
    assert_eq!(texts.iter().filter(|t| t.as_str() == "Woke up at 5").count(), 1);
    assert_eq!(vm.trace().iter().filter(|r| matches!(r, TraceEvent::Terminate(_))).count(), 1);
    assert_eq!(vm.trace().iter().filter(|r| matches!(r, TraceEvent::DoingGenerate)).count(), 1);
}

#[test]
fn minimal_single_arrival_step_by_step() {
    let mut vm = machine(
        vec![Push(0), Generate(0), Push(1), Terminate(0)],
        vec![float(0.005), GpssValue::UnsignedInteger(1)],
        1,
    );
    assert_eq!(vm.step_with(0), Ok(()));
    assert_eq!((vm.pc(), vm.stack().len(), vm.clock_ms()), (1, 1, 0));
    assert_eq!(vm.step_with(0), Ok(()));
    assert_eq!((vm.pc(), vm.stack().len(), vm.clock_ms()), (0, 0, 5));
    assert_eq!(vm.resuming(), &vec![1]);
    assert_eq!(vm.pending_events(), 0);
    assert!(!vm.finishes_next());
    assert_eq!(vm.step_with(0), Ok(()));
    assert_eq!((vm.pc(), vm.stack().len()), (2, 1));
    assert!(vm.finishes_next());
    assert_eq!(vm.step_with(77), Ok(()));
    assert_eq!((vm.pc(), vm.stack().len(), vm.clock_ms()), (2, 0, 5));
    assert!(vm.resuming().is_empty());
    assert_eq!(vm.current_transact().map(|t| t.params[0]), Some(GpssValue::Integer(77)));
    assert_eq!(vm.next_event().map(|e| (e.instruction_id, e.wake_time, e.transact)), Some((1, 10, None)));
    assert_eq!(vm.step_with(0), Ok(()));
    assert_eq!(vm.step_with(0), Ok(()));
    assert_eq!(vm.remaining_starts(), 0);
    assert_eq!(vm.current_transact(), None);
    assert_eq!(vm.pc(), 4);
    assert!(vm.is_halted());
    assert_eq!(vm.step_with(0), Ok(()));
    assert_eq!(vm.pc(), 4);
}

#[test]
fn print_clock_after_advance() {
    let mut vm = machine(
        vec![Push(0), Generate(0), Transfer(3), Push(1), Advance(3), PrintClock, Push(2), Terminate(5)],
        vec![float(0.010), float(0.020), GpssValue::UnsignedInteger(1)],
        1,
    );
    assert_eq!(vm.process(1000), Ok(true));
    assert_eq!(vm.output(), &vec![OutputLine::Clock(30)]);
    assert_eq!(printed(&vm), vec!["Clock 30".to_string()]);
    assert_eq!(vm.clock_ms(), 30);
    assert_eq!(vm.remaining_starts(), 0);
    assert_eq!(woke_up(&vm), vec![10, 20, 30]);
}

#[test]
fn test_var_true_branch() {
    let mut vm = machine(
        vec![Push(0), TestVar(4), PrintClock, Push(1), Terminate(3)],
        vec![GpssValue::Boolean(true), GpssValue::UnsignedInteger(1)],
        1,
    );
    assert_eq!(vm.process(1000), Ok(true));
    assert_eq!(printed(&vm), vec!["Clock 0".to_string()]);
    assert_eq!(vm.remaining_starts(), 0);
    assert_eq!(vm.pc(), 5);
}

#[test]
fn test_var_false_branch() {
    let mut vm = machine(
        vec![Push(0), TestVar(4), PrintClock, Push(1), Terminate(3)],
        vec![GpssValue::Boolean(false), GpssValue::UnsignedInteger(1)],
        1,
    );
    // The jump lands on Terminate with nothing on the stack.
    assert_eq!(vm.process(1000), Err(VmError::StackUnderflow));
    assert!(vm.output().is_empty());
    assert_eq!(vm.pc(), 4);
    assert_eq!(vm.remaining_starts(), 1);
}

#[test]
fn test_var_false_branch_to_prepared_terminate() {
    let mut vm = machine(
        vec![Push(0), TestVar(3), PrintClock, Push(1), Terminate(3)],
        vec![GpssValue::Boolean(false), GpssValue::UnsignedInteger(1)],
        1,
    );
    assert_eq!(vm.process(1000), Ok(true));
    assert!(vm.output().is_empty());
    assert_eq!(vm.remaining_starts(), 0);
}

#[test]
fn save_value_append_at_end() {
    let mut vm = machine(
        vec![Push(0), SaveValue(1), Push(1), Terminate(0)],
        vec![GpssValue::UnsignedInteger(7)],
        1,
    );
    // Terminate pops the 7 that Push(1) left: more than the one entity to start.
    assert_eq!(vm.process(1000), Err(VmError::StartUnderflow));
    assert_eq!(vm.memory(), &vec![GpssValue::UnsignedInteger(7), GpssValue::UnsignedInteger(7)]);
    assert!(vm.stack().is_empty());
    assert_eq!(vm.remaining_starts(), 1);
}

#[test]
fn save_value_append_at_end_then_terminate_zero() {
    let mut vm = machine(
        vec![Push(0), SaveValue(1), Push(1), Terminate(0)],
        vec![GpssValue::UnsignedInteger(0)],
        1,
    );
    assert_eq!(vm.process(1000), Ok(true));
    assert_eq!(vm.memory(), &vec![GpssValue::UnsignedInteger(0), GpssValue::UnsignedInteger(0)]);
    assert!(vm.stack().is_empty());
    assert_eq!(vm.remaining_starts(), 1);
    assert_eq!(vm.pc(), 4);
    assert!(vm.is_halted());
}

#[test]
fn equal_time_fifo_ordering() {
    // At 30 ms an Advance and a Generate are due; the Advance was scheduled first.
    let mut vm = machine(
        vec![Push(0), Generate(0), Transfer(3), Push(1), Advance(3), PrintClock, Push(2), Terminate(5)],
        vec![float(0.010), float(0.020), GpssValue::UnsignedInteger(1)],
        2,
    );
    assert_eq!(vm.process(1000), Ok(true));
    let resumed: Vec<(u64, bool)> = {
        let mut out = Vec::new();
        let mut at = 0;
        for record in vm.trace() {
            match record {
                TraceEvent::WokeUp(time) => at = *time,
                TraceEvent::DoingAdvance => out.push((at, true)),
                TraceEvent::DoingGenerate => out.push((at, false)),
                _ => {}
            }
        }
        out
    };
    let at_thirty: Vec<bool> = resumed.iter().filter(|(t, _)| *t == 30).map(|(_, a)| *a).collect();
    assert_eq!(at_thirty, vec![true, false]);
    assert_eq!(vm.output()[0], OutputLine::Clock(30));
}

#[test]
fn clock_never_goes_back_and_starts_never_grow() {
    let mut vm = Interpreter::build_test_interpreter();
    let mut clock = vm.clock_ms();
    let mut starts = vm.remaining_starts();
    let mut steps = 0;
    while !vm.is_halted() && steps < 100_000 {
        let pending = vm.next_event();
        let before = vm.clock_ms();
        vm.step().unwrap();
        if let Some(event) = pending {
            assert!(event.wake_time >= before);
        }
        assert!(vm.clock_ms() >= clock);
        assert!(vm.remaining_starts() <= starts);
        clock = vm.clock_ms();
        starts = vm.remaining_starts();
        steps += 1;
    }
    assert!(vm.is_halted());
    assert_eq!(vm.remaining_starts(), 0);
}

#[test]
fn example_program_runs_to_the_end() {
    let mut vm = Interpreter::build_test_interpreter();
    assert_eq!(vm.remaining_starts(), DEFAULT_STARTS);
    assert_eq!(vm.remaining_starts(), 15);
    assert_eq!(vm.instructions().len(), 14);
    assert_eq!(
        vm.memory(),
        &vec![
            GpssValue::UnsignedInteger(0),
            float(0.01),
            float(0.02),
            GpssValue::UnsignedInteger(1),
            GpssValue::Boolean(false),
        ]
    );
    assert_eq!(vm.process(1_000_000), Ok(true));
    assert_eq!(vm.remaining_starts(), 0);
    assert_eq!(vm.memory()[0], float(0.01));
    // The condition in cell 4 is false: no clock is printed.
    assert!(vm.output().is_empty());
    assert_eq!(vm.trace().iter().filter(|r| matches!(r, TraceEvent::Terminate(1))).count(), 15);
}

#[test]
fn process_stops_when_the_steps_run_out_and_goes_on() {
    let mut vm = machine(
        vec![Push(0), Generate(0), Transfer(3), Push(1), Advance(3), PrintClock, Push(2), Terminate(5)],
        vec![float(0.010), float(0.020), GpssValue::UnsignedInteger(1)],
        3,
    );
    let mut rounds = 0;
    loop {
        match vm.process(3) {
            Ok(true) => break,
            Ok(false) => rounds += 1,
            Err(e) => panic!("failed: {:?}", e),
        }
        assert!(rounds < 1000);
    }
    assert!(rounds > 3);
    let mut whole = machine(
        vec![Push(0), Generate(0), Transfer(3), Push(1), Advance(3), PrintClock, Push(2), Terminate(5)],
        vec![float(0.010), float(0.020), GpssValue::UnsignedInteger(1)],
        3,
    );
    assert_eq!(whole.process(u64::MAX), Ok(true));
    assert_eq!(vm.output(), whole.output());
    assert_eq!(vm.trace(), whole.trace());
    assert_eq!(vm.clock_ms(), whole.clock_ms());
    assert_eq!(vm.output(), &vec![OutputLine::Clock(30), OutputLine::Clock(40), OutputLine::Clock(50)]);
}

#[test]
fn process_with_no_steps_does_nothing() {
    let mut vm = machine(vec![PrintClock], vec![], 1);
    assert_eq!(vm.process(0), Ok(false));
    assert_eq!(vm.pc(), 0);
    assert!(vm.output().is_empty());
    assert_eq!(vm.process(1), Ok(true));
    assert_eq!(vm.output(), &vec![OutputLine::Clock(0)]);
}

#[test]
fn endless_program_is_stopped_by_the_step_limit() {
    let mut vm = machine(vec![Transfer(0)], vec![], 1);
    vm.set_tracing(false);
    assert_eq!(vm.process(10_000), Ok(false));
    assert_eq!(vm.pc(), 0);
    assert!(!vm.is_halted());
    assert!(vm.trace().is_empty());
}

#[test]
fn machine_with_nothing_to_start_is_halted() {
    let mut vm = machine(vec![PrintClock], vec![], 0);
    assert!(vm.is_halted());
    assert_eq!(vm.process(10), Ok(true));
    assert!(vm.output().is_empty());
    let mut empty = machine(vec![], vec![], 5);
    assert!(empty.is_halted());
    assert_eq!(empty.process(10), Ok(true));
}

#[test]
fn seeded_runs_generate_the_same_transacts() {
    let run = |seed: u64| {
        let mut vm = Interpreter::build_with(
            vec![Push(0), Generate(0), Push(1), Terminate(0)],
            vec![float(0.005), GpssValue::UnsignedInteger(0)],
            1,
            RandomSource::seeded(seed),
        );
        let mut numbers = Vec::new();
        for _ in 0..200 {
            vm.step().unwrap();
            if let Some(t) = vm.current_transact() {
                numbers.push(t.params[0]);
            }
        }
        numbers.dedup();
        numbers
    };
    let first = run(11);
    assert!(first.len() > 5);
    assert_eq!(first, run(11));
    assert_ne!(first, run(12));
}

#[test]
fn advance_carries_its_transact() {
    let mut vm = machine(
        vec![Push(0), Generate(0), Push(1), Advance(2), Push(2), Terminate(4)],
        vec![float(0.010), float(0.003), GpssValue::UnsignedInteger(1)],
        1,
    );
    // Run to the resumption of the Advance.
    let mut generated = None;
    let mut steps = 0;
    while vm.trace().iter().all(|r| !matches!(r, TraceEvent::DoingAdvance)) {
        vm.step_with(1000 + steps).unwrap();
        if generated.is_none() {
            generated = vm.current_transact();
        }
        steps += 1;
        assert!(steps < 100);
    }
    assert_eq!(vm.clock_ms(), 13);
    assert!(generated.is_some());
    assert_eq!(vm.current_transact(), generated);
}

#[test]
fn print_emits_the_value_of_a_cell() {
    let mut vm = machine(
        vec![Print(0), Print(1), Print(2), Print(3), Print(4)],
        vec![
            GpssValue::Integer(-12),
            GpssValue::UnsignedInteger(34),
            GpssValue::Facility(5),
            GpssValue::Boolean(true),
            float(0.5),
        ],
        1,
    );
    assert_eq!(vm.process(100), Ok(true));
    let lines: Vec<String> = vm.output().iter().map(|line| line.text("0.5")).collect();
    assert_eq!(
        lines,
        vec!["Integer, -12", "UnsignedInteger, 34", "Facility, 5", "Boolean, true", "Float, 0.5"]
    );
    assert_eq!(vm.output()[4].float_bits(), Some(0.5f32.to_bits()));
    assert_eq!(vm.output()[0].float_bits(), None);
}

#[test]
fn take_output_and_trace_empty_the_sinks() {
    let mut vm = machine(vec![PrintClock, Transfer(3), PrintClock, PrintClock], vec![], 1);
    assert_eq!(vm.process(100), Ok(true));
    let lines = vm.take_output();
    assert_eq!(lines, vec![OutputLine::Clock(0), OutputLine::Clock(0)]);
    assert!(vm.output().is_empty());
    let records = vm.take_trace();
    assert_eq!(records, vec![TraceEvent::Transfer { from: 1, to: 3 }]);
    assert!(vm.trace().is_empty());
}
