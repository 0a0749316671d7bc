//! Tests for running trap commands for caught signals.

use yash_core::semantics::{Divert, ExitStatus};
use yash_core::source::Location;
use yash_core::stack::{Frame, Stack};
use yash_core::trap::{Action, Condition, Signal, TrapSet, VirtualSignalSystem};
use yash_core::trap_run::{in_trap, run_traps_for_caught_signals, TrapCommandRunner};

/// A runner that understands `echo X` (appends `X` and a newline to its
/// output) and `return N` (sets the exit status to `N` and diverts).
struct EchoRunner {
    stdout: String,
    conditions: Vec<Condition>,
}

impl EchoRunner {
    fn new() -> Self {
        EchoRunner {
            stdout: String::new(),
            conditions: Vec::new(),
        }
    }
}

impl TrapCommandRunner for EchoRunner {
    fn run(
        &mut self,
        code: &str,
        condition: Condition,
        _origin: &Location,
        exit_status: &mut ExitStatus,
    ) -> Option<Divert> {
        self.conditions.push(condition);
        if let Some(rest) = code.strip_prefix("echo ") {
            self.stdout.push_str(rest);
            self.stdout.push('\n');
            *exit_status = ExitStatus(0);
            None
        } else if let Some(rest) = code.strip_prefix("return ") {
            *exit_status = ExitStatus(rest.parse().unwrap());
            Some(Divert::Return)
        } else {
            *exit_status = ExitStatus(127);
            None
        }
    }
}

fn trap_env() -> (TrapSet, VirtualSignalSystem) {
    let mut system = VirtualSignalSystem::new();
    let mut traps = TrapSet::new();
    traps
        .set_action(
            &mut system,
            Signal::SIGINT,
            Action::Command("echo trapped".to_string()),
            Location::dummy(""),
            false,
        )
        .unwrap();
    traps
        .set_action(
            &mut system,
            Signal::SIGUSR1,
            Action::Command("return 56".to_string()),
            Location::dummy(""),
            false,
        )
        .unwrap();
    (traps, system)
}

#[test]
fn nothing_to_do_without_signals_caught() {
    let (mut traps, _system) = trap_env();
    let stack = Stack::new();
    let mut exit_status = ExitStatus(0);
    let mut runner = EchoRunner::new();
    let result = run_traps_for_caught_signals(&stack, &mut traps, &mut exit_status, &mut runner);
    assert_eq!(result, None);
    assert_eq!(runner.stdout, "");
}

#[test]
fn running_trap() {
    let (mut traps, _system) = trap_env();
    let stack = Stack::new();
    let mut exit_status = ExitStatus(0);
    let mut runner = EchoRunner::new();
    traps.catch_signal(Signal::SIGINT);
    let result = run_traps_for_caught_signals(&stack, &mut traps, &mut exit_status, &mut runner);
    assert_eq!(result, None);
    assert_eq!(runner.stdout, "trapped\n");
    assert_eq!(
        runner.conditions,
        vec![Condition::Signal(Signal::SIGINT)]
    );

    // A second run without a new delivery does nothing.
    let result = run_traps_for_caught_signals(&stack, &mut traps, &mut exit_status, &mut runner);
    assert_eq!(result, None);
    assert_eq!(runner.stdout, "trapped\n");
}

#[test]
fn no_reentrance() {
    let (mut traps, _system) = trap_env();
    let mut stack = Stack::new();
    stack.push_frame(Frame::Trap);
    assert!(in_trap(&stack));
    let mut exit_status = ExitStatus(0);
    let mut runner = EchoRunner::new();
    traps.catch_signal(Signal::SIGINT);
    let result = run_traps_for_caught_signals(&stack, &mut traps, &mut exit_status, &mut runner);
    assert_eq!(result, None);
    assert_eq!(runner.stdout, "");
    // The pending signal is still there for a later run.
    let state = traps.get_state(Signal::SIGINT).0.unwrap();
    assert!(state.pending);
}

#[test]
fn exit_status_is_restored_after_running_trap() {
    let (mut traps, _system) = trap_env();
    let stack = Stack::new();
    let mut exit_status = ExitStatus(42);
    let mut runner = EchoRunner::new();
    traps.catch_signal(Signal::SIGINT);
    let _ = run_traps_for_caught_signals(&stack, &mut traps, &mut exit_status, &mut runner);
    assert_eq!(exit_status, ExitStatus(42));
}

#[test]
fn exit_from_trap() {
    let (mut traps, _system) = trap_env();
    let stack = Stack::new();
    let mut exit_status = ExitStatus(0);
    let mut runner = EchoRunner::new();
    traps.catch_signal(Signal::SIGUSR1);
    let result = run_traps_for_caught_signals(&stack, &mut traps, &mut exit_status, &mut runner);
    assert_eq!(result, Some(Divert::Return));
    assert_eq!(exit_status, ExitStatus(56));
}

#[test]
fn stack_frame_in_trap_action() {
    let (mut traps, _system) = trap_env();
    let stack = Stack::new();
    let mut exit_status = ExitStatus(0);
    let mut runner = EchoRunner::new();
    traps.catch_signal(Signal::SIGINT);
    let _ = run_traps_for_caught_signals(&stack, &mut traps, &mut exit_status, &mut runner);
    // The runner was handed the condition of the trap it runs for.
    assert_eq!(
        runner.conditions,
        vec![Condition::Signal(Signal::SIGINT)]
    );
}

#[test]
fn ignored_actions_are_not_run() {
    let mut system = VirtualSignalSystem::new();
    let mut traps = TrapSet::new();
    traps
        .set_action(
            &mut system,
            Signal::SIGTERM,
            Action::Ignore,
            Location::dummy(""),
            false,
        )
        .unwrap();
    traps.catch_signal(Signal::SIGTERM);
    let stack = Stack::new();
    let mut exit_status = ExitStatus(0);
    let mut runner = EchoRunner::new();
    let result = run_traps_for_caught_signals(&stack, &mut traps, &mut exit_status, &mut runner);
    assert_eq!(result, None);
    assert_eq!(runner.conditions, vec![]);
}
