//! Running trap commands for caught signals.
//!
//! When the shell catches a signal, the signal is recorded as pending in the
//! [`TrapSet`]. At defined checkpoints the engine drains the pending signals
//! and runs the corresponding command actions. The part of that work that
//! parses and executes a command string is abstracted as a
//! [`TrapCommandRunner`], which the surrounding program supplies.

use crate::semantics::{Divert, ExitStatus};
use crate::source::Location;
use crate::stack::{has_trap_frame, Stack};
use crate::trap::{Action, Condition, Setting, Signal, TrapSet};
use vstd::prelude::*;

verus! {

/// Executes one trap command string.
///
/// The implementor parses the command fresh, with its source tagged as the
/// trap's condition and origin, and executes it, updating the exit status.
/// A divert produced by the command is handed back.
pub trait TrapCommandRunner {
    /// Runs one trap command.
    fn run(
        &mut self,
        code: &str,
        condition: Condition,
        origin: &Location,
        exit_status: &mut ExitStatus,
    ) -> Option<Divert>;
}

/// Whether the shell is currently running a trap action.
pub fn in_trap(stack: &Stack) -> (r: bool)
    ensures
        r == has_trap_frame(stack.frames()),
{
    stack.contains_trap()
}

/// Runs trap commands for signals that have been caught.
///
/// Every pending signal is taken from the trap set; those whose action is a
/// command are run through the runner, with the previous exit status
/// restored after each command. A divert produced by a trap command is
/// passed on at once, leaving the exit status as the command set it. When no
/// trap command diverted, nothing is pending any more: repeated deliveries
/// are drained, and a signal caught once runs its command once.
///
/// If the execution stack already contains a trap frame, nothing at all
/// happens: trap actions are not reentrant, since most scripts do not write
/// them to be.
pub fn run_traps_for_caught_signals<R: TrapCommandRunner>(
    stack: &Stack,
    traps: &mut TrapSet,
    exit_status: &mut ExitStatus,
    runner: &mut R,
) -> (r: Option<Divert>)
    requires
        old(traps).wf(),
    ensures
        final (traps).wf(),
        has_trap_frame(stack.frames()) ==> r is None && *final (traps) == *old(traps) && *final (
        exit_status) == *old(exit_status),
        r is None ==> *final (exit_status) == *old(exit_status),
        !has_trap_frame(stack.frames()) && r is None ==> (forall|sig: Signal|
            match #[trigger] final (traps).state_of(Condition::Signal(sig)) {
                Some(g) => match g.current_setting {
                    Setting::UserSpecified(t) => !t.pending,
                    _ => true,
                },
                None => true,
            }),
        (forall|sig: Signal|
            match #[trigger] old(traps).state_of(Condition::Signal(sig)) {
                Some(g) => match g.current_setting {
                    Setting::UserSpecified(t) => !t.pending,
                    _ => true,
                },
                None => true,
            }) ==> (r is None && *final (traps) == *old(traps) && *final (exit_status) == *old(
        exit_status)),
{
    if in_trap(stack) {
        // Do not run a trap action while running another.
        return None;
    }
    loop
        invariant
            traps.wf(),
            *exit_status == *old(exit_status),
            !has_trap_frame(stack.frames()),
            (forall|sig: Signal|
                match #[trigger] old(traps).state_of(Condition::Signal(sig)) {
                    Some(g) => match g.current_setting {
                        Setting::UserSpecified(t) => !t.pending,
                        _ => true,
                    },
                    None => true,
                }) ==> *traps == *old(traps),
        decreases traps.pending_count(),
    {
        let taken = traps.take_caught_signal();
        let (signal, state) = match taken {
            None => {
                // Nothing is pending any more.
                return None;
            },
            Some(pair) => pair,
        };
        if let Action::Command(code) = &state.action {
            let saved = *exit_status;
            let divert = runner.run(
                code.as_str(),
                Condition::Signal(signal),
                &state.origin,
                exit_status,
            );
            if let Some(d) = divert {
                return Some(d);
            }
            *exit_status = saved;
        }
    }
}

} // verus!
