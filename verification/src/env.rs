//! The shell execution environment: the owned aggregate of in-process state
//! that execution threads through.

use crate::job::JobSet;
use crate::semantics::{Divert, ExitStatus, Field};
use crate::stack::{top_builtin, Builtin, BuiltinEnv, Stack};
use crate::trap::TrapSet;
use crate::variable::{ContextType, VariableSet};
use vstd::prelude::*;

verus! {

/// The state of one shell process: variables, traps, the runtime stack, and
/// the last exit status. Subshells receive a deep copy.
#[derive(Debug)]
pub struct Env {
    /// Shell variables and positional parameters.
    pub variables: VariableSet,
    /// Trap configuration.
    pub traps: TrapSet,
    /// Runtime stack of execution frames.
    pub stack: Stack,
    /// Jobs of the shell.
    pub jobs: JobSet,
    /// Exit status of the last command.
    pub exit_status: ExitStatus,
}

impl Env {
    /// Creates an environment with no variables, no traps, an empty stack,
    /// and a zero exit status.
    pub fn new() -> (r: Env)
        ensures
            r.variables.wf(),
            r.variables.ctxs().len() == 1,
            forall|n: Seq<char>|
                r.variables.stack_of(n) == Seq::<crate::variable::VariableInContext>::empty(),
            r.traps.wf(),
            forall|c: crate::trap::Condition| r.traps.state_of(c) is None,
            r.stack.frames() == Seq::<crate::stack::Frame>::empty(),
            forall|k: int| !r.jobs.jobs_map().dom().contains(k),
            r.jobs.last_async() == 0,
            r.exit_status == ExitStatus(0),
    {
        Env {
            variables: VariableSet::new(),
            traps: TrapSet::new(),
            stack: Stack::new(),
            jobs: JobSet::new(),
            exit_status: ExitStatus(0),
        }
    }

    /// Pushes a new variable context of the given type.
    pub fn push_context(&mut self, context_type: ContextType)
        ensures
            old(self).variables.wf() ==> final (self).variables.wf(),
            final (self).variables.ctxs().len() == old(self).variables.ctxs().len() + 1,
            final (self).variables.ctxs() == old(self).variables.ctxs().push(
                final (self).variables.ctxs().last(),
            ),
            final (self).variables.ctxs().last().context_type == context_type,
            forall|m: Seq<char>|
                final (self).variables.stack_of(m) == old(self).variables.stack_of(m),
            final (self).traps == old(self).traps,
            final (self).stack == old(self).stack,
            final (self).jobs == old(self).jobs,
            final (self).exit_status == old(self).exit_status,
    {
        self.variables.push_context(context_type);
    }

    /// Pops the topmost variable context, removing every binding it owned.
    /// The base context cannot be popped.
    pub fn pop_context(&mut self)
        requires
            old(self).variables.wf(),
            old(self).variables.ctxs().len() > 1,
        ensures
            final (self).variables.wf(),
            final (self).variables.ctxs() == old(self).variables.ctxs().drop_last(),
            forall|m: Seq<char>|
                final (self).variables.stack_of(m) == crate::variable::popped_stack(
                    old(self).variables.stack_of(m),
                    old(self).variables.ctxs().len() - 1,
                ),
            final (self).traps == old(self).traps,
            final (self).stack == old(self).stack,
            final (self).jobs == old(self).jobs,
            final (self).exit_status == old(self).exit_status,
    {
        self.variables.pop_context();
    }
}

impl BuiltinEnv for Env {
    open spec fn builtin_of(&self) -> Option<Builtin> {
        top_builtin(self.stack.frames())
    }

    /// Returns the name of the currently-executing built-in.
    fn builtin_name(&self) -> (r: &Field) {
        self.stack.builtin_name()
    }

    fn is_executing_special_builtin(&self) -> (r: bool) {
        self.stack.is_executing_special_builtin()
    }

    fn builtin_error(&self) -> (r: Option<Divert>) {
        self.stack.builtin_error()
    }
}

} // verus!
