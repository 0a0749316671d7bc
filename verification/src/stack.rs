//! The runtime stack of execution frames.
//!
//! The stack records what the shell is currently doing: which built-in is
//! running and whether a trap action is being executed. Built-ins consult it
//! to name themselves in error messages and to decide whether an error must
//! interrupt the shell.

use crate::semantics::{Divert, ExitStatus, Field};
use vstd::prelude::*;

verus! {

/// The currently executing built-in.
#[derive(Debug, Eq, PartialEq)]
pub struct Builtin {
    /// The command name under which the built-in was invoked.
    pub name: Field,
    /// Whether the built-in is a special built-in.
    pub is_special: bool,
}

impl Clone for Builtin {
    fn clone(&self) -> (r: Self)
        ensures
            r == *self,
    {
        Builtin { name: self.name.clone(), is_special: self.is_special }
    }
}

/// Element of the runtime stack.
#[derive(Debug, Eq, PartialEq)]
pub enum Frame {
    /// A built-in is being executed.
    Builtin(Builtin),
    /// A trap action is being executed.
    Trap,
    /// A subshell is being executed.
    Subshell,
}

impl Clone for Frame {
    fn clone(&self) -> (r: Self)
        ensures
            r == *self,
    {
        match self {
            Frame::Builtin(b) => Frame::Builtin(b.clone()),
            Frame::Trap => Frame::Trap,
            Frame::Subshell => Frame::Subshell,
        }
    }
}

/// The topmost built-in frame of a frame sequence, if any.
pub open spec fn top_builtin(frames: Seq<Frame>) -> Option<Builtin>
    decreases frames.len(),
{
    if frames.len() == 0 {
        None
    } else {
        match frames.last() {
            Frame::Builtin(b) => Some(b),
            _ => top_builtin(frames.drop_last()),
        }
    }
}

/// Whether a frame sequence contains a trap frame.
pub open spec fn has_trap_frame(frames: Seq<Frame>) -> bool {
    exists|i: int| 0 <= i < frames.len() && (#[trigger] frames[i]) == Frame::Trap
}

/// The runtime stack of execution frames.
#[derive(Debug, Eq, PartialEq)]
pub struct Stack {
    frames: Vec<Frame>,
}

impl Stack {
    /// The frames, bottom first, for specification purposes.
    pub closed spec fn frames(self) -> Seq<Frame> {
        self.frames@
    }

    /// Creates a stack holding the given frames, bottom first.
    pub fn from(frames: Vec<Frame>) -> (r: Stack)
        ensures
            r.frames() == frames@,
    {
        Stack { frames }
    }

    /// Creates an empty stack.
    pub fn new() -> (r: Stack)
        ensures
            r.frames() == Seq::<Frame>::empty(),
    {
        let r = Stack { frames: Vec::new() };
        proof {
            assert(r.frames() =~= Seq::<Frame>::empty());
        }
        r
    }

    /// Pushes a frame.
    pub fn push_frame(&mut self, frame: Frame)
        ensures
            final (self).frames() == old(self).frames().push(frame),
    {
        self.frames.push(frame);
    }

    /// Pops the topmost frame, if any.
    pub fn pop_frame(&mut self) -> (r: Option<Frame>)
        ensures
            match r {
                Some(f) => old(self).frames().len() > 0 && f == old(self).frames().last() && final (
                self).frames() == old(self).frames().drop_last(),
                None => old(self).frames().len() == 0 && final (self).frames() == old(
                    self,
                ).frames(),
            },
    {
        self.frames.pop()
    }

    /// The topmost built-in frame, if any.
    pub fn current_builtin(&self) -> (r: Option<&Builtin>)
        ensures
            match r {
                Some(b) => top_builtin(self.frames()) == Some(*b),
                None => top_builtin(self.frames()) is None,
            },
    {
        let n = self.frames.len();
        let mut i: usize = n;
        proof {
            assert(self.frames@.take(n as int) =~= self.frames@);
        }
        while i > 0
            invariant
                i <= n,
                n == self.frames@.len(),
                top_builtin(self.frames()) == top_builtin(self.frames@.take(i as int)),
            decreases i,
        {
            proof {
                assert(self.frames@.take(i as int).last() == self.frames@[i - 1]);
                assert(self.frames@.take(i as int).drop_last() =~= self.frames@.take(i - 1 as int));
            }
            if let Frame::Builtin(b) = &self.frames[i - 1] {
                return Some(b);
            }
            i = i - 1;
        }
        proof {
            assert(self.frames@.take(0) =~= Seq::<Frame>::empty());
        }
        None
    }

    /// Whether a trap action is currently being executed.
    pub fn contains_trap(&self) -> (r: bool)
        ensures
            r == has_trap_frame(self.frames()),
    {
        let n = self.frames.len();
        let mut i: usize = 0;
        while i < n
            invariant
                i <= n,
                n == self.frames@.len(),
                forall|j: int| 0 <= j < i ==> (#[trigger] self.frames@[j]) != Frame::Trap,
            decreases n - i,
        {
            if matches!(self.frames[i], Frame::Trap) {
                proof {
                    assert(has_trap_frame(self.frames()));
                }
                return true;
            }
            i = i + 1;
        }
        proof {
            if has_trap_frame(self.frames()) {
                let w = choose|j: int|
                    0 <= j < self.frames@.len() && (#[trigger] self.frames@[j]) == Frame::Trap;
                assert(false);
            }
        }
        false
    }
}

/// Execution environment extension for examining the currently running
/// built-in.
pub trait BuiltinEnv {
    /// The currently executing built-in, as an abstraction.
    spec fn builtin_of(&self) -> Option<Builtin>;

    /// Returns the name of the currently-executing built-in. A built-in must
    /// be executing.
    fn builtin_name(&self) -> (r: &Field)
        requires
            self.builtin_of() is Some,
        ensures
            Some(*r) == match self.builtin_of() {
                Some(b) => Some(b.name),
                None => None,
            },
    ;

    /// Returns whether the currently executing built-in is considered
    /// special. This is false when no built-in is executing.
    fn is_executing_special_builtin(&self) -> (r: bool)
        ensures
            r == match self.builtin_of() {
                Some(b) => b.is_special,
                None => false,
            },
    ;

    /// Returns the divert an error in the current built-in asks for: an
    /// interrupt for a special built-in, nothing otherwise.
    fn builtin_error(&self) -> (r: Option<Divert>)
        ensures
            r == if (match self.builtin_of() {
                Some(b) => b.is_special,
                None => false,
            }) {
                Some(Divert::Interrupt(None))
            } else {
                None::<Divert>
            },
    ;
}

impl BuiltinEnv for Stack {
    open spec fn builtin_of(&self) -> Option<Builtin> {
        top_builtin(self.frames())
    }

    /// Returns the name of the currently-executing built-in.
    fn builtin_name(&self) -> (r: &Field) {
        match self.current_builtin() {
            Some(b) => &b.name,
            None => vstd::pervasive::unreached(),
        }
    }

    /// Returns whether the currently executing built-in is considered
    /// special.
    fn is_executing_special_builtin(&self) -> (r: bool) {
        match self.current_builtin() {
            Some(b) => b.is_special,
            None => false,
        }
    }

    fn builtin_error(&self) -> (r: Option<Divert>) {
        if self.is_executing_special_builtin() {
            Some(Divert::Interrupt(None))
        } else {
            None
        }
    }
}

} // verus!
