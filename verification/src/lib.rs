//! Core of an extended POSIX shell: the shell language syntax tree, word
//! expansion, variable scoping, and signal traps, with machine-checked
//! contracts on the operations that the rest of a shell builds on.

pub mod args;
pub mod arith;
pub mod arith_eval;
pub mod builtin_common;
pub mod cd;
pub mod env;
pub mod expansion;
pub mod job;
pub mod message;
pub mod numeral;
pub mod parser;
pub mod semantics;
pub mod source;
pub mod stack;
pub mod strings;
pub mod syntax;
pub mod trap;
pub mod trap_run;
pub mod unparse;
pub mod unset;
pub mod variable;
