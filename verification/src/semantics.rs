//! Values the execution engine computes with: fields, exit statuses, and
//! non-local control flow.

use crate::source::Location;
use crate::strings::contains_nul;
use crate::syntax::AndOr;
use crate::trap::Errno;
use vstd::prelude::*;

verus! {

/// A finalized argument value produced by the expansion pipeline: its value
/// plus an origin location.
#[derive(Debug, Eq, PartialEq)]
pub struct Field {
    /// The field value.
    pub value: String,
    /// Where the field originates from.
    pub origin: Location,
}

impl Clone for Field {
    fn clone(&self) -> (r: Self)
        ensures
            r == *self,
    {
        Field { value: self.value.clone(), origin: self.origin.clone() }
    }
}

impl Field {
    /// Creates a field with the given value and a dummy origin, for tests.
    pub fn dummy(value: &str) -> (r: Field)
        ensures
            r.value@ == value@,
    {
        Field { value: value.to_owned(), origin: Location::dummy(value) }
    }

    /// Creates fields with the given values and dummy origins, for tests.
    pub fn dummies(values: &[&str]) -> (r: Vec<Field>)
        ensures
            r@.len() == values@.len(),
            forall|i: int| 0 <= i < values@.len() ==> (#[trigger] r@[i].value@) == values@[i]@,
    {
        let mut r: Vec<Field> = Vec::new();
        let mut i: usize = 0;
        while i < values.len()
            invariant
                i <= values@.len(),
                r@.len() == i,
                forall|j: int| 0 <= j < i ==> (#[trigger] r@[j].value@) == values@[j]@,
            decreases values@.len() - i,
        {
            r.push(Field::dummy(values[i]));
            i = i + 1;
        }
        r
    }
}

/// Exit status of a command.
#[derive(Clone, Copy, Debug, Eq, PartialEq, Structural)]
pub struct ExitStatus(pub i32);

/// Non-local control-flow signal produced by executing a command.
#[derive(Clone, Debug, Eq, PartialEq, Structural)]
pub enum Divert {
    /// Return from a function or dot script.
    Return,
    /// Break a loop, skipping the given number of enclosing loops.
    Break {
        /// Number of loops to break out of, minus one.
        count: usize,
    },
    /// Continue a loop, skipping the given number of enclosing loops.
    Continue {
        /// Number of loops to skip, minus one.
        count: usize,
    },
    /// Interrupt the currently executing command, optionally with a new exit
    /// status; produced by errors of special built-ins.
    Interrupt(Option<ExitStatus>),
    /// Exit the shell, optionally with a new exit status.
    Exit(Option<ExitStatus>),
}

/// How severe a divert is: exiting outranks interrupting, which outranks
/// returning, breaking, and continuing, in that order.
pub open spec fn divert_severity(d: Divert) -> int {
    match d {
        Divert::Continue { .. } => 1,
        Divert::Break { .. } => 2,
        Divert::Return => 3,
        Divert::Interrupt(_) => 4,
        Divert::Exit(_) => 5,
    }
}

/// A tie-breaking rank within one severity level: the loop count, or the
/// carried exit status with an absent status below every present one.
pub open spec fn divert_payload(d: Divert) -> int {
    match d {
        Divert::Continue { count } => count as int,
        Divert::Break { count } => count as int,
        Divert::Return => 0,
        Divert::Interrupt(s) => match s {
            None => -2147483649,
            Some(e) => e.0 as int,
        },
        Divert::Exit(s) => match s {
            None => -2147483649,
            Some(e) => e.0 as int,
        },
    }
}

/// Whether `b` ranks at least as high as `a`: by severity, then by payload.
pub open spec fn divert_ge(a: Divert, b: Divert) -> bool {
    divert_severity(b) > divert_severity(a) || (divert_severity(b) == divert_severity(a)
        && divert_payload(b) >= divert_payload(a))
}

/// The more severe of two diverts; the second wins a tie.
pub fn max_divert(a: Divert, b: Divert) -> (r: Divert)
    ensures
        r == if divert_ge(a, b) {
            b
        } else {
            a
        },
{
    let sa = divert_severity_exec(&a);
    let sb = divert_severity_exec(&b);
    if sb > sa {
        b
    } else if sb < sa {
        a
    } else {
        match (&a, &b) {
            (Divert::Break { count: ca }, Divert::Break { count: cb }) => {
                if *cb >= *ca {
                    b
                } else {
                    a
                }
            },
            (Divert::Continue { count: ca }, Divert::Continue { count: cb }) => {
                if *cb >= *ca {
                    b
                } else {
                    a
                }
            },
            (Divert::Return, Divert::Return) => b,
            (Divert::Interrupt(x), Divert::Interrupt(y)) => {
                if opt_status_ge(x, y) {
                    b
                } else {
                    a
                }
            },
            (Divert::Exit(x), Divert::Exit(y)) => {
                if opt_status_ge(x, y) {
                    b
                } else {
                    a
                }
            },
            _ => {
                proof {
                    assert(false);
                }
                b
            },
        }
    }
}

/// Whether the payload of `b` is at least that of `a`, with an absent status
/// below every present one.
fn opt_status_ge(a: &Option<ExitStatus>, b: &Option<ExitStatus>) -> (r: bool)
    ensures
        r == (match (a, b) {
            (None, _) => true,
            (Some(_), None) => false,
            (Some(x), Some(y)) => y.0 >= x.0,
        }),
{
    match (a, b) {
        (None, _) => true,
        (Some(_), None) => false,
        (Some(x), Some(y)) => y.0 >= x.0,
    }
}

fn divert_severity_exec(d: &Divert) -> (r: i32)
    ensures
        r as int == divert_severity(*d),
{
    match d {
        Divert::Continue { .. } => 1,
        Divert::Break { .. } => 2,
        Divert::Return => 3,
        Divert::Interrupt(_) => 4,
        Divert::Exit(_) => 5,
    }
}

/// Merges the result of a command body with the result of running pending
/// traps afterwards: whichever of the two diverts is more severe wins, and no
/// divert at all loses to any divert.
pub fn merge_results(main: Option<Divert>, trap: Option<Divert>) -> (r: Option<Divert>)
    ensures
        r == match (main, trap) {
            (m, None) => m,
            (None, t) => t,
            (Some(m), Some(t)) => Some(
                if divert_ge(m, t) {
                    t
                } else {
                    m
                },
            ),
        },
{
    match (main, trap) {
        (m, None) => m,
        (None, t) => t,
        (Some(m), Some(t)) => Some(max_divert(m, t)),
    }
}

/// Whether the next pipeline of an and-or list runs: after `&&` exactly
/// when the status so far is zero, after `||` exactly when it is not.
pub fn and_or_continues(op: AndOr, exit_status: ExitStatus) -> (r: bool)
    ensures
        r == (match op {
            AndOr::AndThen => exit_status.0 == 0,
            AndOr::OrElse => exit_status.0 != 0,
        }),
{
    match op {
        AndOr::AndThen => exit_status.0 == 0,
        AndOr::OrElse => exit_status.0 != 0,
    }
}

/// The exit status of a negated pipeline: zero becomes one and any non-zero
/// status becomes zero.
pub fn negate_exit_status(exit_status: ExitStatus) -> (r: ExitStatus)
    ensures
        r == (if exit_status.0 == 0 {
            ExitStatus(1)
        } else {
            ExitStatus(0)
        }),
{
    if exit_status.0 == 0 {
        ExitStatus(1)
    } else {
        ExitStatus(0)
    }
}

/// The exit status of a child process whose exec failed: 127 when the
/// command was not found (`ENOENT` or `ENOTDIR`), 126 for any other failure.
pub fn exec_failure_exit_status(errno: Errno) -> (r: ExitStatus)
    ensures
        r == if errno.0 == 2 || errno.0 == 20 {
            ExitStatus(127)
        } else {
            ExitStatus(126)
        },
{
    if errno.0 == 2 || errno.0 == 20 {
        ExitStatus(127)
    } else {
        ExitStatus(126)
    }
}

/// The argument strings a list of fields hands to `exec`, in order; fields
/// whose value contains a NUL character are dropped.
pub open spec fn exec_arg_strings(fields: Seq<Field>) -> Seq<Seq<char>>
    decreases fields.len(),
{
    if fields.len() == 0 {
        Seq::empty()
    } else {
        let rest = exec_arg_strings(fields.drop_first());
        if !fields[0].value@.contains('\0') {
            seq![fields[0].value@] + rest
        } else {
            rest
        }
    }
}

/// Converts fields to the strings handed to `exec` as arguments, dropping
/// fields that contain a NUL character. The caller turns them into C
/// strings; no string returned here contains a NUL.
pub fn to_c_strings(s: Vec<Field>) -> (r: Vec<String>)
    ensures
        crate::unparse::views_of(r@) == exec_arg_strings(s@),
{
    let mut r: Vec<String> = Vec::new();
    let n = s.len();
    let mut i: usize = 0;
    proof {
        assert(s@.skip(0) =~= s@);
        assert(crate::unparse::views_of(r@) =~= Seq::<Seq<char>>::empty());
        assert(exec_arg_strings(s@) =~= Seq::<Seq<char>>::empty() + exec_arg_strings(s@));
    }
    while i < n
        invariant
            i <= n,
            n == s@.len(),
            exec_arg_strings(s@) =~= crate::unparse::views_of(r@) + exec_arg_strings(
                s@.skip(i as int),
            ),
        decreases n - i,
    {
        proof {
            assert(s@.skip(i as int)[0] == s@[i as int]);
            assert(s@.skip(i as int).drop_first() =~= s@.skip(i + 1 as int));
        }
        if !contains_nul(s[i].value.as_str()) {
            let ghost prev = r@;
            r.push(s[i].value.clone());
            proof {
                assert(crate::unparse::views_of(r@) =~= crate::unparse::views_of(prev).push(
                    r@.last()@,
                ));
            }
        }
        i = i + 1;
        proof {
            assert(exec_arg_strings(s@) =~= crate::unparse::views_of(r@) + exec_arg_strings(
                s@.skip(i as int),
            ));
        }
    }
    proof {
        assert(s@.skip(n as int) =~= Seq::<Field>::empty());
        assert(crate::unparse::views_of(r@) =~= crate::unparse::views_of(r@) + Seq::<
            Seq<char>,
        >::empty());
    }
    r
}

} // verus!
