//! Tests for execution-engine values: diverts, exit statuses, fields, and
//! jobs.

use yash_core::job::{Job, JobSet, WaitStatus};
use yash_core::numeral::{i64_to_dec_string, u64_to_dec_string};
use yash_core::semantics::{
    and_or_continues, exec_failure_exit_status, max_divert, merge_results, negate_exit_status,
    to_c_strings, Divert, ExitStatus, Field,
};
use yash_core::syntax::AndOr;
use yash_core::arith::ArithError;
use yash_core::source::Location;
use yash_core::trap::{Errno, SetActionError};
use yash_core::variable::{ReadOnlyError, Scalar, Variable};

#[test]
fn divert_severity_ordering() {
    let exit = Divert::Exit(None);
    let interrupt = Divert::Interrupt(None);
    let ret = Divert::Return;
    let brk = Divert::Break { count: 0 };
    let cont = Divert::Continue { count: 0 };
    assert_eq!(max_divert(exit.clone(), interrupt.clone()), exit);
    assert_eq!(max_divert(interrupt.clone(), ret.clone()), interrupt);
    assert_eq!(max_divert(ret.clone(), brk.clone()), ret);
    assert_eq!(max_divert(brk.clone(), cont.clone()), brk);
    assert_eq!(max_divert(cont.clone(), exit.clone()), exit);
}

#[test]
fn divert_ties_prefer_larger_payload() {
    let small = Divert::Break { count: 1 };
    let large = Divert::Break { count: 3 };
    assert_eq!(max_divert(small.clone(), large.clone()), large);
    assert_eq!(max_divert(large.clone(), small.clone()), large);
}

#[test]
fn merge_results_picks_more_severe() {
    assert_eq!(merge_results(None, None), None);
    assert_eq!(merge_results(Some(Divert::Return), None), Some(Divert::Return));
    assert_eq!(merge_results(None, Some(Divert::Return)), Some(Divert::Return));
    assert_eq!(
        merge_results(Some(Divert::Return), Some(Divert::Exit(None))),
        Some(Divert::Exit(None))
    );
    assert_eq!(
        merge_results(Some(Divert::Exit(Some(ExitStatus(1)))), Some(Divert::Return)),
        Some(Divert::Exit(Some(ExitStatus(1))))
    );
}

#[test]
fn exec_failure_exit_statuses() {
    assert_eq!(exec_failure_exit_status(Errno(2)), ExitStatus(127));
    assert_eq!(exec_failure_exit_status(Errno(20)), ExitStatus(127));
    assert_eq!(exec_failure_exit_status(Errno(13)), ExitStatus(126));
}

#[test]
fn to_c_strings_drops_nul_fields() {
    let fields = vec![
        Field::dummy("ls"),
        Field::dummy("a\0b"),
        Field::dummy("-l"),
    ];
    let strings = to_c_strings(fields);
    assert_eq!(strings, vec!["ls".to_string(), "-l".to_string()]);
}

#[test]
fn field_dummies() {
    let fields = Field::dummies(&["a", "b"]);
    assert_eq!(fields.len(), 2);
    assert_eq!(fields[0].value, "a");
    assert_eq!(fields[1].value, "b");
}

#[test]
fn job_new() {
    let job = Job::new(42);
    assert_eq!(job.pid, 42);
    assert!(!job.job_controlled);
    assert_eq!(job.status, WaitStatus::StillAlive);
    assert_eq!(job.name, "");
}

#[test]
fn job_set_add_get_remove() {
    let mut jobs = JobSet::new();
    let i1 = jobs.add_job(Job::new(10));
    let i2 = jobs.add_job(Job::new(20));
    assert_ne!(i1, i2);
    assert_eq!(jobs.get_job(i1).unwrap().pid, 10);
    assert_eq!(jobs.get_job(i2).unwrap().pid, 20);

    let removed = jobs.remove_job(i1).unwrap();
    assert_eq!(removed.pid, 10);
    assert!(jobs.get_job(i1).is_none());
    assert!(jobs.remove_job(i1).is_none());
    assert_eq!(jobs.get_job(i2).unwrap().pid, 20);
}

#[test]
fn job_set_iter_in_index_order() {
    let mut jobs = JobSet::new();
    let i1 = jobs.add_job(Job::new(1));
    let i2 = jobs.add_job(Job::new(2));
    let i3 = jobs.add_job(Job::new(3));
    jobs.remove_job(i2);
    let items = jobs.iter();
    assert_eq!(items.len(), 2);
    assert_eq!(items[0].0, i1);
    assert_eq!(items[0].1.pid, 1);
    assert_eq!(items[1].0, i3);
    assert_eq!(items[1].1.pid, 3);
}

#[test]
fn last_async_pid() {
    let mut jobs = JobSet::new();
    assert_eq!(jobs.last_async_pid(), 0);
    jobs.set_last_async_pid(123);
    assert_eq!(jobs.last_async_pid(), 123);
    assert_eq!(jobs.expand_last_async_pid(), 123);
}

#[test]
fn decimal_rendering() {
    assert_eq!(u64_to_dec_string(0), "0");
    assert_eq!(u64_to_dec_string(105), "105");
    assert_eq!(i64_to_dec_string(-27), "-27");
    assert_eq!(i64_to_dec_string(9223372036854775807), "9223372036854775807");
    assert_eq!(i64_to_dec_string(-9223372036854775808), "-9223372036854775808");
}

#[test]
fn set_action_error_messages() {
    assert_eq!(
        SetActionError::InitiallyIgnored.message(),
        "the signal has been ignored since startup"
    );
    assert_eq!(
        SetActionError::SIGKILL.message(),
        "cannot set a trap for SIGKILL"
    );
    assert_eq!(
        SetActionError::SIGSTOP.message(),
        "cannot set a trap for SIGSTOP"
    );
    assert_eq!(
        SetActionError::SystemError(Errno(22)).message(),
        "system error 22"
    );
}

#[test]
fn arith_error_messages() {
    assert_eq!(ArithError::Overflow.message(), "overflow");
    assert_eq!(ArithError::DivisionByZero.message(), "division by zero");
    assert_eq!(
        ArithError::InvalidVariableValue("oops".to_string()).message(),
        "invalid variable value: oops"
    );
}

#[test]
fn arith_error_related_location() {
    assert_eq!(ArithError::Overflow.related_location(), None);
    let location = Location::dummy("(");
    let error = ArithError::UnclosedParenthesis {
        opening_location: location.clone(),
    };
    let (related, description) = error.related_location().unwrap();
    assert_eq!(*related, location);
    assert_eq!(description, "the opening parenthesis was here");
    let location = Location::dummy("?");
    let error = ArithError::QuestionWithoutColon {
        question_location: location.clone(),
    };
    let (related, description) = error.related_location().unwrap();
    assert_eq!(*related, location);
    assert_eq!(description, "`?` was here");
}

#[test]
fn read_only_error_message() {
    let error = ReadOnlyError {
        name: "foo".to_string(),
        read_only_location: Location::dummy("ro"),
        new_value: Variable {
            value: Scalar("1".to_string()),
            last_assigned_location: None,
            is_exported: false,
            read_only_location: None,
        },
    };
    assert_eq!(error.message(), "variable `foo` is read-only");
}

#[test]
fn and_then_continues_only_on_success() {
    assert!(and_or_continues(AndOr::AndThen, ExitStatus(0)));
    assert!(!and_or_continues(AndOr::AndThen, ExitStatus(1)));
    assert!(!and_or_continues(AndOr::AndThen, ExitStatus(127)));
}

#[test]
fn or_else_continues_only_on_failure() {
    assert!(!and_or_continues(AndOr::OrElse, ExitStatus(0)));
    assert!(and_or_continues(AndOr::OrElse, ExitStatus(1)));
    assert!(and_or_continues(AndOr::OrElse, ExitStatus(42)));
}

#[test]
fn negation_flips_success_and_failure() {
    assert_eq!(negate_exit_status(ExitStatus(0)), ExitStatus(1));
    assert_eq!(negate_exit_status(ExitStatus(1)), ExitStatus(0));
    assert_eq!(negate_exit_status(ExitStatus(255)), ExitStatus(0));
}
