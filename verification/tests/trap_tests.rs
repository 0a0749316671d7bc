//! Tests for the trap set and its signal-system bookkeeping.

use yash_core::source::Location;
use yash_core::trap::{
    Action, Condition, ParseConditionError, SetActionError, Signal, SignalHandling, SignalSystem,
    TrapSet, TrapState, VirtualSignalSystem,
};

fn command(s: &str) -> Action {
    Action::Command(s.to_string())
}

#[test]
fn condition_display() {
    assert_eq!(Condition::Exit.name(), "EXIT");
    assert_eq!(Condition::Signal(Signal::SIGINT).name(), "INT");
}

#[test]
fn condition_from_str() {
    assert_eq!(Condition::from_str("EXIT"), Ok(Condition::Exit));
    assert_eq!(
        Condition::from_str("TERM"),
        Ok(Condition::Signal(Signal::SIGTERM))
    );
    assert_eq!(Condition::from_str("FOO"), Err(ParseConditionError));
}

#[test]
fn default_trap() {
    let trap_set = TrapSet::default();
    assert_eq!(trap_set.get_state(Signal::SIGCHLD), (None, None));
}

#[test]
fn setting_trap_to_ignore() {
    let mut system = VirtualSignalSystem::new();
    let mut trap_set = TrapSet::default();
    let origin = Location::dummy("origin");

    let result = trap_set.set_action(
        &mut system,
        Signal::SIGCHLD,
        Action::Ignore,
        origin.clone(),
        false,
    );
    assert_eq!(result, Ok(()));
    assert_eq!(
        trap_set.get_state(Signal::SIGCHLD),
        (
            Some(&TrapState {
                action: Action::Ignore,
                origin,
                pending: false
            }),
            None
        )
    );
    assert_eq!(
        system.current_disposition(Signal::SIGCHLD),
        SignalHandling::Ignore
    );
}

#[test]
fn setting_trap_to_command() {
    let mut system = VirtualSignalSystem::new();
    let mut trap_set = TrapSet::default();
    let action = command("echo");
    let origin = Location::dummy("origin");
    let result = trap_set.set_action(
        &mut system,
        Signal::SIGCHLD,
        action.clone(),
        origin.clone(),
        false,
    );
    assert_eq!(result, Ok(()));
    assert_eq!(
        trap_set.get_state(Signal::SIGCHLD),
        (
            Some(&TrapState {
                action,
                origin,
                pending: false
            }),
            None
        )
    );
    assert_eq!(
        system.current_disposition(Signal::SIGCHLD),
        SignalHandling::Catch
    );
}

#[test]
fn setting_trap_to_default() {
    let mut system = VirtualSignalSystem::new();
    let mut trap_set = TrapSet::default();
    let origin = Location::dummy("foo");
    trap_set
        .set_action(&mut system, Signal::SIGCHLD, Action::Ignore, origin, false)
        .unwrap();

    let origin = Location::dummy("bar");
    let result = trap_set.set_action(
        &mut system,
        Signal::SIGCHLD,
        Action::Default,
        origin.clone(),
        false,
    );
    assert_eq!(result, Ok(()));
    assert_eq!(
        trap_set.get_state(Signal::SIGCHLD),
        (
            Some(&TrapState {
                action: Action::Default,
                origin,
                pending: false
            }),
            None
        )
    );
    assert_eq!(
        system.current_disposition(Signal::SIGCHLD),
        SignalHandling::Default
    );
}

#[test]
fn resetting_trap_from_ignore_no_override() {
    let mut system = VirtualSignalSystem::new();
    system
        .set_signal_handling(Signal::SIGCHLD, SignalHandling::Ignore)
        .unwrap();
    let mut trap_set = TrapSet::default();
    let origin = Location::dummy("foo");
    let result = trap_set.set_action(&mut system, Signal::SIGCHLD, Action::Ignore, origin, false);
    assert_eq!(result, Err(SetActionError::InitiallyIgnored));

    // Idempotence
    let origin = Location::dummy("bar");
    let result = trap_set.set_action(&mut system, Signal::SIGCHLD, Action::Ignore, origin, false);
    assert_eq!(result, Err(SetActionError::InitiallyIgnored));

    assert_eq!(trap_set.get_state(Signal::SIGCHLD), (None, None));
    assert_eq!(
        system.current_disposition(Signal::SIGCHLD),
        SignalHandling::Ignore
    );
}

#[test]
fn resetting_trap_from_ignore_override() {
    let mut system = VirtualSignalSystem::new();
    system
        .set_signal_handling(Signal::SIGCHLD, SignalHandling::Ignore)
        .unwrap();
    let mut trap_set = TrapSet::default();
    let origin = Location::dummy("origin");
    let result = trap_set.set_action(
        &mut system,
        Signal::SIGCHLD,
        Action::Ignore,
        origin.clone(),
        true,
    );
    assert_eq!(result, Ok(()));
    assert_eq!(
        trap_set.get_state(Signal::SIGCHLD),
        (
            Some(&TrapState {
                action: Action::Ignore,
                origin,
                pending: false
            }),
            None
        )
    );
    assert_eq!(
        system.current_disposition(Signal::SIGCHLD),
        SignalHandling::Ignore
    );
}

#[test]
fn setting_trap_for_two_signals() {
    let mut system = VirtualSignalSystem::new();
    let mut trap_set = TrapSet::default();
    let origin_1 = Location::dummy("foo");
    let result = trap_set.set_action(
        &mut system,
        Signal::SIGUSR1,
        Action::Ignore,
        origin_1.clone(),
        false,
    );
    assert_eq!(result, Ok(()));

    let action = command("echo");
    let origin_2 = Location::dummy("bar");
    let result = trap_set.set_action(
        &mut system,
        Signal::SIGUSR2,
        action.clone(),
        origin_2.clone(),
        false,
    );
    assert_eq!(result, Ok(()));

    assert_eq!(
        trap_set.get_state(Signal::SIGUSR1),
        (
            Some(&TrapState {
                action: Action::Ignore,
                origin: origin_1,
                pending: false
            }),
            None
        )
    );
    assert_eq!(
        trap_set.get_state(Signal::SIGUSR2),
        (
            Some(&TrapState {
                action,
                origin: origin_2,
                pending: false
            }),
            None
        )
    );
    assert_eq!(
        system.current_disposition(Signal::SIGUSR1),
        SignalHandling::Ignore
    );
    assert_eq!(
        system.current_disposition(Signal::SIGUSR2),
        SignalHandling::Catch
    );
}

#[test]
fn setting_trap_for_sigkill() {
    let mut system = VirtualSignalSystem::new();
    let mut trap_set = TrapSet::default();
    let origin = Location::dummy("origin");
    let result = trap_set.set_action(&mut system, Signal::SIGKILL, Action::Ignore, origin, false);
    assert_eq!(result, Err(SetActionError::SIGKILL));
    assert_eq!(trap_set.get_state(Signal::SIGKILL), (None, None));
    assert_eq!(
        system.current_disposition(Signal::SIGKILL),
        SignalHandling::Default
    );
}

#[test]
fn setting_trap_for_sigstop() {
    let mut system = VirtualSignalSystem::new();
    let mut trap_set = TrapSet::default();
    let origin = Location::dummy("origin");
    let result = trap_set.set_action(&mut system, Signal::SIGSTOP, Action::Ignore, origin, false);
    assert_eq!(result, Err(SetActionError::SIGSTOP));
    assert_eq!(trap_set.get_state(Signal::SIGSTOP), (None, None));
    assert_eq!(
        system.current_disposition(Signal::SIGSTOP),
        SignalHandling::Default
    );
}

#[test]
fn basic_iteration() {
    let mut system = VirtualSignalSystem::new();
    let mut trap_set = TrapSet::default();
    let origin_1 = Location::dummy("foo");
    trap_set
        .set_action(
            &mut system,
            Signal::SIGUSR1,
            Action::Ignore,
            origin_1.clone(),
            false,
        )
        .unwrap();
    let action = command("echo");
    let origin_2 = Location::dummy("bar");
    trap_set
        .set_action(
            &mut system,
            Signal::SIGUSR2,
            action.clone(),
            origin_2.clone(),
            false,
        )
        .unwrap();

    let items = trap_set.iter();
    assert_eq!(items.len(), 2);
    assert_eq!(items[0].0, Signal::SIGUSR1);
    assert_eq!(items[0].1.as_ref().unwrap().action, Action::Ignore);
    assert_eq!(items[0].1.as_ref().unwrap().origin, origin_1);
    assert_eq!(items[0].2, None);
    assert_eq!(items[1].0, Signal::SIGUSR2);
    assert_eq!(items[1].1.as_ref().unwrap().action, action);
    assert_eq!(items[1].1.as_ref().unwrap().origin, origin_2);
    assert_eq!(items[1].2, None);
}

#[test]
fn iteration_after_entering_subshell() {
    let mut system = VirtualSignalSystem::new();
    let mut trap_set = TrapSet::default();
    let origin_1 = Location::dummy("foo");
    trap_set
        .set_action(
            &mut system,
            Signal::SIGUSR1,
            Action::Ignore,
            origin_1.clone(),
            false,
        )
        .unwrap();
    let action = command("echo");
    let origin_2 = Location::dummy("bar");
    trap_set
        .set_action(
            &mut system,
            Signal::SIGUSR2,
            action.clone(),
            origin_2.clone(),
            false,
        )
        .unwrap();
    trap_set.enter_subshell(&mut system);

    let items = trap_set.iter();
    assert_eq!(items.len(), 2);
    assert_eq!(items[0].0, Signal::SIGUSR1);
    assert_eq!(items[0].1.as_ref().unwrap().action, Action::Ignore);
    assert_eq!(items[0].1.as_ref().unwrap().origin, origin_1);
    assert_eq!(items[0].2, None);
    assert_eq!(items[1].0, Signal::SIGUSR2);
    assert_eq!(items[1].1, None);
    assert_eq!(items[1].2.as_ref().unwrap().action, action);
    assert_eq!(items[1].2.as_ref().unwrap().origin, origin_2);
}

#[test]
fn iteration_after_setting_trap_in_subshell() {
    let mut system = VirtualSignalSystem::new();
    let mut trap_set = TrapSet::default();
    let origin_1 = Location::dummy("foo");
    trap_set
        .set_action(&mut system, Signal::SIGUSR1, command("echo"), origin_1, false)
        .unwrap();
    trap_set.enter_subshell(&mut system);
    let origin_2 = Location::dummy("bar");
    let action = command("ls");
    trap_set
        .set_action(
            &mut system,
            Signal::SIGUSR2,
            action.clone(),
            origin_2.clone(),
            false,
        )
        .unwrap();

    let items = trap_set.iter();
    assert_eq!(items.len(), 1);
    assert_eq!(items[0].0, Signal::SIGUSR2);
    assert_eq!(items[0].1.as_ref().unwrap().action, action);
    assert_eq!(items[0].1.as_ref().unwrap().origin, origin_2);
    assert_eq!(items[0].2, None);
}

#[test]
fn entering_subshell_resets_command_traps() {
    let mut system = VirtualSignalSystem::new();
    let mut trap_set = TrapSet::default();
    let action = command("");
    let origin = Location::dummy("origin");
    trap_set
        .set_action(
            &mut system,
            Signal::SIGCHLD,
            action.clone(),
            origin.clone(),
            false,
        )
        .unwrap();

    trap_set.enter_subshell(&mut system);
    assert_eq!(
        trap_set.get_state(Signal::SIGCHLD),
        (
            None,
            Some(&TrapState {
                action,
                origin,
                pending: false
            })
        )
    );
    assert_eq!(
        system.current_disposition(Signal::SIGCHLD),
        SignalHandling::Default
    );
}

#[test]
fn entering_subshell_keeps_ignore_traps() {
    let mut system = VirtualSignalSystem::new();
    let mut trap_set = TrapSet::default();
    let origin = Location::dummy("origin");
    trap_set
        .set_action(
            &mut system,
            Signal::SIGCHLD,
            Action::Ignore,
            origin.clone(),
            false,
        )
        .unwrap();

    trap_set.enter_subshell(&mut system);
    assert_eq!(
        trap_set.get_state(Signal::SIGCHLD),
        (
            Some(&TrapState {
                action: Action::Ignore,
                origin,
                pending: false
            }),
            None
        )
    );
    assert_eq!(
        system.current_disposition(Signal::SIGCHLD),
        SignalHandling::Ignore
    );
}

#[test]
fn entering_subshell_with_internal_handler() {
    let mut system = VirtualSignalSystem::new();
    let mut trap_set = TrapSet::default();
    let action = command("");
    let origin = Location::dummy("origin");
    trap_set
        .set_action(
            &mut system,
            Signal::SIGCHLD,
            action.clone(),
            origin.clone(),
            false,
        )
        .unwrap();
    trap_set.enable_sigchld_handler(&mut system).unwrap();

    trap_set.enter_subshell(&mut system);
    assert_eq!(
        trap_set.get_state(Signal::SIGCHLD),
        (
            None,
            Some(&TrapState {
                action,
                origin,
                pending: false
            })
        )
    );
    assert_eq!(
        system.current_disposition(Signal::SIGCHLD),
        SignalHandling::Catch
    );
}

#[test]
fn setting_trap_after_entering_subshell_clears_parent_states() {
    let mut system = VirtualSignalSystem::new();
    let mut trap_set = TrapSet::default();
    let origin_1 = Location::dummy("foo");
    trap_set
        .set_action(&mut system, Signal::SIGUSR1, command("echo 1"), origin_1, false)
        .unwrap();
    let origin_2 = Location::dummy("bar");
    trap_set
        .set_action(&mut system, Signal::SIGUSR2, command("echo 2"), origin_2, false)
        .unwrap();
    trap_set.enter_subshell(&mut system);

    let action = command("echo 9");
    let origin_3 = Location::dummy("qux");
    trap_set
        .set_action(
            &mut system,
            Signal::SIGUSR1,
            action.clone(),
            origin_3.clone(),
            false,
        )
        .unwrap();

    assert_eq!(
        trap_set.get_state(Signal::SIGUSR1),
        (
            Some(&TrapState {
                action,
                origin: origin_3,
                pending: false
            }),
            None
        )
    );
    assert_eq!(trap_set.get_state(Signal::SIGUSR2), (None, None));
    assert_eq!(
        system.current_disposition(Signal::SIGUSR1),
        SignalHandling::Catch
    );
    assert_eq!(
        system.current_disposition(Signal::SIGUSR2),
        SignalHandling::Default
    );
}

#[test]
fn entering_nested_subshell_clears_parent_states() {
    let mut system = VirtualSignalSystem::new();
    let mut trap_set = TrapSet::default();
    let origin_1 = Location::dummy("foo");
    trap_set
        .set_action(&mut system, Signal::SIGUSR1, command("echo 1"), origin_1, false)
        .unwrap();
    let origin_2 = Location::dummy("bar");
    trap_set
        .set_action(&mut system, Signal::SIGUSR2, command("echo 2"), origin_2, false)
        .unwrap();
    trap_set.enter_subshell(&mut system);
    trap_set.enter_subshell(&mut system);

    assert_eq!(trap_set.get_state(Signal::SIGUSR1), (None, None));
    assert_eq!(trap_set.get_state(Signal::SIGUSR2), (None, None));
    assert_eq!(
        system.current_disposition(Signal::SIGUSR1),
        SignalHandling::Default
    );
    assert_eq!(
        system.current_disposition(Signal::SIGUSR2),
        SignalHandling::Default
    );
}

#[test]
fn catching_signal() {
    let mut system = VirtualSignalSystem::new();
    let mut trap_set = TrapSet::default();
    let origin = Location::dummy("origin");
    trap_set
        .set_action(&mut system, Signal::SIGINT, command("echo INT"), origin, false)
        .unwrap();
    let origin = Location::dummy("origin");
    trap_set
        .set_action(&mut system, Signal::SIGTERM, command("echo TERM"), origin, false)
        .unwrap();

    trap_set.catch_signal(Signal::SIGCHLD);
    trap_set.catch_signal(Signal::SIGINT);

    let trap_state = trap_set.get_state(Signal::SIGINT).0.unwrap();
    assert!(trap_state.pending, "{:?}", trap_state);
    let trap_state = trap_set.get_state(Signal::SIGTERM).0.unwrap();
    assert!(!trap_state.pending, "{:?}", trap_state);
}

#[test]
fn taking_caught_signal() {
    let mut system = VirtualSignalSystem::new();
    let mut trap_set = TrapSet::default();
    assert_eq!(trap_set.take_caught_signal(), None);

    let origin = Location::dummy("origin");
    trap_set
        .set_action(&mut system, Signal::SIGINT, command("echo INT"), origin, false)
        .unwrap();
    let origin = Location::dummy("origin");
    trap_set
        .set_action(&mut system, Signal::SIGTERM, command("echo TERM"), origin, false)
        .unwrap();
    let origin = Location::dummy("origin");
    trap_set
        .set_action(&mut system, Signal::SIGUSR1, command("echo USR1"), origin, false)
        .unwrap();
    assert_eq!(trap_set.take_caught_signal(), None);

    trap_set.catch_signal(Signal::SIGINT);
    trap_set.catch_signal(Signal::SIGUSR1);
    // The order in which take_caught_signal returns the two signals is left
    // open, so both orders are accepted.
    let result = trap_set.take_caught_signal().unwrap();
    match result.0 {
        Signal::SIGINT => {
            assert_eq!(result.1.action, command("echo INT"));
            assert!(!result.1.pending);

            let result = trap_set.take_caught_signal().unwrap();
            assert_eq!(result.0, Signal::SIGUSR1);
            assert_eq!(result.1.action, command("echo USR1"));
            assert!(!result.1.pending);
        }
        Signal::SIGUSR1 => {
            assert_eq!(result.1.action, command("echo USR1"));
            assert!(!result.1.pending);

            let result = trap_set.take_caught_signal().unwrap();
            assert_eq!(result.0, Signal::SIGINT);
            assert_eq!(result.1.action, command("echo INT"));
            assert!(!result.1.pending);
        }
        _ => panic!("wrong signal: {:?}", result),
    }

    assert_eq!(trap_set.take_caught_signal(), None);
}

#[test]
fn enabling_sigchld_handler() {
    let mut system = VirtualSignalSystem::new();
    let mut trap_set = TrapSet::default();
    trap_set.enable_sigchld_handler(&mut system).unwrap();
    assert_eq!(
        system.current_disposition(Signal::SIGCHLD),
        SignalHandling::Catch
    );
}

#[test]
fn disabling_internal_handler_for_initially_defaulted_sigchld() {
    let mut system = VirtualSignalSystem::new();
    let mut trap_set = TrapSet::default();
    trap_set.enable_sigchld_handler(&mut system).unwrap();
    trap_set.disable_internal_handlers(&mut system).unwrap();
    assert_eq!(
        system.current_disposition(Signal::SIGCHLD),
        SignalHandling::Default
    );
}

#[test]
fn disabling_internal_handler_for_initially_ignored_sigchld() {
    let mut system = VirtualSignalSystem::new();
    system
        .set_signal_handling(Signal::SIGCHLD, SignalHandling::Ignore)
        .unwrap();
    let mut trap_set = TrapSet::default();
    trap_set.enable_sigchld_handler(&mut system).unwrap();
    trap_set.disable_internal_handlers(&mut system).unwrap();
    assert_eq!(
        system.current_disposition(Signal::SIGCHLD),
        SignalHandling::Ignore
    );
}

#[test]
fn disabling_internal_handler_after_enabling_twice() {
    let mut system = VirtualSignalSystem::new();
    system
        .set_signal_handling(Signal::SIGCHLD, SignalHandling::Ignore)
        .unwrap();
    let mut trap_set = TrapSet::default();
    trap_set.enable_sigchld_handler(&mut system).unwrap();
    trap_set.enable_sigchld_handler(&mut system).unwrap();
    trap_set.disable_internal_handlers(&mut system).unwrap();
    assert_eq!(
        system.current_disposition(Signal::SIGCHLD),
        SignalHandling::Ignore
    );
}

#[test]
fn disabling_internal_handler_without_enabling() {
    let mut system = VirtualSignalSystem::new();
    system
        .set_signal_handling(Signal::SIGCHLD, SignalHandling::Ignore)
        .unwrap();
    let mut trap_set = TrapSet::default();
    trap_set.disable_internal_handlers(&mut system).unwrap();
    assert_eq!(
        system.current_disposition(Signal::SIGCHLD),
        SignalHandling::Ignore
    );
}

#[test]
fn reenabling_internal_handler() {
    let mut system = VirtualSignalSystem::new();
    let mut trap_set = TrapSet::default();
    trap_set.enable_sigchld_handler(&mut system).unwrap();
    trap_set.enable_sigchld_handler(&mut system).unwrap();
    trap_set.disable_internal_handlers(&mut system).unwrap();
    trap_set.enable_sigchld_handler(&mut system).unwrap();
    assert_eq!(
        system.current_disposition(Signal::SIGCHLD),
        SignalHandling::Catch
    );
}

#[test]
fn setting_trap_to_ignore_after_enabling_internal_handler() {
    let mut system = VirtualSignalSystem::new();
    let mut trap_set = TrapSet::default();
    trap_set.enable_sigchld_handler(&mut system).unwrap();
    let origin = Location::dummy("origin");
    let result = trap_set.set_action(&mut system, Signal::SIGCHLD, Action::Ignore, origin, false);
    assert_eq!(result, Ok(()));
    assert_eq!(
        system.current_disposition(Signal::SIGCHLD),
        SignalHandling::Catch
    );
}

#[test]
fn resetting_trap_from_ignore_no_override_after_enabling_internal_handler() {
    let mut system = VirtualSignalSystem::new();
    system
        .set_signal_handling(Signal::SIGCHLD, SignalHandling::Ignore)
        .unwrap();
    let mut trap_set = TrapSet::default();
    trap_set.enable_sigchld_handler(&mut system).unwrap();
    let origin = Location::dummy("origin");
    let result = trap_set.set_action(&mut system, Signal::SIGCHLD, Action::Ignore, origin, false);
    assert_eq!(result, Err(SetActionError::InitiallyIgnored));
    assert_eq!(
        system.current_disposition(Signal::SIGCHLD),
        SignalHandling::Catch
    );
}

#[test]
fn resetting_trap_from_ignore_override_after_enabling_internal_handler() {
    let mut system = VirtualSignalSystem::new();
    system
        .set_signal_handling(Signal::SIGCHLD, SignalHandling::Ignore)
        .unwrap();
    let mut trap_set = TrapSet::default();
    trap_set.enable_sigchld_handler(&mut system).unwrap();
    let origin = Location::dummy("origin");
    let result = trap_set.set_action(
        &mut system,
        Signal::SIGCHLD,
        Action::Ignore,
        origin.clone(),
        true,
    );
    assert_eq!(result, Ok(()));
    assert_eq!(
        trap_set.get_state(Signal::SIGCHLD),
        (
            Some(&TrapState {
                action: Action::Ignore,
                origin,
                pending: false
            }),
            None
        )
    );
    assert_eq!(
        system.current_disposition(Signal::SIGCHLD),
        SignalHandling::Catch
    );
}

#[test]
fn disabling_internal_handler_with_ignore_trap() {
    let mut system = VirtualSignalSystem::new();
    let mut trap_set = TrapSet::default();
    trap_set.enable_sigchld_handler(&mut system).unwrap();
    let origin = Location::dummy("origin");
    trap_set
        .set_action(
            &mut system,
            Signal::SIGCHLD,
            Action::Ignore,
            origin.clone(),
            false,
        )
        .unwrap();
    trap_set.disable_internal_handlers(&mut system).unwrap();

    assert_eq!(
        trap_set.get_state(Signal::SIGCHLD),
        (
            Some(&TrapState {
                action: Action::Ignore,
                origin,
                pending: false
            }),
            None
        )
    );
    assert_eq!(
        system.current_disposition(Signal::SIGCHLD),
        SignalHandling::Ignore
    );
}

#[test]
fn subshell_resets_command_but_keeps_ignore() {
    let mut system = VirtualSignalSystem::new();
    let mut trap_set = TrapSet::default();
    trap_set
        .set_action(
            &mut system,
            Signal::SIGUSR1,
            command("echo"),
            Location::dummy("one"),
            false,
        )
        .unwrap();
    trap_set
        .set_action(
            &mut system,
            Signal::SIGUSR2,
            Action::Ignore,
            Location::dummy("two"),
            false,
        )
        .unwrap();
    trap_set.enter_subshell(&mut system);

    let (current, parent) = trap_set.get_state(Signal::SIGUSR1);
    assert_eq!(current, None);
    assert_eq!(parent.unwrap().action, command("echo"));
    let (current, parent) = trap_set.get_state(Signal::SIGUSR2);
    assert_eq!(current.unwrap().action, Action::Ignore);
    assert_eq!(parent, None);
}
