//! Tests for the variable set and its scoping model.

use yash_core::source::Location;
use yash_core::variable::{Array, ContextType, Scalar, Scope, Value, Variable, VariableSet};

fn dummy_variable(value: &str) -> Variable {
    Variable {
        value: Scalar(value.to_string()),
        last_assigned_location: None,
        is_exported: false,
        read_only_location: None,
    }
}

#[test]
fn assign_new_variable_and_get() {
    let mut variables = VariableSet::new();
    let variable = Variable {
        value: Scalar("my value".to_string()),
        last_assigned_location: None,
        is_exported: false,
        read_only_location: Some(Location::dummy("dummy")),
    };
    let result = variables
        .assign(Scope::Global, "foo".to_string(), variable.clone())
        .unwrap();
    assert_eq!(result, None);
    assert_eq!(variables.get("foo"), Some(&variable));
}

#[test]
fn reassign_variable_and_get() {
    let mut variables = VariableSet::new();
    let v1 = Variable {
        value: Scalar("my value".to_string()),
        last_assigned_location: Some(Location::dummy("dummy")),
        is_exported: false,
        read_only_location: None,
    };
    variables
        .assign(Scope::Global, "foo".to_string(), v1.clone())
        .unwrap();

    let v2 = Variable {
        value: Scalar("your value".to_string()),
        last_assigned_location: None,
        is_exported: false,
        read_only_location: Some(Location::dummy("something")),
    };
    let result = variables
        .assign(Scope::Global, "foo".to_string(), v2.clone())
        .unwrap();
    assert_eq!(result, Some(v1));
    assert_eq!(variables.get("foo"), Some(&v2));
}

#[test]
fn assign_to_read_only_variable() {
    let mut variables = VariableSet::new();
    let read_only_location = Location::dummy("read-only");
    let v1 = Variable {
        value: Scalar("my value".to_string()),
        last_assigned_location: None,
        is_exported: false,
        read_only_location: Some(read_only_location.clone()),
    };
    variables
        .assign(Scope::Global, "x".to_string(), v1.clone())
        .unwrap();

    let v2 = Variable {
        value: Scalar("your value".to_string()),
        last_assigned_location: None,
        is_exported: false,
        read_only_location: Some(Location::dummy("something")),
    };
    let error = variables
        .assign(Scope::Global, "x".to_string(), v2.clone())
        .unwrap_err();
    assert_eq!(error.name, "x");
    assert_eq!(error.read_only_location, read_only_location);
    assert_eq!(error.new_value, v2);
    assert_eq!(variables.get("x"), Some(&v1));
}

#[test]
fn assign_global() {
    let mut variables = VariableSet::new();
    variables.push_context(ContextType::Regular);
    variables
        .assign(Scope::Global, "foo".to_string(), dummy_variable(""))
        .unwrap();
    variables.pop_context();
    let variable = variables.get("foo").unwrap();
    assert_eq!(variable.value, Scalar("".to_string()));
}

#[test]
fn assign_local() {
    let mut variables = VariableSet::new();
    variables.push_context(ContextType::Regular);
    variables
        .assign(Scope::Local, "foo".to_string(), dummy_variable(""))
        .unwrap();
    let variable = variables.get("foo").unwrap();
    assert_eq!(variable.value, Scalar("".to_string()));
}

#[test]
fn popping_context_removes_variables() {
    let mut variables = VariableSet::new();
    variables.push_context(ContextType::Regular);
    variables
        .assign(Scope::Local, "foo".to_string(), dummy_variable(""))
        .unwrap();
    variables.pop_context();
    assert_eq!(variables.get("foo"), None);
}

#[test]
fn reassign_global_non_base_context() {
    let mut variables = VariableSet::new();
    variables.push_context(ContextType::Regular);
    variables
        .assign(Scope::Local, "foo".to_string(), dummy_variable("a"))
        .unwrap();
    variables.push_context(ContextType::Regular);
    variables
        .assign(Scope::Global, "foo".to_string(), dummy_variable("b"))
        .unwrap();
    variables.pop_context();
    let variable = variables.get("foo").unwrap();
    assert_eq!(variable.value, Scalar("b".to_string()));
    variables.pop_context();
    assert_eq!(variables.get("foo"), None);
}

#[test]
fn variable_in_upper_context_hides_lower_variables() {
    let mut variables = VariableSet::new();
    variables
        .assign(Scope::Local, "foo".to_string(), dummy_variable("0"))
        .unwrap();
    variables.push_context(ContextType::Regular);
    variables
        .assign(Scope::Local, "foo".to_string(), dummy_variable("1"))
        .unwrap();
    let variable = variables.get("foo").unwrap();
    assert_eq!(variable.value, Scalar("1".to_string()));
}

#[test]
fn variable_is_visible_again_after_popping_upper_variables() {
    let mut variables = VariableSet::new();
    variables
        .assign(Scope::Local, "foo".to_string(), dummy_variable("0"))
        .unwrap();
    variables.push_context(ContextType::Regular);
    variables
        .assign(Scope::Local, "foo".to_string(), dummy_variable("1"))
        .unwrap();
    variables.pop_context();
    let variable = variables.get("foo").unwrap();
    assert_eq!(variable.value, Scalar("0".to_string()));
}

#[test]
fn volatile_assignment_new() {
    let mut variables = VariableSet::new();
    variables.push_context(ContextType::Volatile);
    variables
        .assign(Scope::Volatile, "foo".to_string(), dummy_variable("0"))
        .unwrap();
    let variable = variables.get("foo").unwrap();
    assert_eq!(variable.value, Scalar("0".to_string()));
}

#[test]
fn volatile_assignment_hides_existing_variable() {
    let mut variables = VariableSet::new();
    variables
        .assign(Scope::Global, "foo".to_string(), dummy_variable("0"))
        .unwrap();
    variables.push_context(ContextType::Volatile);
    variables
        .assign(Scope::Volatile, "foo".to_string(), dummy_variable("1"))
        .unwrap();
    let variable = variables.get("foo").unwrap();
    assert_eq!(variable.value, Scalar("1".to_string()));
    variables.pop_context();
    let variable = variables.get("foo").unwrap();
    assert_eq!(variable.value, Scalar("0".to_string()));
}

#[test]
fn volatile_assignment_fails_with_existing_read_only_variable() {
    let mut variables = VariableSet::new();
    let read_only_location = Location::dummy("ROL");
    let mut read_only = dummy_variable("0");
    read_only.read_only_location = Some(read_only_location.clone());
    variables
        .assign(Scope::Global, "foo".to_string(), read_only)
        .unwrap();
    variables.push_context(ContextType::Volatile);
    let error = variables
        .assign(Scope::Volatile, "foo".to_string(), dummy_variable("1"))
        .unwrap_err();
    assert_eq!(error.name, "foo");
    assert_eq!(error.read_only_location, read_only_location);
    assert_eq!(error.new_value.value, Value::Scalar("1".to_string()));
}

#[test]
fn global_assignment_pops_existing_volatile_variables() {
    let mut variables = VariableSet::new();
    variables
        .assign(Scope::Global, "foo".to_string(), dummy_variable("0"))
        .unwrap();
    variables.push_context(ContextType::Regular);
    variables.push_context(ContextType::Volatile);
    variables
        .assign(Scope::Volatile, "foo".to_string(), dummy_variable("1"))
        .unwrap();
    variables.push_context(ContextType::Volatile);
    variables
        .assign(Scope::Volatile, "foo".to_string(), dummy_variable("2"))
        .unwrap();
    variables.push_context(ContextType::Volatile);
    variables
        .assign(Scope::Global, "foo".to_string(), dummy_variable("9"))
        .unwrap();
    let variable = variables.get("foo").unwrap();
    assert_eq!(variable.value, Scalar("9".to_string()));
    variables.pop_context();
    variables.pop_context();
    variables.pop_context();
    variables.pop_context();
    let variable = variables.get("foo").unwrap();
    assert_eq!(variable.value, Scalar("9".to_string()));
}

#[test]
fn local_assignment_pops_existing_volatile_variables() {
    let mut variables = VariableSet::new();
    variables.push_context(ContextType::Volatile);
    variables
        .assign(Scope::Volatile, "foo".to_string(), dummy_variable("0"))
        .unwrap();
    variables.push_context(ContextType::Regular);
    variables.push_context(ContextType::Volatile);
    variables
        .assign(Scope::Volatile, "foo".to_string(), dummy_variable("1"))
        .unwrap();
    variables.push_context(ContextType::Volatile);
    variables
        .assign(Scope::Volatile, "foo".to_string(), dummy_variable("2"))
        .unwrap();
    variables.push_context(ContextType::Volatile);
    variables
        .assign(Scope::Local, "foo".to_string(), dummy_variable("9"))
        .unwrap();
    let variable = variables.get("foo").unwrap();
    assert_eq!(variable.value, Scalar("9".to_string()));
    variables.pop_context();
    variables.pop_context();
    variables.pop_context();
    let variable = variables.get("foo").unwrap();
    assert_eq!(variable.value, Scalar("9".to_string()));
    variables.pop_context();
    let variable = variables.get("foo").unwrap();
    assert_eq!(variable.value, Scalar("0".to_string()));
    variables.pop_context();
    assert_eq!(variables.get("foo"), None);
}

#[test]
fn exporting() {
    let mut variables = VariableSet::new();
    let variable = Variable {
        value: Scalar("first".to_string()),
        last_assigned_location: None,
        is_exported: false,
        read_only_location: None,
    };
    variables
        .assign(Scope::Local, "foo".to_string(), variable)
        .unwrap();
    let variable = Variable {
        value: Scalar("second".to_string()),
        last_assigned_location: None,
        is_exported: true,
        read_only_location: None,
    };
    let old_value = variables
        .assign(Scope::Local, "foo".to_string(), variable)
        .unwrap()
        .unwrap();
    assert_eq!(old_value.value, Scalar("first".to_string()));
    assert!(!old_value.is_exported);
    let new_value = variables.get("foo").unwrap();
    assert_eq!(new_value.value, Scalar("second".to_string()));
    assert!(new_value.is_exported);
}

#[test]
fn reexport_on_reassigning_exported_variable() {
    let mut variables = VariableSet::new();
    let variable = Variable {
        value: Scalar("first".to_string()),
        last_assigned_location: None,
        is_exported: true,
        read_only_location: None,
    };
    variables
        .assign(Scope::Local, "foo".to_string(), variable)
        .unwrap();
    let variable = Variable {
        value: Scalar("second".to_string()),
        last_assigned_location: None,
        is_exported: false,
        read_only_location: None,
    };
    let old_value = variables
        .assign(Scope::Local, "foo".to_string(), variable)
        .unwrap()
        .unwrap();
    assert_eq!(old_value.value, Scalar("first".to_string()));
    assert!(old_value.is_exported);
    let new_value = variables.get("foo").unwrap();
    assert_eq!(new_value.value, Scalar("second".to_string()));
    assert!(new_value.is_exported);
}

#[test]
fn env_c_strings() {
    let mut variables = VariableSet::new();
    assert_eq!(variables.env_c_strings(), Vec::<String>::new());

    variables
        .assign(
            Scope::Global,
            "foo".to_string(),
            Variable {
                value: Scalar("FOO".to_string()),
                last_assigned_location: None,
                is_exported: true,
                read_only_location: None,
            },
        )
        .unwrap();
    variables
        .assign(
            Scope::Global,
            "bar".to_string(),
            Variable {
                value: Array(vec!["BAR".to_string()]),
                last_assigned_location: None,
                is_exported: true,
                read_only_location: None,
            },
        )
        .unwrap();
    variables
        .assign(
            Scope::Global,
            "baz".to_string(),
            Variable {
                value: Array(vec!["1".to_string(), "two".to_string(), "3".to_string()]),
                last_assigned_location: None,
                is_exported: true,
                read_only_location: None,
            },
        )
        .unwrap();
    variables
        .assign(
            Scope::Global,
            "null".to_string(),
            Variable {
                value: Scalar("not exported".to_string()),
                last_assigned_location: None,
                is_exported: false,
                read_only_location: None,
            },
        )
        .unwrap();
    let mut ss = variables.env_c_strings();
    ss.sort_unstable();
    assert_eq!(
        ss,
        vec![
            "bar=BAR".to_string(),
            "baz=1:two:3".to_string(),
            "foo=FOO".to_string(),
        ]
    );
}

#[test]
fn env_c_strings_drops_nul_entries() {
    let mut variables = VariableSet::new();
    variables
        .assign(
            Scope::Global,
            "bad".to_string(),
            Variable {
                value: Scalar("a\0b".to_string()),
                last_assigned_location: None,
                is_exported: true,
                read_only_location: None,
            },
        )
        .unwrap();
    assert_eq!(variables.env_c_strings(), Vec::<String>::new());
}

#[test]
fn positional_params_in_base_context() {
    let mut variables = VariableSet::new();
    assert_eq!(variables.positional_params().value, Array(vec![]));

    let v = variables.positional_params_mut();
    if let Array(values) = &mut v.value {
        values.push("foo".to_string());
        values.push("bar".to_string());
    } else {
        panic!("not an array: {:?}", v.value);
    }

    if let Array(values) = &variables.positional_params().value {
        assert_eq!(values[..], ["foo".to_string(), "bar".to_string()]);
    } else {
        panic!("not an array");
    }
}

#[test]
fn positional_params_in_second_regular_context() {
    let mut variables = VariableSet::new();
    variables.push_context(ContextType::Regular);
    assert_eq!(variables.positional_params().value, Array(vec![]));

    let v = variables.positional_params_mut();
    if let Array(values) = &mut v.value {
        values.push("1".to_string());
    } else {
        panic!("not an array: {:?}", v.value);
    }

    if let Array(values) = &variables.positional_params().value {
        assert_eq!(values[..], ["1".to_string()]);
    } else {
        panic!("not an array");
    }
}

#[test]
fn getting_positional_params_in_volatile_context() {
    let mut variables = VariableSet::new();

    let v = variables.positional_params_mut();
    if let Array(values) = &mut v.value {
        values.push("a".to_string());
        values.push("b".to_string());
        values.push("c".to_string());
    } else {
        panic!("not an array: {:?}", v.value);
    }

    variables.push_context(ContextType::Volatile);
    if let Array(values) = &variables.positional_params().value {
        assert_eq!(
            values[..],
            ["a".to_string(), "b".to_string(), "c".to_string()]
        );
    } else {
        panic!("not an array");
    }
}

#[test]
fn setting_positional_params_in_volatile_context() {
    let mut variables = VariableSet::new();
    variables.push_context(ContextType::Volatile);

    let v = variables.positional_params_mut();
    if let Array(values) = &mut v.value {
        values.push("x".to_string());
    } else {
        panic!("not an array: {:?}", v.value);
    }

    variables.pop_context();
    if let Array(values) = &variables.positional_params().value {
        assert_eq!(values[..], ["x".to_string()]);
    } else {
        panic!("not an array");
    }
}

#[test]
fn scope_guard() {
    let mut variables = VariableSet::new();
    variables.push_context(ContextType::Regular);
    variables
        .assign(Scope::Global, "foo".to_string(), dummy_variable(""))
        .unwrap();
    variables
        .assign(Scope::Local, "bar".to_string(), dummy_variable(""))
        .unwrap();
    variables.pop_context();

    let variable = variables.get("foo").unwrap();
    assert_eq!(variable.value, Scalar("".to_string()));
    assert_eq!(variables.get("bar"), None);
}

#[test]
fn env_scope_guard() {
    let mut env = yash_core::env::Env::new();
    env.push_context(ContextType::Regular);
    env.variables
        .assign(Scope::Global, "foo".to_string(), dummy_variable(""))
        .unwrap();
    env.variables
        .assign(Scope::Local, "bar".to_string(), dummy_variable(""))
        .unwrap();
    env.pop_context();

    let variable = env.variables.get("foo").unwrap();
    assert_eq!(variable.value, Scalar("".to_string()));
    assert_eq!(env.variables.get("bar"), None);
}

#[test]
fn volatile_scope_masking() {
    let mut variables = VariableSet::new();
    variables
        .assign(Scope::Global, "foo".to_string(), dummy_variable("0"))
        .unwrap();
    variables.push_context(ContextType::Volatile);
    variables
        .assign(Scope::Volatile, "foo".to_string(), dummy_variable("1"))
        .unwrap();
    assert_eq!(variables.get("foo").unwrap().value, Scalar("1".to_string()));
    variables.pop_context();
    assert_eq!(variables.get("foo").unwrap().value, Scalar("0".to_string()));
}

#[test]
fn is_read_only() {
    let mut v = dummy_variable("0");
    assert!(!v.is_read_only());
    v.read_only_location = Some(Location::dummy("here"));
    assert!(v.is_read_only());
}

#[test]
fn value_split() {
    let scalar = Scalar("/usr/local/bin:/usr/bin:/bin".to_string());
    assert_eq!(
        scalar.split(),
        vec![
            "/usr/local/bin".to_string(),
            "/usr/bin".to_string(),
            "/bin".to_string(),
        ]
    );

    let array = Array(vec!["foo".to_string(), "bar".to_string()]);
    assert_eq!(array.split(), vec!["foo".to_string(), "bar".to_string()]);
}

#[test]
fn value_split_edges() {
    assert_eq!(Scalar("".to_string()).split(), vec!["".to_string()]);
    assert_eq!(
        Scalar(":".to_string()).split(),
        vec!["".to_string(), "".to_string()]
    );
    assert_eq!(
        Scalar("a::b".to_string()).split(),
        vec!["a".to_string(), "".to_string(), "b".to_string()]
    );
}
