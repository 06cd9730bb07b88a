//! Tests of the task registry: handles, declaration failures, and lookups.

use erbauer::registry::{DeclareError, Registry};

#[test]
fn declare_hands_out_sequential_handles() {
    let mut reg = Registry::new();
    assert_eq!(reg.declare("a".to_string(), vec![]), Ok(0));
    assert_eq!(reg.declare("b".to_string(), vec![0]), Ok(1));
    assert_eq!(reg.declare("c".to_string(), vec![0, 1]), Ok(2));
}

#[test]
fn declare_rejects_a_duplicate_identifier() {
    let mut reg = Registry::new();
    assert_eq!(reg.declare("build".to_string(), vec![]), Ok(0));
    assert_eq!(
        reg.declare("build".to_string(), vec![]),
        Err(DeclareError::DuplicateName)
    );
    // The collision check is exact: identifiers differing only in case are
    // distinct declarations.
    assert_eq!(reg.declare("Build".to_string(), vec![]), Ok(1));
}

#[test]
fn declare_rejects_an_unknown_dependency_handle() {
    let mut reg = Registry::new();
    assert_eq!(reg.declare("a".to_string(), vec![]), Ok(0));
    assert_eq!(
        reg.declare("b".to_string(), vec![1]),
        Err(DeclareError::UnknownDependency)
    );
    // The refusal left the registry unchanged.
    assert_eq!(reg.declare("b".to_string(), vec![0]), Ok(1));
}

#[test]
fn lookup_is_exact_and_case_sensitive() {
    let mut reg = Registry::new();
    reg.declare("build".to_string(), vec![]).unwrap();
    reg.declare("test".to_string(), vec![]).unwrap();
    assert_eq!(reg.lookup("build"), Some(0));
    assert_eq!(reg.lookup("test"), Some(1));
    assert_eq!(reg.lookup("BUILD"), None);
    assert_eq!(reg.lookup("deploy"), None);
}

#[test]
fn case_insensitive_lookup_takes_the_first_declared_match() {
    let mut reg = Registry::new();
    reg.declare("Build".to_string(), vec![]).unwrap();
    reg.declare("BUILD".to_string(), vec![]).unwrap();
    assert_eq!(reg.find_case_insensitive("build"), Some(0));
    assert_eq!(reg.find_case_insensitive("bUiLd"), Some(0));
    assert_eq!(reg.find_case_insensitive("built"), None);
}

#[test]
fn has_main_matches_case_insensitively() {
    let mut reg = Registry::new();
    assert!(!reg.has_main());
    reg.declare("build".to_string(), vec![]).unwrap();
    assert!(!reg.has_main());
    reg.declare("Main".to_string(), vec![]).unwrap();
    assert!(reg.has_main());
}
