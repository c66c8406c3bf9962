//! Scope map behaviour: insertion, lookup, shadowing, and isolation.

use jinko::{JkInt, ScopeMap, Var};

#[test]
#[should_panic]
fn t_add_var_non_existent_scope() {
    let mut s = ScopeMap::new();

    s.add_variable(Var::new("Something".to_owned())).unwrap();
}

#[test]
fn t_find_non_existent_var() {
    let s = ScopeMap::new();

    assert!(s.get_variable("a").is_none());
}

#[test]
fn t_add_var_and_get_it() {
    let mut s = ScopeMap::new();

    s.scope_enter();
    s.add_variable(Var::new("a".to_owned())).unwrap();

    assert!(s.get_variable("a").is_some());
}

#[test]
fn t_add_var_and_get_it_from_inner_scope() {
    let mut s = ScopeMap::new();

    s.scope_enter();
    s.add_variable(Var::new("a".to_owned())).unwrap();

    s.scope_enter();
    s.scope_enter();
    s.scope_enter();
    s.scope_enter();
    s.scope_enter();

    assert!(s.get_variable("a").is_some());
}

#[test]
fn t_add_var_and_get_it_from_outer_scope() {
    let mut s = ScopeMap::new();

    s.scope_enter();

    s.add_variable(Var::new("a".to_owned())).unwrap();

    s.scope_exit();

    assert!(s.get_variable("a").is_none());
}

fn var_with_int(name: &str, value: i64) -> Var {
    let mut v = Var::new(name.to_owned());
    v.set_instance(JkInt::from(value).to_instance());
    v
}

#[test]
fn t_scope_shadowing() {
    let mut s = ScopeMap::new();

    s.scope_enter();
    s.add_variable(var_with_int("x", 1)).unwrap();

    s.scope_enter();
    s.add_variable(var_with_int("x", 2)).unwrap();

    let inner = s.get_variable("x").unwrap().instance.clone().unwrap();
    assert_eq!(inner, JkInt::from(2).to_instance());

    s.scope_exit();

    let outer = s.get_variable("x").unwrap().instance.clone().unwrap();
    assert_eq!(outer, JkInt::from(1).to_instance());
}

#[test]
fn t_scope_isolation() {
    let mut s = ScopeMap::new();

    s.scope_enter();
    s.add_variable(var_with_int("x", 1)).unwrap();

    s.scope_enter();
    s.add_variable(var_with_int("y", 2)).unwrap();

    // The outer scope is untouched by the inner insertion.
    let x = s.get_variable("x").unwrap().instance.clone().unwrap();
    assert_eq!(x, JkInt::from(1).to_instance());

    s.scope_exit();

    // The inner addition is gone after the scope is exited.
    assert!(s.get_variable("y").is_none());
    assert!(s.get_variable("x").is_some());
}

#[test]
fn t_remove_variable_innermost_only() {
    let mut s = ScopeMap::new();

    s.scope_enter();
    s.add_variable(var_with_int("a", 1)).unwrap();

    s.scope_enter();
    // Not declared in the innermost scope: removal fails.
    assert!(s.remove_variable(&Var::new("a".to_owned())).is_err());

    s.add_variable(var_with_int("a", 2)).unwrap();
    assert!(s.remove_variable(&Var::new("a".to_owned())).is_ok());

    // The outer binding is still visible.
    let outer = s.get_variable("a").unwrap().instance.clone().unwrap();
    assert_eq!(outer, JkInt::from(1).to_instance());
}

#[test]
fn t_duplicate_declaration_in_same_scope() {
    let mut s = ScopeMap::new();

    s.scope_enter();
    s.add_variable(var_with_int("a", 1)).unwrap();
    let err = s.add_variable(var_with_int("a", 2)).unwrap_err();
    assert!(err.msg().contains("variable already declared: a"));
}
