use rhodium::base::context::{EvaluationContext, LookupResult, Scope};
use rhodium::base::symbol::SymbolTable;
use rhodium::base::value::Value;

fn word(content: &str) -> Value {
    Value::String(content.to_string())
}

#[test]
fn new_table_is_empty_and_open() {
    let table = SymbolTable::new();
    assert!(!table.finalized());
    assert_eq!(table.get("x"), None);
}

#[test]
fn table_insert_then_get() {
    let mut table = SymbolTable::new();
    assert_eq!(table.insert("x", Value::Integer(1)), Ok(()));
    assert_eq!(table.insert("y", word("two")), Ok(()));
    assert_eq!(table.get("x"), Some(&Value::Integer(1)));
    assert_eq!(table.get("y"), Some(&word("two")));
    assert_eq!(table.get("z"), None);
}

#[test]
fn table_insert_twice_returns_the_rejected_value() {
    let mut table = SymbolTable::new();
    assert_eq!(table.insert("x", Value::Integer(1)), Ok(()));
    assert_eq!(table.insert("x", Value::Integer(2)), Err(Value::Integer(2)));
    assert_eq!(table.get("x"), Some(&Value::Integer(1)));
}

#[test]
fn table_finalize_keeps_the_entries() {
    let mut table = SymbolTable::new();
    table.insert("x", Value::Integer(1)).unwrap();
    table.finalize();
    assert!(table.finalized());
    assert_eq!(table.get("x"), Some(&Value::Integer(1)));
}

#[test]
fn new_scope_has_no_parent() {
    let scope = Scope::new();
    assert_eq!(scope.parent(), None);
    assert!(!scope.finalized());
    assert_eq!(Scope::with_parent(4).parent(), Some(4));
}

#[test]
fn lookup_finds_what_was_defined() {
    let mut scope = Scope::new();
    assert_eq!(scope.define_symbol("x", Value::Integer(7)), Ok(vec![]));
    assert_eq!(scope.get_symbol("x", &vec![]), LookupResult::Total(Value::Integer(7)));
}

#[test]
fn lookup_in_an_open_scope_is_pending() {
    let scope = Scope::new();
    assert_eq!(scope.get_symbol("x", &vec![]), LookupResult::Pending);
}

#[test]
fn lookup_in_a_finalized_scope_without_parent_is_not_found() {
    let mut scope = Scope::new();
    scope.finalize();
    assert!(scope.finalized());
    assert_eq!(scope.get_symbol("x", &vec![]), LookupResult::NotFound);
}

#[test]
fn lookup_goes_on_in_the_parent_of_a_finalized_scope() {
    let mut root = Scope::new();
    root.define_symbol("x", Value::Integer(1)).unwrap();
    let mut child = Scope::with_parent(0);
    let scopes = vec![root];
    assert_eq!(child.get_symbol("x", &scopes), LookupResult::Pending);
    child.finalize();
    assert_eq!(child.get_symbol("x", &scopes), LookupResult::Total(Value::Integer(1)));
    assert_eq!(child.get_symbol("y", &scopes), LookupResult::Pending);
}

#[test]
fn lookup_prefers_the_inner_binding() {
    let mut root = Scope::new();
    root.define_symbol("x", Value::Integer(1)).unwrap();
    let mut child = Scope::with_parent(0);
    child.define_symbol("x", Value::Integer(2)).unwrap();
    child.finalize();
    assert_eq!(child.get_symbol("x", &vec![root]), LookupResult::Total(Value::Integer(2)));
}

#[test]
fn lookup_through_two_finalized_scopes() {
    let mut root = Scope::new();
    root.finalize();
    let mut middle = Scope::with_parent(0);
    middle.finalize();
    let mut inner = Scope::with_parent(1);
    inner.finalize();
    let scopes = vec![root, middle];
    assert_eq!(inner.get_symbol("x", &scopes), LookupResult::NotFound);
}

#[test]
fn a_parent_that_does_not_exist_is_no_parent() {
    let mut child = Scope::with_parent(5);
    child.finalize();
    assert_eq!(child.get_symbol("x", &vec![Scope::new()]), LookupResult::NotFound);
}

#[test]
fn a_parent_that_stands_behind_its_child_is_no_parent() {
    let mut looping = Scope::with_parent(0);
    looping.finalize();
    let mut start = Scope::with_parent(0);
    start.finalize();
    assert_eq!(start.get_symbol("x", &vec![looping]), LookupResult::NotFound);
}

#[test]
fn define_twice_returns_the_new_value_and_keeps_the_old() {
    let mut scope = Scope::new();
    scope.define_symbol("x", Value::Integer(1)).unwrap();
    assert_eq!(scope.define_symbol("x", Value::Integer(2)), Err(Value::Integer(2)));
    assert_eq!(scope.get_symbol("x", &vec![]), LookupResult::Total(Value::Integer(1)));
}

#[test]
fn define_hands_out_the_listeners_once() {
    let mut scope = Scope::new();
    scope.register_listener("x", 3);
    scope.register_listener("x", 1);
    scope.register_listener("y", 2);
    assert_eq!(scope.listeners("x"), vec![3, 1]);
    assert_eq!(scope.listeners("z"), vec![]);
    assert_eq!(scope.define_symbol("x", Value::Integer(1)), Ok(vec![3, 1]));
    assert_eq!(scope.listeners("x"), vec![]);
    assert_eq!(scope.listeners("y"), vec![2]);
    assert_eq!(scope.define_symbol("x", Value::Integer(1)), Err(Value::Integer(1)));
    assert_eq!(scope.define_symbol("y", Value::Integer(1)), Ok(vec![2]));
    assert_eq!(scope.define_symbol("z", Value::Integer(1)), Ok(vec![]));
}

#[test]
fn a_failed_define_keeps_the_listeners() {
    let mut scope = Scope::new();
    scope.define_symbol("x", Value::Integer(1)).unwrap();
    scope.register_listener("x", 4);
    assert_eq!(scope.define_symbol("x", Value::Integer(2)), Err(Value::Integer(2)));
    assert_eq!(scope.awaited_scope(0, "x", &vec![]), None);
}

#[test]
fn awaited_scope_is_the_open_one() {
    let root = Scope::new();
    let mut child = Scope::with_parent(0);
    assert_eq!(child.awaited_scope(1, "x", &vec![]), Some(1));
    child.finalize();
    let scopes = vec![root];
    assert_eq!(child.awaited_scope(1, "x", &scopes), Some(0));
    child.define_symbol("x", Value::Integer(1)).unwrap();
    assert_eq!(child.awaited_scope(1, "x", &scopes), None);
}

#[test]
fn context_keeps_its_scope() {
    let context = EvaluationContext::new(12);
    assert_eq!(context.scope(), 12);
    assert_eq!(context.scope, 12);
}
