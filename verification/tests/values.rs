use rhodium::base::context::{EvaluationContext, Scope};
use rhodium::base::operation::{EvaluationResult, Evaluator, Operation, Registrar};
use rhodium::base::value::{
    add, add_operation, binary_op, clone_result, default_operations, define_symbol,
    define_symbol_operation, get_symbol, get_symbol_operation, propagate_errors, unary_op, Value,
    ValueError, ValueErrorCause, ValueResult,
};

fn number(value: usize) -> ValueResult {
    Ok(Value::Integer(value))
}

fn text(content: &str) -> ValueResult {
    Ok(Value::String(content.to_string()))
}

fn failure(cause: ValueErrorCause) -> ValueResult {
    Err(ValueError::new(cause))
}

#[test]
fn add_two_and_three_is_five() {
    let context = EvaluationContext::new(0);
    let mut scopes = vec![Scope::new()];
    let (result, woken) = add_operation().evaluate(&context, &[number(2), number(3)], &mut scopes);
    assert_eq!(result, EvaluationResult::Total(number(5)));
    assert!(woken.is_empty());
}

#[test]
fn add_with_one_operand_reports_the_count() {
    let context = EvaluationContext::new(0);
    let result = add(&context, &[number(2)]);
    assert_eq!(
        result,
        EvaluationResult::Total(failure(ValueErrorCause::WrongNumberOfOperandsForOperation {
            expected: 2,
            found: 1,
        }))
    );
}

#[test]
fn add_with_three_operands_reports_the_count() {
    let context = EvaluationContext::new(0);
    let result = add(&context, &[number(1), number(2), number(3)]);
    assert_eq!(
        result,
        EvaluationResult::Total(failure(ValueErrorCause::WrongNumberOfOperandsForOperation {
            expected: 2,
            found: 3,
        }))
    );
}

#[test]
fn add_refuses_a_string() {
    let context = EvaluationContext::new(0);
    assert_eq!(
        add(&context, &[number(1), text("a")]),
        EvaluationResult::Total(failure(ValueErrorCause::WrongTypesForOperation))
    );
    assert_eq!(
        add(&context, &[text("a"), number(1)]),
        EvaluationResult::Total(failure(ValueErrorCause::WrongTypesForOperation))
    );
}

#[test]
fn add_passes_the_first_error_on() {
    let context = EvaluationContext::new(0);
    let first = failure(ValueErrorCause::WrongTypesForOperation);
    let second = failure(ValueErrorCause::UnspecifiedError);
    assert_eq!(
        add(&context, &[first, second]),
        EvaluationResult::Total(failure(ValueErrorCause::WrongTypesForOperation))
    );
    assert_eq!(
        add(&context, &[number(1), failure(ValueErrorCause::UnspecifiedError), number(3)]),
        EvaluationResult::Total(failure(ValueErrorCause::UnspecifiedError))
    );
}

#[test]
fn add_that_does_not_fit_is_an_error() {
    let context = EvaluationContext::new(0);
    assert_eq!(
        add(&context, &[number(usize::MAX), number(1)]),
        EvaluationResult::Total(failure(ValueErrorCause::UnspecifiedError))
    );
    assert_eq!(
        add(&context, &[number(usize::MAX), number(0)]),
        EvaluationResult::Total(number(usize::MAX))
    );
}

#[test]
fn propagate_errors_collects_values_in_order() {
    let values = propagate_errors(&[number(1), text("b"), number(3)]);
    assert_eq!(
        values,
        Ok(vec![Value::Integer(1), Value::String("b".to_string()), Value::Integer(3)])
    );
    assert_eq!(propagate_errors(&[]), Ok(vec![]));
}

#[test]
fn propagate_errors_returns_the_first_error() {
    let outcome = propagate_errors(&[
        number(1),
        failure(ValueErrorCause::WrongTypesForOperation),
        failure(ValueErrorCause::UnspecifiedError),
    ]);
    assert_eq!(outcome, Err(ValueError::new(ValueErrorCause::WrongTypesForOperation)));
}

#[test]
fn unary_and_binary_check_the_count() {
    let one = vec![Value::Integer(1)];
    let two = vec![Value::Integer(1), Value::Integer(2)];
    assert_eq!(unary_op(&one), Ok(&Value::Integer(1)));
    assert_eq!(
        unary_op(&two),
        Err(ValueError::new(ValueErrorCause::WrongNumberOfOperandsForOperation {
            expected: 1,
            found: 2,
        }))
    );
    assert_eq!(binary_op(&two), Ok((&Value::Integer(1), &Value::Integer(2))));
    assert_eq!(
        binary_op(&one),
        Err(ValueError::new(ValueErrorCause::WrongNumberOfOperandsForOperation {
            expected: 2,
            found: 1,
        }))
    );
    assert_eq!(
        binary_op(&[]),
        Err(ValueError::new(ValueErrorCause::WrongNumberOfOperandsForOperation {
            expected: 2,
            found: 0,
        }))
    );
}

#[test]
fn clone_keeps_the_value() {
    assert_eq!(Value::String("abc".to_string()).clone(), Value::String("abc".to_string()));
    assert_eq!(Value::Integer(9).clone(), Value::Integer(9));
    assert_eq!(clone_result(&text("x")), text("x"));
    assert_eq!(
        clone_result(&failure(ValueErrorCause::UnspecifiedError)),
        failure(ValueErrorCause::UnspecifiedError)
    );
}

#[test]
fn value_error_keeps_its_cause() {
    let error = ValueError::new(ValueErrorCause::WrongTypesForOperation);
    assert_eq!(error.cause, ValueErrorCause::WrongTypesForOperation);
    assert_eq!(error.description(), "Value error");
}

#[test]
fn define_symbol_binds_and_returns_the_value() {
    let context = EvaluationContext::new(0);
    let mut scopes = vec![Scope::new()];
    let (result, woken) = define_symbol(&context, &[text("x"), number(4)], &mut scopes);
    assert_eq!(result, EvaluationResult::Total(number(4)));
    assert!(woken.is_empty());
    assert_eq!(get_symbol(&context, &[text("x")], &scopes), EvaluationResult::Total(number(4)));
}

#[test]
fn define_symbol_twice_is_an_error_and_keeps_the_binding() {
    let context = EvaluationContext::new(0);
    let mut scopes = vec![Scope::new()];
    define_symbol(&context, &[text("x"), number(4)], &mut scopes);
    let (result, woken) = define_symbol(&context, &[text("x"), number(5)], &mut scopes);
    assert_eq!(result, EvaluationResult::Total(failure(ValueErrorCause::UnspecifiedError)));
    assert!(woken.is_empty());
    assert_eq!(get_symbol(&context, &[text("x")], &scopes), EvaluationResult::Total(number(4)));
}

#[test]
fn define_symbol_checks_its_operands() {
    let context = EvaluationContext::new(0);
    let mut scopes = vec![Scope::new()];
    assert_eq!(
        define_symbol(&context, &[number(1), number(2)], &mut scopes).0,
        EvaluationResult::Total(failure(ValueErrorCause::WrongTypesForOperation))
    );
    assert_eq!(
        define_symbol(&context, &[text("x")], &mut scopes).0,
        EvaluationResult::Total(failure(ValueErrorCause::WrongNumberOfOperandsForOperation {
            expected: 2,
            found: 1,
        }))
    );
    assert_eq!(
        define_symbol(
            &context,
            &[text("x"), failure(ValueErrorCause::WrongTypesForOperation)],
            &mut scopes
        )
        .0,
        EvaluationResult::Total(failure(ValueErrorCause::WrongTypesForOperation))
    );
    assert_eq!(get_symbol(&context, &[text("x")], &scopes), EvaluationResult::Pending);
}

#[test]
fn define_symbol_in_a_scope_that_does_not_exist_is_an_error() {
    let context = EvaluationContext::new(3);
    let mut scopes = vec![Scope::new()];
    assert_eq!(
        define_symbol(&context, &[text("x"), number(2)], &mut scopes).0,
        EvaluationResult::Total(failure(ValueErrorCause::UnspecifiedError))
    );
}

#[test]
fn define_symbol_returns_the_nodes_that_waited() {
    let context = EvaluationContext::new(0);
    let mut scopes = vec![Scope::new()];
    scopes[0].register_listener("x", 7);
    scopes[0].register_listener("y", 8);
    scopes[0].register_listener("x", 9);
    let (result, woken) = define_symbol(&context, &[text("x"), number(1)], &mut scopes);
    assert_eq!(result, EvaluationResult::Total(number(1)));
    assert_eq!(woken, vec![7, 9]);
}

#[test]
fn get_symbol_is_pending_in_an_open_scope() {
    let context = EvaluationContext::new(0);
    let scopes = vec![Scope::new()];
    assert_eq!(get_symbol(&context, &[text("y")], &scopes), EvaluationResult::Pending);
}

#[test]
fn get_symbol_in_a_finalized_scope_is_an_error() {
    let context = EvaluationContext::new(0);
    let mut scopes = vec![Scope::new()];
    scopes[0].finalize();
    assert_eq!(
        get_symbol(&context, &[text("y")], &scopes),
        EvaluationResult::Total(failure(ValueErrorCause::UnspecifiedError))
    );
}

#[test]
fn get_symbol_checks_its_operands() {
    let context = EvaluationContext::new(0);
    let scopes = vec![Scope::new()];
    assert_eq!(
        get_symbol(&context, &[number(1)], &scopes),
        EvaluationResult::Total(failure(ValueErrorCause::WrongTypesForOperation))
    );
    assert_eq!(
        get_symbol(&context, &[text("a"), text("b")], &scopes),
        EvaluationResult::Total(failure(ValueErrorCause::WrongNumberOfOperandsForOperation {
            expected: 1,
            found: 2,
        }))
    );
    assert_eq!(
        get_symbol(&context, &[], &scopes),
        EvaluationResult::Total(failure(ValueErrorCause::WrongNumberOfOperandsForOperation {
            expected: 1,
            found: 0,
        }))
    );
}

#[test]
fn get_symbol_registers_in_the_scope_that_is_open() {
    let operation = get_symbol_operation();
    let context = EvaluationContext::new(1);
    let mut child = Scope::with_parent(0);
    child.finalize();
    let mut scopes = vec![Scope::new(), child];
    operation.register(&context, 5, &[text("x")], &mut scopes);
    let woken = scopes[0].define_symbol("x", Value::Integer(1));
    assert_eq!(woken, Ok(vec![5]));
}

#[test]
fn registration_needs_one_string_operand() {
    let operation = get_symbol_operation();
    let context = EvaluationContext::new(0);
    let mut scopes = vec![Scope::new()];
    operation.register(&context, 5, &[number(1)], &mut scopes);
    operation.register(&context, 5, &[text("x"), text("x")], &mut scopes);
    operation.register(&context, 5, &[], &mut scopes);
    add_operation().register(&context, 5, &[text("x")], &mut scopes);
    assert_eq!(scopes[0].define_symbol("x", Value::Integer(1)), Ok(vec![]));
}

#[test]
fn default_operations_are_found_by_name() {
    let operations = default_operations();
    let found = operations.get("add").expect("add is an operation");
    assert_eq!(found.name, "add");
    assert_eq!(found.evaluator, Evaluator::Add);
    assert_eq!(found.registrar, Registrar::Null);
    let found = operations.get("define_symbol").expect("define_symbol is an operation");
    assert_eq!(found.evaluator, Evaluator::DefineSymbol);
    assert_eq!(found.registrar, Registrar::Null);
    let found = operations.get("get_symbol").expect("get_symbol is an operation");
    assert_eq!(found.evaluator, Evaluator::GetSymbol);
    assert_eq!(found.registrar, Registrar::GetSymbol);
    assert!(operations.get("subtract").is_none());
    assert!(operations.get("").is_none());
}

#[test]
fn operation_new_keeps_its_parts() {
    let operation = Operation::new("sum", Evaluator::Add, Registrar::Null);
    assert_eq!(operation.name, "sum");
    let context = EvaluationContext::new(0);
    let mut scopes = vec![];
    assert_eq!(
        operation.evaluate(&context, &[number(20), number(22)], &mut scopes).0,
        EvaluationResult::Total(number(42))
    );
    assert_eq!(define_symbol_operation().name, "define_symbol");
}
