//! Values, evaluation errors and the helpers shared by the built-in operations.

use vstd::prelude::*;
use vstd::hash_map::StringHashMap;
use crate::base::context::{
    ScopeId, bound_and_quiet, lemma_awaited_unbound, scopes_continue,
};
use crate::base::context::{
    EvaluationContext, LookupResult, NodeId, Scope, ScopeView, awaited, lookup, scope_views,
};
use crate::base::operation::{Evaluation, EvaluationResult, Evaluator, Operation, OperationGroup, Registrar};

verus! {

/// A value of the language.
#[derive(Debug, PartialEq, Eq)]
pub enum Value {
    Integer(usize),
    String(String),
}

impl Clone for Value {
    fn clone(&self) -> (copy: Value)
        ensures
            copy == *self,
    {
        match self {
            Value::Integer(number) => Value::Integer(*number),
            Value::String(text) => Value::String(text.clone()),
        }
    }
}

/// The cause of a `ValueError`.
#[derive(Clone, Copy, Debug, PartialEq, Eq, Structural)]
pub enum ValueErrorCause {
    UnspecifiedError,
    WrongNumberOfOperandsForOperation { expected: usize, found: usize },
    WrongTypesForOperation,
}

/// An error raised while an operation was evaluated.
#[derive(Clone, Copy, Debug, PartialEq, Eq, Structural)]
pub struct ValueError {
    pub cause: ValueErrorCause,
}

impl ValueError {
    pub fn new(cause: ValueErrorCause) -> (error: ValueError)
        ensures
            error.cause == cause,
    {
        ValueError { cause }
    }

    pub fn description(&self) -> (text: &'static str)
        ensures
            text@ == "Value error"@,
    {
        "Value error"
    }
}

/// Either a value or the error that took its place.
pub type ValueResult = Result<Value, ValueError>;

/// Copies a value or an error.
pub fn clone_result(result: &ValueResult) -> (copy: ValueResult)
    ensures
        copy == *result,
{
    match result {
        Ok(value) => Ok(value.clone()),
        Err(error) => Err(*error),
    }
}

/// The error of an operation that was given `found` operands and takes `expected`.
pub open spec fn wrong_count(expected: usize, found: usize) -> ValueError {
    ValueError { cause: ValueErrorCause::WrongNumberOfOperandsForOperation { expected, found } }
}

/// The error of an operation that was given an operand of the wrong kind.
pub open spec fn wrong_types() -> ValueError {
    ValueError { cause: ValueErrorCause::WrongTypesForOperation }
}

/// The error of a failure that has no class of its own.
pub open spec fn unspecified() -> ValueError {
    ValueError { cause: ValueErrorCause::UnspecifiedError }
}

/// The values of `operands` in their order, or the first error among them.
pub open spec fn values_of(operands: Seq<ValueResult>) -> Result<Seq<Value>, ValueError>
    decreases operands.len(),
{
    if operands.len() == 0 {
        Ok(Seq::empty())
    } else {
        match values_of(operands.drop_last()) {
            Err(error) => Err(error),
            Ok(values) => match operands.last() {
                Ok(value) => Ok(values.push(value)),
                Err(error) => Err(error),
            },
        }
    }
}

/// The sum of two values: defined for two integers whose sum is a `usize`.
pub open spec fn sum_of(a: Value, b: Value) -> ValueResult {
    match (a, b) {
        (Value::Integer(x), Value::Integer(y)) => if x + y <= usize::MAX {
            Ok(Value::Integer((x + y) as usize))
        } else {
            Err(unspecified())
        },
        _ => Err(wrong_types()),
    }
}

/// What `add` answers.
pub open spec fn sum(operands: Seq<ValueResult>) -> EvaluationResult<ValueResult> {
    match values_of(operands) {
        Err(error) => EvaluationResult::Total(Err(error)),
        Ok(values) => if values.len() == 2 {
            EvaluationResult::Total(sum_of(values[0], values[1]))
        } else {
            EvaluationResult::Total(Err(wrong_count(2, values.len() as usize)))
        },
    }
}

/// What defining `name` as `value` in the scope of `context` does.
pub open spec fn definition_of(
    context: EvaluationContext,
    name: Value,
    value: Value,
    scopes: Seq<ScopeView>,
) -> Evaluation {
    match name {
        Value::String(text) => if context.scope < scopes.len() && !scopes[context.scope as int].symbols.contains_key(
            text@,
        ) {
            Evaluation {
                result: EvaluationResult::Total(Ok(value)),
                scopes: scopes.update(
                    context.scope as int,
                    scopes[context.scope as int].define(text@, value),
                ),
                woken: scopes[context.scope as int].listeners_of(text@),
            }
        } else {
            Evaluation {
                result: EvaluationResult::Total(Err(unspecified())),
                scopes,
                woken: Seq::empty(),
            }
        },
        _ => Evaluation {
            result: EvaluationResult::Total(Err(wrong_types())),
            scopes,
            woken: Seq::empty(),
        },
    }
}

/// What `define_symbol` does.
pub open spec fn definition(
    context: EvaluationContext,
    operands: Seq<ValueResult>,
    scopes: Seq<ScopeView>,
) -> Evaluation {
    match values_of(operands) {
        Err(error) => Evaluation {
            result: EvaluationResult::Total(Err(error)),
            scopes,
            woken: Seq::empty(),
        },
        Ok(values) => if values.len() == 2 {
            definition_of(context, values[0], values[1], scopes)
        } else {
            Evaluation {
                result: EvaluationResult::Total(Err(wrong_count(2, values.len() as usize))),
                scopes,
                woken: Seq::empty(),
            }
        },
    }
}

/// What looking up the symbol that `name` names answers in the scope of `context`.
pub open spec fn retrieval_of(
    context: EvaluationContext,
    name: Value,
    scopes: Seq<ScopeView>,
) -> EvaluationResult<ValueResult> {
    match name {
        Value::String(text) => match lookup(scopes, context.scope, text@) {
            LookupResult::Total(value) => EvaluationResult::Total(Ok(value)),
            LookupResult::Pending => EvaluationResult::Pending,
            LookupResult::NotFound => EvaluationResult::Total(Err(unspecified())),
        },
        _ => EvaluationResult::Total(Err(wrong_types())),
    }
}

/// What `get_symbol` answers.
pub open spec fn retrieval(
    context: EvaluationContext,
    operands: Seq<ValueResult>,
    scopes: Seq<ScopeView>,
) -> EvaluationResult<ValueResult> {
    match values_of(operands) {
        Err(error) => EvaluationResult::Total(Err(error)),
        Ok(values) => if values.len() == 1 {
            retrieval_of(context, values[0], scopes)
        } else {
            EvaluationResult::Total(Err(wrong_count(1, values.len() as usize)))
        },
    }
}

/// The scopes after `listener` has begun to wait for the symbol that a
/// single string operand names: it waits in the scope whose answer to the
/// lookup is `Pending`. Other operands subscribe nowhere.
pub open spec fn subscription(
    context: EvaluationContext,
    listener: NodeId,
    operands: Seq<ValueResult>,
    scopes: Seq<ScopeView>,
) -> Seq<ScopeView> {
    if operands.len() == 1 {
        match operands[0] {
            Ok(Value::String(text)) => match awaited(scopes, context.scope, text@) {
                Some(place) => scopes.update(
                    place as int,
                    scopes[place as int].register(text@, listener),
                ),
                None => scopes,
            },
            _ => scopes,
        }
    } else {
        scopes
    }
}

/// Defining a symbol keeps every scope, its parent and its bindings, and
/// leaves no node waiting for a name that is bound.
pub proof fn lemma_definition_scopes(
    context: EvaluationContext,
    operands: Seq<ValueResult>,
    scopes: Seq<ScopeView>,
)
    ensures
        definition(context, operands, scopes).scopes.len() == scopes.len(),
        scopes_continue(scopes, definition(context, operands, scopes).scopes),
        forall|scope: ScopeId, name: Seq<char>| #[trigger]
            bound_and_quiet(scopes, scope, name) ==> bound_and_quiet(
                definition(context, operands, scopes).scopes,
                scope,
                name,
            ),
{
}

/// Subscribing for a symbol keeps every scope, its parent and its
/// bindings, and leaves no node waiting for a name that is bound.
pub proof fn lemma_subscription_scopes(
    context: EvaluationContext,
    listener: NodeId,
    operands: Seq<ValueResult>,
    scopes: Seq<ScopeView>,
)
    ensures
        subscription(context, listener, operands, scopes).len() == scopes.len(),
        scopes_continue(scopes, subscription(context, listener, operands, scopes)),
        forall|scope: ScopeId, name: Seq<char>| #[trigger]
            bound_and_quiet(scopes, scope, name) ==> bound_and_quiet(
                subscription(context, listener, operands, scopes),
                scope,
                name,
            ),
{
    if operands.len() == 1 {
        match operands[0] {
            Ok(Value::String(text)) => {
                lemma_awaited_unbound(scopes, context.scope, text@);
            },
            _ => {},
        }
    }
}

/// An error among the first `count` operands is the error of them all.
proof fn lemma_error_stays(operands: Seq<ValueResult>, count: int)
    requires
        0 <= count <= operands.len(),
        values_of(operands.take(count)) is Err,
    ensures
        values_of(operands) == values_of(operands.take(count)),
    decreases operands.len() - count,
{
    if count < operands.len() {
        assert(operands.take(count + 1).drop_last() =~= operands.take(count));
        lemma_error_stays(operands, count + 1);
    } else {
        assert(operands.take(count) =~= operands);
    }
}

/// Collects the values of `operands`, or returns the first error among them.
pub fn propagate_errors(operands: &[ValueResult]) -> (outcome: Result<Vec<Value>, ValueError>)
    ensures
        match values_of(operands@) {
            Ok(values) => outcome is Ok && outcome->Ok_0@ == values,
            Err(error) => outcome == Err::<Vec<Value>, ValueError>(error),
        },
{
    let mut values: Vec<Value> = Vec::new();
    let mut at: usize = 0;
    while at < operands.len()
        invariant
            at <= operands.len(),
            values_of(operands@.take(at as int)) == Ok::<Seq<Value>, ValueError>(values@),
        decreases operands.len() - at,
    {
        proof {
            assert(operands@.take(at + 1).drop_last() =~= operands@.take(at as int));
        }
        match &operands[at] {
            Ok(value) => values.push(value.clone()),
            Err(error) => {
                proof {
                    lemma_error_stays(operands@, at + 1);
                }
                return Err(*error);
            },
        }
        at += 1;
    }
    assert(operands@.take(at as int) =~= operands@);
    Ok(values)
}

/// The single operand of a unary operation.
pub fn unary_op(operands: &[Value]) -> (outcome: Result<&Value, ValueError>)
    ensures
        operands@.len() == 1 ==> outcome == Ok::<&Value, ValueError>(&operands@[0]),
        operands@.len() != 1 ==> outcome == Err::<&Value, ValueError>(
            wrong_count(1, operands@.len() as usize),
        ),
{
    if operands.len() == 1 {
        Ok(&operands[0])
    } else {
        Err(
            ValueError::new(
                ValueErrorCause::WrongNumberOfOperandsForOperation {
                    expected: 1,
                    found: operands.len(),
                },
            ),
        )
    }
}

/// The two operands of a binary operation.
pub fn binary_op(operands: &[Value]) -> (outcome: Result<(&Value, &Value), ValueError>)
    ensures
        operands@.len() == 2 ==> outcome == Ok::<(&Value, &Value), ValueError>(
            (&operands@[0], &operands@[1]),
        ),
        operands@.len() != 2 ==> outcome == Err::<(&Value, &Value), ValueError>(
            wrong_count(2, operands@.len() as usize),
        ),
{
    if operands.len() == 2 {
        Ok((&operands[0], &operands[1]))
    } else {
        Err(
            ValueError::new(
                ValueErrorCause::WrongNumberOfOperandsForOperation {
                    expected: 2,
                    found: operands.len(),
                },
            ),
        )
    }
}

/// The registrar of an operation that never has to wait.
pub fn null_registrar(context: &EvaluationContext, listener: NodeId, operands: &[ValueResult]) {
}

fn do_add(a: &Value, b: &Value) -> (outcome: ValueResult)
    ensures
        outcome == sum_of(*a, *b),
{
    match a {
        Value::Integer(x) => match b {
            Value::Integer(y) => {
                if *x <= usize::MAX - *y {
                    Ok(Value::Integer(*x + *y))
                } else {
                    Err(ValueError::new(ValueErrorCause::UnspecifiedError))
                }
            },
            _ => Err(ValueError::new(ValueErrorCause::WrongTypesForOperation)),
        },
        _ => Err(ValueError::new(ValueErrorCause::WrongTypesForOperation)),
    }
}

/// Adds two integers. An error among the operands is the result; so is a
/// wrong number of operands, an operand that is no integer, and a sum that
/// does not fit.
pub fn add(context: &EvaluationContext, args: &[ValueResult]) -> (result: EvaluationResult<ValueResult>)
    ensures
        result == sum(args@),
{
    match propagate_errors(args) {
        Err(error) => EvaluationResult::Total(Err(error)),
        Ok(values) => match binary_op(values.as_slice()) {
            Err(error) => EvaluationResult::Total(Err(error)),
            Ok((a, b)) => EvaluationResult::Total(do_add(a, b)),
        },
    }
}

fn do_define(context: &EvaluationContext, name: &Value, value: &Value, scopes: &mut Vec<Scope>) -> (outcome: (
    EvaluationResult<ValueResult>,
    Vec<NodeId>,
))
    ensures
        outcome.0 == definition_of(*context, *name, *value, scope_views(old(scopes)@)).result,
        outcome.1@ == definition_of(*context, *name, *value, scope_views(old(scopes)@)).woken,
        scope_views(final(scopes)@) == definition_of(
            *context,
            *name,
            *value,
            scope_views(old(scopes)@),
        ).scopes,
{
    match name {
        Value::String(text) => {
            let place = context.scope();
            if place < scopes.len() {
                match scopes[place].define_symbol(text.as_str(), value.clone()) {
                    Ok(woken) => {
                        assert(scope_views(scopes@) =~= scope_views(old(scopes)@).update(
                            place as int,
                            scope_views(old(scopes)@)[place as int].define(text@, *value),
                        ));
                        (EvaluationResult::Total(Ok(value.clone())), woken)
                    },
                    Err(_) => {
                        assert(scope_views(scopes@) =~= scope_views(old(scopes)@));
                        (
                            EvaluationResult::Total(
                                Err(ValueError::new(ValueErrorCause::UnspecifiedError)),
                            ),
                            Vec::new(),
                        )
                    },
                }
            } else {
                (
                    EvaluationResult::Total(Err(ValueError::new(ValueErrorCause::UnspecifiedError))),
                    Vec::new(),
                )
            }
        },
        _ => (
            EvaluationResult::Total(Err(ValueError::new(ValueErrorCause::WrongTypesForOperation))),
            Vec::new(),
        ),
    }
}

/// Defines the symbol that the first operand names as the second operand,
/// in the scope of `context`. The result is the value; the nodes that
/// waited for the name are returned beside it. A name that is already
/// defined, or a scope that does not exist, gives an unspecified error.
pub fn define_symbol(context: &EvaluationContext, args: &[ValueResult], scopes: &mut Vec<Scope>) -> (outcome: (
    EvaluationResult<ValueResult>,
    Vec<NodeId>,
))
    ensures
        outcome.0 == definition(*context, args@, scope_views(old(scopes)@)).result,
        outcome.1@ == definition(*context, args@, scope_views(old(scopes)@)).woken,
        scope_views(final(scopes)@) == definition(*context, args@, scope_views(old(scopes)@)).scopes,
{
    match propagate_errors(args) {
        Err(error) => (EvaluationResult::Total(Err(error)), Vec::new()),
        Ok(values) => match binary_op(values.as_slice()) {
            Err(error) => (EvaluationResult::Total(Err(error)), Vec::new()),
            Ok((name, value)) => do_define(context, name, value, scopes),
        },
    }
}

fn do_get(context: &EvaluationContext, name: &Value, scopes: &Vec<Scope>) -> (result: EvaluationResult<
    ValueResult,
>)
    ensures
        result == retrieval_of(*context, *name, scope_views(scopes@)),
{
    match name {
        Value::String(text) => {
            let place = context.scope();
            let answer = if place < scopes.len() {
                scopes[place].get_symbol(text.as_str(), scopes)
            } else {
                LookupResult::NotFound
            };
            match answer {
                LookupResult::Total(value) => EvaluationResult::Total(Ok(value)),
                LookupResult::Pending => EvaluationResult::Pending,
                LookupResult::NotFound => EvaluationResult::Total(
                    Err(ValueError::new(ValueErrorCause::UnspecifiedError)),
                ),
            }
        },
        _ => EvaluationResult::Total(Err(ValueError::new(ValueErrorCause::WrongTypesForOperation))),
    }
}

/// Looks up the symbol that the operand names, starting in the scope of
/// `context`. A symbol that may still be defined gives `Pending`; one that
/// never will be gives an unspecified error.
pub fn get_symbol(context: &EvaluationContext, args: &[ValueResult], scopes: &Vec<Scope>) -> (result: EvaluationResult<
    ValueResult,
>)
    ensures
        result == retrieval(*context, args@, scope_views(scopes@)),
{
    match propagate_errors(args) {
        Err(error) => EvaluationResult::Total(Err(error)),
        Ok(values) => match unary_op(values.as_slice()) {
            Err(error) => EvaluationResult::Total(Err(error)),
            Ok(name) => do_get(context, name, scopes),
        },
    }
}

/// Makes `listener` wait for the symbol that a single string operand
/// names, in the scope whose answer to the lookup is `Pending`.
pub fn get_symbol_register(
    context: &EvaluationContext,
    listener: NodeId,
    operands: &[ValueResult],
    scopes: &mut Vec<Scope>,
)
    ensures
        scope_views(final(scopes)@) == subscription(
            *context,
            listener,
            operands@,
            scope_views(old(scopes)@),
        ),
{
    if operands.len() != 1 {
        return ;
    }
    if let Ok(Value::String(text)) = &operands[0] {
        let start = context.scope();
        if start < scopes.len() {
            if let Some(place) = scopes[start].awaited_scope(start, text.as_str(), scopes) {
                proof {
                    lemma_awaited_unbound(scope_views(scopes@), start, text@);
                }
                scopes[place].register_listener(text.as_str(), listener);
                assert(scope_views(scopes@) =~= scope_views(old(scopes)@).update(
                    place as int,
                    scope_views(old(scopes)@)[place as int].register(text@, listener),
                ));
            }
        }
    }
}

/// The operation `add`.
pub fn add_operation() -> (operation: Operation)
    ensures
        operation == (Operation { name: "add", evaluator: Evaluator::Add, registrar: Registrar::Null }),
{
    Operation::new("add", Evaluator::Add, Registrar::Null)
}

/// The operation `define_symbol`.
pub fn define_symbol_operation() -> (operation: Operation)
    ensures
        operation == (Operation {
            name: "define_symbol",
            evaluator: Evaluator::DefineSymbol,
            registrar: Registrar::Null,
        }),
{
    Operation::new("define_symbol", Evaluator::DefineSymbol, Registrar::Null)
}

/// The operation `get_symbol`.
pub fn get_symbol_operation() -> (operation: Operation)
    ensures
        operation == (Operation {
            name: "get_symbol",
            evaluator: Evaluator::GetSymbol,
            registrar: Registrar::GetSymbol,
        }),
{
    Operation::new("get_symbol", Evaluator::GetSymbol, Registrar::GetSymbol)
}

/// The built-in operations, each under its name.
pub fn default_operations() -> (group: OperationGroup)
    ensures
        group@ == Map::<Seq<char>, Operation>::empty().insert(
            "add"@,
            Operation { name: "add", evaluator: Evaluator::Add, registrar: Registrar::Null },
        ).insert(
            "define_symbol"@,
            Operation {
                name: "define_symbol",
                evaluator: Evaluator::DefineSymbol,
                registrar: Registrar::Null,
            },
        ).insert(
            "get_symbol"@,
            Operation {
                name: "get_symbol",
                evaluator: Evaluator::GetSymbol,
                registrar: Registrar::GetSymbol,
            },
        ),
{
    let mut map: StringHashMap<Operation> = StringHashMap::new();
    map.insert("add".to_owned(), add_operation());
    map.insert("define_symbol".to_owned(), define_symbol_operation());
    map.insert("get_symbol".to_owned(), get_symbol_operation());
    OperationGroup::new(map)
}

} // verus!
