//! Operations: a name, the rule by which the operation is evaluated, and
//! the rule by which a node that has to wait subscribes for a later call.

use vstd::prelude::*;
use vstd::hash_map::StringHashMap;
use crate::base::context::{
    EvaluationContext, NodeId, Scope, ScopeId, ScopeView, bound_and_quiet, scope_views,
    scopes_continue,
};
use crate::base::value;
use crate::base::value::ValueResult;

verus! {

/// What the evaluation of an operation yields: a value, or the news that
/// the value is not known yet.
#[derive(Debug, PartialEq, Eq)]
pub enum EvaluationResult<V> {
    Total(V),
    Pending,
}

/// The rule by which an operation computes its result from its operands.
#[derive(Clone, Copy, Debug, PartialEq, Eq, Structural)]
pub enum Evaluator {
    Add,
    DefineSymbol,
    GetSymbol,
}

/// The rule by which a node subscribes for a later notification, once its
/// operation has answered `Pending`.
#[derive(Clone, Copy, Debug, PartialEq, Eq, Structural)]
pub enum Registrar {
    /// Subscribes nowhere.
    Null,
    /// Waits for the symbol that the operand names.
    GetSymbol,
}

/// A named operation.
#[derive(Clone, Copy, Debug)]
pub struct Operation {
    pub name: &'static str,
    pub evaluator: Evaluator,
    pub registrar: Registrar,
}

/// What an evaluation does, as mathematical values: the result, the scopes
/// as the evaluation leaves them, and the nodes that it has woken, each of
/// which is to be told the result.
pub struct Evaluation {
    pub result: EvaluationResult<ValueResult>,
    pub scopes: Seq<ScopeView>,
    pub woken: Seq<NodeId>,
}

impl Operation {
    pub fn new(name: &'static str, evaluator: Evaluator, registrar: Registrar) -> (operation: Operation)
        ensures
            operation == (Operation { name, evaluator, registrar }),
    {
        Operation { name, evaluator, registrar }
    }

    /// What evaluating this operation on `operands` does, given `scopes`.
    pub open spec fn evaluation(
        self,
        context: EvaluationContext,
        operands: Seq<ValueResult>,
        scopes: Seq<ScopeView>,
    ) -> Evaluation {
        match self.evaluator {
            Evaluator::Add => Evaluation {
                result: value::sum(operands),
                scopes,
                woken: Seq::empty(),
            },
            Evaluator::DefineSymbol => value::definition(context, operands, scopes),
            Evaluator::GetSymbol => Evaluation {
                result: value::retrieval(context, operands, scopes),
                scopes,
                woken: Seq::empty(),
            },
        }
    }

    /// The scopes after node `listener` has subscribed, by this operation's
    /// registrar, for the event that lets it evaluate `operands`.
    pub open spec fn registration(
        self,
        context: EvaluationContext,
        listener: NodeId,
        operands: Seq<ValueResult>,
        scopes: Seq<ScopeView>,
    ) -> Seq<ScopeView> {
        match self.registrar {
            Registrar::Null => scopes,
            Registrar::GetSymbol => value::subscription(context, listener, operands, scopes),
        }
    }

    /// Evaluates the operation. Returns the result and the nodes that the
    /// evaluation has woken, each of which is to be told the result.
    pub fn evaluate(
        &self,
        context: &EvaluationContext,
        operands: &[ValueResult],
        scopes: &mut Vec<Scope>,
    ) -> (outcome: (EvaluationResult<ValueResult>, Vec<NodeId>))
        ensures
            outcome.0 == self.evaluation(*context, operands@, scope_views(old(scopes)@)).result,
            outcome.1@ == self.evaluation(*context, operands@, scope_views(old(scopes)@)).woken,
            scope_views(final(scopes)@) == self.evaluation(
                *context,
                operands@,
                scope_views(old(scopes)@),
            ).scopes,
    {
        match self.evaluator {
            Evaluator::Add => (crate::base::value::add(context, operands), Vec::new()),
            Evaluator::DefineSymbol => value::define_symbol(context, operands, scopes),
            Evaluator::GetSymbol => (value::get_symbol(context, operands, scopes), Vec::new()),
        }
    }

    /// Subscribes node `listener`, whose evaluation of `operands` has
    /// answered `Pending`, for the event that will let it go on.
    pub fn register(
        &self,
        context: &EvaluationContext,
        listener: NodeId,
        operands: &[ValueResult],
        scopes: &mut Vec<Scope>,
    )
        ensures
            scope_views(final(scopes)@) == self.registration(
                *context,
                listener,
                operands@,
                scope_views(old(scopes)@),
            ),
    {
        match self.registrar {
            Registrar::Null => value::null_registrar(context, listener, operands),
            Registrar::GetSymbol => value::get_symbol_register(context, listener, operands, scopes),
        }
    }
}

/// An evaluation and a registration keep every scope, its parent and its
/// bindings, and leave no node waiting for a name that is bound.
pub proof fn lemma_operation_scopes(
    operation: Operation,
    context: EvaluationContext,
    listener: NodeId,
    operands: Seq<ValueResult>,
    scopes: Seq<ScopeView>,
)
    ensures
        operation.evaluation(context, operands, scopes).scopes.len() == scopes.len(),
        scopes_continue(scopes, operation.evaluation(context, operands, scopes).scopes),
        forall|scope: ScopeId, name: Seq<char>| #[trigger]
            bound_and_quiet(scopes, scope, name) ==> bound_and_quiet(
                operation.evaluation(context, operands, scopes).scopes,
                scope,
                name,
            ),
        operation.registration(context, listener, operands, scopes).len() == scopes.len(),
        scopes_continue(scopes, operation.registration(context, listener, operands, scopes)),
        forall|scope: ScopeId, name: Seq<char>| #[trigger]
            bound_and_quiet(scopes, scope, name) ==> bound_and_quiet(
                operation.registration(context, listener, operands, scopes),
                scope,
                name,
            ),
{
    value::lemma_definition_scopes(context, operands, scopes);
    value::lemma_subscription_scopes(context, listener, operands, scopes);
}

/// The operations that a program may name.
pub struct OperationGroup {
    map: StringHashMap<Operation>,
}

impl View for OperationGroup {
    type V = Map<Seq<char>, Operation>;

    closed spec fn view(&self) -> Map<Seq<char>, Operation> {
        self.map@
    }
}

impl OperationGroup {
    pub fn new(map: StringHashMap<Operation>) -> (group: OperationGroup)
        ensures
            group@ == map@,
    {
        OperationGroup { map }
    }

    pub fn get(&self, name: &str) -> (found: Option<&Operation>)
        ensures
            match found {
                Some(operation) => self@.contains_key(name@) && *operation == self@[name@],
                None => !self@.contains_key(name@),
            },
    {
        self.map.get(name)
    }
}

} // verus!
