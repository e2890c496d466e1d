//! Expressions and the nodes of the dependency graph.
//!
//! An expression is either a value or a node that waits: for operands that
//! are themselves waiting, or for an event for which its operation has
//! subscribed. A node is told that an operand has been evaluated by its
//! position among the operands; it evaluates its operation when the last
//! operand has arrived.

use vstd::prelude::*;
use crate::base::context::{
    EvaluationContext, NodeId, Scope, ScopeId, ScopeView, bound_and_quiet, scope_continues,
    scope_views, scopes_continue,
};
use crate::base::operation::{EvaluationResult, Operation, lemma_operation_scopes};
use crate::base::value::{ValueError, ValueErrorCause, ValueResult, clone_result, unspecified};

verus! {

/// An expression: a value, or the handle of the node that will have one.
#[derive(Debug, PartialEq, Eq)]
pub enum Expression {
    /// An expression that has been evaluated.
    Total(ValueResult),
    /// An expression that waits; the node is found in the session under this handle.
    Partial(NodeId),
}

impl Expression {
    /// An expression that is the given value. No node is made for it.
    pub fn from_value(value: ValueResult) -> (expression: Expression)
        ensures
            expression == Expression::Total(value),
    {
        Expression::Total(value)
    }

    /// Whether the expression waits.
    pub open spec fn is_partial(self) -> bool {
        self is Partial
    }

    /// The value of an evaluated expression. An expression that waits
    /// stands for an unspecified error.
    pub open spec fn total_value(self) -> ValueResult {
        match self {
            Expression::Total(value) => value,
            Expression::Partial(_) => Err(unspecified()),
        }
    }

    pub(crate) fn copy(&self) -> (copy: Expression)
        ensures
            copy == *self,
    {
        match self {
            Expression::Total(value) => Expression::Total(clone_result(value)),
            Expression::Partial(node) => Expression::Partial(*node),
        }
    }

    fn value(&self) -> (value: ValueResult)
        ensures
            value == self.total_value(),
    {
        match self {
            Expression::Total(value) => clone_result(value),
            Expression::Partial(_) => Err(ValueError::new(ValueErrorCause::UnspecifiedError)),
        }
    }
}

/// The number of expressions among `operands` that wait.
pub open spec fn count_partial(operands: Seq<Expression>) -> nat
    decreases operands.len(),
{
    if operands.len() == 0 {
        0
    } else {
        count_partial(operands.drop_last()) + if operands.last().is_partial() {
            1nat
        } else {
            0nat
        }
    }
}

/// The values of `operands`, in their order.
pub open spec fn total_values(operands: Seq<Expression>) -> Seq<ValueResult> {
    operands.map_values(|operand: Expression| operand.total_value())
}

/// The operands of a node, as mathematical values.
pub enum OperandsView {
    /// Every operand has been evaluated.
    Total(Seq<ValueResult>),
    /// Some operands wait; the number says how many.
    Partial(Seq<Expression>, usize),
}

impl OperandsView {
    /// The number is the number of operands that wait, and is not zero: a
    /// list in which nothing waits is a list of values.
    pub open spec fn wf(self) -> bool {
        match self {
            OperandsView::Total(_) => true,
            OperandsView::Partial(operands, pending) => pending > 0 && pending == count_partial(operands),
        }
    }

    /// The number of operands that wait.
    pub open spec fn pending(self) -> nat {
        match self {
            OperandsView::Total(_) => 0,
            OperandsView::Partial(_, pending) => pending as nat,
        }
    }
}

/// The operand list that is made of `operands`: their values where none
/// of them waits, else the expressions with the number of those that wait.
pub open spec fn operand_list(operands: Seq<Expression>) -> OperandsView {
    if count_partial(operands) == 0 {
        OperandsView::Total(total_values(operands))
    } else {
        OperandsView::Partial(operands, count_partial(operands) as usize)
    }
}

/// The operands of a node.
#[derive(Debug)]
pub enum OperandList {
    Total(Vec<ValueResult>),
    Partial(Vec<Expression>, usize),
}

impl View for OperandList {
    type V = OperandsView;

    open spec fn view(&self) -> OperandsView {
        match self {
            OperandList::Total(values) => OperandsView::Total(values@),
            OperandList::Partial(operands, pending) => OperandsView::Partial(operands@, *pending),
        }
    }
}

/// No more expressions wait than there are.
pub proof fn lemma_count_partial_bound(operands: Seq<Expression>)
    ensures
        count_partial(operands) <= operands.len(),
    decreases operands.len(),
{
    if operands.len() > 0 {
        lemma_count_partial_bound(operands.drop_last());
    }
}

/// Replacing an operand changes the number of those that wait by that operand alone.
pub proof fn lemma_count_partial_update(operands: Seq<Expression>, index: int, operand: Expression)
    requires
        0 <= index < operands.len(),
    ensures
        count_partial(operands.update(index, operand)) + (if operands[index].is_partial() {
            1nat
        } else {
            0nat
        }) == count_partial(operands) + (if operand.is_partial() {
            1nat
        } else {
            0nat
        }),
    decreases operands.len(),
{
    let updated = operands.update(index, operand);
    if index == operands.len() - 1 {
        assert(updated.drop_last() =~= operands.drop_last());
    } else {
        assert(updated.drop_last() =~= operands.drop_last().update(index, operand));
        lemma_count_partial_update(operands.drop_last(), index, operand);
    }
}

fn collect_values(operands: &Vec<Expression>) -> (values: Vec<ValueResult>)
    ensures
        values@ == total_values(operands@),
{
    let mut values: Vec<ValueResult> = Vec::new();
    let mut at: usize = 0;
    while at < operands.len()
        invariant
            at <= operands.len(),
            values@ == total_values(operands@.take(at as int)),
        decreases operands.len() - at,
    {
        values.push(operands[at].value());
        at += 1;
        assert(total_values(operands@.take(at as int)) =~= total_values(
            operands@.take(at - 1),
        ).push(operands@[at - 1].total_value()));
    }
    assert(operands@.take(at as int) =~= operands@);
    values
}

impl OperandList {
    /// Makes the operand list of `operands`.
    pub fn new(operands: Vec<Expression>) -> (list: OperandList)
        ensures
            list@ == operand_list(operands@),
    {
        let mut pending: usize = 0;
        let mut at: usize = 0;
        while at < operands.len()
            invariant
                at <= operands.len(),
                pending == count_partial(operands@.take(at as int)),
                pending <= at,
            decreases operands.len() - at,
        {
            proof {
                assert(operands@.take(at + 1).drop_last() =~= operands@.take(at as int));
            }
            match operands[at] {
                Expression::Total(_) => {},
                Expression::Partial(_) => {
                    pending += 1;
                },
            }
            at += 1;
        }
        assert(operands@.take(at as int) =~= operands@);
        if pending == 0 {
            OperandList::Total(collect_values(&operands))
        } else {
            OperandList::Partial(operands, pending)
        }
    }
}

/// The news that a node has been evaluated.
#[derive(Debug, PartialEq, Eq)]
pub struct Notification {
    pub node: NodeId,
    pub value: ValueResult,
}

impl Notification {
    pub(crate) fn copy(&self) -> (copy: Notification)
        ensures
            copy == *self,
    {
        Notification { node: self.node, value: clone_result(&self.value) }
    }
}

/// The news that each of `woken` is to be told `value`.
pub open spec fn wake(woken: Seq<NodeId>, value: ValueResult) -> Seq<Notification> {
    woken.map_values(|node: NodeId| Notification { node, value })
}

/// A node, as mathematical values.
pub struct NodeView {
    pub operation: Operation,
    pub context: EvaluationContext,
    pub operands: OperandsView,
    /// The node that is told when this one has been evaluated.
    pub listener: Option<NodeId>,
    /// The position of this node among the operands of its listener.
    pub index: usize,
    /// The value, once the node has been evaluated.
    pub value: Option<ValueResult>,
}

/// What a node does when it is told something: the node afterwards, the
/// scopes afterwards, and the news that follows.
pub struct Reaction {
    pub node: NodeView,
    pub scopes: Seq<ScopeView>,
    pub news: Seq<Notification>,
}

impl NodeView {
    /// A node that has just been made.
    pub open spec fn fresh(operation: Operation, context: EvaluationContext, operands: OperandsView) -> NodeView {
        NodeView { operation, context, operands, listener: None, index: 0, value: None }
    }

    /// The node after it has been evaluated to `value`.
    pub open spec fn resolved(self, value: ValueResult) -> NodeView {
        NodeView { value: Some(value), ..self }
    }

    /// The node after it has been placed at position `index` among the operands of `listener`.
    pub open spec fn adopted(self, listener: NodeId, index: usize) -> NodeView {
        NodeView { listener: Some(listener), index, ..self }
    }

    /// Whether the node takes the value of operand `child` at position
    /// `index`: it has no value itself, and the operand at that position
    /// is that node and still waits.
    pub open spec fn accepts(self, child: NodeId, index: usize) -> bool {
        &&& self.value is None
        &&& self.operands matches OperandsView::Partial(operands, pending)
        &&& index < operands.len()
        &&& operands[index as int] == Expression::Partial(child)
        &&& pending > 0
    }

    /// The node after the operand at position `index` has been replaced by `value`.
    pub open spec fn filled(self, index: usize, value: ValueResult) -> NodeView {
        match self.operands {
            OperandsView::Partial(operands, pending) => NodeView {
                operands: OperandsView::Partial(
                    operands.update(index as int, Expression::Total(value)),
                    (pending - 1) as usize,
                ),
                ..self
            },
            OperandsView::Total(_) => self,
        }
    }

    /// The node for which this node waits at `position` among its operands, if it waits for one there.
    pub open spec fn waits_for(self, position: int) -> Option<NodeId> {
        match self.operands {
            OperandsView::Partial(operands, _) => if 0 <= position < operands.len() {
                match operands[position] {
                    Expression::Partial(child) => Some(child),
                    Expression::Total(_) => None,
                }
            } else {
                None
            },
            OperandsView::Total(_) => None,
        }
    }

    /// Whether the node can be evaluated now: it has no value, and the
    /// last of its operands has just arrived.
    pub open spec fn ready(self) -> bool {
        &&& self.value is None
        &&& self.operands matches OperandsView::Partial(_, pending)
        &&& pending == 0
    }

    /// What the node, whose handle is `id`, does when it tries to evaluate
    /// itself. A node that is ready keeps the values of its operands and
    /// evaluates its operation on them. A result is news for the nodes
    /// that the evaluation has woken, and then for the node itself. Where
    /// the result is pending, the node subscribes by its operation's registrar.
    pub open spec fn attempt(self, id: NodeId, scopes: Seq<ScopeView>) -> Reaction {
        if self.ready() {
            let values = total_values(self.operands->Partial_0);
            let evaluation = self.operation.evaluation(self.context, values, scopes);
            let node = NodeView { operands: OperandsView::Total(values), ..self };
            match evaluation.result {
                EvaluationResult::Total(value) => Reaction {
                    node,
                    scopes: evaluation.scopes,
                    news: wake(evaluation.woken, value).push(Notification { node: id, value }),
                },
                EvaluationResult::Pending => Reaction {
                    node,
                    scopes: self.operation.registration(self.context, id, values, evaluation.scopes),
                    news: Seq::empty(),
                },
            }
        } else {
            Reaction { node: self, scopes, news: Seq::empty() }
        }
    }

    /// What the node, whose handle is `id`, does when it is told that its
    /// operand `child`, at position `index`, has been evaluated to `value`.
    pub open spec fn told(
        self,
        id: NodeId,
        child: NodeId,
        index: usize,
        value: ValueResult,
        scopes: Seq<ScopeView>,
    ) -> Reaction {
        if self.accepts(child, index) {
            self.filled(index, value).attempt(id, scopes)
        } else {
            Reaction { node: self, scopes, news: Seq::empty() }
        }
    }
}

/// Scopes grow out of scopes step by step.
pub proof fn lemma_scopes_continue_twice(first: Seq<ScopeView>, second: Seq<ScopeView>, third: Seq<ScopeView>)
    requires
        scopes_continue(first, second),
        scopes_continue(second, third),
    ensures
        scopes_continue(first, third),
{
    assert forall|id: int| 0 <= id < first.len() implies scope_continues(first[id], #[trigger] third[id]) by {
        assert(scope_continues(first[id], second[id]));
        assert(scope_continues(second[id], third[id]));
    }
}

/// Whatever a node is told, it keeps its operation, its context, its
/// listener, its position and its value, and it waits for no node for
/// which it did not wait before. The scopes keep their number, their
/// parents and their bindings, and no node waits afterwards for a name that
/// was bound with none waiting.
pub proof fn lemma_told_keeps(
    node: NodeView,
    id: NodeId,
    child: NodeId,
    index: usize,
    value: ValueResult,
    scopes: Seq<ScopeView>,
)
    ensures
        ({
            let reaction = node.told(id, child, index, value, scopes);
            &&& reaction.node.operation == node.operation
            &&& reaction.node.context == node.context
            &&& reaction.node.listener == node.listener
            &&& reaction.node.index == node.index
            &&& reaction.node.value == node.value
            &&& forall|position: int| #[trigger]
                reaction.node.waits_for(position) is Some ==> reaction.node.waits_for(position)
                    == node.waits_for(position)
            &&& reaction.scopes.len() == scopes.len()
            &&& scopes_continue(scopes, reaction.scopes)
            &&& forall|scope: ScopeId, name: Seq<char>| #[trigger]
                bound_and_quiet(scopes, scope, name) ==> bound_and_quiet(reaction.scopes, scope, name)
        }),
{
    if node.accepts(child, index) {
        let filled = node.filled(index, value);
        if filled.ready() {
            let values = total_values(filled.operands->Partial_0);
            let evaluation = filled.operation.evaluation(filled.context, values, scopes);
            lemma_operation_scopes(filled.operation, filled.context, id, values, scopes);
            lemma_operation_scopes(filled.operation, filled.context, id, values, evaluation.scopes);
            lemma_scopes_continue_twice(
                scopes,
                evaluation.scopes,
                filled.operation.registration(filled.context, id, values, evaluation.scopes),
            );
        }
    }
}

/// An operand that arrives lowers the number of operands for which a node
/// waits by exactly one, and the number stays the number of operands that
/// wait: it never falls below zero. Other news leaves the node as it is.
/// With its last operand the node has evaluated its operation, and it is
/// not left ready to do so again.
pub proof fn lemma_operand_arrival(
    node: NodeView,
    id: NodeId,
    child: NodeId,
    index: usize,
    value: ValueResult,
    scopes: Seq<ScopeView>,
)
    requires
        node.operands.wf(),
    ensures
        ({
            let after = node.told(id, child, index, value, scopes).node;
            &&& after.operands.wf()
            &&& node.accepts(child, index) ==> after.operands.pending() + 1 == node.operands.pending()
            &&& node.accepts(child, index) ==> after.waits_for(index as int) is None
            &&& !node.accepts(child, index) ==> after == node
            &&& !after.ready()
        }),
{
    if node.accepts(child, index) {
        let operands = node.operands->Partial_0;
        lemma_count_partial_update(operands, index as int, Expression::Total(value));
    }
}

/// A node of the dependency graph: an operation that waits for its
/// operands, or for an event for which it has subscribed.
#[derive(Debug)]
pub struct PartialExpression {
    operation: Operation,
    context: EvaluationContext,
    operands: OperandList,
    listener: Option<NodeId>,
    index: usize,
    value: Option<ValueResult>,
}

impl View for PartialExpression {
    type V = NodeView;

    closed spec fn view(&self) -> NodeView {
        NodeView {
            operation: self.operation,
            context: self.context,
            operands: self.operands@,
            listener: self.listener,
            index: self.index,
            value: self.value,
        }
    }
}

pub(crate) fn wake_all(woken: &Vec<NodeId>, value: &ValueResult) -> (news: Vec<Notification>)
    ensures
        news@ == wake(woken@, *value),
{
    let mut news: Vec<Notification> = Vec::new();
    let mut at: usize = 0;
    while at < woken.len()
        invariant
            at <= woken.len(),
            news@ == wake(woken@.take(at as int), *value),
        decreases woken.len() - at,
    {
        news.push(Notification { node: woken[at], value: clone_result(value) });
        at += 1;
        assert(wake(woken@.take(at as int), *value) =~= wake(woken@.take(at - 1), *value).push(
            Notification { node: woken@[at - 1], value: *value },
        ));
    }
    assert(woken@.take(at as int) =~= woken@);
    news
}

impl PartialExpression {
    /// A node for `operation` on `operands`, without listener or value.
    pub fn new(operation: Operation, context: EvaluationContext, operands: OperandList) -> (node: PartialExpression)
        ensures
            node@ == NodeView::fresh(operation, context, operands@),
    {
        PartialExpression { operation, context, operands, listener: None, index: 0, value: None }
    }

    /// The number of operands for which the node waits.
    pub fn pending(&self) -> (pending: usize)
        ensures
            pending == self@.operands.pending(),
    {
        match &self.operands {
            OperandList::Total(_) => 0,
            OperandList::Partial(_, pending) => *pending,
        }
    }

    /// The value of the node, once it has been evaluated.
    pub fn value(&self) -> (value: Option<ValueResult>)
        ensures
            value == self@.value,
    {
        match &self.value {
            Some(value) => Some(clone_result(value)),
            None => None,
        }
    }

    /// Whether the node has been evaluated.
    pub fn is_evaluated(&self) -> (evaluated: bool)
        ensures
            evaluated == self@.value is Some,
    {
        self.value.is_some()
    }

    /// The node that is told when this one has been evaluated.
    pub fn listener(&self) -> (listener: Option<NodeId>)
        ensures
            listener == self@.listener,
    {
        self.listener
    }

    /// The position of this node among the operands of its listener.
    pub fn index(&self) -> (index: usize)
        ensures
            index == self@.index,
    {
        self.index
    }

    /// Records the value to which the node has been evaluated.
    pub fn on_self_evaluated(&mut self, value: ValueResult)
        ensures
            final(self)@ == old(self)@.resolved(value),
    {
        self.value = Some(value);
    }

    /// Places the node at position `index` among the operands of `listener`.
    pub fn set_listener(&mut self, listener: NodeId, index: usize)
        ensures
            final(self)@ == old(self)@.adopted(listener, index),
    {
        self.listener = Some(listener);
        self.index = index;
    }

    /// Tries to evaluate the node, whose handle is `id`: where the last
    /// operand has arrived, the operation is evaluated on the operands'
    /// values. Returns the news that follows.
    pub fn try_evaluate_self(&mut self, id: NodeId, scopes: &mut Vec<Scope>) -> (news: Vec<Notification>)
        ensures
            final(self)@ == old(self)@.attempt(id, scope_views(old(scopes)@)).node,
            scope_views(final(scopes)@) == old(self)@.attempt(id, scope_views(old(scopes)@)).scopes,
            news@ == old(self)@.attempt(id, scope_views(old(scopes)@)).news,
    {
        if self.value.is_some() {
            return Vec::new();
        }
        let values = match &self.operands {
            OperandList::Total(_) => {
                return Vec::new();
            },
            OperandList::Partial(operands, pending) => {
                if *pending != 0 {
                    return Vec::new();
                }
                collect_values(operands)
            },
        };
        let (result, woken) = self.operation.evaluate(&self.context, values.as_slice(), scopes);
        let news = match result {
            EvaluationResult::Total(value) => {
                let mut news = wake_all(&woken, &value);
                news.push(Notification { node: id, value });
                news
            },
            EvaluationResult::Pending => {
                self.operation.register(&self.context, id, values.as_slice(), scopes);
                Vec::new()
            },
        };
        self.operands = OperandList::Total(values);
        news
    }

    /// Tells the node, whose handle is `id`, that its operand `child`, at
    /// position `index`, has been evaluated to `value`. The operand is
    /// replaced by the value and one operand fewer is waited for; with the
    /// last one the node evaluates itself. Returns the news that follows.
    pub fn on_operand_evaluated(
        &mut self,
        id: NodeId,
        child: NodeId,
        index: usize,
        value: ValueResult,
        scopes: &mut Vec<Scope>,
    ) -> (news: Vec<Notification>)
        ensures
            final(self)@ == old(self)@.told(id, child, index, value, scope_views(old(scopes)@)).node,
            scope_views(final(scopes)@) == old(self)@.told(
                id,
                child,
                index,
                value,
                scope_views(old(scopes)@),
            ).scopes,
            news@ == old(self)@.told(id, child, index, value, scope_views(old(scopes)@)).news,
    {
        if self.value.is_some() {
            return Vec::new();
        }
        let accepted = match &mut self.operands {
            OperandList::Total(_) => false,
            OperandList::Partial(operands, pending) => {
                if index < operands.len() && *pending > 0 {
                    let waits_for_child = match &operands[index] {
                        Expression::Partial(node) => *node == child,
                        Expression::Total(_) => false,
                    };
                    if waits_for_child {
                        operands.set(index, Expression::Total(value));
                        *pending = *pending - 1;
                    }
                    waits_for_child
                } else {
                    false
                }
            },
        };
        if accepted {
            self.try_evaluate_self(id, scopes)
        } else {
            Vec::new()
        }
    }
}

} // verus!
