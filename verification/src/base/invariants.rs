//! What holds of every session, however the news travels: what has a
//! value keeps it, every waiting operand is linked to the node that waits
//! for it, and a defined name wakes every node that waited for it.

use vstd::prelude::*;
use crate::base::context::{
    EvaluationContext, NodeId, ScopeId, bound_and_quiet, scope_continues,
    scopes_continue,
};
use crate::base::expression::{
    Expression, NodeView, Notification, OperandsView, count_partial, lemma_count_partial_bound,
    lemma_operand_arrival, lemma_scopes_continue_twice, lemma_told_keeps, operand_list,
    total_values, wake,
};
use crate::base::operation::{EvaluationResult, Operation, lemma_operation_scopes};
use crate::base::session::{SessionView, take_operands, lemma_step_progress, unresolved};
use crate::base::value::{Value, ValueResult};

verus! {

/// A node that has grown out of `old`: it has the operation and the
/// context of `old`, and the value of `old` if `old` had one.
pub open spec fn node_continues(old: NodeView, new: NodeView) -> bool {
    &&& new.operation == old.operation
    &&& new.context == old.context
    &&& old.value is Some ==> new.value == old.value
}

impl SessionView {
    /// Node `child` is placed under node `parent` at `position`.
    pub open spec fn linked(self, child: NodeId, parent: int, position: int) -> bool {
        &&& child < self.nodes.len()
        &&& self.nodes[child as int].listener == Some(parent as NodeId)
        &&& self.nodes[child as int].index == position
    }

    /// Every node counts the operands for which it waits, and each node
    /// for which a node waits is placed under it, at the operand's position.
    pub open spec fn wf(self) -> bool {
        &&& forall|node: int| 0 <= node < self.nodes.len() ==> (#[trigger] self.nodes[node]).operands.wf()
        &&& forall|node: int, position: int|
            0 <= node < self.nodes.len() && (#[trigger] self.nodes[node].waits_for(position)) is Some
                ==> self.linked(self.nodes[node].waits_for(position)->0, node, position)
    }

    /// A session that has grown out of `old`: no node or scope has gone,
    /// and each is continued under its handle.
    pub open spec fn continues(self, old: SessionView) -> bool {
        &&& old.nodes.len() <= self.nodes.len()
        &&& scopes_continue(old.scopes, self.scopes)
        &&& forall|node: int| 0 <= node < old.nodes.len() ==> node_continues(old.nodes[node], #[trigger] self.nodes[node])
    }

    /// A session with the nodes and scopes of `old` and no others, each
    /// node under the listener and at the position that it had.
    pub open spec fn same_shape(self, old: SessionView) -> bool {
        &&& self.nodes.len() == old.nodes.len()
        &&& self.scopes.len() == old.scopes.len()
        &&& forall|node: int|
            0 <= node < old.nodes.len() ==> (#[trigger] self.nodes[node]).listener == old.nodes[node].listener
                && self.nodes[node].index == old.nodes[node].index
    }
}

/// Sessions grow out of sessions step by step.
pub proof fn lemma_continues_twice(first: SessionView, second: SessionView, third: SessionView)
    requires
        second.continues(first),
        third.continues(second),
    ensures
        third.continues(first),
{
    assert forall|id: int| 0 <= id < first.scopes.len() implies scope_continues(
        first.scopes[id],
        #[trigger] third.scopes[id],
    ) by {
        assert(scope_continues(first.scopes[id], second.scopes[id]));
        assert(scope_continues(second.scopes[id], third.scopes[id]));
    }
    assert forall|node: int| 0 <= node < first.nodes.len() implies node_continues(
        first.nodes[node],
        #[trigger] third.nodes[node],
    ) by {
        assert(node_continues(first.nodes[node], second.nodes[node]));
        assert(node_continues(second.nodes[node], third.nodes[node]));
    }
}

/// A session that differs from a well-formed one in no operand, no
/// listener and no position is well-formed.
pub proof fn lemma_wf_by_links(old: SessionView, new: SessionView)
    requires
        old.wf(),
        new.same_shape(old),
        forall|node: int|
            0 <= node < old.nodes.len() ==> (#[trigger] new.nodes[node]).operands.wf(),
        forall|node: int, position: int|
            0 <= node < old.nodes.len() && (#[trigger] new.nodes[node].waits_for(position)) is Some
                ==> new.nodes[node].waits_for(position) == old.nodes[node].waits_for(position),
    ensures
        new.wf(),
{
    assert forall|node: int, position: int|
        0 <= node < new.nodes.len() && (#[trigger] new.nodes[node].waits_for(position)) is Some implies new.linked(
        new.nodes[node].waits_for(position)->0,
        node,
        position,
    ) by {
        let child = old.nodes[node].waits_for(position)->0;
        assert(old.linked(child, node, position));
    }
}

/// Telling a node of an operand keeps what has been reached. The session
/// afterwards continues the one before, in the same shape, and no node
/// has taken a value. A well-formed session stays well-formed, and no
/// node waits afterwards for a name that was bound with none waiting.
pub proof fn lemma_tell_keeps(
    session: SessionView,
    parent: NodeId,
    child: NodeId,
    index: usize,
    value: ValueResult,
)
    ensures
        session.tell(parent, child, index, value).0.continues(session),
        session.tell(parent, child, index, value).0.same_shape(session),
        forall|node: int|
            0 <= node < session.nodes.len() ==> (#[trigger] session.tell(
                parent,
                child,
                index,
                value,
            ).0.nodes[node]).value == session.nodes[node].value,
        session.wf() ==> session.tell(parent, child, index, value).0.wf(),
        forall|scope: ScopeId, name: Seq<char>| #[trigger]
            bound_and_quiet(session.scopes, scope, name) ==> bound_and_quiet(
                session.tell(parent, child, index, value).0.scopes,
                scope,
                name,
            ),
{
    let after = session.tell(parent, child, index, value).0;
    if parent < session.nodes.len() {
        let before = session.nodes[parent as int];
        let reaction = before.told(parent, child, index, value, session.scopes);
        lemma_told_keeps(before, parent, child, index, value, session.scopes);
        assert(after.nodes =~= session.nodes.update(parent as int, reaction.node));
        if session.wf() {
            lemma_operand_arrival(before, parent, child, index, value, session.scopes);
            assert forall|node: int| 0 <= node < session.nodes.len() implies (
            #[trigger] after.nodes[node]).operands.wf() by {
                assert(session.nodes[node].operands.wf());
            }
            lemma_wf_by_links(session, after);
        }
    }
}

/// One step keeps what has been reached. The session afterwards continues
/// the one before, in the same shape. Only the node of the news can have
/// taken a value, and it has taken the value of the news if it had none.
/// A well-formed session stays well-formed, and no node waits afterwards
/// for a name that was bound with none waiting.
pub proof fn lemma_step_keeps(session: SessionView, news: Notification)
    ensures
        session.step(news).0.continues(session),
        session.step(news).0.same_shape(session),
        forall|node: int|
            0 <= node < session.nodes.len() && node != news.node ==> (#[trigger] session.step(
                news,
            ).0.nodes[node]).value == session.nodes[node].value,
        news.node < session.nodes.len() && session.nodes[news.node as int].value is None
            ==> session.step(news).0.nodes[news.node as int].value == Some(news.value),
        session.wf() ==> session.step(news).0.wf(),
        forall|scope: ScopeId, name: Seq<char>| #[trigger]
            bound_and_quiet(session.scopes, scope, name) ==> bound_and_quiet(
                session.step(news).0.scopes,
                scope,
                name,
            ),
{
    let after = session.step(news).0;
    if news.node < session.nodes.len() && session.nodes[news.node as int].value is None {
        let node = session.nodes[news.node as int];
        let taken = SessionView {
            nodes: session.nodes.update(news.node as int, node.resolved(news.value)),
            ..session
        };
        assert(taken.continues(session));
        assert(taken.same_shape(session));
        if session.wf() {
            assert forall|other: int| 0 <= other < session.nodes.len() implies (
            #[trigger] taken.nodes[other]).operands.wf() by {
                assert(session.nodes[other].operands.wf());
            }
            lemma_wf_by_links(session, taken);
        }
        match node.listener {
            Some(parent) => {
                lemma_tell_keeps(taken, parent, news.node, node.index, news.value);
                lemma_continues_twice(session, taken, after);
                assert forall|scope: ScopeId, name: Seq<char>| #[trigger]
                    bound_and_quiet(session.scopes, scope, name) implies bound_and_quiet(
                    after.scopes,
                    scope,
                    name,
                ) by {
                    assert(bound_and_quiet(taken.scopes, scope, name));
                }
            },
            None => {},
        }
    }
}

/// Telling a node keeps what has been reached: the session afterwards
/// continues the one before, in the same shape, and a well-formed session
/// stays well-formed.
pub proof fn lemma_notified(session: SessionView, listener: NodeId, partial: NodeId, value: ValueResult)
    ensures
        session.notified(listener, partial, value).continues(session),
        session.notified(listener, partial, value).same_shape(session),
        session.wf() ==> session.notified(listener, partial, value).wf(),
{
    if listener == partial {
        lemma_settle_keeps(session, seq![Notification { node: partial, value }]);
    } else if partial < session.nodes.len() && session.nodes[partial as int].listener == Some(listener) {
        let told = session.tell(listener, partial, session.nodes[partial as int].index, value);
        lemma_tell_keeps(session, listener, partial, session.nodes[partial as int].index, value);
        lemma_settle_keeps(told.0, told.1);
        lemma_continues_twice(session, told.0, told.0.settle(told.1));
    }
}

/// Delivering news keeps what has been reached: the session afterwards
/// continues the one before, in the same shape; a well-formed session
/// stays well-formed; and no node waits afterwards for a name that was
/// bound with none waiting.
pub proof fn lemma_settle_keeps(session: SessionView, queue: Seq<Notification>)
    ensures
        session.settle(queue).continues(session),
        session.settle(queue).same_shape(session),
        session.wf() ==> session.settle(queue).wf(),
        forall|scope: ScopeId, name: Seq<char>| #[trigger]
            bound_and_quiet(session.scopes, scope, name) ==> bound_and_quiet(
                session.settle(queue).scopes,
                scope,
                name,
            ),
    decreases unresolved(session.nodes), queue.len(),
{
    if queue.len() != 0 {
        let next = session.step(queue[0]);
        lemma_step_progress(session, queue[0]);
        lemma_step_keeps(session, queue[0]);
        lemma_settle_keeps(next.0, queue.drop_first() + next.1);
        lemma_continues_twice(session, next.0, session.settle(queue));
        assert forall|scope: ScopeId, name: Seq<char>| #[trigger]
            bound_and_quiet(session.scopes, scope, name) implies bound_and_quiet(
            session.settle(queue).scopes,
            scope,
            name,
        ) by {
            assert(bound_and_quiet(next.0.scopes, scope, name));
        }
    }
}

/// Every piece of news is delivered. Take a piece of news in the queue
/// such that whatever news stands before it for the same node brings the
/// same value. Its node, if it exists, has a value afterwards; and if it
/// had none before, the value is that of the news.
pub proof fn lemma_settle_tells(session: SessionView, queue: Seq<Notification>, at: int)
    requires
        0 <= at < queue.len(),
        queue[at].node < session.nodes.len(),
        forall|before: int|
            0 <= before < at && (#[trigger] queue[before]).node == queue[at].node ==> queue[before].value
                == queue[at].value,
    ensures
        session.settle(queue).nodes[queue[at].node as int].value is Some,
        session.nodes[queue[at].node as int].value is None ==> session.settle(
            queue,
        ).nodes[queue[at].node as int].value == Some(queue[at].value),
    decreases unresolved(session.nodes), queue.len(),
{
    let node = queue[at].node as int;
    let next = session.step(queue[0]);
    let rest = queue.drop_first() + next.1;
    lemma_step_progress(session, queue[0]);
    lemma_step_keeps(session, queue[0]);
    lemma_settle_keeps(next.0, rest);
    assert(node_continues(next.0.nodes[node], next.0.settle(rest).nodes[node]));
    if at == 0 {
        assert(node_continues(session.nodes[node], next.0.nodes[node]));
    } else {
        assert(rest[at - 1] == queue[at]);
        assert forall|before: int|
            0 <= before < at - 1 && (#[trigger] rest[before]).node == rest[at - 1].node implies rest[before].value
            == rest[at - 1].value by {
            assert(rest[before] == queue[before + 1]);
        }
        lemma_settle_tells(next.0, rest, at - 1);
        if queue[0].node == node {
            assert(node_continues(session.nodes[node], next.0.nodes[node]));
        }
    }
}

/// Defining a name tells every node that waited for it, and lets them go.
/// After `name` has been defined in a scope that did not bind it, the
/// scope binds it to the value and holds no node that waits for it; every
/// node that waited has a value, which is the value defined if the node
/// had none before. The session continues the one before, in the same
/// shape, and stays well-formed.
pub proof fn lemma_defined(session: SessionView, scope: ScopeId, name: Seq<char>, value: Value)
    requires
        scope < session.scopes.len(),
        !session.scopes[scope as int].symbols.contains_key(name),
    ensures
        ({
            let after = session.defined(scope, name, value);
            let waiting = session.scopes[scope as int].listeners_of(name);
            &&& after.scopes[scope as int].symbols.contains_key(name)
            &&& after.scopes[scope as int].symbols[name] == value
            &&& after.scopes[scope as int].listeners_of(name) == Seq::<NodeId>::empty()
            &&& forall|at: int|
                0 <= at < waiting.len() && (#[trigger] waiting[at]) < session.nodes.len() ==> {
                    &&& after.nodes[waiting[at] as int].value is Some
                    &&& session.nodes[waiting[at] as int].value is None ==> after.nodes[waiting[at] as int].value
                        == Some(Ok::<Value, crate::base::value::ValueError>(value))
                }
            &&& after.continues(session)
            &&& after.same_shape(session)
            &&& session.wf() ==> after.wf()
        }),
{
    let waiting = session.scopes[scope as int].listeners_of(name);
    let begun = SessionView {
        scopes: session.scopes.update(scope as int, session.scopes[scope as int].define(name, value)),
        ..session
    };
    let queue = wake(waiting, Ok(value));
    let after = begun.settle(queue);
    assert(begun.continues(session));
    assert(begun.same_shape(session));
    assert(bound_and_quiet(begun.scopes, scope, name));
    lemma_settle_keeps(begun, queue);
    lemma_continues_twice(session, begun, after);
    assert(bound_and_quiet(after.scopes, scope, name));
    assert(scope_continues(begun.scopes[scope as int], after.scopes[scope as int]));
    if session.wf() {
        assert(begun.wf()) by {
            assert forall|node: int, position: int|
                0 <= node < begun.nodes.len() && (#[trigger] begun.nodes[node].waits_for(position)) is Some implies begun.linked(
                begun.nodes[node].waits_for(position)->0,
                node,
                position,
            ) by {
                assert(session.linked(session.nodes[node].waits_for(position)->0, node, position));
            }
        }
    }
    assert forall|at: int| 0 <= at < waiting.len() && (#[trigger] waiting[at]) < session.nodes.len() implies {
        &&& after.nodes[waiting[at] as int].value is Some
        &&& session.nodes[waiting[at] as int].value is None ==> after.nodes[waiting[at] as int].value
            == Some(Ok::<Value, crate::base::value::ValueError>(value))
    } by {
        assert(queue[at].node == waiting[at]);
        lemma_settle_tells(begun, queue, at);
    }
}

/// None of `taken` is node `node`.
pub open spec fn absent(taken: Seq<Expression>, node: NodeId) -> bool {
    forall|position: int|
        0 <= position < taken.len() ==> #[trigger] taken[position] != Expression::Partial(node)
}

/// None of `taken` but the one at `position` is node `node`.
pub open spec fn sole(taken: Seq<Expression>, node: NodeId, position: int) -> bool {
    forall|other: int|
        0 <= other < taken.len() && other != position ==> #[trigger] taken[other]
            != Expression::Partial(node)
}

/// Taking operands for a new node makes no node and loses none. It
/// changes of a node only the listener and the position, and only where
/// the node was under no listener, had no value, and is one of the
/// operands taken.
pub proof fn lemma_take_keeps(
    nodes: Seq<NodeView>,
    operands: Seq<Expression>,
    parent: NodeId,
    upto: nat,
    node: NodeId,
)
    requires
        upto <= operands.len(),
        node < nodes.len(),
    ensures
        ({
            let taken = take_operands(nodes, operands, parent, upto);
            let after = taken.0[node as int];
            &&& taken.0.len() == nodes.len()
            &&& taken.1.len() == upto
            &&& after.operation == nodes[node as int].operation
            &&& after.context == nodes[node as int].context
            &&& after.operands == nodes[node as int].operands
            &&& after.value == nodes[node as int].value
            &&& after == nodes[node as int] || (nodes[node as int].listener is None
                && nodes[node as int].value is None && after.listener == Some(parent))
            &&& absent(taken.1, node) ==> after == nodes[node as int]
        }),
    decreases upto,
{
    if upto > 0 {
        let before = take_operands(nodes, operands, parent, (upto - 1) as nat);
        let taken = take_operands(nodes, operands, parent, upto);
        lemma_take_keeps(nodes, operands, parent, (upto - 1) as nat, node);
        lemma_take_len(nodes, operands, parent, (upto - 1) as nat);
        if absent(taken.1, node) {
            assert(absent(before.1, node)) by {
                assert forall|position: int| 0 <= position < before.1.len() implies #[trigger] before.1[position]
                    != Expression::Partial(node) by {
                    assert(taken.1[position] == before.1[position]);
                }
            }
            assert(taken.1[upto - 1] != Expression::Partial(node));
        }
    }
}

/// Taking operands for a new node makes no node and loses none.
pub proof fn lemma_take_len(nodes: Seq<NodeView>, operands: Seq<Expression>, parent: NodeId, upto: nat)
    requires
        upto <= operands.len(),
    ensures
        take_operands(nodes, operands, parent, upto).0.len() == nodes.len(),
        take_operands(nodes, operands, parent, upto).1.len() == upto,
    decreases upto,
{
    if upto > 0 {
        lemma_take_len(nodes, operands, parent, (upto - 1) as nat);
    }
}

/// A node that is taken as an operand exists, had no value and was under
/// no listener; it is taken once, and is then under the new node, at the
/// operand's position.
pub proof fn lemma_take_places(
    nodes: Seq<NodeView>,
    operands: Seq<Expression>,
    parent: NodeId,
    upto: nat,
    position: int,
)
    requires
        upto <= operands.len(),
        0 <= position < upto,
        take_operands(nodes, operands, parent, upto).1[position] is Partial,
    ensures
        ({
            let taken = take_operands(nodes, operands, parent, upto);
            let child = taken.1[position]->Partial_0;
            &&& child < nodes.len()
            &&& nodes[child as int].listener is None
            &&& nodes[child as int].value is None
            &&& taken.0[child as int] == nodes[child as int].adopted(parent, position as usize)
            &&& sole(taken.1, child, position)
        }),
    decreases upto,
{
    let before = take_operands(nodes, operands, parent, (upto - 1) as nat);
    let taken = take_operands(nodes, operands, parent, upto);
    let child = taken.1[position]->Partial_0;
    lemma_take_len(nodes, operands, parent, (upto - 1) as nat);
    if position == upto - 1 {
        lemma_take_keeps(nodes, operands, parent, (upto - 1) as nat, child);
        assert forall|other: int| 0 <= other < taken.1.len() && other != position implies #[trigger] taken.1[other]
            != Expression::Partial(child) by {
            assert(taken.1[other] == before.1[other]);
            if before.1[other] == Expression::Partial(child) {
                lemma_take_places(nodes, operands, parent, (upto - 1) as nat, other);
            }
        }
    } else {
        assert(taken.1[position] == before.1[position]);
        lemma_take_places(nodes, operands, parent, (upto - 1) as nat, position);
        assert forall|other: int| 0 <= other < taken.1.len() && other != position implies #[trigger] taken.1[other]
            != Expression::Partial(child) by {
            if other < upto - 1 {
                assert(taken.1[other] == before.1[other]);
            }
        }
    }
}

/// Making an expression keeps what has been reached. The session
/// afterwards continues the one before. An expression that is a value has
/// made no node: in particular none is made where no operand waits and
/// the operation has a result. An expression that waits is a new node,
/// without value and under no listener. A well-formed session stays
/// well-formed.
pub proof fn lemma_built(
    session: SessionView,
    operation: Operation,
    context: EvaluationContext,
    operands: Seq<Expression>,
)
    requires
        operands.len() <= usize::MAX,
        session.nodes.len() <= usize::MAX,
    ensures
        ({
            let built = session.built(operation, context, operands);
            let taken = take_operands(session.nodes, operands, session.nodes.len() as NodeId, operands.len());
            &&& built.1.continues(session)
            &&& built.0 is Total ==> built.1.same_shape(session)
            &&& count_partial(taken.1) == 0 ==> taken.0 == session.nodes
            &&& count_partial(taken.1) == 0 && operation.evaluation(
                context,
                total_values(taken.1),
                session.scopes,
            ).result is Total ==> built.0 == Expression::Total(
                operation.evaluation(context, total_values(taken.1), session.scopes).result->Total_0,
            )
            &&& built.0 matches Expression::Partial(id) ==> {
                &&& id == session.nodes.len()
                &&& built.1.nodes.len() == session.nodes.len() + 1
                &&& built.1.scopes.len() == session.scopes.len()
                &&& built.1.nodes[id as int].value is None
                &&& built.1.nodes[id as int].listener is None
            }
            &&& session.wf() ==> built.1.wf()
        }),
{
    let built = session.built(operation, context, operands);
    let after = built.1;
    let id = session.nodes.len() as NodeId;
    let taken = take_operands(session.nodes, operands, id, operands.len());
    let placed = SessionView { nodes: taken.0, ..session };
    lemma_take_len(session.nodes, operands, id, operands.len());
    lemma_count_partial_bound(taken.1);
    assert forall|node: int| 0 <= node < session.nodes.len() implies node_continues(
        session.nodes[node],
        #[trigger] placed.nodes[node],
    ) && placed.nodes[node].operands.wf() == session.nodes[node].operands.wf() by {
        lemma_take_keeps(session.nodes, operands, id, operands.len(), node as NodeId);
    }
    assert forall|scope: int| 0 <= scope < session.scopes.len() implies scope_continues(
        session.scopes[scope],
        #[trigger] placed.scopes[scope],
    ) by {}
    assert(placed.continues(session));
    if count_partial(taken.1) == 0 {
        assert(taken.0 =~= session.nodes) by {
            assert forall|node: int| 0 <= node < session.nodes.len() implies taken.0[node]
                == session.nodes[node] by {
                lemma_take_keeps(session.nodes, operands, id, operands.len(), node as NodeId);
                assert(absent(taken.1, node as NodeId)) by {
                    assert forall|position: int| 0 <= position < taken.1.len() implies #[trigger] taken.1[position]
                        != Expression::Partial(node as NodeId) by {
                        lemma_none_waits(taken.1, position);
                    }
                }
            }
        }
    }
    if session.wf() {
        assert forall|node: int, position: int|
            0 <= node < session.nodes.len() && (#[trigger] placed.nodes[node].waits_for(position)) is Some implies placed.linked(
            placed.nodes[node].waits_for(position)->0,
            node,
            position,
        ) by {
            lemma_take_keeps(session.nodes, operands, id, operands.len(), node as NodeId);
            let child = session.nodes[node].waits_for(position)->0;
            assert(session.linked(child, node, position));
            lemma_take_keeps(session.nodes, operands, id, operands.len(), child);
        }
    }
    match operand_list(taken.1) {
        OperandsView::Total(values) => {
            let evaluation = operation.evaluation(context, values, session.scopes);
            lemma_operation_scopes(operation, context, id, values, session.scopes);
            lemma_operation_scopes(operation, context, id, values, evaluation.scopes);
            match evaluation.result {
                EvaluationResult::Total(value) => {
                    let begun = SessionView { scopes: evaluation.scopes, nodes: taken.0 };
                    lemma_settle_keeps(begun, wake(evaluation.woken, value));
                    assert(begun.continues(session));
                    lemma_continues_twice(session, begun, after);
                    assert(after.same_shape(session));
                    if session.wf() {
                        assert(begun.wf());
                    }
                },
                EvaluationResult::Pending => {
                    let registered = operation.registration(context, id, values, evaluation.scopes);
                    lemma_scopes_continue_twice(session.scopes, evaluation.scopes, registered);
                    assert(after.continues(session));
                    if session.wf() {
                        assert forall|node: int, position: int|
                            0 <= node < after.nodes.len() && (#[trigger] after.nodes[node].waits_for(
                                position,
                            )) is Some implies after.linked(
                            after.nodes[node].waits_for(position)->0,
                            node,
                            position,
                        ) by {
                            assert(placed.linked(
                                placed.nodes[node].waits_for(position)->0,
                                node,
                                position,
                            ));
                        }
                        assert forall|node: int| 0 <= node < after.nodes.len() implies (
                        #[trigger] after.nodes[node]).operands.wf() by {
                            if node < session.nodes.len() {
                                assert(placed.nodes[node].operands.wf());
                            }
                        }
                    }
                },
            }
        },
        OperandsView::Partial(waiting, pending) => {
            assert(after.nodes == taken.0.push(
                NodeView::fresh(operation, context, OperandsView::Partial(waiting, pending)),
            ));
            assert forall|node: int| 0 <= node < session.nodes.len() implies node_continues(
                session.nodes[node],
                #[trigger] after.nodes[node],
            ) by {
                assert(after.nodes[node] == placed.nodes[node]);
            }
            assert forall|scope: int| 0 <= scope < session.scopes.len() implies scope_continues(
                session.scopes[scope],
                #[trigger] after.scopes[scope],
            ) by {}
            if session.wf() {
                assert forall|node: int| 0 <= node < after.nodes.len() implies (
                #[trigger] after.nodes[node]).operands.wf() by {
                    if node < session.nodes.len() {
                        assert(after.nodes[node] == placed.nodes[node]);
                        assert(session.nodes[node].operands.wf());
                    }
                }
                assert forall|node: int, position: int|
                    0 <= node < after.nodes.len() && (#[trigger] after.nodes[node].waits_for(
                        position,
                    )) is Some implies after.linked(
                    after.nodes[node].waits_for(position)->0,
                    node,
                    position,
                ) by {
                    let child = after.nodes[node].waits_for(position)->0;
                    if node < session.nodes.len() {
                        assert(after.nodes[node] == placed.nodes[node]);
                        assert(placed.linked(child, node, position));
                        assert(after.nodes[child as int] == placed.nodes[child as int]);
                    } else {
                        assert(taken.1[position] == Expression::Partial(child));
                        lemma_take_places(session.nodes, operands, id, operands.len(), position);
                        assert(after.nodes[child as int] == taken.0[child as int]);
                    }
                }
            }
        },
    }
}

/// Where no operand waits, no operand is a node.
pub proof fn lemma_none_waits(operands: Seq<Expression>, position: int)
    requires
        count_partial(operands) == 0,
        0 <= position < operands.len(),
    ensures
        operands[position] is Total,
    decreases operands.len(),
{
    if position < operands.len() - 1 {
        lemma_none_waits(operands.drop_last(), position);
    }
}

/// What has been seen as a value is seen as that value ever after.
pub proof fn lemma_observed_stays(old: SessionView, new: SessionView, expression: Expression)
    requires
        new.continues(old),
        old.observed(expression) is Total,
    ensures
        new.observed(expression) == old.observed(expression),
{
    match expression {
        Expression::Partial(node) => {
            assert(node_continues(old.nodes[node as int], new.nodes[node as int]));
        },
        Expression::Total(_) => {},
    }
}

} // verus!
