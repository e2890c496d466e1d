//! A session: the scopes and the nodes of one evaluation, and the single
//! function that carries the news of an evaluated node through the graph.

use vstd::prelude::*;
use crate::base::context::{
    EvaluationContext, LookupResult, NodeId, Scope, ScopeId, ScopeView, lookup, scope_views,
    scopes_linked,
};
use crate::base::expression::{
    Expression, NodeView, Notification, OperandList, OperandsView, PartialExpression, operand_list,
    wake, wake_all,
};
use crate::base::invariants::{
    lemma_built, lemma_defined, lemma_notified, lemma_settle_keeps, lemma_step_keeps,
    lemma_tell_keeps,
};
use crate::base::operation::{EvaluationResult, Operation};
use crate::base::value::{
    Value, ValueError, ValueErrorCause, ValueResult, clone_result, unspecified,
};

verus! {

/// The views of a sequence of nodes.
pub open spec fn node_views(nodes: Seq<PartialExpression>) -> Seq<NodeView> {
    nodes.map_values(|node: PartialExpression| node@)
}

/// The number of nodes that have not been evaluated.
pub open spec fn unresolved(nodes: Seq<NodeView>) -> nat
    decreases nodes.len(),
{
    if nodes.len() == 0 {
        0
    } else {
        unresolved(nodes.drop_last()) + if nodes.last().value is None {
            1nat
        } else {
            0nat
        }
    }
}

/// What a new node takes of an operand, given the nodes that exist. A
/// value is taken as it is. A node that has been evaluated is taken as
/// its value. A node that waits is taken where it is under no listener
/// yet. Any other operand, a handle that leads to no node or a node that
/// is under a listener already, is taken as an unspecified error.
pub open spec fn taken_as(nodes: Seq<NodeView>, operand: Expression) -> Expression {
    match operand {
        Expression::Total(_) => operand,
        Expression::Partial(child) => if child < nodes.len() {
            match nodes[child as int].value {
                Some(value) => Expression::Total(value),
                None => if nodes[child as int].listener is None {
                    operand
                } else {
                    Expression::Total(Err(unspecified()))
                },
            }
        } else {
            Expression::Total(Err(unspecified()))
        },
    }
}

/// The first `upto` of `operands` are taken, one after the other, for a
/// new node that will have the handle `parent`: each node that is taken
/// is placed under `parent` at its operand's position. The result is the
/// nodes afterwards, and the operands as they have been taken.
pub open spec fn take_operands(nodes: Seq<NodeView>, operands: Seq<Expression>, parent: NodeId, upto: nat) -> (
    Seq<NodeView>,
    Seq<Expression>,
)
    decreases upto,
{
    if upto == 0 {
        (nodes, Seq::empty())
    } else {
        let before = take_operands(nodes, operands, parent, (upto - 1) as nat);
        let taken = taken_as(before.0, operands[upto - 1]);
        match taken {
            Expression::Partial(child) => (
                before.0.update(child as int, before.0[child as int].adopted(parent, (upto - 1) as usize)),
                before.1.push(taken),
            ),
            Expression::Total(_) => (before.0, before.1.push(taken)),
        }
    }
}

/// A session, as mathematical values.
pub struct SessionView {
    pub scopes: Seq<ScopeView>,
    pub nodes: Seq<NodeView>,
}

impl SessionView {
    /// What is seen of an expression: the value of its node where the node
    /// has been evaluated, else the expression itself.
    pub open spec fn observed(self, expression: Expression) -> Expression {
        match expression {
            Expression::Partial(node) => if node < self.nodes.len() {
                match self.nodes[node as int].value {
                    Some(value) => Expression::Total(value),
                    None => expression,
                }
            } else {
                expression
            },
            Expression::Total(_) => expression,
        }
    }

    /// Node `parent` is told that its operand `child`, at position
    /// `index`, has been evaluated to `value`. A handle that leads to no
    /// node tells nobody.
    pub open spec fn tell(self, parent: NodeId, child: NodeId, index: usize, value: ValueResult) -> (
        SessionView,
        Seq<Notification>,
    ) {
        if parent < self.nodes.len() {
            let reaction = self.nodes[parent as int].told(parent, child, index, value, self.scopes);
            (
                SessionView {
                    scopes: reaction.scopes,
                    nodes: self.nodes.update(parent as int, reaction.node),
                },
                reaction.news,
            )
        } else {
            (self, Seq::empty())
        }
    }

    /// One piece of news is delivered. A node that exists and has no value
    /// takes the value; its listener, if it has one, is told, and may have
    /// news of its own. Any other news changes nothing.
    pub open spec fn step(self, news: Notification) -> (SessionView, Seq<Notification>) {
        if news.node < self.nodes.len() && self.nodes[news.node as int].value is None {
            let node = self.nodes[news.node as int];
            let taken = SessionView {
                nodes: self.nodes.update(news.node as int, node.resolved(news.value)),
                ..self
            };
            match node.listener {
                Some(parent) => taken.tell(parent, news.node, node.index, news.value),
                None => (taken, Seq::empty()),
            }
        } else {
            (self, Seq::empty())
        }
    }

    /// The news in `queue` is delivered in its order, and the news that
    /// follows from it after it, until none is left.
    pub open spec fn settle(self, queue: Seq<Notification>) -> SessionView
        decreases unresolved(self.nodes), queue.len(),
        via Self::settle_terminates
    {
        if queue.len() == 0 {
            self
        } else {
            let next = self.step(queue[0]);
            next.0.settle(queue.drop_first() + next.1)
        }
    }

    #[via_fn]
    proof fn settle_terminates(self, queue: Seq<Notification>) {
        if queue.len() != 0 {
            lemma_step_progress(self, queue[0]);
        }
    }

    /// The session after `name` has been defined as `value` in scope
    /// `scope`: where the scope exists and does not bind the name, the
    /// binding is added, and the nodes that waited for it are told.
    pub open spec fn defined(self, scope: ScopeId, name: Seq<char>, value: Value) -> SessionView {
        if scope < self.scopes.len() && !self.scopes[scope as int].symbols.contains_key(name) {
            (SessionView {
                scopes: self.scopes.update(scope as int, self.scopes[scope as int].define(name, value)),
                ..self
            }).settle(wake(self.scopes[scope as int].listeners_of(name), Ok(value)))
        } else {
            self
        }
    }

    /// The session after node `listener` has been told that node
    /// `partial` has been evaluated to `value`. A node that is told of
    /// itself takes the value and passes it on to its own listener. A node
    /// that is told of an operand for which it is the listener takes the
    /// value in the operand's place. In both cases the news that follows
    /// is delivered. A node that is told of any other node does nothing.
    pub open spec fn notified(self, listener: NodeId, partial: NodeId, value: ValueResult) -> SessionView {
        if listener == partial {
            self.settle(seq![Notification { node: partial, value }])
        } else if partial < self.nodes.len() && self.nodes[partial as int].listener == Some(listener) {
            let told = self.tell(listener, partial, self.nodes[partial as int].index, value);
            told.0.settle(told.1)
        } else {
            self
        }
    }

    /// The expression that `operation` on `operands` makes, and the
    /// session afterwards. The operands are taken for a new node. Where
    /// none of them waits the operation is evaluated: a result is the
    /// expression, and the nodes that the evaluation has woken are told;
    /// with no result the new node subscribes by the operation's
    /// registrar. Where an operand waits, the new node waits for it.
    pub open spec fn built(
        self,
        operation: Operation,
        context: EvaluationContext,
        operands: Seq<Expression>,
    ) -> (Expression, SessionView) {
        let id = self.nodes.len() as NodeId;
        let taken = take_operands(self.nodes, operands, id, operands.len());
        match operand_list(taken.1) {
            OperandsView::Total(values) => {
                let evaluation = operation.evaluation(context, values, self.scopes);
                match evaluation.result {
                    EvaluationResult::Total(value) => (
                        Expression::Total(value),
                        (SessionView { scopes: evaluation.scopes, nodes: taken.0 }).settle(
                            wake(evaluation.woken, value),
                        ),
                    ),
                    EvaluationResult::Pending => (
                        Expression::Partial(id),
                        SessionView {
                            scopes: operation.registration(context, id, values, evaluation.scopes),
                            nodes: taken.0.push(
                                NodeView::fresh(operation, context, OperandsView::Total(values)),
                            ),
                        },
                    ),
                }
            },
            OperandsView::Partial(waiting, pending) => (
                Expression::Partial(id),
                SessionView {
                    nodes: taken.0.push(
                        NodeView::fresh(operation, context, OperandsView::Partial(waiting, pending)),
                    ),
                    ..self
                },
            ),
        }
    }
}

/// Replacing a node changes the number of nodes without value by that node alone.
pub proof fn lemma_unresolved_update(nodes: Seq<NodeView>, index: int, node: NodeView)
    requires
        0 <= index < nodes.len(),
    ensures
        unresolved(nodes.update(index, node)) + (if nodes[index].value is None {
            1nat
        } else {
            0nat
        }) == unresolved(nodes) + (if node.value is None {
            1nat
        } else {
            0nat
        }),
    decreases nodes.len(),
{
    let updated = nodes.update(index, node);
    if index == nodes.len() - 1 {
        assert(updated.drop_last() =~= nodes.drop_last());
    } else {
        assert(updated.drop_last() =~= nodes.drop_last().update(index, node));
        lemma_unresolved_update(nodes.drop_last(), index, node);
    }
}

/// A step either changes nothing and has no news, or gives one more node its value.
pub proof fn lemma_step_progress(session: SessionView, news: Notification)
    ensures
        ({
            let next = session.step(news);
            ||| (next.0 == session && next.1.len() == 0)
            ||| unresolved(next.0.nodes) + 1 == unresolved(session.nodes)
        }),
{
    if news.node < session.nodes.len() && session.nodes[news.node as int].value is None {
        let node = session.nodes[news.node as int];
        let nodes = session.nodes.update(news.node as int, node.resolved(news.value));
        lemma_unresolved_update(session.nodes, news.node as int, node.resolved(news.value));
        if node.listener is Some && node.listener->0 < nodes.len() {
            let parent = node.listener->0;
            let reaction = nodes[parent as int].told(
                parent,
                news.node,
                node.index,
                news.value,
                session.scopes,
            );
            lemma_unresolved_update(nodes, parent as int, reaction.node);
        }
    }
}

/// The scopes and the nodes of one evaluation.
pub struct Session {
    scopes: Vec<Scope>,
    nodes: Vec<PartialExpression>,
}

impl View for Session {
    type V = SessionView;

    closed spec fn view(&self) -> SessionView {
        SessionView { scopes: scope_views(self.scopes@), nodes: node_views(self.nodes@) }
    }
}

impl Session {
    /// A session without scopes or nodes.
    pub fn new() -> (session: Session)
        ensures
            session@ == (SessionView { scopes: Seq::empty(), nodes: Seq::empty() }),
            session@.wf(),
    {
        let session = Session { scopes: Vec::new(), nodes: Vec::new() };
        assert(session@.scopes =~= Seq::empty());
        assert(session@.nodes =~= Seq::empty());
        session
    }

    /// Takes `scope` into the session and returns its handle.
    pub fn add_scope(&mut self, scope: Scope) -> (id: ScopeId)
        ensures
            id == old(self)@.scopes.len(),
            final(self)@ == (SessionView { scopes: old(self)@.scopes.push(scope@), ..old(self)@ }),
            scopes_linked(old(self)@.scopes) && scope@.rank() <= id ==> scopes_linked(final(self)@.scopes),
            old(self)@.wf() ==> final(self)@.wf(),
    {
        let id = self.scopes.len();
        self.scopes.push(scope);
        assert(self@.scopes =~= old(self)@.scopes.push(scope@));
        id
    }

    /// The number of scopes.
    pub fn scope_count(&self) -> (count: usize)
        ensures
            count == self@.scopes.len(),
    {
        self.scopes.len()
    }

    /// The number of nodes.
    pub fn node_count(&self) -> (count: usize)
        ensures
            count == self@.nodes.len(),
    {
        self.nodes.len()
    }

    /// The scope with handle `id`.
    pub fn scope(&self, id: ScopeId) -> (scope: Option<&Scope>)
        ensures
            id < self@.scopes.len() ==> scope is Some && scope->0@ == self@.scopes[id as int],
            id >= self@.scopes.len() ==> scope is None,
    {
        if id < self.scopes.len() {
            Some(&self.scopes[id])
        } else {
            None
        }
    }

    /// The node with handle `id`.
    pub fn node(&self, id: NodeId) -> (node: Option<&PartialExpression>)
        ensures
            id < self@.nodes.len() ==> node is Some && node->0@ == self@.nodes[id as int],
            id >= self@.nodes.len() ==> node is None,
    {
        if id < self.nodes.len() {
            Some(&self.nodes[id])
        } else {
            None
        }
    }

    /// Declares that no further symbol will be defined in scope `scope`.
    pub fn finalize(&mut self, scope: ScopeId)
        ensures
            scope < old(self)@.scopes.len() ==> final(self)@ == (SessionView {
                scopes: old(self)@.scopes.update(
                    scope as int,
                    old(self)@.scopes[scope as int].finalize(),
                ),
                ..old(self)@
            }),
            scope >= old(self)@.scopes.len() ==> final(self)@ == old(self)@,
            old(self)@.wf() ==> final(self)@.wf(),
    {
        if scope < self.scopes.len() {
            self.scopes[scope].finalize();
            assert(self@.scopes =~= old(self)@.scopes.update(
                scope as int,
                old(self)@.scopes[scope as int].finalize(),
            ));
        }
    }

    /// Looks `name` up, starting in scope `scope`.
    pub fn get_symbol(&self, scope: ScopeId, name: &str) -> (answer: LookupResult)
        ensures
            answer == lookup(self@.scopes, scope, name@),
    {
        if scope < self.scopes.len() {
            self.scopes[scope].get_symbol(name, &self.scopes)
        } else {
            LookupResult::NotFound
        }
    }

    /// What is seen of `expression` now: its value where its node has been evaluated.
    pub fn observe(&self, expression: &Expression) -> (seen: Expression)
        ensures
            seen == self@.observed(*expression),
    {
        match expression {
            Expression::Partial(node) => {
                if *node < self.nodes.len() {
                    match self.nodes[*node].value() {
                        Some(value) => Expression::Total(value),
                        None => expression.copy(),
                    }
                } else {
                    expression.copy()
                }
            },
            Expression::Total(_) => expression.copy(),
        }
    }

    /// Tells node `parent` that its operand `child`, at position `index`,
    /// has been evaluated to `value`, and returns the news that follows.
    pub fn tell(&mut self, parent: NodeId, child: NodeId, index: usize, value: ValueResult) -> (more: Vec<
        Notification,
    >)
        ensures
            final(self)@ == old(self)@.tell(parent, child, index, value).0,
            more@ == old(self)@.tell(parent, child, index, value).1,
            old(self)@.wf() ==> final(self)@.wf(),
    {
        proof {
            lemma_tell_keeps(self@, parent, child, index, value);
        }
        if parent < self.nodes.len() {
            let more = self.nodes[parent].on_operand_evaluated(
                parent,
                child,
                index,
                value,
                &mut self.scopes,
            );
            assert(self@.nodes =~= old(self)@.nodes.update(
                parent as int,
                old(self)@.nodes[parent as int].told(parent, child, index, value, old(self)@.scopes).node,
            ));
            more
        } else {
            Vec::new()
        }
    }

    /// Delivers one piece of news and returns the news that follows from it.
    pub fn deliver(&mut self, news: Notification) -> (more: Vec<Notification>)
        ensures
            final(self)@ == old(self)@.step(news).0,
            more@ == old(self)@.step(news).1,
            old(self)@.wf() ==> final(self)@.wf(),
    {
        proof {
            lemma_step_keeps(self@, news);
        }
        if news.node >= self.nodes.len() {
            return Vec::new();
        }
        if self.nodes[news.node].is_evaluated() {
            return Vec::new();
        }
        let listener = self.nodes[news.node].listener();
        let index = self.nodes[news.node].index();
        self.nodes[news.node].on_self_evaluated(clone_result(&news.value));
        assert(self@.nodes =~= old(self)@.nodes.update(
            news.node as int,
            old(self)@.nodes[news.node as int].resolved(news.value),
        ));
        match listener {
            Some(parent) => self.tell(parent, news.node, index, news.value),
            None => Vec::new(),
        }
    }

    /// Tells node `listener` that node `partial` has been evaluated to
    /// `value`, and delivers all the news that follows.
    pub fn on_evaluated(&mut self, listener: NodeId, partial: NodeId, value: ValueResult)
        ensures
            final(self)@ == old(self)@.notified(listener, partial, value),
            final(self)@.continues(old(self)@),
            final(self)@.same_shape(old(self)@),
            old(self)@.wf() ==> final(self)@.wf(),
    {
        proof {
            lemma_notified(self@, listener, partial, value);
        }
        if listener == partial {
            let mut news: Vec<Notification> = Vec::new();
            news.push(Notification { node: partial, value });
            assert(news@ =~= seq![Notification { node: partial, value }]);
            self.settle(news);
        } else if partial < self.nodes.len() {
            match self.nodes[partial].listener() {
                Some(parent) => {
                    if parent == listener {
                        let index = self.nodes[partial].index();
                        let news = self.tell(listener, partial, index, value);
                        self.settle(news);
                    }
                },
                None => {},
            }
        }
    }

    /// Delivers the news in `news`, and all the news that follows from it.
    pub fn settle(&mut self, news: Vec<Notification>)
        ensures
            final(self)@ == old(self)@.settle(news@),
            final(self)@.continues(old(self)@),
            final(self)@.same_shape(old(self)@),
            old(self)@.wf() ==> final(self)@.wf(),
    {
        proof {
            lemma_settle_keeps(self@, news@);
        }
        let mut queue = news;
        let mut head: usize = 0;
        assert(queue@.skip(0) =~= news@);
        while head < queue.len()
            invariant
                head <= queue.len(),
                self@.settle(queue@.skip(head as int)) == old(self)@.settle(news@),
            decreases unresolved(self@.nodes), queue.len() - head,
        {
            let ghost before = self@;
            let ghost waiting = queue@.skip(head as int);
            let next = queue[head].copy();
            head += 1;
            let mut more = self.deliver(next);
            let ghost added = more@;
            queue.append(&mut more);
            proof {
                lemma_step_progress(before, next);
                assert(queue@.skip(head as int) =~= waiting.drop_first() + added);
            }
        }
    }

    /// Defines `name` as `value` in scope `scope` and tells the nodes that
    /// waited for it. Where the scope binds the name already, or does not
    /// exist, nothing changes and the value comes back.
    pub fn define_symbol(&mut self, scope: ScopeId, name: &str, value: Value) -> (outcome: Result<(), Value>)
        ensures
            final(self)@ == old(self)@.defined(scope, name@, value),
            outcome is Ok <==> scope < old(self)@.scopes.len() && !old(self)@.scopes[scope as int].symbols.contains_key(
                name@,
            ),
            outcome is Err ==> outcome == Err::<(), Value>(value),
            outcome is Ok ==> final(self)@.scopes[scope as int].symbols.contains_key(name@)
                && final(self)@.scopes[scope as int].symbols[name@] == value,
            outcome is Ok ==> final(self)@.scopes[scope as int].listeners_of(name@) == Seq::<
                NodeId,
            >::empty(),
            outcome is Ok ==> forall|at: int|
                0 <= at < old(self)@.scopes[scope as int].listeners_of(name@).len() && (
                #[trigger] old(self)@.scopes[scope as int].listeners_of(name@)[at]) < old(
                    self,
                )@.nodes.len() ==> final(self)@.nodes[old(self)@.scopes[scope as int].listeners_of(
                    name@,
                )[at] as int].value is Some,
            final(self)@.continues(old(self)@),
            final(self)@.same_shape(old(self)@),
            old(self)@.wf() ==> final(self)@.wf(),
    {
        proof {
            if scope < self@.scopes.len() && !self@.scopes[scope as int].symbols.contains_key(name@) {
                lemma_defined(self@, scope, name@, value);
            }
        }
        if scope >= self.scopes.len() {
            return Err(value);
        }
        let told: ValueResult = Ok(value.clone());
        match self.scopes[scope].define_symbol(name, value) {
            Err(rejected) => {
                assert(self@.scopes =~= old(self)@.scopes);
                Err(rejected)
            },
            Ok(woken) => {
                assert(self@.scopes =~= old(self)@.scopes.update(
                    scope as int,
                    old(self)@.scopes[scope as int].define(name@, value),
                ));
                let news = wake_all(&woken, &told);
                self.settle(news);
                Ok(())
            },
        }
    }
}

impl Expression {
    /// Makes the expression of `operation` applied to `operands`. An
    /// operand that is the handle of a node is taken as the node's value
    /// where the node has been evaluated, and as the node where it waits
    /// under no listener; any other handle is taken as an unspecified error.
    pub fn from_op(
        operation: Operation,
        context: &EvaluationContext,
        operands: Vec<Expression>,
        session: &mut Session,
    ) -> (expression: Expression)
        ensures
            expression == old(session)@.built(operation, *context, operands@).0,
            final(session)@ == old(session)@.built(operation, *context, operands@).1,
            final(session)@.continues(old(session)@),
            expression is Total ==> final(session)@.same_shape(old(session)@),
            expression matches Expression::Partial(id) ==> id == old(session)@.nodes.len()
                && final(session)@.nodes.len() == id + 1,
            old(session)@.wf() ==> final(session)@.wf(),
    {
        proof {
            assert(session@.nodes.len() == session.nodes.len());
            lemma_built(session@, operation, *context, operands@);
        }
        let id = session.nodes.len();
        let mut taken: Vec<Expression> = Vec::new();
        let mut at: usize = 0;
        while at < operands.len()
            invariant
                at <= operands.len(),
                id == old(session)@.nodes.len(),
                session@.scopes == old(session)@.scopes,
                (session@.nodes, taken@) == take_operands(old(session)@.nodes, operands@, id, at as nat),
            decreases operands.len() - at,
        {
            let ghost before = session@;
            let operand = match &operands[at] {
                Expression::Total(value) => Expression::Total(clone_result(value)),
                Expression::Partial(child) => {
                    if *child < session.nodes.len() {
                        match session.nodes[*child].value() {
                            Some(value) => Expression::Total(value),
                            None => {
                                if session.nodes[*child].listener().is_none() {
                                    session.nodes[*child].set_listener(id, at);
                                    assert(session@.nodes =~= before.nodes.update(
                                        *child as int,
                                        before.nodes[*child as int].adopted(id, at),
                                    ));
                                    Expression::Partial(*child)
                                } else {
                                    Expression::Total(
                                        Err(ValueError::new(ValueErrorCause::UnspecifiedError)),
                                    )
                                }
                            },
                        }
                    } else {
                        Expression::Total(Err(ValueError::new(ValueErrorCause::UnspecifiedError)))
                    }
                },
            };
            taken.push(operand);
            at += 1;
        }
        match OperandList::new(taken) {
            OperandList::Total(values) => {
                let (result, woken) = operation.evaluate(context, values.as_slice(), &mut session.scopes);
                match result {
                    EvaluationResult::Total(value) => {
                        let news = wake_all(&woken, &value);
                        session.settle(news);
                        Expression::Total(value)
                    },
                    EvaluationResult::Pending => {
                        operation.register(context, id, values.as_slice(), &mut session.scopes);
                        let ghost before = session@;
                        session.nodes.push(
                            PartialExpression::new(operation, *context, OperandList::Total(values)),
                        );
                        assert(session@.nodes =~= before.nodes.push(
                            NodeView::fresh(operation, *context, OperandsView::Total(values@)),
                        ));
                        Expression::Partial(id)
                    },
                }
            },
            OperandList::Partial(waiting, pending) => {
                let ghost before = session@;
                session.nodes.push(
                    PartialExpression::new(operation, *context, OperandList::Partial(waiting, pending)),
                );
                assert(session@.nodes =~= before.nodes.push(
                    NodeView::fresh(operation, *context, OperandsView::Partial(waiting@, pending)),
                ));
                Expression::Partial(id)
            },
        }
    }
}

} // verus!
