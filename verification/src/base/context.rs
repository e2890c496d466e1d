//! Lexical scopes: symbol tables linked by parent handles, each with the
//! expression nodes that wait for a name to be defined.

use vstd::prelude::*;
use vstd::hash_map::StringHashMap;
use crate::base::symbol::SymbolTable;
use crate::base::value::Value;

verus! {

/// The handle of a scope: its position among the scopes of a session.
pub type ScopeId = usize;

/// The handle of an expression node: its position among the nodes of a session.
pub type NodeId = usize;

/// The outcome of looking a name up.
#[derive(Debug, PartialEq, Eq)]
pub enum LookupResult {
    /// The name is bound to this value.
    Total(Value),
    /// The name is not bound yet, but may still become bound.
    Pending,
    /// The name is not bound and never will be.
    NotFound,
}

/// What a scope holds, as mathematical values.
pub struct ScopeView {
    pub symbols: Map<Seq<char>, Value>,
    pub finalized: bool,
    pub parent: Option<ScopeId>,
    pub listeners: Map<Seq<char>, Seq<NodeId>>,
}

impl ScopeView {
    /// The nodes that wait for `name`, in the order in which they registered.
    pub open spec fn listeners_of(self, name: Seq<char>) -> Seq<NodeId> {
        if self.listeners.contains_key(name) {
            self.listeners[name]
        } else {
            Seq::empty()
        }
    }

    /// The scope after `name` has been bound to `value`: the binding is
    /// added and the nodes that waited for the name are let go.
    pub open spec fn define(self, name: Seq<char>, value: Value) -> ScopeView {
        ScopeView {
            symbols: self.symbols.insert(name, value),
            listeners: self.listeners.remove(name),
            ..self
        }
    }

    /// The scope after `listener` has registered for `name`.
    pub open spec fn register(self, name: Seq<char>, listener: NodeId) -> ScopeView {
        ScopeView {
            listeners: self.listeners.insert(name, self.listeners_of(name).push(listener)),
            ..self
        }
    }

    /// The scope after it has been finalized.
    pub open spec fn finalize(self) -> ScopeView {
        ScopeView { finalized: true, ..self }
    }

    /// A bound on the length of the parent chain that starts at this scope,
    /// where every parent stands before its children.
    pub open spec fn rank(self) -> nat {
        match self.parent {
            Some(parent) => parent as nat + 1,
            None => 0,
        }
    }
}

/// The views of a sequence of scopes.
pub open spec fn scope_views(scopes: Seq<Scope>) -> Seq<ScopeView> {
    scopes.map_values(|scope: Scope| scope@)
}

/// Every scope stands after its parent.
pub open spec fn scopes_linked(scopes: Seq<ScopeView>) -> bool {
    forall|id: int| 0 <= id < scopes.len() ==> (#[trigger] scopes[id]).rank() <= id
}

/// Whether the parent handle of `scope` leads on: to a scope of `scopes`
/// that stands after its own parent. A chain of such handles ends.
pub open spec fn parent_alive(scope: ScopeView, scopes: Seq<ScopeView>) -> bool {
    match scope.parent {
        Some(parent) => parent < scopes.len() && scopes[parent as int].rank() <= parent,
        None => false,
    }
}

/// Where every scope stands after its parent, every parent handle leads to a scope.
pub proof fn lemma_linked_parent_alive(scopes: Seq<ScopeView>, id: int)
    requires
        scopes_linked(scopes),
        0 <= id < scopes.len(),
    ensures
        parent_alive(scopes[id], scopes) == (scopes[id].parent is Some),
{
    if scopes[id].parent is Some {
        let parent = scopes[id].parent->0;
        assert(scopes[id].rank() <= id);
        assert(scopes[parent as int].rank() <= parent);
    }
}


/// What a lookup of `name` that starts at `scope` answers: the binding of
/// the scope itself; `Pending` while the scope is open and has none; else
/// what its parent answers, and `NotFound` where there is no parent.
pub open spec fn lookup_from(scope: ScopeView, scopes: Seq<ScopeView>, name: Seq<char>) -> LookupResult
    decreases scope.rank(),
{
    if scope.symbols.contains_key(name) {
        LookupResult::Total(scope.symbols[name])
    } else if !scope.finalized {
        LookupResult::Pending
    } else if parent_alive(scope, scopes) {
        lookup_from(scopes[scope.parent->0 as int], scopes, name)
    } else {
        LookupResult::NotFound
    }
}

/// What a lookup of `name` answers in the scope with handle `id`. A handle
/// that leads nowhere answers `NotFound`.
pub open spec fn lookup(scopes: Seq<ScopeView>, id: ScopeId, name: Seq<char>) -> LookupResult {
    if id < scopes.len() {
        lookup_from(scopes[id as int], scopes, name)
    } else {
        LookupResult::NotFound
    }
}

/// The scope whose answer to a lookup of `name` that starts at `scope`
/// (with handle `id`) is `Pending`, if there is one: the place where a
/// node has to wait for the name.
pub open spec fn awaited_from(
    scope: ScopeView,
    id: ScopeId,
    scopes: Seq<ScopeView>,
    name: Seq<char>,
) -> Option<ScopeId>
    decreases scope.rank(),
{
    if scope.symbols.contains_key(name) {
        None
    } else if !scope.finalized {
        Some(id)
    } else if parent_alive(scope, scopes) {
        awaited_from(scopes[scope.parent->0 as int], scope.parent->0, scopes, name)
    } else {
        None
    }
}

/// The scope in which a node has to wait for `name` when its lookup starts
/// at the scope with handle `id`.
pub open spec fn awaited(scopes: Seq<ScopeView>, id: ScopeId, name: Seq<char>) -> Option<ScopeId> {
    if id < scopes.len() {
        awaited_from(scopes[id as int], id, scopes, name)
    } else {
        None
    }
}

/// A scope that has grown out of `old`: its parent and its bindings are
/// those of `old`, beside what has been added, and it is finalized if `old` was.
pub open spec fn scope_continues(old: ScopeView, new: ScopeView) -> bool {
    &&& new.parent == old.parent
    &&& old.finalized ==> new.finalized
    &&& forall|name: Seq<char>| #[trigger]
        old.symbols.contains_key(name) ==> new.symbols.contains_key(name) && new.symbols[name]
            == old.symbols[name]
}

/// Scopes that have grown out of `old`: each scope of `old` is continued under its handle.
pub open spec fn scopes_continue(old: Seq<ScopeView>, new: Seq<ScopeView>) -> bool {
    &&& old.len() <= new.len()
    &&& forall|id: int| 0 <= id < old.len() ==> scope_continues(old[id], #[trigger] new[id])
}

/// Scope `scope` binds `name`, and no node waits there for it.
pub open spec fn bound_and_quiet(scopes: Seq<ScopeView>, scope: ScopeId, name: Seq<char>) -> bool {
    &&& scope < scopes.len()
    &&& scopes[scope as int].symbols.contains_key(name)
    &&& !scopes[scope as int].listeners.contains_key(name)
}

/// The scope in which a node has to wait for a name is one of the scopes,
/// and does not bind the name.
pub proof fn lemma_awaited_unbound(scopes: Seq<ScopeView>, id: ScopeId, name: Seq<char>)
    ensures
        awaited(scopes, id, name) matches Some(place) ==> place < scopes.len() && !scopes[place as int].symbols.contains_key(
            name,
        ) && !scopes[place as int].finalized,
{
    if id < scopes.len() {
        lemma_awaited_from_unbound(scopes[id as int], id, scopes, name);
    }
}

proof fn lemma_awaited_from_unbound(scope: ScopeView, id: ScopeId, scopes: Seq<ScopeView>, name: Seq<char>)
    requires
        id < scopes.len(),
        scope == scopes[id as int],
    ensures
        awaited_from(scope, id, scopes, name) matches Some(place) ==> place < scopes.len() && !scopes[place as int].symbols.contains_key(
            name,
        ) && !scopes[place as int].finalized,
    decreases scope.rank(),
{
    if !scope.symbols.contains_key(name) && scope.finalized && parent_alive(scope, scopes) {
        lemma_awaited_from_unbound(scopes[scope.parent->0 as int], scope.parent->0, scopes, name);
    }
}

/// A lookup is pending exactly where there is a scope in which to wait.
pub proof fn lemma_pending_iff_awaited(scopes: Seq<ScopeView>, id: ScopeId, name: Seq<char>)
    ensures
        lookup(scopes, id, name) is Pending <==> awaited(scopes, id, name) is Some,
{
    if id < scopes.len() {
        lemma_pending_iff_awaited_from(scopes[id as int], id, scopes, name);
    }
}

proof fn lemma_pending_iff_awaited_from(scope: ScopeView, id: ScopeId, scopes: Seq<ScopeView>, name: Seq<char>)
    ensures
        lookup_from(scope, scopes, name) is Pending <==> awaited_from(scope, id, scopes, name) is Some,
    decreases scope.rank(),
{
    if !scope.symbols.contains_key(name) && scope.finalized && parent_alive(scope, scopes) {
        lemma_pending_iff_awaited_from(scopes[scope.parent->0 as int], scope.parent->0, scopes, name);
    }
}

/// One lexical scope.
pub struct Scope {
    symbols: SymbolTable,
    parent: Option<ScopeId>,
    listeners: StringHashMap<Vec<NodeId>>,
}

impl View for Scope {
    type V = ScopeView;

    closed spec fn view(&self) -> ScopeView {
        ScopeView {
            symbols: self.symbols.entries(),
            finalized: self.symbols.is_finalized(),
            parent: self.parent,
            listeners: self.listeners@.map_values(|waiting: Vec<NodeId>| waiting@),
        }
    }
}

impl Scope {
    /// A scope without bindings, listeners or parent.
    pub fn new() -> (scope: Scope)
        ensures
            scope@ == (ScopeView {
                symbols: Map::empty(),
                finalized: false,
                parent: None,
                listeners: Map::empty(),
            }),
    {
        let scope = Scope { symbols: SymbolTable::new(), parent: None, listeners: StringHashMap::new() };
        assert(scope@.listeners =~= Map::empty());
        scope
    }

    /// A scope without bindings or listeners, enclosed by the scope with handle `parent`.
    pub fn with_parent(parent: ScopeId) -> (scope: Scope)
        ensures
            scope@ == (ScopeView {
                symbols: Map::empty(),
                finalized: false,
                parent: Some(parent),
                listeners: Map::empty(),
            }),
    {
        let scope = Scope {
            symbols: SymbolTable::new(),
            parent: Some(parent),
            listeners: StringHashMap::new(),
        };
        assert(scope@.listeners =~= Map::empty());
        scope
    }

    /// The handle of the enclosing scope.
    pub fn parent(&self) -> (parent: Option<ScopeId>)
        ensures
            parent == self@.parent,
    {
        self.parent
    }

    /// Whether the scope has been finalized.
    pub fn finalized(&self) -> (finalized: bool)
        ensures
            finalized == self@.finalized,
    {
        self.symbols.finalized()
    }

    /// The nodes that wait for `name` in this scope, in the order in which they registered.
    pub fn listeners(&self, name: &str) -> (waiting: Vec<NodeId>)
        ensures
            waiting@ == self@.listeners_of(name@),
    {
        match self.listeners.get(name) {
            Some(waiting) => copy_handles(waiting),
            None => Vec::new(),
        }
    }

    /// Declares that no further symbol will be defined in this scope.
    pub fn finalize(&mut self)
        ensures
            final(self)@ == old(self)@.finalize(),
    {
        self.symbols.finalize();
    }

    /// Looks `name` up in this scope and, where the scope is finalized and
    /// does not bind it, in the enclosing scopes, which are found in `scopes`.
    pub fn get_symbol(&self, name: &str, scopes: &Vec<Scope>) -> (answer: LookupResult)
        ensures
            answer == lookup_from(self@, scope_views(scopes@), name@),
        decreases self@.rank(),
    {
        match self.symbols.get(name) {
            Some(value) => LookupResult::Total(value.clone()),
            None => {
                if !self.symbols.finalized() {
                    LookupResult::Pending
                } else {
                    match self.parent {
                        Some(parent) => {
                            if parent < scopes.len() && scopes[parent].stands_after_parent(parent) {
                                scopes[parent].get_symbol(name, scopes)
                            } else {
                                LookupResult::NotFound
                            }
                        },
                        None => LookupResult::NotFound,
                    }
                }
            },
        }
    }

    /// The handle of the scope in which a node has to wait for `name`, for
    /// a lookup that starts at this scope, whose own handle is `id`.
    pub fn awaited_scope(&self, id: ScopeId, name: &str, scopes: &Vec<Scope>) -> (place: Option<ScopeId>)
        ensures
            place == awaited_from(self@, id, scope_views(scopes@), name@),
        decreases self@.rank(),
    {
        match self.symbols.get(name) {
            Some(_) => None,
            None => {
                if !self.symbols.finalized() {
                    Some(id)
                } else {
                    match self.parent {
                        Some(parent) => {
                            if parent < scopes.len() && scopes[parent].stands_after_parent(parent) {
                                scopes[parent].awaited_scope(parent, name, scopes)
                            } else {
                                None
                            }
                        },
                        None => None,
                    }
                }
            },
        }
    }

    /// Whether this scope, at position `id`, stands after its parent.
    fn stands_after_parent(&self, id: ScopeId) -> (after: bool)
        ensures
            after == (self@.rank() <= id),
    {
        match self.parent {
            Some(parent) => parent < id,
            None => true,
        }
    }

    /// Defines `name` in this scope. Where the name is already defined the
    /// binding stays as it is and the rejected value comes back. Otherwise
    /// the nodes that waited for the name leave the scope and are
    /// returned, in the order of their registration: each of them is to be
    /// told the value.
    pub fn define_symbol(&mut self, name: &str, value: Value) -> (outcome: Result<Vec<NodeId>, Value>)
        ensures
            old(self)@.symbols.contains_key(name@) ==> outcome == Err::<Vec<NodeId>, Value>(value)
                && final(self)@ == old(self)@,
            !old(self)@.symbols.contains_key(name@) ==> outcome is Ok && outcome->Ok_0@ == old(
                self,
            )@.listeners_of(name@) && final(self)@ == old(self)@.define(name@, value),
    {
        match self.symbols.insert(name, value) {
            Err(rejected) => Err(rejected),
            Ok(()) => {
                let woken = match self.listeners.get(name) {
                    Some(waiting) => copy_handles(waiting),
                    None => Vec::new(),
                };
                self.listeners.remove(name);
                assert(self@.listeners =~= old(self)@.listeners.remove(name@));
                Ok(woken)
            },
        }
    }

    /// Makes `listener` wait for `name` in this scope.
    pub fn register_listener(&mut self, name: &str, listener: NodeId)
        ensures
            final(self)@ == old(self)@.register(name@, listener),
    {
        let mut waiting = match self.listeners.get(name) {
            Some(waiting) => copy_handles(waiting),
            None => Vec::new(),
        };
        waiting.push(listener);
        self.listeners.insert(name.to_owned(), waiting);
        assert(self@.listeners =~= old(self)@.listeners.insert(
            name@,
            old(self)@.listeners_of(name@).push(listener),
        ));
    }
}

/// Copies a list of handles.
fn copy_handles(handles: &Vec<NodeId>) -> (copy: Vec<NodeId>)
    ensures
        copy@ == handles@,
{
    let mut copy: Vec<NodeId> = Vec::new();
    let mut at: usize = 0;
    while at < handles.len()
        invariant
            at <= handles.len(),
            copy@ == handles@.take(at as int),
        decreases handles.len() - at,
    {
        copy.push(handles[at]);
        at += 1;
        assert(handles@.take(at as int) =~= handles@.take(at - 1).push(handles@[at - 1]));
    }
    assert(handles@.take(at as int) =~= handles@);
    copy
}

/// The per-evaluation state that every operation receives: the scope in
/// which the expression stands.
#[derive(Clone, Copy, Debug, PartialEq, Eq, Structural)]
pub struct EvaluationContext {
    pub scope: ScopeId,
}

impl EvaluationContext {
    pub fn new(scope: ScopeId) -> (context: EvaluationContext)
        ensures
            context.scope == scope,
    {
        EvaluationContext { scope }
    }

    pub fn scope(&self) -> (scope: ScopeId)
        ensures
            scope == self.scope,
    {
        self.scope
    }
}

} // verus!
