use std::collections::HashSet;
use vstd::prelude::*;
use crate::utils::arena::{Arena, Id, NodeId, ScopeId, SignalId};

verus! {

/// A scope of the reactive runtime: its parent, its child scopes and the
/// signals and nodes created in it.
pub struct ScopeData {
    pub parent: Option<ScopeId>,
    pub children: Vec<ScopeId>,
    pub signals: Vec<SignalId>,
    pub nodes: Vec<NodeId>,
}

/// A signal of the reactive runtime and the nodes that subscribe to it.
pub struct SignalData {
    subscribers: HashSet<NodeId>,
}

impl SignalData {
    pub closed spec fn subscriber_set(&self) -> Set<NodeId> {
        self.subscribers@
    }

    /// A signal that no node subscribes to yet.
    pub fn new() -> (s: Self)
        ensures
            s.subscriber_set() == Set::<NodeId>::empty(),
    {
        SignalData { subscribers: HashSet::new() }
    }
}

/// Whether a reactive node's value is current, stale, or being computed.
#[derive(Clone, Copy, PartialEq, Eq, Debug, Structural)]
pub enum NodeState {
    Clean,
    Dirty,
    Computing,
}

/// A computation of the reactive runtime: the scope that owns it, the scope
/// of its last run, its state and its dependency edges.
pub struct ReactiveNode {
    owning_scope: ScopeId,
    computation_scope: Option<ScopeId>,
    state: NodeState,
    signal_dependencies: HashSet<SignalId>,
    node_dependencies: HashSet<NodeId>,
    subscribers: HashSet<NodeId>,
}

impl ReactiveNode {
    pub closed spec fn current_state(&self) -> NodeState {
        self.state
    }

    pub closed spec fn owner_scope(&self) -> ScopeId {
        self.owning_scope
    }

    pub closed spec fn spec_computation_scope(&self) -> Option<ScopeId> {
        self.computation_scope
    }

    pub closed spec fn spec_signal_dependencies(&self) -> Set<SignalId> {
        self.signal_dependencies@
    }

    pub closed spec fn spec_node_dependencies(&self) -> Set<NodeId> {
        self.node_dependencies@
    }

    pub closed spec fn spec_subscribers(&self) -> Set<NodeId> {
        self.subscribers@
    }

    /// The node with its state replaced and everything else kept.
    pub closed spec fn with_state(self, state: NodeState) -> ReactiveNode {
        ReactiveNode { state, ..self }
    }

    pub proof fn lemma_with_state(self, state: NodeState)
        ensures
            self.with_state(state).current_state() == state,
            self.with_state(state).owner_scope() == self.owner_scope(),
            self.with_state(state).spec_computation_scope() == self.spec_computation_scope(),
            self.with_state(state).spec_signal_dependencies() == self.spec_signal_dependencies(),
            self.with_state(state).spec_node_dependencies() == self.spec_node_dependencies(),
            self.with_state(state).spec_subscribers() == self.spec_subscribers(),
            self.with_state(self.current_state()) == self,
    {
    }

    /// A node owned by `owning_scope` that has not run yet: it is dirty and
    /// depends on nothing.
    pub fn new(owning_scope: ScopeId) -> (n: Self)
        ensures
            n.current_state() == NodeState::Dirty,
            n.owner_scope() == owning_scope,
            n.spec_computation_scope() is None,
            n.spec_signal_dependencies() == Set::<SignalId>::empty(),
            n.spec_node_dependencies() == Set::<NodeId>::empty(),
            n.spec_subscribers() == Set::<NodeId>::empty(),
    {
        ReactiveNode {
            owning_scope,
            computation_scope: None,
            state: NodeState::Dirty,
            signal_dependencies: HashSet::new(),
            node_dependencies: HashSet::new(),
            subscribers: HashSet::new(),
        }
    }

    pub fn state(&self) -> (s: NodeState)
        ensures
            s == self.current_state(),
    {
        self.state
    }

    pub fn set_state(&mut self, state: NodeState)
        ensures
            *final(self) == old(self).with_state(state),
    {
        self.state = state;
    }
}

/// The owner of a component's reactive records: arenas of signals, nodes and
/// scopes, the root scope, and which scope and computation are active.
pub struct ComponentOwner {
    pub signals: Arena<SignalData>,
    pub nodes: Arena<ReactiveNode>,
    pub scopes: Arena<ScopeData>,
    pub root_scope: ScopeId,
    pub active_scope: ScopeId,
    pub active_computation: Option<NodeId>,
}

impl ComponentOwner {
    pub open spec fn wf(&self) -> bool {
        &&& self.signals.wf()
        &&& self.nodes.wf()
        &&& self.scopes.wf()
    }

    /// An owner whose only record is its root scope, which is active; no
    /// computation runs.
    pub fn new() -> (o: Self)
        ensures
            o.wf(),
            o.signals@ == Map::<Id, SignalData>::empty(),
            o.nodes@ == Map::<Id, ReactiveNode>::empty(),
            o.scopes@.dom() == set![o.root_scope],
            o.scopes@[o.root_scope].parent is None,
            o.scopes@[o.root_scope].children@.len() == 0,
            o.scopes@[o.root_scope].signals@.len() == 0,
            o.scopes@[o.root_scope].nodes@.len() == 0,
            o.active_scope == o.root_scope,
            o.active_computation is None,
    {
        let mut scopes: Arena<ScopeData> = Arena::new();
        let root = ScopeData { parent: None, children: Vec::new(), signals: Vec::new(), nodes: Vec::new() };
        let root_scope = scopes.insert(root);
        assert(scopes@.dom() =~= set![root_scope]);
        ComponentOwner {
            signals: Arena::new(),
            nodes: Arena::new(),
            scopes,
            root_scope,
            active_scope: root_scope,
            active_computation: None,
        }
    }
}

} // verus!
