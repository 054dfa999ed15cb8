use vstd::prelude::*;
use crate::types::runtime::{ComponentOwner, NodeState};
use crate::utils::arena::{NodeId, ScopeId};

verus! {

/// Remembers the scope that was active before another one was entered, and
/// restores it when dropped.
pub struct ScopeGuard {
    prev_scope: ScopeId,
}

impl ScopeGuard {
    pub closed spec fn spec_prev_scope(&self) -> ScopeId {
        self.prev_scope
    }

    /// Makes `scope` the active scope of `owner`.
    pub fn enter(owner: &mut ComponentOwner, scope: ScopeId) -> (g: ScopeGuard)
        ensures
            g.spec_prev_scope() == old(owner).active_scope,
            final(owner).active_scope == scope,
            final(owner).active_computation == old(owner).active_computation,
            final(owner).root_scope == old(owner).root_scope,
            final(owner).signals == old(owner).signals,
            final(owner).nodes == old(owner).nodes,
            final(owner).scopes == old(owner).scopes,
    {
        let prev_scope = owner.active_scope;
        owner.active_scope = scope;
        ScopeGuard { prev_scope }
    }

    /// Makes the remembered scope active again.
    pub fn drop(self, owner: &mut ComponentOwner)
        ensures
            final(owner).active_scope == self.spec_prev_scope(),
            final(owner).active_computation == old(owner).active_computation,
            final(owner).root_scope == old(owner).root_scope,
            final(owner).signals == old(owner).signals,
            final(owner).nodes == old(owner).nodes,
            final(owner).scopes == old(owner).scopes,
    {
        owner.active_scope = self.prev_scope;
    }
}

/// The state that a node is left in when its computation guard is dropped:
/// clean after a completed run, dirty after an interrupted one.
pub open spec fn settled_state(completed: bool) -> NodeState {
    if completed {
        NodeState::Clean
    } else {
        NodeState::Dirty
    }
}

/// Remembers the computation that was active before a node started running;
/// when dropped it restores it and settles the node's state.
pub struct ComputationGuard {
    node_id: NodeId,
    prev_active: Option<NodeId>,
    pub completed: bool,
}

impl ComputationGuard {
    pub closed spec fn spec_node(&self) -> NodeId {
        self.node_id
    }

    pub closed spec fn spec_prev_active(&self) -> Option<NodeId> {
        self.prev_active
    }

    pub closed spec fn spec_completed(&self) -> bool {
        self.completed
    }

    /// Makes `node_id` the active computation of `owner`; the run counts as
    /// not completed until `completed` is set.
    pub fn begin(owner: &mut ComponentOwner, node_id: NodeId) -> (g: ComputationGuard)
        ensures
            g.spec_node() == node_id,
            g.spec_prev_active() == old(owner).active_computation,
            !g.spec_completed(),
            final(owner).active_computation == Some(node_id),
            final(owner).active_scope == old(owner).active_scope,
            final(owner).root_scope == old(owner).root_scope,
            final(owner).signals == old(owner).signals,
            final(owner).nodes == old(owner).nodes,
            final(owner).scopes == old(owner).scopes,
    {
        let prev_active = owner.active_computation;
        owner.active_computation = Some(node_id);
        ComputationGuard { node_id, prev_active, completed: false }
    }

    /// Restores the remembered computation and, if the node still exists,
    /// settles its state: clean when the run completed, dirty otherwise.
    pub fn drop(self, owner: &mut ComponentOwner)
        requires
            old(owner).wf(),
        ensures
            final(owner).wf(),
            final(owner).active_computation == self.spec_prev_active(),
            final(owner).nodes@ == (if old(owner).nodes@.contains_key(self.spec_node()) {
                old(owner).nodes@.insert(
                    self.spec_node(),
                    old(owner).nodes@[self.spec_node()].with_state(settled_state(self.spec_completed())),
                )
            } else {
                old(owner).nodes@
            }),
            final(owner).nodes.model().generations == old(owner).nodes.model().generations,
            final(owner).nodes.model().free == old(owner).nodes.model().free,
            final(owner).active_scope == old(owner).active_scope,
            final(owner).root_scope == old(owner).root_scope,
            final(owner).signals == old(owner).signals,
            final(owner).scopes == old(owner).scopes,
    {
        owner.active_computation = self.prev_active;
        let state = if self.completed {
            NodeState::Clean
        } else {
            NodeState::Dirty
        };
        if let Some(node) = owner.nodes.get_mut(self.node_id) {
            node.set_state(state);
        }
    }
}

/// Entering a scope and then dropping the guard that `enter` returned gives
/// the owner back exactly as it was before: `before` is the owner before
/// `enter`, `during` after it, `after` after the guard's `drop`.
pub proof fn law_scope_guard_round_trip(
    before: ComponentOwner,
    during: ComponentOwner,
    after: ComponentOwner,
    guard: ScopeGuard,
    scope: ScopeId,
)
    requires
        guard.spec_prev_scope() == before.active_scope,
        during.active_scope == scope,
        during.active_computation == before.active_computation,
        during.root_scope == before.root_scope,
        during.signals == before.signals,
        during.nodes == before.nodes,
        during.scopes == before.scopes,
        after.active_scope == guard.spec_prev_scope(),
        after.active_computation == during.active_computation,
        after.root_scope == during.root_scope,
        after.signals == during.signals,
        after.nodes == during.nodes,
        after.scopes == during.scopes,
    ensures
        after == before,
{
}

/// Running a node under a computation guard and dropping it restores the
/// previously active computation and leaves the node clean exactly when the
/// run was marked completed (dirty otherwise), with every other node as it
/// was: `before` is the owner before `begin`, `during` the owner when the guard
/// is dropped, `after` the owner after `drop`.
pub proof fn law_computation_guard_settles_node(
    before: ComponentOwner,
    during: ComponentOwner,
    after: ComponentOwner,
    guard: ComputationGuard,
    node: NodeId,
)
    requires
        during.wf(),
        guard.spec_node() == node,
        guard.spec_prev_active() == before.active_computation,
        during.nodes@.contains_key(node),
        after.active_computation == guard.spec_prev_active(),
        after.nodes@ == during.nodes@.insert(node, during.nodes@[node].with_state(settled_state(guard.spec_completed()))),
    ensures
        after.active_computation == before.active_computation,
        after.nodes@[node].current_state() == (if guard.spec_completed() { NodeState::Clean } else { NodeState::Dirty }),
        after.nodes@[node].owner_scope() == during.nodes@[node].owner_scope(),
        forall|other: NodeId| other != node ==> after.nodes@.contains_key(other) == during.nodes@.contains_key(other),
        forall|other: NodeId| other != node && during.nodes@.contains_key(other) ==> after.nodes@[other] == during.nodes@[other],
{
    during.nodes@[node].lemma_with_state(settled_state(guard.spec_completed()));
}

} // verus!
