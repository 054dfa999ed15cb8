use zopra::types::guards::{ComputationGuard, ScopeGuard};
use zopra::types::runtime::{ComponentOwner, NodeState, ReactiveNode, ScopeData};
use zopra::utils::arena::Id;

fn child_scope(owner: &mut ComponentOwner) -> Id {
    owner.scopes.insert(ScopeData { parent: Some(owner.root_scope), children: vec![], signals: vec![], nodes: vec![] })
}

#[test]
fn new_owner_starts_in_its_root_scope() {
    let owner = ComponentOwner::new();
    assert_eq!(owner.active_scope, owner.root_scope);
    assert_eq!(owner.active_computation, None);
    assert!(owner.scopes.get(owner.root_scope).unwrap().parent.is_none());
}

#[test]
fn scope_guard_restores_the_previous_scope() {
    let mut owner = ComponentOwner::new();
    let root = owner.root_scope;
    let a = child_scope(&mut owner);
    let b = child_scope(&mut owner);
    let ga = ScopeGuard::enter(&mut owner, a);
    assert_eq!(owner.active_scope, a);
    let gb = ScopeGuard::enter(&mut owner, b);
    assert_eq!(owner.active_scope, b);
    gb.drop(&mut owner);
    assert_eq!(owner.active_scope, a);
    ga.drop(&mut owner);
    assert_eq!(owner.active_scope, root);
}

#[test]
fn completed_computation_leaves_the_node_clean() {
    let mut owner = ComponentOwner::new();
    let node = owner.nodes.insert(ReactiveNode::new(owner.root_scope));
    assert_eq!(owner.nodes.get(node).unwrap().state(), NodeState::Dirty);
    let mut guard = ComputationGuard::begin(&mut owner, node);
    assert_eq!(owner.active_computation, Some(node));
    guard.completed = true;
    guard.drop(&mut owner);
    assert_eq!(owner.active_computation, None);
    assert_eq!(owner.nodes.get(node).unwrap().state(), NodeState::Clean);
}

#[test]
fn interrupted_computation_leaves_the_node_dirty() {
    let mut owner = ComponentOwner::new();
    let outer = owner.nodes.insert(ReactiveNode::new(owner.root_scope));
    let inner = owner.nodes.insert(ReactiveNode::new(owner.root_scope));
    let mut g1 = ComputationGuard::begin(&mut owner, outer);
    let g2 = ComputationGuard::begin(&mut owner, inner);
    g2.drop(&mut owner);
    assert_eq!(owner.active_computation, Some(outer));
    assert_eq!(owner.nodes.get(inner).unwrap().state(), NodeState::Dirty);
    g1.completed = true;
    g1.drop(&mut owner);
    assert_eq!(owner.nodes.get(outer).unwrap().state(), NodeState::Clean);
}

#[test]
fn removed_node_is_not_touched() {
    let mut owner = ComponentOwner::new();
    let node = owner.nodes.insert(ReactiveNode::new(owner.root_scope));
    let mut guard = ComputationGuard::begin(&mut owner, node);
    owner.nodes.remove(node);
    guard.completed = true;
    guard.drop(&mut owner);
    assert!(owner.nodes.get(node).is_none());
    assert_eq!(owner.active_computation, None);
}
