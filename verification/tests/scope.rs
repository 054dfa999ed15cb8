use zopra::rewrite::scope::InjectCx;

fn names(list: &[&str]) -> Vec<String> {
    list.iter().map(|s| s.to_string()).collect()
}

#[test]
fn nothing_is_a_signal_without_scopes() {
    let mut cx = InjectCx::default();
    assert!(!cx.is_signal("count"));
    cx.register_pat(names(&["count"]), true);
    assert!(!cx.is_signal("count"));
}

#[test]
fn registered_signals_resolve() {
    let mut cx = InjectCx::default();
    cx.push_scope();
    cx.register_pat(names(&["count", "set_count"]), true);
    assert!(cx.is_signal("count"));
    assert!(cx.is_signal("set_count"));
    assert!(!cx.is_signal("other"));
}

#[test]
fn inner_plain_binding_shadows_outer_signal() {
    let mut cx = InjectCx::default();
    cx.push_scope();
    cx.register_pat(names(&["count"]), true);
    cx.push_scope();
    cx.register_pat(names(&["count"]), false);
    assert!(!cx.is_signal("count"));
    cx.pop_scope();
    assert!(cx.is_signal("count"));
}

#[test]
fn plain_binding_wins_within_one_scope() {
    let mut cx = InjectCx::default();
    cx.push_scope();
    cx.register_pat(names(&["count"]), true);
    cx.register_pat(names(&["count"]), false);
    assert!(!cx.is_signal("count"));
}

#[test]
fn inner_signal_shadows_outer_plain_binding() {
    let mut cx = InjectCx::default();
    cx.push_scope();
    cx.register_pat(names(&["value"]), false);
    cx.push_scope();
    cx.register_pat(names(&["value"]), true);
    assert!(cx.is_signal("value"));
}

#[test]
fn pop_on_empty_stack_is_harmless() {
    let mut cx = InjectCx::default();
    cx.pop_scope();
    cx.push_scope();
    cx.register_pat(names(&["a"]), true);
    cx.pop_scope();
    cx.pop_scope();
    assert!(!cx.is_signal("a"));
}
