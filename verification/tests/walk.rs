use zopra::rewrite::scope::InjectCx;

fn names(list: &[&str]) -> Vec<String> {
    list.iter().map(|s| s.to_string()).collect()
}

#[test]
fn state_hook_lets_bind_signals() {
    let mut cx = InjectCx::default();
    cx.enter_binding_scope(Vec::new());
    cx.bind_local(names(&["count", "set_count"]), &Some(names(&["use_state"])));
    cx.bind_local(names(&["label"]), &Some(names(&["format"])));
    cx.bind_local(names(&["x"]), &None);
    assert!(cx.is_signal("count"));
    assert!(cx.is_signal("set_count"));
    assert!(!cx.is_signal("label"));
    assert!(!cx.is_signal("x"));
}

#[test]
fn arm_and_closure_bindings_shadow_only_inside() {
    let mut cx = InjectCx::default();
    cx.enter_binding_scope(Vec::new());
    cx.bind_local(names(&["count"]), &Some(names(&["zopra", "hooks", "use_state"])));
    cx.enter_binding_scope(names(&["count"]));
    assert!(!cx.is_signal("count"));
    cx.leave_scope();
    assert!(cx.is_signal("count"));
    cx.enter_binding_scope(names(&["other"]));
    assert!(cx.is_signal("count"));
    cx.leave_scope();
}

#[test]
fn foreign_use_state_binds_plain_names() {
    let mut cx = InjectCx::default();
    cx.enter_binding_scope(Vec::new());
    cx.bind_local(names(&["doubled"]), &Some(names(&["third_party", "use_state"])));
    assert!(!cx.is_signal("doubled"));
}
