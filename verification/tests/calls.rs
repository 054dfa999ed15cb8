use zopra::rewrite::calls::{init_is_hook_call, is_bare_ident, is_hook_path, is_signals_macro, needs_cx_param, CallEdit, HookGroup};
use zopra::rewrite::scope::InjectCx;

fn path(segments: &[&str]) -> Vec<String> {
    segments.iter().map(|s| s.to_string()).collect()
}

fn args(list: &[Option<&str>]) -> Vec<Option<String>> {
    list.iter().map(|a| a.map(|s| s.to_string())).collect()
}

#[test]
fn hook_paths_are_recognized() {
    assert!(is_hook_path(&path(&["use_state"]), HookGroup::Skip));
    assert!(is_hook_path(&path(&["use_effect"]), HookGroup::Skip));
    assert!(is_hook_path(&path(&["zopra", "hooks", "use_state"]), HookGroup::Skip));
    assert!(!is_hook_path(&path(&["third_party", "use_state"]), HookGroup::Skip));
    assert!(is_hook_path(&path(&["use_callback"]), HookGroup::ClosureCx));
    assert!(is_hook_path(&path(&["use_event"]), HookGroup::ClosureCx));
    assert!(!is_hook_path(&path(&["use_state"]), HookGroup::ClosureCx));
    assert!(is_hook_path(&path(&["use_async"]), HookGroup::AsyncCx));
    assert!(!is_hook_path(&path(&[]), HookGroup::AsyncCx));
}

#[test]
fn bare_identifiers_are_recognized() {
    assert!(is_bare_ident(&Some("cx".to_string()), "cx"));
    assert!(!is_bare_ident(&Some("window".to_string()), "cx"));
    assert!(!is_bare_ident(&None, "cx"));
}

#[test]
fn use_state_gets_window_and_cx() {
    let cx = InjectCx::default();
    let edit = cx.edit_for_call(&path(&["use_state"]), &args(&[None]), false);
    assert_eq!(edit, CallEdit { push_window: true, push_cx: true, inject_closure_cx: false });
}

#[test]
fn complete_use_state_is_left_alone() {
    let cx = InjectCx::default();
    let edit = cx.edit_for_call(&path(&["use_state"]), &args(&[None, Some("window"), Some("cx")]), false);
    assert_eq!(edit, CallEdit { push_window: false, push_cx: false, inject_closure_cx: false });
}

#[test]
fn use_state_ending_in_cx_only_still_gets_window_and_cx() {
    let cx = InjectCx::default();
    let edit = cx.edit_for_call(&path(&["use_state"]), &args(&[None, Some("cx")]), false);
    assert_eq!(edit, CallEdit { push_window: true, push_cx: true, inject_closure_cx: false });
}

#[test]
fn other_hooks_get_cx() {
    let cx = InjectCx::default();
    let edit = cx.edit_for_call(&path(&["use_callback"]), &args(&[Some("holder"), None]), true);
    assert_eq!(edit, CallEdit { push_window: false, push_cx: true, inject_closure_cx: false });
    let edit = cx.edit_for_call(&path(&["use_async"]), &args(&[None]), true);
    assert_eq!(edit, CallEdit { push_window: false, push_cx: true, inject_closure_cx: false });
    let edit = cx.edit_for_call(&path(&["use_event"]), &args(&[None, None]), true);
    assert_eq!(edit, CallEdit { push_window: false, push_cx: true, inject_closure_cx: true });
    let edit = cx.edit_for_call(&path(&["zopra", "hooks", "use_event"]), &args(&[None, None]), true);
    assert_eq!(edit, CallEdit { push_window: false, push_cx: true, inject_closure_cx: true });
    let edit = cx.edit_for_call(&path(&["use_event"]), &args(&[Some("publisher"), Some("cx")]), false);
    assert_eq!(edit, CallEdit { push_window: false, push_cx: false, inject_closure_cx: false });
}

#[test]
fn signal_calls_get_cx() {
    let mut cx = InjectCx::default();
    cx.push_scope();
    cx.register_pat(vec!["set_count".to_string()], true);
    let edit = cx.edit_for_call(&path(&["set_count"]), &args(&[None]), false);
    assert_eq!(edit, CallEdit { push_window: false, push_cx: true, inject_closure_cx: false });
}

#[test]
fn foreign_calls_are_left_alone() {
    let cx = InjectCx::default();
    let edit = cx.edit_for_call(&path(&["third_party", "use_state"]), &args(&[None]), false);
    assert_eq!(edit, CallEdit { push_window: false, push_cx: false, inject_closure_cx: false });
    let edit = cx.edit_for_call(&path(&["third_party", "use_callback"]), &args(&[None]), true);
    assert_eq!(edit, CallEdit { push_window: false, push_cx: false, inject_closure_cx: false });
}

#[test]
fn closure_params_need_cx_unless_present() {
    assert!(needs_cx_param(&args(&[Some("e"), None])));
    assert!(!needs_cx_param(&args(&[Some("e"), Some("cx")])));
    assert!(needs_cx_param(&args(&[])));
}

#[test]
fn lets_bind_signals_from_state_hooks() {
    assert!(init_is_hook_call(&Some(path(&["use_state"]))));
    assert!(init_is_hook_call(&Some(path(&["zopra", "hooks", "use_state"]))));
    assert!(!init_is_hook_call(&Some(path(&["third_party", "use_state"]))));
    assert!(!init_is_hook_call(&Some(path(&["use_callback"]))));
    assert!(!init_is_hook_call(&None));
}

#[test]
fn completing_a_completed_call_changes_nothing() {
    let mut cx = InjectCx::default();
    cx.push_scope();
    cx.register_pat(vec!["count".to_string()], true);
    for p in [path(&["use_state"]), path(&["count"]), path(&["use_async"])] {
        let mut a = args(&[None, Some("cx")]);
        let edit = cx.edit_for_call(&p, &a, false);
        if edit.push_window {
            a.push(Some("window".to_string()));
        }
        if edit.push_cx {
            a.push(Some("cx".to_string()));
        }
        assert_eq!(a.last(), Some(&Some("cx".to_string())));
        let again = cx.edit_for_call(&p, &a, false);
        assert_eq!(again, CallEdit { push_window: false, push_cx: false, inject_closure_cx: false });
    }
}

#[test]
fn signals_declarations_are_recognized() {
    assert!(is_signals_macro(&path(&["signals"])));
    assert!(is_signals_macro(&path(&["zopra", "signals"])));
    assert!(!is_signals_macro(&path(&["rsx"])));
    assert!(!is_signals_macro(&path(&[])));
}
