use zopra::utils::{class_names, class_names_with_options, join_classes, merge_is_safe, try_class_names, ClassInput};

#[test]
fn str_inputs_contribute_unless_empty() {
    assert_eq!("flex".into_class_string(), Some("flex".to_string()));
    assert_eq!("".into_class_string(), None);
}

#[test]
fn string_inputs_contribute_unless_empty() {
    assert_eq!(String::from("p-4").into_class_string(), Some("p-4".to_string()));
    assert_eq!(String::new().into_class_string(), None);
}

#[test]
fn option_inputs_contribute_their_content() {
    assert_eq!(Some("m-2").into_class_string(), Some("m-2".to_string()));
    assert_eq!(None::<&str>.into_class_string(), None);
    assert_eq!(Some("").into_class_string(), None);
    assert_eq!(Some(Some(String::from("x"))).into_class_string(), Some("x".to_string()));
}

#[test]
fn present_classes_are_joined_with_spaces() {
    let parts = vec![Some("flex".to_string()), None, Some("items-center".to_string()), Some("gap-2".to_string())];
    assert_eq!(join_classes(&parts), "flex items-center gap-2");
    assert_eq!(join_classes(&vec![None, None]), "");
    assert_eq!(join_classes(&vec![]), "");
}

#[test]
fn conflicting_classes_are_merged() {
    let parts = vec![Some("py-2 px-4".to_string()), Some("p-4".to_string())];
    assert_eq!(class_names(&parts), "p-4");
    let parts = vec![Some("p-4".to_string()), None, Some("py-2".to_string())];
    assert_eq!(class_names(&parts), "p-4 py-2");
}

#[test]
fn no_classes_merge_to_nothing() {
    assert_eq!(class_names(&vec![None]), "");
    assert_eq!(class_names(&vec![]), "");
}

#[test]
fn the_last_class_always_survives_at_the_end() {
    let parts = vec![Some("bg-red-500 p-2".to_string()), Some("bg-blue-500".to_string())];
    let merged = class_names(&parts);
    assert!(merged.ends_with("bg-blue-500"));
    assert_eq!(merged, "p-2 bg-blue-500");
}

#[test]
fn merges_that_may_panic_are_recognized() {
    assert!(!merge_is_safe("[\\"));
    assert!(!merge_is_safe("p-2 [a\\ m-1"));
    assert!(merge_is_safe("a\\"));
    assert!(merge_is_safe("[a\\b]"));
    assert!(merge_is_safe("[a] \\"));
    assert!(merge_is_safe(""));
    assert_eq!(try_class_names(&vec![Some("[\\".to_string())]), None);
    assert_eq!(try_class_names(&vec![Some("py-2 px-4".to_string()), Some("p-4".to_string())]), Some("p-4".to_string()));
}

#[test]
fn merge_follows_the_given_options() {
    let parts = vec![Some("py-2 px-4".to_string()), Some("p-4".to_string())];
    assert_eq!(class_names_with_options(&parts, "", ":"), "p-4");
    assert_eq!(class_names_with_options(&parts, "tw-", ":"), "py-2 px-4 p-4");
    let prefixed = vec![Some("tw-py-2 tw-px-4".to_string()), Some("tw-p-4".to_string())];
    assert_eq!(class_names_with_options(&prefixed, "tw-", ":"), "tw-p-4");
}

#[test]
fn classes_split_at_any_white_space() {
    assert!(!merge_is_safe("p-2\t[a\\"));
    assert!(!merge_is_safe("[a\\\u{3000}m-1"));
    assert!(merge_is_safe("[a\\x\u{3000}m-1"));
}
