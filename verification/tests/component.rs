use zopra::rewrite::component::{collect_props, missing_prop_message, props_type_name, tag_alias_name, PropArg, PropError, PropErrorKind};

#[test]
fn snake_case_names_become_camel_case() {
    assert_eq!(tag_alias_name("greet_click"), "GreetClick");
    assert_eq!(tag_alias_name("greet"), "Greet");
    assert_eq!(tag_alias_name("_a__b_"), "AB");
    assert_eq!(tag_alias_name("rsx_host_component"), "RsxHostComponent");
    assert_eq!(tag_alias_name(""), "");
    assert_eq!(tag_alias_name("x9_1y"), "X91y");
}

#[test]
fn non_ascii_first_letters_are_upper_cased() {
    assert_eq!(tag_alias_name("été_ß"), "ÉtéSS");
}

#[test]
fn props_builders_are_named_after_the_component() {
    assert_eq!(props_type_name("greet"), "GreetProps");
    assert_eq!(props_type_name("greet_click"), "GreetClickProps");
}

#[test]
fn plain_parameters_become_props() {
    let args = vec![PropArg::Ident("name".to_string()), PropArg::Ident("count".to_string())];
    assert_eq!(collect_props(&args), Ok(vec!["name".to_string(), "count".to_string()]));
    assert_eq!(collect_props(&vec![]), Ok(vec![]));
}

#[test]
fn destructuring_parameters_are_refused() {
    let args = vec![PropArg::Ident("name".to_string()), PropArg::Pattern, PropArg::Receiver];
    let err = collect_props(&args).unwrap_err();
    assert_eq!(err, PropError { kind: PropErrorKind::Pattern, position: 1 });
    assert_eq!(
        err.message(),
        "component props must be plain identifiers: `count: u32`, not destructuring patterns like `(a, b): (u32, u32)`"
    );
}

#[test]
fn receivers_are_refused() {
    let args = vec![PropArg::Receiver, PropArg::Pattern];
    let err = collect_props(&args).unwrap_err();
    assert_eq!(err, PropError { kind: PropErrorKind::Receiver, position: 0 });
    assert_eq!(err.message(), "methods (self) are not supported in components");
}

#[test]
fn missing_prop_message_names_prop_and_component() {
    assert_eq!(
        missing_prop_message("name", "greet"),
        "missing required prop `name` for component `greet` (rsx tag `<greet ...>`)"
    );
}
