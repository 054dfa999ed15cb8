use zopra::rewrite::scope::InjectCx;
use zopra::rewrite::tokens::{Delim, Tok};

fn ident(name: &str) -> Tok {
    Tok::Ident { name: name.to_string(), origin: Some(0) }
}

fn new_cx() -> Tok {
    Tok::Ident { name: "cx".to_string(), origin: None }
}

fn punct(ch: char) -> Tok {
    Tok::Punct { ch, origin: Some(0) }
}

fn group(delim: Delim, stream: Vec<Tok>, origin: usize) -> Tok {
    Tok::Group { delim, stream, origin: Some(origin) }
}

fn paren(stream: Vec<Tok>) -> Tok {
    group(Delim::Parenthesis, stream, 7)
}

fn with_signals(list: &[&str]) -> InjectCx {
    let mut cx = InjectCx::default();
    cx.push_scope();
    cx.register_pat(list.iter().map(|s| s.to_string()).collect(), true);
    cx
}

#[test]
fn empty_call_gets_cx() {
    let cx = with_signals(&["count"]);
    let mut toks = vec![ident("count"), paren(vec![])];
    cx.rewrite_signal_calls(&mut toks);
    assert_eq!(toks, vec![ident("count"), paren(vec![new_cx()])]);
}

#[test]
fn call_with_arguments_gets_comma_and_cx() {
    let cx = with_signals(&["set_count"]);
    let mut toks = vec![ident("set_count"), paren(vec![Tok::Literal { origin: Some(3) }])];
    cx.rewrite_signal_calls(&mut toks);
    assert_eq!(
        toks,
        vec![
            ident("set_count"),
            paren(vec![Tok::Literal { origin: Some(3) }, Tok::Punct { ch: ',', origin: Some(7) }, new_cx()])
        ]
    );
}

#[test]
fn call_already_ending_in_cx_is_kept() {
    let cx = with_signals(&["count"]);
    let original = vec![ident("count"), paren(vec![ident("cx")])];
    let mut toks = vec![ident("count"), paren(vec![ident("cx")])];
    cx.rewrite_signal_calls(&mut toks);
    assert_eq!(toks, original);
}

#[test]
fn method_and_path_calls_are_kept() {
    let cx = with_signals(&["count"]);
    let mut toks = vec![ident("x"), punct('.'), ident("count"), paren(vec![]), ident("m"), punct(':'), ident("count"), paren(vec![])];
    let expected = vec![ident("x"), punct('.'), ident("count"), paren(vec![]), ident("m"), punct(':'), ident("count"), paren(vec![])];
    cx.rewrite_signal_calls(&mut toks);
    assert_eq!(toks, expected);
}

#[test]
fn non_signal_and_non_parenthesis_are_kept() {
    let cx = with_signals(&["count"]);
    let mut toks = vec![ident("other"), paren(vec![]), ident("count"), group(Delim::Bracket, vec![], 2)];
    let expected = vec![ident("other"), paren(vec![]), ident("count"), group(Delim::Bracket, vec![], 2)];
    cx.rewrite_signal_calls(&mut toks);
    assert_eq!(toks, expected);
}

#[test]
fn nested_calls_are_rewritten_inside_groups() {
    let cx = with_signals(&["count"]);
    let mut toks = vec![group(Delim::Brace, vec![ident("count"), paren(vec![]), punct('+'), ident("count"), paren(vec![ident("count"), paren(vec![])])], 1)];
    cx.rewrite_signal_calls(&mut toks);
    let expected = vec![group(
        Delim::Brace,
        vec![
            ident("count"),
            paren(vec![new_cx()]),
            punct('+'),
            ident("count"),
            paren(vec![ident("count"), paren(vec![new_cx()]), Tok::Punct { ch: ',', origin: Some(7) }, new_cx()]),
        ],
        1,
    )];
    assert_eq!(toks, expected);
}

#[test]
fn rewriting_twice_changes_nothing_more() {
    let cx = with_signals(&["count"]);
    let mut toks = vec![ident("count"), paren(vec![ident("count"), paren(vec![])]), ident("count"), paren(vec![ident("a")])];
    cx.rewrite_signal_calls(&mut toks);
    let once = cx.rewritten_tokens(&toks);
    assert_eq!(once, toks);
}

#[test]
fn without_signals_nothing_changes() {
    let cx = InjectCx::default();
    let mut toks = vec![ident("count"), paren(vec![]), group(Delim::Brace, vec![ident("count"), paren(vec![])], 4)];
    let expected = vec![ident("count"), paren(vec![]), group(Delim::Brace, vec![ident("count"), paren(vec![])], 4)];
    cx.rewrite_signal_calls(&mut toks);
    assert_eq!(toks, expected);
}
