use vstd::prelude::*;
use crate::rewrite::scope::{InjectCx, ScopeView, resolves_to_signal};

verus! {

/// The delimiter of a token group.
#[derive(Clone, Copy, PartialEq, Eq, Debug, Structural)]
pub enum Delim {
    Parenthesis,
    Brace,
    Bracket,
    Invisible,
}

/// A token tree of macro input. `origin` names the source token that a
/// token was taken from, so that spans and spacing can be restored; a token
/// made by the rewriting has no origin of its own.
#[derive(Debug, PartialEq, Eq)]
pub enum Tok {
    Group { delim: Delim, stream: Vec<Tok>, origin: Option<usize> },
    Ident { name: String, origin: Option<usize> },
    Punct { ch: char, origin: Option<usize> },
    Literal { origin: Option<usize> },
}

/// A token tree with its text as a sequence of characters.
pub enum TokView {
    Group { delim: Delim, stream: Seq<TokView>, origin: Option<usize> },
    Ident { name: Seq<char>, origin: Option<usize> },
    Punct { ch: char, origin: Option<usize> },
    Literal { origin: Option<usize> },
}

pub open spec fn tok_view(t: Tok) -> TokView
    decreases t, 0nat,
{
    match t {
        Tok::Group { delim, stream, origin } => TokView::Group { delim, stream: toks_view(stream@), origin },
        Tok::Ident { name, origin } => TokView::Ident { name: name@, origin },
        Tok::Punct { ch, origin } => TokView::Punct { ch, origin },
        Tok::Literal { origin } => TokView::Literal { origin },
    }
}

pub open spec fn toks_view(s: Seq<Tok>) -> Seq<TokView>
    decreases s, 1nat,
{
    Seq::new(s.len(), |i: int| if 0 <= i < s.len() { tok_view(s[i]) } else { TokView::Literal { origin: None } })
}

/// A `.` or `:` punctuation, after which a name is a method or a path
/// segment rather than a call of a local binding.
pub open spec fn is_access_punct(t: TokView) -> bool {
    t matches TokView::Punct { ch, .. } && (ch == '.' || ch == ':')
}

pub open spec fn is_cx_ident(t: TokView) -> bool {
    t matches TokView::Ident { name, .. } && name == "cx"@
}

/// Position `i` holds the parenthesized argument list of a call of a signal:
/// it follows a name that resolves to a signal, and that name is not itself
/// reached through `.` or `:`.
pub open spec fn is_signal_call_args(scopes: Seq<ScopeView>, toks: Seq<TokView>, i: int) -> bool {
    &&& 1 <= i < toks.len()
    &&& toks[i] matches TokView::Group { delim: Delim::Parenthesis, .. }
    &&& toks[i - 1] matches TokView::Ident { name, .. } && resolves_to_signal(scopes, name)
    &&& !(i >= 2 && is_access_punct(toks[i - 2]))
}

/// What is appended to the arguments of a signal call: nothing when they
/// already end in `cx`, else `cx`, after a comma when there are arguments.
pub open spec fn cx_suffix(args: Seq<TokView>, origin: Option<usize>) -> Seq<TokView> {
    let cx = TokView::Ident { name: "cx"@, origin: None };
    if args.len() > 0 && is_cx_ident(args.last()) {
        Seq::empty()
    } else if args.len() == 0 {
        seq![cx]
    } else {
        seq![TokView::Punct { ch: ',', origin }, cx]
    }
}

/// The token at position `i` after rewriting: groups are rewritten inside,
/// and the arguments of a signal call also receive the `cx` suffix.
pub open spec fn rewritten_at(scopes: Seq<ScopeView>, toks: Seq<TokView>, i: int) -> TokView
    decreases toks[i], 0nat,
{
    if 0 <= i < toks.len() {
        match toks[i] {
            TokView::Group { delim, stream, origin } => TokView::Group {
                delim,
                stream: if is_signal_call_args(scopes, toks, i) {
                    rewritten(scopes, stream) + cx_suffix(stream, origin)
                } else {
                    rewritten(scopes, stream)
                },
                origin,
            },
            other => other,
        }
    } else {
        TokView::Literal { origin: None }
    }
}

/// A token sequence after rewriting: every token keeps its place.
pub open spec fn rewritten(scopes: Seq<ScopeView>, toks: Seq<TokView>) -> Seq<TokView>
    decreases toks, 1nat,
{
    Seq::new(toks.len(), |i: int| if 0 <= i < toks.len() { rewritten_at(scopes, toks, i) } else { TokView::Literal { origin: None } })
}

/// With no name resolving to a signal, rewriting leaves the tokens as they
/// are.
pub proof fn law_without_signals_tokens_are_kept(scopes: Seq<ScopeView>, toks: Seq<TokView>)
    requires
        forall|name: Seq<char>| !resolves_to_signal(scopes, name),
    ensures
        rewritten(scopes, toks) == toks,
    decreases toks,
{
    assert forall|i: int| 0 <= i < toks.len() implies rewritten_at(scopes, toks, i) == toks[i] by {
        if let TokView::Group { delim, stream, origin } = toks[i] {
            assert(decreases_to!(toks => toks[i]));
            law_without_signals_tokens_are_kept(scopes, stream);
        }
    }
    assert(rewritten(scopes, toks) =~= toks);
}

/// After rewriting, the argument list of every signal call ends with `cx`.
pub proof fn law_signal_calls_end_with_cx(scopes: Seq<ScopeView>, toks: Seq<TokView>, i: int)
    requires
        is_signal_call_args(scopes, toks, i),
    ensures
        rewritten_at(scopes, toks, i) matches TokView::Group { stream, .. } && stream.len() > 0 && is_cx_ident(stream.last()),
{
    if let TokView::Group { delim, stream, origin } = toks[i] {
        let r = rewritten(scopes, stream);
        if stream.len() > 0 && is_cx_ident(stream.last()) {
            assert(r.last() == rewritten_at(scopes, stream, stream.len() - 1));
            assert((r + cx_suffix(stream, origin)).last() == r.last());
        } else {
            assert((r + cx_suffix(stream, origin)).last() == cx_suffix(stream, origin).last());
        }
    }
}

/// Tokens that hold no group.
pub open spec fn all_leaves(toks: Seq<TokView>) -> bool {
    forall|i: int| 0 <= i < toks.len() ==> !(#[trigger] toks[i] is Group)
}

proof fn lemma_rewrite_append_leaves(scopes: Seq<ScopeView>, a: Seq<TokView>, b: Seq<TokView>)
    requires
        all_leaves(b),
    ensures
        rewritten(scopes, a + b) == rewritten(scopes, a) + b,
{
    let ab = a + b;
    assert forall|i: int| 0 <= i < ab.len() implies rewritten_at(scopes, ab, i) == (rewritten(scopes, a) + b)[i] by {
        if i < a.len() {
            assert(ab[i] == a[i]);
            if i >= 1 {
                assert(ab[i - 1] == a[i - 1]);
            }
            if i >= 2 {
                assert(ab[i - 2] == a[i - 2]);
            }
            assert(is_signal_call_args(scopes, ab, i) == is_signal_call_args(scopes, a, i));
        } else {
            assert(ab[i] == b[i - a.len()]);
        }
    }
    assert(rewritten(scopes, a + b) =~= rewritten(scopes, a) + b);
}

/// Rewriting tokens that were already rewritten changes nothing more.
pub proof fn law_rewriting_is_idempotent(scopes: Seq<ScopeView>, toks: Seq<TokView>)
    ensures
        rewritten(scopes, rewritten(scopes, toks)) == rewritten(scopes, toks),
    decreases toks,
{
    let r = rewritten(scopes, toks);
    assert forall|i: int| 0 <= i < toks.len() implies rewritten_at(scopes, r, i) == r[i] by {
        if i >= 1 {
            assert(r[i - 1] is Ident <==> toks[i - 1] is Ident);
            assert(r[i - 1] is Ident ==> r[i - 1] == toks[i - 1]);
        }
        if i >= 2 {
            assert(is_access_punct(r[i - 2]) == is_access_punct(toks[i - 2]));
        }
        assert(is_signal_call_args(scopes, r, i) == is_signal_call_args(scopes, toks, i));
        if let TokView::Group { delim, stream, origin } = toks[i] {
            assert(decreases_to!(toks => toks[i]));
            law_rewriting_is_idempotent(scopes, stream);
            let rs = rewritten(scopes, stream);
            if is_signal_call_args(scopes, toks, i) {
                let suffix = cx_suffix(stream, origin);
                assert(all_leaves(suffix));
                lemma_rewrite_append_leaves(scopes, rs, suffix);
                if stream.len() > 0 && is_cx_ident(stream.last()) {
                    assert(rs.last() == rewritten_at(scopes, stream, stream.len() - 1));
                    assert(suffix =~= Seq::<TokView>::empty());
                    assert(rs + suffix =~= rs);
                } else {
                    assert((rs + suffix).last() == suffix.last());
                }
                assert(cx_suffix(rs + suffix, origin) =~= Seq::<TokView>::empty());
                assert(rewritten(scopes, rs + suffix) + cx_suffix(rs + suffix, origin) =~= rs + suffix);
            }
        }
    }
    assert(rewritten(scopes, r) =~= r);
}

/// Every call of a signal, at any depth of nesting, passes `cx` last: its
/// argument list ends with the identifier `cx`.
pub open spec fn signal_calls_completed(scopes: Seq<ScopeView>, toks: Seq<TokView>) -> bool
    decreases toks,
{
    forall|i: int|
        #![trigger toks[i]]
        0 <= i < toks.len() ==> {
            &&& is_signal_call_args(scopes, toks, i) ==> (toks[i] matches TokView::Group { stream, .. } && stream.len() > 0
                && is_cx_ident(stream.last()))
            &&& (toks[i] matches TokView::Group { stream, .. } ==> signal_calls_completed(scopes, stream))
        }
}

proof fn lemma_completed_append_leaves(scopes: Seq<ScopeView>, a: Seq<TokView>, b: Seq<TokView>)
    requires
        all_leaves(b),
        signal_calls_completed(scopes, a),
    ensures
        signal_calls_completed(scopes, a + b),
{
    let ab = a + b;
    assert forall|i: int| #![trigger ab[i]] 0 <= i < ab.len() implies {
        &&& is_signal_call_args(scopes, ab, i) ==> (ab[i] matches TokView::Group { stream, .. } && stream.len() > 0
            && is_cx_ident(stream.last()))
        &&& (ab[i] matches TokView::Group { stream, .. } ==> signal_calls_completed(scopes, stream))
    } by {
        if i < a.len() {
            assert(ab[i] == a[i]);
            if i >= 1 {
                assert(ab[i - 1] == a[i - 1]);
            }
            if i >= 2 {
                assert(ab[i - 2] == a[i - 2]);
            }
            assert(is_signal_call_args(scopes, ab, i) == is_signal_call_args(scopes, a, i));
        } else {
            assert(ab[i] == b[i - a.len()]);
        }
    }
}

/// Rewriting reaches every group at every depth: afterwards no call of a
/// signal, however deeply nested, lacks `cx` as its last argument.
pub proof fn law_rewriting_completes_every_signal_call(scopes: Seq<ScopeView>, toks: Seq<TokView>)
    ensures
        signal_calls_completed(scopes, rewritten(scopes, toks)),
    decreases toks,
{
    let r = rewritten(scopes, toks);
    assert forall|i: int| #![trigger r[i]] 0 <= i < r.len() implies {
        &&& is_signal_call_args(scopes, r, i) ==> (r[i] matches TokView::Group { stream, .. } && stream.len() > 0
            && is_cx_ident(stream.last()))
        &&& (r[i] matches TokView::Group { stream, .. } ==> signal_calls_completed(scopes, stream))
    } by {
        if i >= 1 {
            assert(r[i - 1] is Ident <==> toks[i - 1] is Ident);
            assert(r[i - 1] is Ident ==> r[i - 1] == toks[i - 1]);
        }
        if i >= 2 {
            assert(is_access_punct(r[i - 2]) == is_access_punct(toks[i - 2]));
        }
        assert(is_signal_call_args(scopes, r, i) == is_signal_call_args(scopes, toks, i));
        if is_signal_call_args(scopes, toks, i) {
            law_signal_calls_end_with_cx(scopes, toks, i);
        }
        if let TokView::Group { delim, stream, origin } = toks[i] {
            assert(decreases_to!(toks => toks[i]));
            law_rewriting_completes_every_signal_call(scopes, stream);
            if is_signal_call_args(scopes, toks, i) {
                let suffix = cx_suffix(stream, origin);
                assert(all_leaves(suffix));
                lemma_completed_append_leaves(scopes, rewritten(scopes, stream), suffix);
            }
        }
    }
}

fn copy_leaf(t: &Tok) -> (r: Tok)
    requires
        !(t is Group),
    ensures
        tok_view(r) == tok_view(*t),
{
    match t {
        Tok::Ident { name, origin } => Tok::Ident { name: name.clone(), origin: *origin },
        Tok::Punct { ch, origin } => Tok::Punct { ch: *ch, origin: *origin },
        Tok::Literal { origin } => Tok::Literal { origin: *origin },
        Tok::Group { .. } => Tok::Literal { origin: None },
    }
}

fn is_access(t: &Tok) -> (b: bool)
    ensures
        b == is_access_punct(tok_view(*t)),
{
    match t {
        Tok::Punct { ch, .. } => *ch == '.' || *ch == ':',
        _ => false,
    }
}

fn ends_with_cx(stream: &Vec<Tok>) -> (b: bool)
    ensures
        b == (toks_view(stream@).len() > 0 && is_cx_ident(toks_view(stream@).last())),
{
    if stream.len() == 0 {
        return false;
    }
    match &stream[stream.len() - 1] {
        Tok::Ident { name, .. } => {
            let cx = String::from_str("cx");
            *name == cx
        },
        _ => false,
    }
}

impl InjectCx {
    fn signal_name_at(&self, toks: &Vec<Tok>, i: usize) -> (b: bool)
        requires
            i < toks.len(),
        ensures
            b == (toks_view(toks@)[i as int] matches TokView::Ident { name, .. } && resolves_to_signal(self@, name)),
    {
        match &toks[i] {
            Tok::Ident { name, .. } => self.is_signal(name.as_str()),
            _ => false,
        }
    }

    /// The tokens with every call of a signal given `cx` as its last
    /// argument.
    pub fn rewritten_tokens(&self, toks: &Vec<Tok>) -> (out: Vec<Tok>)
        ensures
            toks_view(out@) == rewritten(self@, toks_view(toks@)),
        decreases toks@,
    {
        let ghost input = toks_view(toks@);
        let mut out: Vec<Tok> = Vec::new();
        let mut i: usize = 0;
        while i < toks.len()
            invariant
                i <= toks.len(),
                input == toks_view(toks@),
                out@.len() == i,
                forall|j: int| 0 <= j < i ==> tok_view(#[trigger] out@[j]) == rewritten_at(self@, input, j),
            decreases toks.len() - i,
        {
            match &toks[i] {
                Tok::Group { delim, stream, origin } => {
                    assert(decreases_to!(toks@ => toks@[i as int]));
                    let mut inner = self.rewritten_tokens(stream);
                    let is_call = *delim == Delim::Parenthesis && i >= 1 && self.signal_name_at(toks, i - 1)
                        && !(i >= 2 && is_access(&toks[i - 2]));
                    assert(is_call == is_signal_call_args(self@, input, i as int));
                    if is_call && !ends_with_cx(stream) {
                        if inner.len() > 0 {
                            inner.push(Tok::Punct { ch: ',', origin: *origin });
                        }
                        inner.push(Tok::Ident { name: String::from_str("cx"), origin: None });
                    }
                    proof {
                        let sv = toks_view(stream@);
                        let expected = if is_call { rewritten(self@, sv) + cx_suffix(sv, *origin) } else { rewritten(self@, sv) };
                        assert(toks_view(inner@) =~= expected);
                    }
                    out.push(Tok::Group { delim: *delim, stream: inner, origin: *origin });
                },
                other => {
                    out.push(copy_leaf(other));
                },
            }
            i += 1;
        }
        assert(toks_view(out@) =~= rewritten(self@, input));
        out
    }

    /// Rewrites the tokens of a macro invocation in place so that every call
    /// of a signal passes `cx` as its last argument.
    pub fn rewrite_signal_calls(&self, tokens: &mut Vec<Tok>)
        ensures
            toks_view(final(tokens)@) == rewritten(self@, toks_view(old(tokens)@)),
    {
        let out = self.rewritten_tokens(tokens);
        *tokens = out;
    }
}

} // verus!
