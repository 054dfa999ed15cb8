use vstd::prelude::*;
use crate::rewrite::calls::{binds_signals, init_is_hook_call, segments_view};
use crate::rewrite::scope::{
    law_closed_scope_is_forgotten, law_plain_binding_is_not_signal, names_view, popped, pushed, registered,
    resolves_to_signal, InjectCx, ScopeView,
};

verus! {

/// The scopes on entering a construct that binds `names` for its body only:
/// a closure's parameters, a match arm's pattern, a `for` pattern, or the
/// pattern of an `if let` / `while let` for its body. A new innermost scope
/// is opened and the names are bound in it as ordinary bindings.
pub open spec fn entered_binding_scope(scopes: Seq<ScopeView>, names: Seq<Seq<char>>) -> Seq<ScopeView> {
    registered(pushed(scopes), names, false)
}

/// The scopes after a `let` binds `names`, once its initializer has been
/// walked: the names are signals when the initializer is a call of a state
/// hook, and ordinary bindings otherwise.
pub open spec fn bound_local(scopes: Seq<ScopeView>, names: Seq<Seq<char>>, init_call_path: Option<Seq<Seq<char>>>) -> Seq<ScopeView> {
    registered(scopes, names, binds_signals(init_call_path))
}

impl InjectCx {
    /// Opens the scope of a construct that binds `names` for its body only
    /// (closure parameters, a match arm with its guard and body, a `for`
    /// body, the body of an `if let` / `while let`); the names are ordinary
    /// bindings there.
    pub fn enter_binding_scope(&mut self, names: Vec<String>)
        ensures
            final(self)@ == entered_binding_scope(old(self)@, names_view(names@)),
    {
        self.push_scope();
        self.register_pat(names, false);
    }

    /// Binds the names of a `let` pattern in the innermost scope, after the
    /// initializer has been walked; `init_call_path` is the callee path when
    /// the initializer is a call of a path.
    pub fn bind_local(&mut self, names: Vec<String>, init_call_path: &Option<Vec<String>>)
        ensures
            final(self)@ == bound_local(
                old(self)@,
                names_view(names@),
                match init_call_path { Some(p) => Some(segments_view(p@)), None => None },
            ),
    {
        let as_signal = init_is_hook_call(init_call_path);
        self.register_pat(names, as_signal);
    }

    /// Closes the innermost scope, at the end of the construct that opened
    /// it.
    pub fn leave_scope(&mut self)
        ensures
            final(self)@ == popped(old(self)@),
    {
        self.pop_scope();
    }
}

/// Inside a construct that binds a name for its body, that name is not a
/// signal, whatever the enclosing scopes bind; once the construct is left,
/// every name resolves as it did before it.
pub proof fn law_binding_scope_shadows_then_is_forgotten(scopes: Seq<ScopeView>, names: Seq<Seq<char>>, name: Seq<char>)
    ensures
        names.contains(name) ==> !resolves_to_signal(entered_binding_scope(scopes, names), name),
        popped(entered_binding_scope(scopes, names)) == scopes,
{
    if names.contains(name) {
        law_plain_binding_is_not_signal(pushed(scopes), names, name);
    }
    law_closed_scope_is_forgotten(scopes, names, false, name);
    assert(popped(registered(pushed(scopes), names, false)) =~= scopes);
}

/// A `let` whose initializer calls a state hook makes its names signals for
/// the rest of the enclosing scope (unless that scope also binds them
/// plainly); any other `let` makes them ordinary bindings.
pub proof fn law_local_binding_kind(
    scopes: Seq<ScopeView>,
    names: Seq<Seq<char>>,
    init_call_path: Option<Seq<Seq<char>>>,
    name: Seq<char>,
)
    requires
        scopes.len() > 0,
        names.contains(name),
    ensures
        !binds_signals(init_call_path) ==> !resolves_to_signal(bound_local(scopes, names, init_call_path), name),
        binds_signals(init_call_path) && !scopes.last().plain.contains(name) ==> resolves_to_signal(
            bound_local(scopes, names, init_call_path),
            name,
        ),
{
    if binds_signals(init_call_path) {
        if !scopes.last().plain.contains(name) {
            crate::rewrite::scope::law_signal_binding_is_signal(scopes, names, name);
        }
    } else {
        law_plain_binding_is_not_signal(scopes, names, name);
    }
}

} // verus!
