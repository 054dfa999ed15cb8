use vstd::prelude::*;
use crate::rewrite::scope::{InjectCx, resolves_to_signal};

verus! {

/// The groups of hooks that the rewriting knows by name.
#[derive(Clone, Copy, PartialEq, Eq, Debug, Structural)]
pub enum HookGroup {
    /// Hooks whose call receives `window` and `cx` or `cx` itself
    /// (`use_state`, `use_effect`).
    Skip,
    /// Hooks whose closure argument takes `cx` (`use_callback`, `use_event`).
    ClosureCx,
    /// Hooks that spawn an async closure (`use_async`).
    AsyncCx,
}

pub open spec fn hook_names(group: HookGroup) -> Seq<Seq<char>> {
    match group {
        HookGroup::Skip => seq!["use_state"@, "use_effect"@],
        HookGroup::ClosureCx => seq!["use_callback"@, "use_event"@],
        HookGroup::AsyncCx => seq!["use_async"@],
    }
}

/// A path names a hook of the group: its last segment is one of the group's
/// names, and it is either that name alone or starts at the `zopra` crate.
pub open spec fn names_hook(path: Seq<Seq<char>>, group: HookGroup) -> bool {
    &&& path.len() > 0
    &&& hook_names(group).contains(path.last())
    &&& (path.len() == 1 || path[0] == "zopra"@)
}

pub open spec fn segments_view(path: Seq<String>) -> Seq<Seq<char>> {
    path.map_values(|s: String| s@)
}

/// The arguments of a call as the completion sees them: an argument that is
/// exactly a single identifier is given by that identifier, any other
/// argument (a qualified path, a field, a closure, ...) by `None`.
pub open spec fn args_view(args: Seq<Option<String>>) -> Seq<Option<Seq<char>>> {
    args.map_values(|a: Option<String>| match a { Some(s) => Some(s@), None => None })
}

/// An argument that is exactly the identifier `name`.
pub open spec fn is_bare(arg: Option<Seq<char>>, name: Seq<char>) -> bool {
    arg == Some(name)
}

fn same_text(s: &String, lit: &str) -> (b: bool)
    ensures
        b == (s@ == lit@),
{
    let t = String::from_str(lit);
    *s == t
}

/// Whether the call path refers to a hook of the group.
pub fn is_hook_path(path: &Vec<String>, group: HookGroup) -> (b: bool)
    ensures
        b == names_hook(segments_view(path@), group),
{
    let n = path.len();
    if n == 0 {
        return false;
    }
    let last = &path[n - 1];
    let ghost names = hook_names(group);
    let listed = match group {
        HookGroup::Skip => same_text(last, "use_state") || same_text(last, "use_effect"),
        HookGroup::ClosureCx => same_text(last, "use_callback") || same_text(last, "use_event"),
        HookGroup::AsyncCx => same_text(last, "use_async"),
    };
    proof {
        let v = segments_view(path@);
        assert(v.last() == last@);
        if listed {
            if last@ == names[0] {
                assert(names.contains(v.last()));
            } else if group != HookGroup::AsyncCx {
                assert(names[1] == last@);
                assert(names.contains(v.last()));
            }
        } else {
            if names.contains(v.last()) {
                let j = choose|j: int| 0 <= j < names.len() && names[j] == v.last();
                assert(false);
            }
        }
    }
    if !listed {
        return false;
    }
    n == 1 || same_text(&path[0], "zopra")
}

/// Whether an argument is exactly the identifier `name`; `arg` is the
/// identifier the argument is, when it is a single identifier.
pub fn is_bare_ident(arg: &Option<String>, name: &str) -> (b: bool)
    ensures
        b == is_bare(match arg { Some(s) => Some(s@), None => None }, name@),
{
    match arg {
        Some(s) => same_text(s, name),
        None => false,
    }
}

/// How a call in a component body is to be completed: which trailing
/// arguments are appended, and whether `cx` is added to the parameters of
/// its closure argument.
#[derive(Clone, Copy, PartialEq, Eq, Debug, Structural)]
pub struct CallEdit {
    pub push_window: bool,
    pub push_cx: bool,
    pub inject_closure_cx: bool,
}

/// Calls of hooks and of signals get the ambient `cx` as their last
/// argument (and `use_state` also `window` before it) unless the arguments
/// already end that way; a closure passed last to `use_event` also gets `cx`
/// among its own parameters, as the documented `use_event(&counter, |event|
/// ..)` needs. Other calls are left alone.
pub open spec fn call_edit(
    scopes: Seq<crate::rewrite::scope::ScopeView>,
    path: Seq<Seq<char>>,
    args: Seq<Option<Seq<char>>>,
    last_is_closure: bool,
) -> CallEdit {
    let name = if path.len() > 0 { path.last() } else { Seq::empty() };
    let hook = names_hook(path, HookGroup::Skip) || names_hook(path, HookGroup::ClosureCx) || names_hook(path, HookGroup::AsyncCx);
    if hook || resolves_to_signal(scopes, name) {
        let ends_with_window_cx = args.len() >= 2 && is_bare(args.last(), "cx"@) && is_bare(args[args.len() - 2], "window"@);
        let push_window = name == "use_state"@ && !ends_with_window_cx;
        CallEdit {
            push_window,
            push_cx: push_window || !(args.len() > 0 && is_bare(args.last(), "cx"@)),
            inject_closure_cx: last_is_closure && names_event_hook(path),
        }
    } else {
        CallEdit { push_window: false, push_cx: false, inject_closure_cx: false }
    }
}

/// The path names the `use_event` hook.
pub open spec fn names_event_hook(path: Seq<Seq<char>>) -> bool {
    names_hook(path, HookGroup::ClosureCx) && path.last() == "use_event"@
}

/// The argument list after a completion is applied.
pub open spec fn applied(args: Seq<Option<Seq<char>>>, edit: CallEdit) -> Seq<Option<Seq<char>>> {
    let with_window = if edit.push_window { args.push(Some("window"@)) } else { args };
    if edit.push_cx { with_window.push(Some("cx"@)) } else { with_window }
}

pub open spec fn is_completed_call(scopes: Seq<crate::rewrite::scope::ScopeView>, path: Seq<Seq<char>>) -> bool {
    let name = if path.len() > 0 { path.last() } else { Seq::empty() };
    names_hook(path, HookGroup::Skip) || names_hook(path, HookGroup::ClosureCx) || names_hook(path, HookGroup::AsyncCx)
        || resolves_to_signal(scopes, name)
}

/// A completed call of a hook or a signal ends with `cx`, and a completed
/// `use_state` call ends with `window, cx`.
pub proof fn law_completed_call_ends_with_cx(
    scopes: Seq<crate::rewrite::scope::ScopeView>,
    path: Seq<Seq<char>>,
    args: Seq<Option<Seq<char>>>,
    last_is_closure: bool,
)
    requires
        is_completed_call(scopes, path),
    ensures
        ({
            let out = applied(args, call_edit(scopes, path, args, last_is_closure));
            &&& out.len() > 0
            &&& out.last() == Some("cx"@)
            &&& (path.len() > 0 && path.last() == "use_state"@) ==> out.len() >= 2 && out[out.len() - 2] == Some("window"@)
        }),
{
}

/// Completing a call that was already completed changes nothing: after the
/// completion its last argument is the identifier `cx` (no closure), and
/// nothing more is appended. A closure argument is never a bare identifier.
pub proof fn law_completion_is_idempotent(
    scopes: Seq<crate::rewrite::scope::ScopeView>,
    path: Seq<Seq<char>>,
    args: Seq<Option<Seq<char>>>,
    last_is_closure: bool,
)
    requires
        last_is_closure ==> args.len() > 0 && args.last() is None,
    ensures
        ({
            let out = applied(args, call_edit(scopes, path, args, last_is_closure));
            let again = call_edit(scopes, path, out, out.len() > 0 && out.last() is None && last_is_closure);
            !again.push_window && !again.push_cx && !again.inject_closure_cx
        }),
{
}

/// A closure passed as the last argument of `use_event` is given a `cx`
/// parameter, besides the trailing `cx` argument of the call.
pub proof fn law_event_closure_gets_cx_param(
    scopes: Seq<crate::rewrite::scope::ScopeView>,
    path: Seq<Seq<char>>,
    args: Seq<Option<Seq<char>>>,
)
    requires
        names_event_hook(path),
        args.len() > 0 && args.last() is None,
    ensures
        call_edit(scopes, path, args, true).inject_closure_cx,
        call_edit(scopes, path, args, true).push_cx,
{
}

/// Only the closure argument of `use_event` is completed.
pub proof fn law_only_event_closures_get_cx_param(
    scopes: Seq<crate::rewrite::scope::ScopeView>,
    path: Seq<Seq<char>>,
    args: Seq<Option<Seq<char>>>,
    last_is_closure: bool,
)
    ensures
        call_edit(scopes, path, args, last_is_closure).inject_closure_cx ==> last_is_closure && names_event_hook(path),
{
}

/// Whether a closure whose parameters are given (the name of each
/// identifier parameter) still needs a `cx` parameter.
pub open spec fn lacks_cx_param(params: Seq<Option<Seq<char>>>) -> bool {
    !params.contains(Some("cx"@))
}

/// A `let` whose initializer is a call of a path that names one of the
/// state hooks binds signals.
pub open spec fn binds_signals(init_call_path: Option<Seq<Seq<char>>>) -> bool {
    init_call_path matches Some(path) && names_hook(path, HookGroup::Skip)
}

impl InjectCx {
    /// The completion of a call whose callee is the path `path` and whose
    /// arguments are `args` (for each argument the identifier it is exactly,
    /// if any); `last_is_closure` tells whether the last argument is a
    /// closure.
    pub fn edit_for_call(&self, path: &Vec<String>, args: &Vec<Option<String>>, last_is_closure: bool) -> (edit: CallEdit)
        ensures
            edit == call_edit(self@, segments_view(path@), args_view(args@), last_is_closure),
    {
        let ghost pv = segments_view(path@);
        let ghost av = args_view(args@);
        let n = path.len();
        let is_hook = is_hook_path(path, HookGroup::Skip) || is_hook_path(path, HookGroup::ClosureCx)
            || is_hook_path(path, HookGroup::AsyncCx);
        let named_signal = if n > 0 { self.is_signal(path[n - 1].as_str()) } else { self.is_signal("") };
        proof {
            if n > 0 {
                assert(pv.last() == path@[n - 1]@);
            } else {
                assert(""@ =~= Seq::<char>::empty()) by {
                    reveal_strlit("");
                }
            }
        }
        if is_hook || named_signal {
            let m = args.len();
            let ends_with_window_cx = m >= 2 && is_bare_ident(&args[m - 1], "cx") && is_bare_ident(&args[m - 2], "window");
            let push_window = n > 0 && same_text(&path[n - 1], "use_state") && !ends_with_window_cx;
            proof {
                if m >= 2 {
                    assert(av.last() == (match args@[m - 1] { Some(s) => Some(s@), None => None }));
                    assert(av[m - 2] == (match args@[m - 2] { Some(s) => Some(s@), None => None }));
                }
                if n == 0 {
                    reveal_strlit("use_state");
                    assert("use_state"@.len() > 0);
                }
            }
            let ends_with_cx = m > 0 && is_bare_ident(&args[m - 1], "cx");
            proof {
                if m > 0 {
                    assert(av.last() == (match args@[m - 1] { Some(s) => Some(s@), None => None }));
                }
            }
            let wants = last_is_closure && is_hook_path(path, HookGroup::ClosureCx) && same_text(&path[n - 1], "use_event");
            CallEdit { push_window, push_cx: push_window || !ends_with_cx, inject_closure_cx: wants }
        } else {
            CallEdit { push_window: false, push_cx: false, inject_closure_cx: false }
        }
    }
}

/// Whether `cx` must be added to the parameters of a closure; each
/// parameter is given by its name when it is a plain identifier.
pub fn needs_cx_param(params: &Vec<Option<String>>) -> (b: bool)
    ensures
        b == lacks_cx_param(args_view(params@)),
{
    let ghost pv = args_view(params@);
    let mut i: usize = 0;
    while i < params.len()
        invariant
            i <= params.len(),
            pv == args_view(params@),
            forall|j: int| 0 <= j < i ==> pv[j] != Some("cx"@),
        decreases params.len() - i,
    {
        if is_bare_ident(&params[i], "cx") {
            assert(pv[i as int] == Some("cx"@));
            return false;
        }
        i += 1;
    }
    proof {
        if pv.contains(Some("cx"@)) {
            let j = choose|j: int| 0 <= j < pv.len() && pv[j] == Some("cx"@);
            assert(false);
        }
    }
    true
}

/// A macro invocation is a `signals!` declaration when the last segment of
/// its path is `signals`.
pub open spec fn names_signals_macro(path: Seq<Seq<char>>) -> bool {
    path.len() > 0 && path.last() == "signals"@
}

/// Whether the macro invocation with the path `path` declares signal names.
pub fn is_signals_macro(path: &Vec<String>) -> (b: bool)
    ensures
        b == names_signals_macro(segments_view(path@)),
{
    let n = path.len();
    if n == 0 {
        return false;
    }
    assert(segments_view(path@).last() == path@[n - 1]@);
    same_text(&path[n - 1], "signals")
}

/// Whether a `let` binds signals: `init_call_path` is the callee path when
/// the initializer is a call of a path.
pub fn init_is_hook_call(init_call_path: &Option<Vec<String>>) -> (b: bool)
    ensures
        b == binds_signals(match init_call_path { Some(p) => Some(segments_view(p@)), None => None }),
{
    match init_call_path {
        Some(path) => is_hook_path(path, HookGroup::Skip),
        None => false,
    }
}

} // verus!
