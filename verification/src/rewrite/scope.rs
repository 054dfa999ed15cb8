use vstd::prelude::*;

verus! {

/// The names bound in one lexical scope of a component body, split into
/// signal getters/setters and ordinary bindings.
pub struct Scope {
    signals: Vec<String>,
    plain: Vec<String>,
}

/// What a scope holds, as sequences of names.
pub struct ScopeView {
    pub signals: Seq<Seq<char>>,
    pub plain: Seq<Seq<char>>,
}

pub open spec fn names_view(names: Seq<String>) -> Seq<Seq<char>> {
    names.map_values(|s: String| s@)
}

impl View for Scope {
    type V = ScopeView;

    closed spec fn view(&self) -> ScopeView {
        ScopeView { signals: names_view(self.signals@), plain: names_view(self.plain@) }
    }
}

pub open spec fn empty_scope() -> ScopeView {
    ScopeView { signals: Seq::empty(), plain: Seq::empty() }
}

/// How a name resolves against a stack of scopes, innermost last: the
/// innermost scope that binds it decides, and within one scope an ordinary
/// binding hides a signal of the same name.
pub open spec fn resolves_to_signal(scopes: Seq<ScopeView>, name: Seq<char>) -> bool
    decreases scopes.len(),
{
    if scopes.len() == 0 {
        false
    } else if scopes.last().plain.contains(name) {
        false
    } else if scopes.last().signals.contains(name) {
        true
    } else {
        resolves_to_signal(scopes.drop_last(), name)
    }
}

pub open spec fn pushed(scopes: Seq<ScopeView>) -> Seq<ScopeView> {
    scopes.push(empty_scope())
}

pub open spec fn popped(scopes: Seq<ScopeView>) -> Seq<ScopeView> {
    if scopes.len() > 0 {
        scopes.drop_last()
    } else {
        scopes
    }
}

/// The scopes after the names are bound in the innermost scope, as signals or
/// as ordinary bindings; with no scope open nothing changes.
pub open spec fn registered(scopes: Seq<ScopeView>, names: Seq<Seq<char>>, as_signal: bool) -> Seq<ScopeView> {
    if scopes.len() == 0 {
        scopes
    } else {
        let inner = scopes.last();
        scopes.update(
            scopes.len() - 1,
            if as_signal {
                ScopeView { signals: inner.signals + names, plain: inner.plain }
            } else {
                ScopeView { signals: inner.signals, plain: inner.plain + names }
            },
        )
    }
}

/// Closing a scope right after opening it gives back the scopes as they were.
pub proof fn law_pop_undoes_push(scopes: Seq<ScopeView>)
    ensures
        popped(pushed(scopes)) == scopes,
{
    assert(popped(pushed(scopes)) =~= scopes);
}

/// Names bound as ordinary bindings never resolve to signals while their
/// scope is open.
pub proof fn law_plain_binding_is_not_signal(scopes: Seq<ScopeView>, names: Seq<Seq<char>>, name: Seq<char>)
    requires
        scopes.len() > 0,
        names.contains(name),
    ensures
        !resolves_to_signal(registered(scopes, names, false), name),
{
    let r = registered(scopes, names, false);
    let j = choose|j: int| 0 <= j < names.len() && names[j] == name;
    assert(r.last().plain[scopes.last().plain.len() + j] == name);
}

/// Names bound as signals resolve to signals while their scope is open,
/// unless the same scope also binds them as ordinary bindings.
pub proof fn law_signal_binding_is_signal(scopes: Seq<ScopeView>, names: Seq<Seq<char>>, name: Seq<char>)
    requires
        scopes.len() > 0,
        names.contains(name),
        !scopes.last().plain.contains(name),
    ensures
        resolves_to_signal(registered(scopes, names, true), name),
{
    let r = registered(scopes, names, true);
    let j = choose|j: int| 0 <= j < names.len() && names[j] == name;
    assert(r.last().signals[scopes.last().signals.len() + j] == name);
    assert(r.last().plain == scopes.last().plain);
}

/// Binding names leaves the resolution of every other name unchanged.
pub proof fn law_binding_leaves_other_names(scopes: Seq<ScopeView>, names: Seq<Seq<char>>, as_signal: bool, name: Seq<char>)
    requires
        !names.contains(name),
    ensures
        resolves_to_signal(registered(scopes, names, as_signal), name) == resolves_to_signal(scopes, name),
{
    if scopes.len() > 0 {
        let r = registered(scopes, names, as_signal);
        let inner = scopes.last();
        assert(r.drop_last() =~= scopes.drop_last());
        if as_signal {
            assert(r.last().signals.contains(name) ==> inner.signals.contains(name)) by {
                if r.last().signals.contains(name) {
                    let j = choose|j: int| 0 <= j < r.last().signals.len() && r.last().signals[j] == name;
                    if j >= inner.signals.len() {
                        assert(names[j - inner.signals.len()] == name);
                    }
                }
            }
            assert(inner.signals.contains(name) ==> r.last().signals.contains(name)) by {
                if inner.signals.contains(name) {
                    let j = choose|j: int| 0 <= j < inner.signals.len() && inner.signals[j] == name;
                    assert(r.last().signals[j] == name);
                }
            }
        } else {
            assert(r.last().plain.contains(name) ==> inner.plain.contains(name)) by {
                if r.last().plain.contains(name) {
                    let j = choose|j: int| 0 <= j < r.last().plain.len() && r.last().plain[j] == name;
                    if j >= inner.plain.len() {
                        assert(names[j - inner.plain.len()] == name);
                    }
                }
            }
            assert(inner.plain.contains(name) ==> r.last().plain.contains(name)) by {
                if inner.plain.contains(name) {
                    let j = choose|j: int| 0 <= j < inner.plain.len() && inner.plain[j] == name;
                    assert(r.last().plain[j] == name);
                }
            }
        }
    }
}

/// Opening a scope, binding names in it and closing it again leaves the
/// resolution of every name as it was.
pub proof fn law_closed_scope_is_forgotten(scopes: Seq<ScopeView>, names: Seq<Seq<char>>, as_signal: bool, name: Seq<char>)
    ensures
        resolves_to_signal(popped(registered(pushed(scopes), names, as_signal)), name) == resolves_to_signal(scopes, name),
{
    assert(popped(registered(pushed(scopes), names, as_signal)) =~= scopes);
}

/// A name bound as an ordinary binding in an inner scope hides a signal of
/// the same name in any outer scope.
pub proof fn law_inner_binding_shadows(scopes: Seq<ScopeView>, name: Seq<char>)
    ensures
        !resolves_to_signal(registered(pushed(scopes), seq![name], false), name),
{
    assert(seq![name][0] == name);
    law_plain_binding_is_not_signal(pushed(scopes), seq![name], name);
}

/// The scopes after several batches of names are bound in turn, each batch
/// as signals or as ordinary bindings.
pub open spec fn registered_all(scopes: Seq<ScopeView>, batches: Seq<(Seq<Seq<char>>, bool)>) -> Seq<ScopeView>
    decreases batches.len(),
{
    if batches.len() == 0 {
        scopes
    } else {
        registered(registered_all(scopes, batches.drop_last()), batches.last().0, batches.last().1)
    }
}

proof fn lemma_bindings_stay_innermost(scopes: Seq<ScopeView>, batches: Seq<(Seq<Seq<char>>, bool)>)
    requires
        scopes.len() > 0,
    ensures
        registered_all(scopes, batches).len() == scopes.len(),
        registered_all(scopes, batches).drop_last() == scopes.drop_last(),
    decreases batches.len(),
{
    if batches.len() > 0 {
        lemma_bindings_stay_innermost(scopes, batches.drop_last());
        let r = registered_all(scopes, batches.drop_last());
        assert(registered(r, batches.last().0, batches.last().1).drop_last() =~= r.drop_last());
    }
}

/// Opening a scope, binding any number of batches of names in it, and
/// closing it gives back the scopes as they were.
pub proof fn law_pop_forgets_all_bindings(scopes: Seq<ScopeView>, batches: Seq<(Seq<Seq<char>>, bool)>)
    ensures
        popped(registered_all(pushed(scopes), batches)) == scopes,
{
    lemma_bindings_stay_innermost(pushed(scopes), batches);
    assert(pushed(scopes).drop_last() =~= scopes);
}

/// The scope binds the name, as a signal or as an ordinary binding.
pub open spec fn binds(scope: ScopeView, name: Seq<char>) -> bool {
    scope.signals.contains(name) || scope.plain.contains(name)
}

/// A scope that does not bind a name is transparent for it: the name
/// resolves exactly as it does without that scope, ordinary bindings of
/// enclosing scopes still hiding outer signals.
pub proof fn law_unbinding_scope_is_transparent(scopes: Seq<ScopeView>, scope: ScopeView, name: Seq<char>)
    requires
        !binds(scope, name),
    ensures
        resolves_to_signal(scopes.push(scope), name) == resolves_to_signal(scopes, name),
{
    assert(scopes.push(scope).drop_last() =~= scopes);
}

/// A name resolves to a signal exactly when some scope binds it as a
/// signal and not as an ordinary binding, and no scope inside that one
/// binds it at all.
pub proof fn law_signal_resolution_characterized(scopes: Seq<ScopeView>, name: Seq<char>)
    ensures
        resolves_to_signal(scopes, name) <==> exists|i: int|
            0 <= i < scopes.len() && (#[trigger] scopes[i]).signals.contains(name) && !scopes[i].plain.contains(name)
                && forall|j: int| i < j < scopes.len() ==> !binds(#[trigger] scopes[j], name),
    decreases scopes.len(),
{
    if scopes.len() > 0 {
        let n = scopes.len() - 1;
        let outer = scopes.drop_last();
        law_signal_resolution_characterized(outer, name);
        assert(scopes[n] == scopes.last());
        if scopes.last().plain.contains(name) {
            assert forall|i: int| !(0 <= i < scopes.len() && (#[trigger] scopes[i]).signals.contains(name)
                && !scopes[i].plain.contains(name) && forall|j: int| i < j < scopes.len() ==> !binds(#[trigger] scopes[j], name)) by {
                if 0 <= i < n {
                    if forall|j: int| i < j < scopes.len() ==> !binds(#[trigger] scopes[j], name) {
                        assert(!binds(scopes[n], name));
                    }
                }
            }
        } else if scopes.last().signals.contains(name) {
            assert(forall|j: int| n < j < scopes.len() ==> !binds(#[trigger] scopes[j], name));
        } else {
            assert(!binds(scopes[n], name));
            if resolves_to_signal(outer, name) {
                let i = choose|i: int|
                    0 <= i < outer.len() && (#[trigger] outer[i]).signals.contains(name) && !outer[i].plain.contains(name)
                        && forall|j: int| i < j < outer.len() ==> !binds(#[trigger] outer[j], name);
                assert(scopes[i] == outer[i]);
                assert forall|j: int| i < j < scopes.len() implies !binds(#[trigger] scopes[j], name) by {
                    if j < n {
                        assert(scopes[j] == outer[j]);
                    }
                }
            }
            assert forall|i: int| 0 <= i < scopes.len() && (#[trigger] scopes[i]).signals.contains(name) && !scopes[i].plain.contains(name)
                && (forall|j: int| i < j < scopes.len() ==> !binds(#[trigger] scopes[j], name)) implies resolves_to_signal(outer, name) by {
                assert(i < n);
                assert(outer[i] == scopes[i]);
                assert forall|j: int| i < j < outer.len() implies !binds(#[trigger] outer[j], name) by {
                    assert(outer[j] == scopes[j]);
                }
            }
        }
    }
}

/// Whether the name equals one of the names.
fn contains_name(names: &Vec<String>, name: &String) -> (found: bool)
    ensures
        found == names_view(names@).contains(name@),
{
    let mut i: usize = 0;
    while i < names.len()
        invariant
            i <= names.len(),
            forall|j: int| 0 <= j < i ==> names@[j]@ != name@,
        decreases names.len() - i,
    {
        if names[i] == *name {
            assert(names_view(names@)[i as int] == name@);
            return true;
        }
        i += 1;
    }
    proof {
        if names_view(names@).contains(name@) {
            let j = choose|j: int| 0 <= j < names_view(names@).len() && names_view(names@)[j] == name@;
            assert(names@[j]@ == name@);
        }
    }
    false
}

/// The scope stack of the rewriting pass over a component body.
pub struct InjectCx {
    scopes: Vec<Scope>,
}

impl View for InjectCx {
    type V = Seq<ScopeView>;

    closed spec fn view(&self) -> Seq<ScopeView> {
        self.scopes@.map_values(|s: Scope| s@)
    }
}

impl Default for InjectCx {
    fn default() -> (cx: Self)
        ensures
            cx@ == Seq::<ScopeView>::empty(),
    {
        let cx = InjectCx { scopes: Vec::new() };
        assert(cx@ =~= Seq::<ScopeView>::empty());
        cx
    }
}

impl InjectCx {
    /// Opens a new innermost scope with nothing bound in it.
    pub fn push_scope(&mut self)
        ensures
            final(self)@ == pushed(old(self)@),
    {
        let scope = Scope { signals: Vec::new(), plain: Vec::new() };
        assert(scope@.signals =~= Seq::<Seq<char>>::empty());
        assert(scope@.plain =~= Seq::<Seq<char>>::empty());
        self.scopes.push(scope);
        assert(self@ =~= pushed(old(self)@));
    }

    /// Closes the innermost scope, if any.
    pub fn pop_scope(&mut self)
        ensures
            final(self)@ == popped(old(self)@),
    {
        let _ = self.scopes.pop();
        assert(self@ =~= popped(old(self)@));
    }

    /// Whether `name` refers to a signal at this point of the body.
    pub fn is_signal(&self, name: &str) -> (found: bool)
        ensures
            found == resolves_to_signal(self@, name@),
    {
        let key = String::from_str(name);
        assert(key@ == name@);
        let mut i: usize = self.scopes.len();
        assert(self@.take(i as int) =~= self@);
        while i > 0
            invariant
                i <= self.scopes.len(),
                key@ == name@,
                resolves_to_signal(self@, name@) == resolves_to_signal(self@.take(i as int), name@),
            decreases i,
        {
            let scope = &self.scopes[i - 1];
            assert(self@.take(i as int).last() == scope@);
            assert(self@.take(i as int).drop_last() =~= self@.take(i - 1));
            if contains_name(&scope.plain, &key) {
                return false;
            }
            if contains_name(&scope.signals, &key) {
                return true;
            }
            i -= 1;
        }
        false
    }

    /// Binds the names collected from a pattern in the innermost scope, as
    /// signals or as ordinary bindings.
    pub fn register_pat(&mut self, names: Vec<String>, as_signal: bool)
        ensures
            final(self)@ == registered(old(self)@, names_view(names@), as_signal),
    {
        let n = self.scopes.len();
        if n == 0 {
            return;
        }
        let ghost old_view = self@;
        let mut scope = self.scopes.pop().unwrap();
        let rest = names;
        let mut i: usize = 0;
        let len = rest.len();
        while i < len
            invariant
                i <= len,
                len == rest.len(),
                (if as_signal { scope.signals@ } else { scope.plain@ }) == (if as_signal { old(self).scopes@[n - 1].signals@ } else { old(self).scopes@[n - 1].plain@ }) + rest@.take(i as int),
                (if as_signal { scope.plain@ } else { scope.signals@ }) == (if as_signal { old(self).scopes@[n - 1].plain@ } else { old(self).scopes@[n - 1].signals@ }),
            decreases len - i,
        {
            let name = rest[i].clone();
            if as_signal {
                scope.signals.push(name);
            } else {
                scope.plain.push(name);
            }
            assert(rest@.take(i + 1) =~= rest@.take(i as int).push(rest@[i as int]));
            i += 1;
        }
        assert(rest@.take(len as int) =~= rest@);
        self.scopes.push(scope);
        proof {
            let expected = registered(old_view, names_view(names@), as_signal);
            assert(names_view(old(self).scopes@[n - 1].signals@ + names@) =~= names_view(old(self).scopes@[n - 1].signals@) + names_view(names@));
            assert(names_view(old(self).scopes@[n - 1].plain@ + names@) =~= names_view(old(self).scopes@[n - 1].plain@) + names_view(names@));
            assert(self@ =~= expected);
        }
    }
}

} // verus!
