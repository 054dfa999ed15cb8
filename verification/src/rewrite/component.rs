use vstd::prelude::*;

verus! {

/// The characters that `char::to_uppercase` yields for `c`.
pub uninterp spec fn uppercase_of(c: char) -> Seq<char>;

/// Calls `char::to_uppercase` and collects the characters it yields. The
/// result is named by `uppercase_of`; for ASCII characters the contract also
/// states the mapping itself: `a`..=`z` become `A`..=`Z` and every other ASCII
/// character has no upper-case mapping, so it stays as it is.
#[verifier::external_body]
fn uppercase(c: char) -> (r: String)
    ensures
        r@ == uppercase_of(c),
        ('a' <= c && c <= 'z') ==> r@ == seq![((c as u32) - 32) as char],
        ((c as u32) < 128 && !('a' <= c && c <= 'z')) ==> r@ == seq![c],
{
    c.to_uppercase().collect()
}

/// Calls `String::push`, which appends `c` to the end of `s`.
#[verifier::external_body]
fn push_char(s: &mut String, c: char)
    ensures
        final(s)@ == old(s)@.push(c),
{
    s.push(c)
}

/// Upper-camel-case of the rest of a snake_case name: underscores are
/// dropped, and the first character after the start or after an underscore
/// is upper-cased.
pub open spec fn camel_from(s: Seq<char>, at_start: bool) -> Seq<char>
    decreases s.len(),
{
    if s.len() == 0 {
        Seq::empty()
    } else if s[0] == '_' {
        camel_from(s.drop_first(), true)
    } else if at_start {
        uppercase_of(s[0]) + camel_from(s.drop_first(), false)
    } else {
        seq![s[0]] + camel_from(s.drop_first(), false)
    }
}

pub open spec fn camel_case(s: Seq<char>) -> Seq<char> {
    camel_from(s, true)
}

pub open spec fn is_ascii_text(s: Seq<char>) -> bool {
    forall|i: int| 0 <= i < s.len() ==> (#[trigger] s[i] as u32) < 128
}

/// The ASCII upper-case of a character: `a`..=`z` become `A`..=`Z`.
pub open spec fn ascii_upper(c: char) -> char {
    if 'a' <= c && c <= 'z' {
        ((c as u32) - 32) as char
    } else {
        c
    }
}

/// `camel_from` for ASCII text, where the upper-case mapping is the ASCII
/// one.
pub open spec fn ascii_camel_from(s: Seq<char>, at_start: bool) -> Seq<char>
    decreases s.len(),
{
    if s.len() == 0 {
        Seq::empty()
    } else if s[0] == '_' {
        ascii_camel_from(s.drop_first(), true)
    } else if at_start {
        seq![ascii_upper(s[0])] + ascii_camel_from(s.drop_first(), false)
    } else {
        seq![s[0]] + ascii_camel_from(s.drop_first(), false)
    }
}

pub open spec fn ascii_camel_case(s: Seq<char>) -> Seq<char> {
    ascii_camel_from(s, true)
}

/// Position `i` of a snake_case name starts a part: it is the first
/// character or follows an underscore.
pub open spec fn starts_part(s: Seq<char>, i: int) -> bool {
    i == 0 || s[i - 1] == '_'
}

/// What position `i` of a name contributes to its upper camel case: nothing
/// for an underscore, the upper-case of the character where a part starts,
/// and the character itself, unchanged, everywhere else.
pub open spec fn camel_piece(s: Seq<char>, i: int) -> Seq<char> {
    if s[i] == '_' {
        Seq::empty()
    } else if starts_part(s, i) {
        uppercase_of(s[i])
    } else {
        seq![s[i]]
    }
}

/// The pieces of the first `n` positions, in order.
pub open spec fn camel_pieces(s: Seq<char>, n: int) -> Seq<char>
    decreases n,
{
    if n <= 0 {
        Seq::empty()
    } else {
        camel_pieces(s, n - 1) + camel_piece(s, n - 1)
    }
}

/// The upper camel case of a name is the concatenation, position by
/// position, of what each character contributes: underscores vanish, the
/// first character of each part is upper-cased, and every other character
/// is kept exactly as it is.
pub proof fn law_camel_case_by_position(s: Seq<char>)
    ensures
        camel_case(s) == camel_pieces(s, s.len() as int),
{
    lemma_camel_suffix(s, 0);
    assert(s.skip(0) =~= s);
    assert(camel_pieces(s, 0) + camel_from(s, true) =~= camel_from(s, true));
}

proof fn lemma_camel_suffix(s: Seq<char>, k: int)
    requires
        0 <= k <= s.len(),
    ensures
        camel_pieces(s, k) + camel_from(s.skip(k), starts_part(s, k)) == camel_pieces(s, s.len() as int),
    decreases s.len() - k,
{
    if k == s.len() {
        assert(s.skip(k) =~= Seq::<char>::empty());
        assert(camel_pieces(s, k) + camel_from(s.skip(k), starts_part(s, k)) =~= camel_pieces(s, k));
    } else {
        lemma_camel_suffix(s, k + 1);
        let rest = s.skip(k);
        assert(rest[0] == s[k]);
        assert(rest.drop_first() =~= s.skip(k + 1));
        assert(starts_part(s, k + 1) == (s[k] == '_'));
        assert(camel_pieces(s, k) + camel_from(rest, starts_part(s, k)) =~= camel_pieces(s, k + 1) + camel_from(
            s.skip(k + 1),
            starts_part(s, k + 1),
        ));
    }
}

/// The ASCII form of the same law: on ASCII names the first character of
/// each part becomes its ASCII capital, underscores vanish, and every other
/// character is kept exactly as it is.
pub proof fn law_ascii_camel_case_by_position(s: Seq<char>)
    ensures
        ascii_camel_case(s) == ascii_camel_pieces(s, s.len() as int),
{
    lemma_ascii_camel_suffix(s, 0);
    assert(s.skip(0) =~= s);
    assert(ascii_camel_pieces(s, 0) + ascii_camel_from(s, true) =~= ascii_camel_from(s, true));
}

proof fn lemma_ascii_camel_suffix(s: Seq<char>, k: int)
    requires
        0 <= k <= s.len(),
    ensures
        ascii_camel_pieces(s, k) + ascii_camel_from(s.skip(k), starts_part(s, k)) == ascii_camel_pieces(s, s.len() as int),
    decreases s.len() - k,
{
    if k == s.len() {
        assert(s.skip(k) =~= Seq::<char>::empty());
        assert(ascii_camel_pieces(s, k) + ascii_camel_from(s.skip(k), starts_part(s, k)) =~= ascii_camel_pieces(s, k));
    } else {
        lemma_ascii_camel_suffix(s, k + 1);
        let rest = s.skip(k);
        assert(rest[0] == s[k]);
        assert(rest.drop_first() =~= s.skip(k + 1));
        assert(starts_part(s, k + 1) == (s[k] == '_'));
        assert(ascii_camel_pieces(s, k) + ascii_camel_from(rest, starts_part(s, k)) =~= ascii_camel_pieces(s, k + 1)
            + ascii_camel_from(s.skip(k + 1), starts_part(s, k + 1)));
    }
}

pub open spec fn ascii_camel_piece(s: Seq<char>, i: int) -> Seq<char> {
    if s[i] == '_' {
        Seq::empty()
    } else if starts_part(s, i) {
        seq![ascii_upper(s[i])]
    } else {
        seq![s[i]]
    }
}

pub open spec fn ascii_camel_pieces(s: Seq<char>, n: int) -> Seq<char>
    decreases n,
{
    if n <= 0 {
        Seq::empty()
    } else {
        ascii_camel_pieces(s, n - 1) + ascii_camel_piece(s, n - 1)
    }
}

/// The type name under which a component's `rsx!` tag resolves:
/// `greet_click` becomes `GreetClick`.
pub fn tag_alias_name(name: &str) -> (r: String)
    ensures
        r@ == camel_case(name@),
        is_ascii_text(name@) ==> r@ == ascii_camel_case(name@),
{
    let len = name.unicode_len();
    let mut out = String::new();
    let mut at_start = true;
    let mut i: usize = 0;
    assert(name@.skip(0) =~= name@);
    assert(out@ + camel_from(name@.skip(0), at_start) =~= camel_case(name@));
    assert(out@ + ascii_camel_from(name@.skip(0), at_start) =~= ascii_camel_case(name@));
    while i < len
        invariant
            i <= len,
            len == name@.len(),
            out@ + camel_from(name@.skip(i as int), at_start) == camel_case(name@),
            is_ascii_text(name@) ==> out@ + ascii_camel_from(name@.skip(i as int), at_start) == ascii_camel_case(name@),
        decreases len - i,
    {
        let c = name.get_char(i);
        let ghost rest = name@.skip(i as int);
        assert(rest[0] == c);
        assert(rest.drop_first() =~= name@.skip(i + 1));
        if c == '_' {
            at_start = true;
        } else if at_start {
            let up = uppercase(c);
            let ghost before = out@;
            out.append(up.as_str());
            assert(out@ + camel_from(name@.skip(i + 1), false) =~= before + camel_from(rest, true));
            proof {
                if is_ascii_text(name@) {
                    assert((name@[i as int] as u32) < 128);
                    assert(up@ =~= seq![ascii_upper(c)]);
                    assert(out@ + ascii_camel_from(name@.skip(i + 1), false) =~= before + ascii_camel_from(rest, true));
                }
            }
            at_start = false;
        } else {
            let ghost before = out@;
            push_char(&mut out, c);
            assert(out@ + camel_from(name@.skip(i + 1), false) =~= before + camel_from(rest, false));
            assert(out@ + ascii_camel_from(name@.skip(i + 1), false) =~= before + ascii_camel_from(rest, false));
        }
        i += 1;
    }
    assert(name@.skip(len as int) =~= Seq::<char>::empty());
    assert(out@ + camel_from(name@.skip(len as int), at_start) =~= out@);
    assert(out@ + ascii_camel_from(name@.skip(len as int), at_start) =~= out@);
    out
}

/// The name of a component's props builder: `greet_click` becomes
/// `GreetClickProps`.
pub fn props_type_name(name: &str) -> (r: String)
    ensures
        r@ == camel_case(name@) + "Props"@,
        is_ascii_text(name@) ==> r@ == ascii_camel_case(name@) + "Props"@,
{
    let mut out = tag_alias_name(name);
    out.append("Props");
    out
}

/// One parameter of a component function, as the props builder sees it.
#[derive(Debug, PartialEq, Eq)]
pub enum PropArg {
    /// A typed parameter bound to a plain identifier.
    Ident(String),
    /// A typed parameter with a destructuring pattern.
    Pattern,
    /// A `self` receiver.
    Receiver,
}

#[derive(Clone, Copy, PartialEq, Eq, Debug, Structural)]
pub enum PropErrorKind {
    Pattern,
    Receiver,
}

/// Why a component function cannot become a props builder, and at which
/// parameter.
#[derive(Clone, Copy, PartialEq, Eq, Debug, Structural)]
pub struct PropError {
    pub kind: PropErrorKind,
    pub position: usize,
}

pub open spec fn prop_error_text(kind: PropErrorKind) -> Seq<char> {
    match kind {
        PropErrorKind::Pattern => "component props must be plain identifiers: `count: u32`, not destructuring patterns like `(a, b): (u32, u32)`"@,
        PropErrorKind::Receiver => "methods (self) are not supported in components"@,
    }
}

impl PropError {
    /// The compile error text for this error.
    pub fn message(&self) -> (r: String)
        ensures
            r@ == prop_error_text(self.kind),
    {
        match self.kind {
            PropErrorKind::Pattern => String::from_str(
                "component props must be plain identifiers: `count: u32`, not destructuring patterns like `(a, b): (u32, u32)`",
            ),
            PropErrorKind::Receiver => String::from_str("methods (self) are not supported in components"),
        }
    }
}

pub open spec fn prop_name(a: PropArg) -> Seq<char> {
    match a {
        PropArg::Ident(s) => s@,
        _ => Seq::empty(),
    }
}

pub open spec fn prop_error_kind(a: PropArg) -> PropErrorKind {
    match a {
        PropArg::Receiver => PropErrorKind::Receiver,
        _ => PropErrorKind::Pattern,
    }
}

/// The prop names of a component function, in declaration order; the first
/// parameter that is not a plain identifier is an error.
pub fn collect_props(args: &Vec<PropArg>) -> (r: Result<Vec<String>, PropError>)
    ensures
        r is Ok <==> (forall|i: int| 0 <= i < args@.len() ==> #[trigger] args@[i] is Ident),
        r matches Ok(names) ==> names@.map_values(|s: String| s@) == args@.map_values(|a: PropArg| prop_name(a)),
        r matches Err(e) ==> {
            &&& (e.position as int) < args@.len()
            &&& !(args@[e.position as int] is Ident)
            &&& e.kind == prop_error_kind(args@[e.position as int])
            &&& forall|j: int| 0 <= j < e.position ==> #[trigger] args@[j] is Ident
        },
{
    let mut names: Vec<String> = Vec::new();
    let mut i: usize = 0;
    while i < args.len()
        invariant
            i <= args.len(),
            names@.len() == i,
            forall|j: int| 0 <= j < i ==> #[trigger] args@[j] is Ident,
            forall|j: int| 0 <= j < i ==> #[trigger] names@[j]@ == prop_name(args@[j]),
        decreases args.len() - i,
    {
        match &args[i] {
            PropArg::Ident(name) => {
                names.push(name.clone());
            },
            PropArg::Pattern => {
                return Err(PropError { kind: PropErrorKind::Pattern, position: i });
            },
            PropArg::Receiver => {
                return Err(PropError { kind: PropErrorKind::Receiver, position: i });
            },
        }
        i += 1;
    }
    assert(names@.map_values(|s: String| s@) =~= args@.map_values(|a: PropArg| prop_name(a)));
    Ok(names)
}

pub open spec fn missing_prop_text(prop: Seq<char>, component: Seq<char>) -> Seq<char> {
    "missing required prop `"@ + prop + "` for component `"@ + component + "` (rsx tag `<"@ + component + " ...>`)"@
}

/// The panic message of a props builder rendered without a required prop.
pub fn missing_prop_message(prop: &str, component: &str) -> (r: String)
    ensures
        r@ == missing_prop_text(prop@, component@),
{
    let mut out = String::from_str("missing required prop `");
    out.append(prop);
    out.append("` for component `");
    out.append(component);
    out.append("` (rsx tag `<");
    out.append(component);
    out.append(" ...>`)");
    out
}

} // verus!
