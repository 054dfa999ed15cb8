pub mod arena;

use vstd::prelude::*;

verus! {

/// A value that may contribute a Tailwind class string to a class list.
pub trait ClassInput: Sized {
    /// The class text this value contributes, if any.
    spec fn class_text(&self) -> Option<Seq<char>>;

    /// The class text as a string; an input never contributes an empty
    /// string.
    fn into_class_string(self) -> (r: Option<String>)
        ensures
            r matches Some(s) ==> self.class_text() == Some(s@) && s@.len() > 0,
            r is None ==> self.class_text() is None,
    ;
}

impl<'a> ClassInput for &'a str {
    open spec fn class_text(&self) -> Option<Seq<char>> {
        if (*self)@.len() == 0 {
            None
        } else {
            Some((*self)@)
        }
    }

    fn into_class_string(self) -> (r: Option<String>) {
        if self.is_empty() {
            None
        } else {
            Some(self.to_owned())
        }
    }
}

impl ClassInput for String {
    open spec fn class_text(&self) -> Option<Seq<char>> {
        if self@.len() == 0 {
            None
        } else {
            Some(self@)
        }
    }

    fn into_class_string(self) -> (r: Option<String>) {
        if self.as_str().is_empty() {
            None
        } else {
            Some(self)
        }
    }
}

impl<T: ClassInput> ClassInput for Option<T> {
    open spec fn class_text(&self) -> Option<Seq<char>> {
        match self {
            Some(t) => t.class_text(),
            None => None,
        }
    }

    fn into_class_string(self) -> (r: Option<String>) {
        match self {
            Some(t) => t.into_class_string(),
            None => None,
        }
    }
}

pub open spec fn parts_view(parts: Seq<Option<String>>) -> Seq<Option<Seq<char>>> {
    parts.map_values(|p: Option<String>| match p { Some(s) => Some(s@), None => None })
}

/// The classes of the present parts, in order, separated by single spaces;
/// a part is appended without a separator while the text so far is empty.
pub open spec fn joined_classes(parts: Seq<Option<Seq<char>>>) -> Seq<char>
    decreases parts.len(),
{
    if parts.len() == 0 {
        Seq::empty()
    } else {
        let before = joined_classes(parts.drop_last());
        match parts.last() {
            None => before,
            Some(c) => if before.len() == 0 {
                c
            } else {
                before + seq![' '] + c
            },
        }
    }
}

/// Joins the class strings of the present parts with single spaces.
pub fn join_classes(parts: &Vec<Option<String>>) -> (r: String)
    ensures
        r@ == joined_classes(parts_view(parts@)),
{
    let ghost pv = parts_view(parts@);
    let mut classes = String::new();
    let mut i: usize = 0;
    while i < parts.len()
        invariant
            i <= parts.len(),
            pv == parts_view(parts@),
            classes@ == joined_classes(pv.take(i as int)),
        decreases parts.len() - i,
    {
        assert(pv.take(i + 1).drop_last() =~= pv.take(i as int));
        match &parts[i] {
            Some(c) => {
                if !classes.as_str().is_empty() {
                    classes.append(" ");
                }
                classes.append(c.as_str());
            },
            None => {},
        }
        proof {
            reveal_strlit(" ");
        }
        assert(classes@ =~= joined_classes(pv.take(i + 1)));
        i += 1;
    }
    assert(pv.take(parts.len() as int) =~= pv);
    classes
}

/// A printable, non-space ASCII character (`!` to `~`); such a character is
/// never white space, so it never separates two classes.
pub open spec fn is_ascii_graphic(c: char) -> bool {
    0x21 <= (c as u32) && (c as u32) <= 0x7e
}

/// The longest run of printable non-space ASCII characters that ends the
/// text: the end of its last class, when the text does not end in white
/// space.
pub open spec fn trailing_graphic_run(s: Seq<char>) -> Seq<char>
    decreases s.len(),
{
    if s.len() > 0 && is_ascii_graphic(s.last()) {
        trailing_graphic_run(s.drop_last()).push(s.last())
    } else {
        Seq::empty()
    }
}

/// The characters with the Unicode White_Space property, of which
/// `char::is_whitespace` holds and by which `str::split_whitespace` splits.
pub open spec fn white_space(c: char) -> bool {
    let u = c as u32;
    ||| 0x09 <= u && u <= 0x0d
    ||| u == 0x20
    ||| u == 0x85
    ||| u == 0xa0
    ||| u == 0x1680
    ||| 0x2000 <= u && u <= 0x200a
    ||| u == 0x2028
    ||| u == 0x2029
    ||| u == 0x202f
    ||| u == 0x205f
    ||| u == 0x3000
}

/// Whether a character has the Unicode White_Space property, as
/// `char::is_whitespace` decides it.
fn is_white_space(c: char) -> (b: bool)
    ensures
        b == white_space(c),
{
    let u = c as u32;
    (0x09 <= u && u <= 0x0d) || u == 0x20 || u == 0x85 || u == 0xa0 || u == 0x1680 || (0x2000 <= u && u <= 0x200a)
        || u == 0x2028 || u == 0x2029 || u == 0x202f || u == 0x205f || u == 0x3000
}

/// The whitespace-separated classes of a text, in order (what
/// `str::split_whitespace` yields).
pub open spec fn classes_of(s: Seq<char>) -> Seq<Seq<char>>
    decreases s.len(),
{
    if s.len() == 0 {
        Seq::empty()
    } else {
        let before = classes_of(s.drop_last());
        let c = s.last();
        if white_space(c) {
            before
        } else if s.len() >= 2 && !white_space(s[s.len() - 2]) {
            before.update(before.len() - 1, before.last().push(c))
        } else {
            before.push(seq![c])
        }
    }
}

/// The classes written one after another with single spaces between them.
pub open spec fn joined_with_spaces(cs: Seq<Seq<char>>) -> Seq<char>
    decreases cs.len(),
{
    if cs.len() == 0 {
        Seq::empty()
    } else if cs.len() == 1 {
        cs[0]
    } else {
        joined_with_spaces(cs.drop_last()) + seq![' '] + cs.last()
    }
}

/// `kept` picks classes of `all` in their order, and picks the last one of
/// `all` (if any) last.
pub open spec fn kept_in_order_with_last(kept: Seq<Seq<char>>, all: Seq<Seq<char>>) -> bool {
    exists|idx: Seq<int>|
        {
            &&& idx.len() == kept.len()
            &&& forall|k: int| 0 <= k < idx.len() ==> 0 <= #[trigger] idx[k] < all.len() && kept[k] == all[idx[k]]
            &&& forall|k: int, l: int| 0 <= k < l < idx.len() ==> #[trigger] idx[k] < #[trigger] idx[l]
            &&& all.len() > 0 ==> idx.len() > 0 && idx.last() == all.len() - 1
        }
}

/// `out` is what a merge of the classes of `text` can give: some of them,
/// in order, always ending with the right-most one, joined with single
/// spaces.
pub open spec fn is_merge_of(out: Seq<char>, text: Seq<char>) -> bool {
    exists|kept: Seq<Seq<char>>| kept_in_order_with_last(kept, classes_of(text)) && out == joined_with_spaces(kept)
}

/// An opening bracket stands before position `i` within the class that
/// holds position `i`.
pub open spec fn opens_bracket_before(s: Seq<char>, i: int) -> bool
    decreases i,
{
    if i <= 0 || i > s.len() {
        false
    } else if white_space(s[i - 1]) {
        false
    } else if s[i - 1] == '[' {
        true
    } else {
        opens_bracket_before(s, i - 1)
    }
}

/// No class holds an opening bracket and ends in a backslash. On such a
/// class the bracket scanner of `tw_merge` may step past the end of the
/// text and panic; on every other text the merge returns.
pub open spec fn no_bracket_class_ends_in_backslash(s: Seq<char>) -> bool {
    forall|i: int|
        0 <= i < s.len() && #[trigger] s[i] == '\\' && (i + 1 == s.len() || white_space(s[i + 1])) ==> !opens_bracket_before(s, i)
}

/// Calls `MergeOptions::default()` of `tw_merge`, which gives the prefix and
/// the separator that `tw_merge::merge::set_merge_options` set for the
/// process, or `""` and `":"` when none was set. Nothing is stated of the
/// result: it depends on what the process set.
#[verifier::external_body]
fn merge_options() -> (r: (&'static str, &'static str)) {
    let options = tw_merge::merge::MergeOptions::default();
    (options.prefix, options.separator)
}

/// What `tw_merge::merge::tw_merge_options` returns for a class text under
/// the given prefix and separator.
pub uninterp spec fn merged_with(class: Seq<char>, prefix: Seq<char>, separator: Seq<char>) -> Seq<char>;

/// Calls `tw_merge::merge::tw_merge_options` with the given prefix and
/// separator. It splits `class` at white space, drops each class that a
/// later class overrides, and joins the survivors with single spaces; the
/// result is named by `merged_with`. What is also stated holds under any
/// options: the output is some of the input's classes, in order, always
/// ending with the right-most one; so a text with no class merges to an
/// empty text, and the output ends with the trailing run of printable ASCII
/// characters of the input. The call is admitted only where no class holds
/// an opening bracket and ends in a backslash, which rules out the texts on
/// which its bracket scanner may step past the end and panic.
#[verifier::external_body]
fn merge_with_options(class: &str, prefix: &'static str, separator: &'static str) -> (r: String)
    requires
        no_bracket_class_ends_in_backslash(class@),
    ensures
        r@ == merged_with(class@, prefix@, separator@),
        is_merge_of(r@, class@),
        class@.len() == 0 ==> r@.len() == 0,
        trailing_graphic_run(class@).len() <= r@.len(),
        r@.subrange(r@.len() - trailing_graphic_run(class@).len(), r@.len() as int) == trailing_graphic_run(class@),
{
    tw_merge::merge::tw_merge_options(class, tw_merge::merge::MergeOptions { prefix, separator })
}

/// The class list of the present parts, joined with spaces and then merged
/// under the given merge options (prefix and separator), so that later
/// Tailwind classes override conflicting earlier ones: the result is some of
/// the classes, in order, and the last class of the list is always kept, at
/// the end.
pub fn class_names_with_options(parts: &Vec<Option<String>>, prefix: &'static str, separator: &'static str) -> (r: String)
    requires
        no_bracket_class_ends_in_backslash(joined_classes(parts_view(parts@))),
    ensures
        r@ == merged_with(joined_classes(parts_view(parts@)), prefix@, separator@),
        is_merge_of(r@, joined_classes(parts_view(parts@))),
        joined_classes(parts_view(parts@)).len() == 0 ==> r@.len() == 0,
        trailing_graphic_run(joined_classes(parts_view(parts@))).len() <= r@.len(),
        r@.subrange(
            r@.len() - trailing_graphic_run(joined_classes(parts_view(parts@))).len(),
            r@.len() as int,
        ) == trailing_graphic_run(joined_classes(parts_view(parts@))),
{
    let classes = join_classes(parts);
    merge_with_options(classes.as_str(), prefix, separator)
}

/// The class list of the present parts, merged under the merge options of
/// the process (see `class_names_with_options`): the options are read once
/// and handed on.
pub fn class_names(parts: &Vec<Option<String>>) -> (r: String)
    requires
        no_bracket_class_ends_in_backslash(joined_classes(parts_view(parts@))),
    ensures
        exists|prefix: Seq<char>, separator: Seq<char>| r@ == merged_with(joined_classes(parts_view(parts@)), prefix, separator),
        is_merge_of(r@, joined_classes(parts_view(parts@))),
        joined_classes(parts_view(parts@)).len() == 0 ==> r@.len() == 0,
        trailing_graphic_run(joined_classes(parts_view(parts@))).len() <= r@.len(),
        r@.subrange(
            r@.len() - trailing_graphic_run(joined_classes(parts_view(parts@))).len(),
            r@.len() as int,
        ) == trailing_graphic_run(joined_classes(parts_view(parts@))),
{
    let (prefix, separator) = merge_options();
    let r = class_names_with_options(parts, prefix, separator);
    assert(r@ == merged_with(joined_classes(parts_view(parts@)), prefix@, separator@));
    r
}

/// Whether no class of `text` holds an opening bracket and ends in a
/// backslash; the merge of such a text is sure to return (others may still
/// merge, or may panic).
pub fn merge_is_safe(text: &str) -> (b: bool)
    ensures
        b == no_bracket_class_ends_in_backslash(text@),
{
    let len = text.unicode_len();
    let mut bracket = false;
    let mut i: usize = 0;
    while i < len
        invariant
            i <= len,
            len == text@.len(),
            bracket == opens_bracket_before(text@, i as int),
            forall|j: int|
                0 <= j < i && #[trigger] text@[j] == '\\' && (j + 1 == text@.len() || white_space(text@[j + 1]))
                    ==> !opens_bracket_before(text@, j),
        decreases len - i,
    {
        let c = text.get_char(i);
        if c == '\\' && bracket {
            let ends_class = i + 1 == len || is_white_space(text.get_char(i + 1));
            if ends_class {
                return false;
            }
        }
        let space = is_white_space(c);
        bracket = if space {
            false
        } else if c == '[' {
            true
        } else {
            bracket
        };
        i += 1;
    }
    true
}

/// The class list of the present parts, when its merge is sure to return;
/// `None` when some class holds an opening bracket and ends in a backslash.
pub fn try_class_names(parts: &Vec<Option<String>>) -> (r: Option<String>)
    ensures
        r is Some <==> no_bracket_class_ends_in_backslash(joined_classes(parts_view(parts@))),
        r matches Some(s) ==> exists|prefix: Seq<char>, separator: Seq<char>| s@ == merged_with(joined_classes(parts_view(parts@)), prefix, separator),
        r matches Some(s) ==> is_merge_of(s@, joined_classes(parts_view(parts@))),
        r matches Some(s) ==> (joined_classes(parts_view(parts@)).len() == 0 ==> s@.len() == 0),
        r matches Some(s) ==> s@.subrange(
            s@.len() - trailing_graphic_run(joined_classes(parts_view(parts@))).len(),
            s@.len() as int,
        ) == trailing_graphic_run(joined_classes(parts_view(parts@))),
{
    let classes = join_classes(parts);
    if merge_is_safe(classes.as_str()) {
        Some(class_names(parts))
    } else {
        None
    }
}

} // verus!
