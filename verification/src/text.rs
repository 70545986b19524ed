//! Names and their order: case folding, the lexicographic order on text,
//! file extensions and dot-prefixed names.

use vstd::prelude::*;
use vstd::string::*;

verus! {

/// The lowercase form that `str::to_lowercase` gives for a text.
pub uninterp spec fn lowercase_of(text: Seq<char>) -> Seq<char>;

/// Calls `str::to_lowercase`. The result is named `lowercase_of`: it depends on
/// the text alone, by the Unicode case mapping that the standard library holds.
#[verifier::external_body]
pub(crate) fn to_lowercase(text: &str) -> (lowered: String)
    ensures
        lowered@ == lowercase_of(text@),
{
    text.to_lowercase()
}

/// Strict lexicographic order on text, character by character, each character
/// taken by its code point. A proper prefix comes before its extensions.
pub open spec fn lex_less(a: Seq<char>, b: Seq<char>) -> bool
    decreases a.len(),
{
    if b.len() == 0 {
        false
    } else if a.len() == 0 {
        true
    } else if a[0] != b[0] {
        (a[0] as int) < (b[0] as int)
    } else {
        lex_less(a.drop_first(), b.drop_first())
    }
}

/// `a` does not come after `b`.
pub open spec fn lex_le(a: Seq<char>, b: Seq<char>) -> bool {
    !lex_less(b, a)
}

/// Calls the `<` of `str`, which the standard library documents as the
/// lexicographic order by byte values, and so by code points.
#[verifier::external_body]
pub(crate) fn str_less(a: &str, b: &str) -> (less: bool)
    ensures
        less == lex_less(a@, b@),
{
    a < b
}

/// Nothing comes before itself.
pub proof fn lemma_lex_irreflexive(a: Seq<char>)
    ensures
        !lex_less(a, a),
    decreases a.len(),
{
    if a.len() > 0 {
        lemma_lex_irreflexive(a.drop_first());
    }
}

/// `lex_le` is transitive.
pub proof fn lemma_lex_le_transitive(a: Seq<char>, b: Seq<char>, c: Seq<char>)
    requires
        lex_le(a, b),
        lex_le(b, c),
    ensures
        lex_le(a, c),
    decreases a.len(),
{
    if a.len() == 0 {
    } else if b.len() == 0 {
        assert(lex_less(b, a));
    } else if c.len() == 0 {
        assert(lex_less(c, b));
    } else {
        let (x, y, z) = (a[0] as int, b[0] as int, c[0] as int);
        assert(x <= y && y <= z);
        if x == z {
            assert(a[0] == b[0] && b[0] == c[0]);
            lemma_lex_le_transitive(a.drop_first(), b.drop_first(), c.drop_first());
        }
    }
}

/// A text that comes before another does not come after it.
pub proof fn lemma_lex_less_implies_le(a: Seq<char>, b: Seq<char>)
    requires
        lex_less(a, b),
    ensures
        lex_le(a, b),
    decreases a.len(),
{
    if a.len() > 0 && b.len() > 0 && a[0] == b[0] {
        lemma_lex_less_implies_le(a.drop_first(), b.drop_first());
    }
}

/// The views of an optional text.
pub open spec fn text_of(text: Option<String>) -> Option<Seq<char>> {
    match text {
        Some(t) => Some(t@),
        None => None,
    }
}

/// The place of the last `.` in `name`, or -1 where it has none.
pub open spec fn last_dot(name: Seq<char>) -> int
    decreases name.len(),
{
    if name.len() == 0 {
        -1
    } else if name.last() == '.' {
        name.len() - 1
    } else {
        last_dot(name.drop_last())
    }
}

/// The extension of a file name: what follows its last `.`, unless that `.`
/// is the name's first character or the name is `..`; a name without a `.`
/// has none.
pub open spec fn extension_of(name: Seq<char>) -> Option<Seq<char>> {
    let dot = last_dot(name);
    if dot <= 0 || name =~= seq!['.', '.'] {
        None
    } else {
        Some(name.subrange(dot + 1, name.len() as int))
    }
}

/// The extension of a file name, as `extension_of` defines it.
pub fn extension(name: &str) -> (ext: Option<String>)
    ensures
        text_of(ext) == extension_of(name@),
{
    let len: usize = name.unicode_len();
    let mut end: usize = len;
    assert(name@.take(end as int) =~= name@);
    while end > 0 && name.get_char(end - 1) != '.'
        invariant
            end <= len,
            len == name@.len(),
            last_dot(name@) == last_dot(name@.take(end as int)),
        decreases end,
    {
        assert(name@.take(end as int).drop_last() =~= name@.take(end - 1));
        end -= 1;
    }
    if end <= 1 {
        assert(last_dot(name@) <= 0);
        return None;
    }
    assert(last_dot(name@) == end - 1);
    if len == 2 && name.get_char(0) == '.' {
        assert(name@ =~= seq!['.', '.']);
        return None;
    }
    assert(!(name@ =~= seq!['.', '.'])) by {
        if name@ =~= seq!['.', '.'] {
            assert(name@[0] == '.');
        }
    }
    Some(name.substring_char(end, len).to_owned())
}

/// Whether `name` begins with a `.`.
pub open spec fn dot_prefixed(name: Seq<char>) -> bool {
    name.len() > 0 && name[0] == '.'
}

/// Whether `name` begins with a `.`.
pub fn is_dot_prefixed(name: &str) -> (dotted: bool)
    ensures
        dotted == dot_prefixed(name@),
{
    name.unicode_len() > 0 && name.get_char(0) == '.'
}

} // verus!
