//! Grouping keys: the first `::` segment of a demangled symbol name.
use vstd::prelude::*;
use vstd::string::*;

verus! {

/// What `rustc_demangle` renders for a raw symbol name.
pub uninterp spec fn demangled_of(raw: Seq<char>) -> Seq<char>;

/// The key that a symbol without a usable name falls under.
pub open spec fn unknown_group() -> Seq<char> {
    seq!['<', 'u', 'n', 'k', 'n', 'o', 'w', 'n', '>']
}

/// `s` holds the path separator `::` at position `i`.
pub open spec fn separator_at(s: Seq<char>, i: int) -> bool {
    0 <= i && i + 1 < s.len() && s[i] == ':' && s[i + 1] == ':'
}

/// The first position at or after `i` where a separator starts, or the
/// length of `s` when none follows.
pub open spec fn separator_from(s: Seq<char>, i: int) -> int
    decreases s.len() - i,
{
    if i < 0 || i + 1 >= s.len() {
        s.len() as int
    } else if separator_at(s, i) {
        i
    } else {
        separator_from(s, i + 1)
    }
}

/// The text before the first `::` (all of `s` when it holds none).
pub open spec fn first_segment(s: Seq<char>) -> Seq<char> {
    s.take(separator_from(s, 0))
}

/// The group of a demangled name: its first segment, or `<unknown>` when
/// that segment is empty. A name is taken to have no first segment both when
/// it is empty and when it starts with `::`; the latter thus falls under
/// `<unknown>` too, rather than under an empty key.
pub open spec fn group_of(demangled: Seq<char>) -> Seq<char> {
    if first_segment(demangled).len() == 0 {
        unknown_group()
    } else {
        first_segment(demangled)
    }
}

proof fn lemma_separator_from_bounds(s: Seq<char>, i: int)
    requires
        0 <= i,
    ensures
        0 <= separator_from(s, i) <= s.len(),
    decreases s.len() - i,
{
    if i + 1 < s.len() && !separator_at(s, i) {
        lemma_separator_from_bounds(s, i + 1);
    }
}

/// Relies on `rustc_demangle::demangle` rendered with `to_string`: the text
/// depends on the raw name alone; a name that is not mangled comes back as it is.
#[verifier::external_body]
pub(crate) fn demangle_name(raw: &str) -> (r: String)
    ensures
        r@ == demangled_of(raw@),
{
    rustc_demangle::demangle(raw).to_string()
}

/// The `<unknown>` key as a string.
pub fn unknown_key() -> (r: String)
    ensures
        r@ == unknown_group(),
{
    let r = String::from_str("<unknown>");
    proof {
        reveal_strlit("<unknown>");
    }
    assert(r@ =~= unknown_group());
    r
}

/// The grouping key of an already demangled name.
pub fn group_key(demangled: &str) -> (r: String)
    ensures
        r@ == group_of(demangled@),
{
    let n = demangled.unicode_len();
    let mut i: usize = 0;
    let mut end: usize = n;
    while i < n && end == n
        invariant
            n == demangled@.len(),
            i <= n,
            end == n ==> separator_from(demangled@, 0) == separator_from(demangled@, i as int),
            end != n ==> end == separator_from(demangled@, 0),
        decreases n - i,
    {
        if i + 1 < n && demangled.get_char(i) == ':' && demangled.get_char(i + 1) == ':' {
            end = i;
        }
        i = i + 1;
    }
    proof {
        lemma_separator_from_bounds(demangled@, 0);
        if end == n {
            assert(separator_from(demangled@, i as int) == n);
        }
    }
    assert(end == separator_from(demangled@, 0));
    if end == 0 {
        unknown_key()
    } else {
        let seg = demangled.substring_char(0, end);
        String::from_str(seg)
    }
}

/// The grouping key of a raw symbol name, after demangling it.
pub fn group_of_symbol_name(raw: &str) -> (r: String)
    ensures
        r@ == group_of(demangled_of(raw@)),
{
    let d = demangle_name(raw);
    group_key(d.as_str())
}

} // verus!
