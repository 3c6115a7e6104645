//! Path strings: one canonical separator, and the name of the last component.

use vstd::prelude::*;

verus! {

/// `String::push` appends one character to the end of the string.
pub assume_specification[ String::push ](s: &mut String, c: char)
    ensures
        final(s)@ == old(s)@.push(c),
;

/// A character with the backslash turned into the canonical separator `/`.
pub open spec fn canonical_char(c: char) -> char {
    if c == '\\' {
        '/'
    } else {
        c
    }
}

/// A path with every separator in its canonical form.
pub open spec fn canonical(path: Seq<char>) -> Seq<char> {
    Seq::new(path.len(), |i: int| canonical_char(path[i]))
}

/// The path with every backslash replaced by `/`.
pub fn normalize_separators(path: &str) -> (out: String)
    ensures
        out@ == canonical(path@),
{
    let mut out = String::new();
    for c in it: path.chars()
        invariant
            it.seq() == path@,
            out@ == canonical(path@.take(it.index() as int)),
    {
        let d = if c == '\\' {
            '/'
        } else {
            c
        };
        out.push(d);
        assert(out@ =~= canonical(path@.take(it.index() + 1)));
    }
    assert(path@.take(path@.len() as int) =~= path@);
    out
}

/// Whether two paths name the same place once their separators are canonical.
pub fn same_location(a: &str, b: &str) -> (same: bool)
    ensures
        same == (canonical(a@) == canonical(b@)),
{
    let left = normalize_separators(a);
    let right = normalize_separators(b);
    left == right
}

/// Whether a character separates the components of a path.
pub open spec fn is_separator(c: char) -> bool {
    c == '/' || c == '\\'
}

/// The length of a path without the separators at its end.
pub open spec fn trimmed_len(path: Seq<char>) -> nat
    decreases path.len(),
{
    if path.len() > 0 && is_separator(path.last()) {
        trimmed_len(path.drop_last())
    } else {
        path.len()
    }
}

/// Where the last run of characters that are no separators begins, in a path
/// that ends with that run.
pub open spec fn component_start(path: Seq<char>) -> nat
    decreases path.len(),
{
    if path.len() > 0 && !is_separator(path.last()) {
        component_start(path.drop_last())
    } else {
        path.len()
    }
}

/// The last component of a path: what stands between the last separator that
/// something follows and the separators at the end, if there are any. Empty
/// where the path holds separators only. Both `/` and `\` separate, on every
/// platform, and `.` and `..` are components like any other.
pub open spec fn final_component(path: Seq<char>) -> Seq<char> {
    let trimmed = path.take(trimmed_len(path) as int);
    trimmed.skip(component_start(trimmed) as int)
}

/// The characters of a string, in order.
pub fn characters(text: &str) -> (out: Vec<char>)
    ensures
        out@ == text@,
{
    let mut out: Vec<char> = Vec::new();
    for c in it: text.chars()
        invariant
            it.seq() == text@,
            out@ == text@.take(it.index() as int),
    {
        out.push(c);
        assert(out@ =~= text@.take(it.index() + 1));
    }
    assert(text@.take(text@.len() as int) =~= text@);
    out
}

/// The name of the last component of `path`.
pub fn last_component(path: &str) -> (name: String)
    ensures
        name@ == final_component(path@),
{
    let cs = characters(path);
    let mut end: usize = cs.len();
    assert(cs@.take(end as int) =~= cs@);
    while end > 0 && (cs[end - 1] == '/' || cs[end - 1] == '\\')
        invariant
            end <= cs@.len(),
            trimmed_len(cs@) == trimmed_len(cs@.take(end as int)),
        decreases end,
    {
        assert(cs@.take(end as int).drop_last() =~= cs@.take(end - 1));
        end = end - 1;
    }
    let ghost trimmed = cs@.take(end as int);
    let mut start: usize = end;
    assert(trimmed.take(start as int) =~= trimmed);
    while start > 0 && !(cs[start - 1] == '/' || cs[start - 1] == '\\')
        invariant
            start <= end <= cs@.len(),
            trimmed == cs@.take(end as int),
            component_start(trimmed) == component_start(trimmed.take(start as int)),
        decreases start,
    {
        assert(trimmed.take(start as int).drop_last() =~= trimmed.take(start - 1));
        start = start - 1;
    }
    let mut name = String::new();
    let mut i: usize = start;
    while i < end
        invariant
            start <= i <= end <= cs@.len(),
            name@ == cs@.subrange(start as int, i as int),
        decreases end - i,
    {
        name.push(cs[i]);
        assert(name@ =~= cs@.subrange(start as int, i + 1));
        i = i + 1;
    }
    assert(cs@.subrange(start as int, end as int) =~= trimmed.skip(start as int));
    name
}

} // verus!
