//! Paths as sequences of characters: the separator, path components, and
//! what it means for a path to be used up.

use vstd::prelude::*;
use vstd::std_specs::iter::IteratorSpec;

verus! {

/// The character that separates the components of a path.
pub const SEPARATOR: char = '/';

/// Tells whether `c` separates path components.
pub open spec fn is_separator(c: char) -> bool {
    c == SEPARATOR
}

/// How many characters a separator at the very start of `path` takes: 1 if
/// `path` begins with one, 0 otherwise.
pub open spec fn leading_separator(path: Seq<char>) -> int {
    if path.len() > 0 && is_separator(path[0]) {
        1
    } else {
        0
    }
}

/// The first position at or after `from` that holds a separator, or the
/// length of `path` if there is none: where the component starting at `from`
/// ends.
pub open spec fn component_end(path: Seq<char>, from: int) -> int
    decreases path.len() - from,
{
    if 0 <= from < path.len() && !is_separator(path[from]) {
        component_end(path, from + 1)
    } else {
        from
    }
}

/// A remainder counts as used up when nothing is left of it, or nothing but
/// one trailing separator.
pub open spec fn fully_consumed(rest: Seq<char>) -> bool {
    rest.len() == 0 || (rest.len() == 1 && is_separator(rest[0]))
}

/// `component_end` stays inside the path, crosses no separator, and stops
/// only at a separator or at the end.
pub proof fn lemma_component_end(path: Seq<char>, from: int)
    requires
        0 <= from <= path.len(),
    ensures
        from <= component_end(path, from) <= path.len(),
        forall|i: int| from <= i < component_end(path, from) ==> !is_separator(#[trigger] path[i]),
        component_end(path, from) < path.len() ==> is_separator(path[component_end(path, from)]),
    decreases path.len() - from,
{
    if from < path.len() && !is_separator(path[from]) {
        lemma_component_end(path, from + 1);
    }
}

/// Tells whether `rest` is empty or exactly one separator.
pub fn is_fully_consumed(rest: &str) -> (done: bool)
    ensures
        done == fully_consumed(rest@),
{
    if rest.is_empty() {
        true
    } else {
        rest.get_char(0) == SEPARATOR && rest.unicode_len() == 1
    }
}

/// Length of the separator prefix of `path`: 1 if it starts with a separator,
/// else 0.
pub fn skip_separator(path: &str) -> (start: usize)
    ensures
        start == leading_separator(path@),
{
    if !path.is_empty() && path.get_char(0) == SEPARATOR {
        1
    } else {
        0
    }
}

/// Scans the component that starts at `from` and returns where it ends.
/// `len` is the number of characters of `path`. The scan reads the path
/// once, from its start.
pub fn find_component_end(path: &str, from: usize, len: usize) -> (end: usize)
    requires
        from <= len,
        len == path@.len(),
    ensures
        end == component_end(path@, from as int),
        from <= end <= len,
{
    let mut chars = path.chars();
    let mut pos: usize = 0;
    assert(path@.skip(0) =~= path@);
    loop
        invariant_except_break
            pos <= len,
            len == path@.len(),
            from <= len,
            chars.remaining() == path@.skip(pos as int),
            pos > from ==> component_end(path@, from as int) == component_end(path@, pos as int),
        ensures
            from <= pos <= len,
            pos == component_end(path@, from as int),
        decreases len - pos,
    {
        match chars.next() {
            None => {
                break ;
            },
            Some(c) => {
                assert(path@.skip(pos as int).drop_first() =~= path@.skip(pos + 1));
                if pos >= from && c == SEPARATOR {
                    break ;
                }
                pos = pos + 1;
            },
        }
    }
    pos
}

/// Tells whether `a` and `b` hold the same characters.
pub fn same_chars(a: &str, b: &str) -> (same: bool)
    ensures
        same == (a@ == b@),
{
    let mut left = a.chars();
    let mut right = b.chars();
    let ghost mut pos: int = 0;
    assert(a@.skip(0) =~= a@);
    assert(b@.skip(0) =~= b@);
    loop
        invariant
            0 <= pos <= a@.len(),
            pos <= b@.len(),
            left.remaining() == a@.skip(pos),
            right.remaining() == b@.skip(pos),
            a@.take(pos) == b@.take(pos),
        decreases a@.len() - pos,
    {
        match (left.next(), right.next()) {
            (None, None) => {
                assert(a@.take(pos) =~= a@);
                assert(b@.take(pos) =~= b@);
                return true;
            },
            (Some(c), Some(d)) => {
                if c != d {
                    assert(a@[pos] != b@[pos]);
                    return false;
                }
                proof {
                    assert(a@.skip(pos).drop_first() =~= a@.skip(pos + 1));
                    assert(b@.skip(pos).drop_first() =~= b@.skip(pos + 1));
                    assert(a@.take(pos + 1) =~= a@.take(pos).push(a@[pos]));
                    assert(b@.take(pos + 1) =~= b@.take(pos).push(b@[pos]));
                    pos = pos + 1;
                }
            },
            _ => {
                assert(a@.len() != b@.len());
                return false;
            },
        }
    }
}

} // verus!
