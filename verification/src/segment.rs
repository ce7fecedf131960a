//! Segment patterns: the units a route is written in. A pattern is tested
//! against the start of a path, and names the fragment it adds to the routes
//! that are enumerated from a tree.

use crate::path::{
    component_end, find_component_end, is_separator, leading_separator, lemma_component_end,
    same_chars, skip_separator, SEPARATOR,
};
use vstd::prelude::*;

verus! {

/// What a segment is, whether it stands in a route definition or in an
/// enumerated route: static text, a named parameter, a named splat, or the
/// empty marker.
pub enum SegmentSpec {
    Unit,
    Static(Seq<char>),
    Param(Seq<char>),
    Splat(Seq<char>),
}

/// The outcome of testing patterns against a path: the prefix that was taken,
/// the `(name, value)` pairs captured on the way, and what is left.
pub struct PartialMatchSpec {
    pub matched: Seq<char>,
    pub params: Seq<(Seq<char>, Seq<char>)>,
    pub remaining: Seq<char>,
}

/// The match that takes the first `end` characters of `path`.
pub open spec fn take_prefix(
    path: Seq<char>,
    end: int,
    params: Seq<(Seq<char>, Seq<char>)>,
) -> PartialMatchSpec {
    PartialMatchSpec { matched: path.take(end), params, remaining: path.skip(end) }
}

impl PartialMatchSpec {
    /// `self` followed by `next`, where `next` was matched against what
    /// `self` left over.
    pub open spec fn followed_by(self, next: PartialMatchSpec) -> PartialMatchSpec {
        PartialMatchSpec {
            matched: self.matched + next.matched,
            params: self.params + next.params,
            remaining: next.remaining,
        }
    }

    /// `self` splits `path` in two: what it matched, then what remains.
    pub open spec fn splits(self, path: Seq<char>) -> bool {
        self.matched + self.remaining == path
    }
}

impl SegmentSpec {
    /// The text of a static segment without the separator it may be written
    /// with.
    pub open spec fn literal(text: Seq<char>) -> Seq<char> {
        text.skip(leading_separator(text))
    }

    /// Tests the pattern against the start of `path`.
    ///
    /// One separator at the start of `path` belongs to the segment that
    /// follows it. The empty marker, and static text that is empty once its
    /// own leading separator is dropped, match without taking anything.
    /// Other static text must be met verbatim and end where a component
    /// ends. A parameter takes one component, which may not be empty. A
    /// splat takes all that is left.
    pub open spec fn test(self, path: Seq<char>) -> Option<PartialMatchSpec> {
        let start = leading_separator(path);
        match self {
            SegmentSpec::Unit => Some(take_prefix(path, 0, Seq::empty())),
            SegmentSpec::Static(text) => {
                let literal = Self::literal(text);
                let end = start + literal.len();
                if literal.len() == 0 {
                    Some(take_prefix(path, 0, Seq::empty()))
                } else if end <= path.len() && path.subrange(start, end) =~= literal && (end
                    == path.len() || is_separator(path[end])) {
                    Some(take_prefix(path, end, Seq::empty()))
                } else {
                    None
                }
            },
            SegmentSpec::Param(name) => {
                let end = component_end(path, start);
                if start < end {
                    Some(take_prefix(path, end, seq![(name, path.subrange(start, end))]))
                } else {
                    None
                }
            },
            SegmentSpec::Splat(name) => Some(
                take_prefix(path, path.len() as int, seq![(name, path.skip(start))]),
            ),
        }
    }

    /// Tests the patterns `segments[from..]` one after the other, each
    /// against what the one before it left.
    pub open spec fn test_from(segments: Seq<SegmentSpec>, path: Seq<char>, from: int) -> Option<
        PartialMatchSpec,
    >
        decreases segments.len() - from,
    {
        if from < 0 || from >= segments.len() {
            Some(take_prefix(path, 0, Seq::empty()))
        } else {
            match segments[from].test(path) {
                None => None,
                Some(head) => match Self::test_from(segments, head.remaining, from + 1) {
                    None => None,
                    Some(tail) => Some(head.followed_by(tail)),
                },
            }
        }
    }

    /// Tests all of `segments` in order.
    pub open spec fn test_all(segments: Seq<SegmentSpec>, path: Seq<char>) -> Option<
        PartialMatchSpec,
    > {
        Self::test_from(segments, path, 0)
    }

    /// A successful test splits the path into the matched prefix and the
    /// remainder.
    pub proof fn lemma_test_splits(self, path: Seq<char>)
        requires
            self.test(path) is Some,
        ensures
            self.test(path).unwrap().splits(path),
    {
        let start = leading_separator(path);
        match self {
            SegmentSpec::Param(_) => {
                lemma_component_end(path, start);
            },
            _ => {},
        }
        let found = self.test(path).unwrap();
        assert(found.matched + found.remaining =~= path);
    }

    /// A successful test of a run of patterns splits the path into the
    /// matched prefix and the remainder.
    pub proof fn lemma_test_from_splits(segments: Seq<SegmentSpec>, path: Seq<char>, from: int)
        requires
            Self::test_from(segments, path, from) is Some,
        ensures
            Self::test_from(segments, path, from).unwrap().splits(path),
        decreases segments.len() - from,
    {
        if from < 0 || from >= segments.len() {
            assert(path.take(0) + path.skip(0) =~= path);
        } else {
            let head = segments[from].test(path).unwrap();
            let tail = Self::test_from(segments, head.remaining, from + 1).unwrap();
            segments[from].lemma_test_splits(path);
            Self::lemma_test_from_splits(segments, head.remaining, from + 1);
            assert((head.matched + tail.matched) + tail.remaining =~= head.matched + (tail.matched
                + tail.remaining));
        }
    }
}

/// One unit of a route definition.
#[derive(Debug, PartialEq, Eq)]
pub enum Segment {
    /// Matches without taking anything from the path.
    Unit,
    /// Text that the path must hold verbatim.
    Static(String),
    /// One path component, captured under this name.
    Param(String),
    /// All the rest of the path, captured under this name.
    Splat(String),
}

impl View for Segment {
    type V = SegmentSpec;

    open spec fn view(&self) -> SegmentSpec {
        match self {
            Segment::Unit => SegmentSpec::Unit,
            Segment::Static(text) => SegmentSpec::Static(text@),
            Segment::Param(name) => SegmentSpec::Param(name@),
            Segment::Splat(name) => SegmentSpec::Splat(name@),
        }
    }
}

impl DeepView for Segment {
    type V = SegmentSpec;

    open spec fn deep_view(&self) -> SegmentSpec {
        self@
    }
}

impl Clone for Segment {
    fn clone(&self) -> (copy: Self)
        ensures
            copy@ == self@,
    {
        match self {
            Segment::Unit => Segment::Unit,
            Segment::Static(text) => Segment::Static(text.clone()),
            Segment::Param(name) => Segment::Param(name.clone()),
            Segment::Splat(name) => Segment::Splat(name.clone()),
        }
    }
}

/// One unit of an enumerated route.
#[derive(Debug, PartialEq, Eq)]
pub enum PathSegment {
    Unit,
    Static(String),
    Param(String),
    Splat(String),
}

impl View for PathSegment {
    type V = SegmentSpec;

    open spec fn view(&self) -> SegmentSpec {
        match self {
            PathSegment::Unit => SegmentSpec::Unit,
            PathSegment::Static(text) => SegmentSpec::Static(text@),
            PathSegment::Param(name) => SegmentSpec::Param(name@),
            PathSegment::Splat(name) => SegmentSpec::Splat(name@),
        }
    }
}

impl DeepView for PathSegment {
    type V = SegmentSpec;

    open spec fn deep_view(&self) -> SegmentSpec {
        self@
    }
}

impl Clone for PathSegment {
    fn clone(&self) -> (copy: Self)
        ensures
            copy@ == self@,
    {
        match self {
            PathSegment::Unit => PathSegment::Unit,
            PathSegment::Static(text) => PathSegment::Static(text.clone()),
            PathSegment::Param(name) => PathSegment::Param(name.clone()),
            PathSegment::Splat(name) => PathSegment::Splat(name.clone()),
        }
    }
}

impl PathSegment {
    /// Tells whether this is the empty marker.
    pub fn is_unit(&self) -> (unit: bool)
        ensures
            unit == (self@ == SegmentSpec::Unit),
    {
        match self {
            PathSegment::Unit => true,
            _ => false,
        }
    }
}

/// The result of testing segment patterns against a path. `matched` and
/// `remaining` are the two parts of that path; each parameter pairs a name
/// from the pattern with a value from the path.
#[derive(Debug, PartialEq, Eq)]
pub struct PartialPathMatch<'a> {
    pub remaining: &'a str,
    pub params: Vec<(&'a str, &'a str)>,
    pub matched: &'a str,
}

impl<'a> View for PartialPathMatch<'a> {
    type V = PartialMatchSpec;

    open spec fn view(&self) -> PartialMatchSpec {
        PartialMatchSpec {
            matched: self.matched@,
            params: self.params.deep_view(),
            remaining: self.remaining@,
        }
    }
}

/// The view of an optional partial match.
pub open spec fn partial_view(found: Option<PartialPathMatch<'_>>) -> Option<PartialMatchSpec> {
    match found {
        Some(partial) => Some(partial@),
        None => None,
    }
}

impl Segment {
    /// Tests this pattern against the start of `path`. On success the
    /// result holds the prefix that the pattern took, the parameter it
    /// captured if it captures one, and the rest of `path`.
    pub fn test<'a>(&'a self, path: &'a str) -> (found: Option<PartialPathMatch<'a>>)
        ensures
            partial_view(found) == self@.test(path@),
    {
        let len = path.unicode_len();
        let start = skip_separator(path);
        match self {
            Segment::Unit => Some(split_path(path, 0, len, no_params())),
            Segment::Static(text) => {
                let text = text.as_str();
                let literal = text.substring_char(skip_separator(text), text.unicode_len());
                let literal_len = literal.unicode_len();
                if literal_len == 0 {
                    Some(split_path(path, 0, len, no_params()))
                } else if literal_len > len - start {
                    None
                } else {
                    let end = start + literal_len;
                    if same_chars(path.substring_char(start, end), literal) && (end == len
                        || path.get_char(end) == SEPARATOR) {
                        Some(split_path(path, end, len, no_params()))
                    } else {
                        None
                    }
                }
            },
            Segment::Param(name) => {
                let end = find_component_end(path, start, len);
                if start < end {
                    let value = path.substring_char(start, end);
                    Some(split_path(path, end, len, one_param(name.as_str(), value)))
                } else {
                    None
                }
            },
            Segment::Splat(name) => {
                let value = path.substring_char(start, len);
                Some(split_path(path, len, len, one_param(name.as_str(), value)))
            },
        }
    }

    /// Appends the fragment that this pattern adds to every route it is
    /// part of.
    pub fn generate_path(&self, path: &mut Vec<PathSegment>)
        ensures
            final(path).deep_view() == old(path).deep_view().push(self@),
    {
        let fragment = match self {
            Segment::Unit => PathSegment::Unit,
            Segment::Static(text) => PathSegment::Static(text.clone()),
            Segment::Param(name) => PathSegment::Param(name.clone()),
            Segment::Splat(name) => PathSegment::Splat(name.clone()),
        };
        path.push(fragment);
        assert(path.deep_view() =~= old(path).deep_view().push(self@));
    }
}

/// Tests the patterns of `segments` one after the other, each against what
/// the one before it left of `path`. If all of them match, the result holds
/// the whole prefix that they took together, their parameters in the order
/// of the patterns, and the rest of `path`.
pub fn test_segments<'a>(segments: &'a Vec<Segment>, path: &'a str) -> (found: Option<
    PartialPathMatch<'a>,
>)
    ensures
        partial_view(found) == SegmentSpec::test_all(segments.deep_view(), path@),
{
    let len = path.unicode_len();
    let mut params: Vec<(&'a str, &'a str)> = no_params();
    let mut consumed: usize = 0;
    let mut remaining = path;
    let mut i: usize = 0;
    proof {
        assert(path@.skip(0) =~= path@);
        lemma_continue_from_start(SegmentSpec::test_all(segments.deep_view(), path@), path@);
    }
    while i < segments.len()
        invariant
            i <= segments.len(),
            consumed <= len,
            len == path@.len(),
            remaining@ == path@.skip(consumed as int),
            SegmentSpec::test_all(segments.deep_view(), path@) == continue_with(
                path@.take(consumed as int),
                params.deep_view(),
                SegmentSpec::test_from(segments.deep_view(), remaining@, i as int),
            ),
        decreases segments.len() - i,
    {
        let ghost before = params.deep_view();
        let ghost rest = remaining@;
        match segments[i].test(remaining) {
            None => {
                return None;
            },
            Some(partial) => {
                proof {
                    let head = partial@;
                    segments.deep_view()[i as int].lemma_test_splits(rest);
                    assert(head.matched.len() + head.remaining.len() == rest.len()) by {
                        assert((head.matched + head.remaining).len() == rest.len());
                    }
                    assert(head.matched =~= rest.take(head.matched.len() as int)) by {
                        assert((head.matched + head.remaining).take(head.matched.len() as int)
                            =~= head.matched);
                    }
                    assert(head.remaining =~= rest.skip(head.matched.len() as int)) by {
                        assert((head.matched + head.remaining).skip(head.matched.len() as int)
                            =~= head.remaining);
                    }
                    assert(path@.take(consumed as int) + head.matched =~= path@.take(
                        consumed + head.matched.len(),
                    ));
                    assert(head.remaining =~= path@.skip(consumed + head.matched.len()));
                    lemma_continue_step(
                        path@.take(consumed as int),
                        before,
                        head,
                        SegmentSpec::test_from(segments.deep_view(), head.remaining, i + 1),
                    );
                }
                let PartialPathMatch { remaining: left, params: captured, matched } = partial;
                consumed = consumed + matched.unicode_len();
                append_params(&mut params, captured);
                remaining = left;
            },
        }
        i = i + 1;
    }
    let matched = path.substring_char(0, consumed);
    proof {
        assert(matched@ + Seq::<char>::empty() =~= matched@);
        assert(params.deep_view() + Seq::<(Seq<char>, Seq<char>)>::empty() =~= params.deep_view());
        assert(remaining@.skip(0) =~= remaining@);
        assert(remaining@.take(0) =~= Seq::<char>::empty());
    }
    Some(PartialPathMatch { remaining, params, matched })
}

/// Appends to `path` the fragments of all of `segments`, in order.
pub fn generate_segments(segments: &Vec<Segment>, path: &mut Vec<PathSegment>)
    ensures
        final(path).deep_view() == old(path).deep_view() + segments.deep_view(),
{
    let mut i: usize = 0;
    assert(path.deep_view() =~= old(path).deep_view() + segments.deep_view().take(0));
    while i < segments.len()
        invariant
            i <= segments.len(),
            path.deep_view() == old(path).deep_view() + segments.deep_view().take(i as int),
        decreases segments.len() - i,
    {
        let ghost before = path.deep_view();
        segments[i].generate_path(path);
        assert(path.deep_view() =~= old(path).deep_view() + segments.deep_view().take(i + 1)) by {
            assert(segments.deep_view().take(i + 1) =~= segments.deep_view().take(
                i as int,
            ).push(segments[i as int]@));
        }
        i = i + 1;
    }
    assert(segments.deep_view().take(i as int) =~= segments.deep_view());
}

/// What a test amounts to when `matched` and `params` were already taken
/// and `rest` is the outcome on what was left.
pub open spec fn continue_with(
    matched: Seq<char>,
    params: Seq<(Seq<char>, Seq<char>)>,
    rest: Option<PartialMatchSpec>,
) -> Option<PartialMatchSpec> {
    match rest {
        None => None,
        Some(tail) => Some(
            PartialMatchSpec {
                matched: matched + tail.matched,
                params: params + tail.params,
                remaining: tail.remaining,
            },
        ),
    }
}

proof fn lemma_continue_from_start(outcome: Option<PartialMatchSpec>, path: Seq<char>)
    ensures
        continue_with(path.take(0), Seq::empty(), outcome) == outcome,
{
    if let Some(found) = outcome {
        assert(path.take(0) + found.matched =~= found.matched);
        assert(Seq::<(Seq<char>, Seq<char>)>::empty() + found.params =~= found.params);
    }
}

proof fn lemma_continue_step(
    matched: Seq<char>,
    params: Seq<(Seq<char>, Seq<char>)>,
    head: PartialMatchSpec,
    rest: Option<PartialMatchSpec>,
)
    ensures
        continue_with(
            matched,
            params,
            match rest {
                None => None,
                Some(tail) => Some(head.followed_by(tail)),
            },
        ) == continue_with(matched + head.matched, params + head.params, rest),
{
    if let Some(tail) = rest {
        assert(matched + (head.matched + tail.matched) =~= (matched + head.matched) + tail.matched);
        assert(params + (head.params + tail.params) =~= (params + head.params) + tail.params);
    }
}

/// Moves the parameters of `more` to the end of `params`.
pub(crate) fn append_params<'a>(params: &mut Vec<(&'a str, &'a str)>, more: Vec<(&'a str, &'a str)>)
    ensures
        final(params).deep_view() == old(params).deep_view() + more.deep_view(),
{
    let mut more = more;
    let ghost added = more.deep_view();
    params.append(&mut more);
    assert(params.deep_view() =~= old(params).deep_view() + added);
}

/// An empty list of parameters.
fn no_params<'a>() -> (params: Vec<(&'a str, &'a str)>)
    ensures
        params.deep_view() == Seq::<(Seq<char>, Seq<char>)>::empty(),
{
    let params = Vec::new();
    assert(params.deep_view() =~= Seq::<(Seq<char>, Seq<char>)>::empty());
    params
}

/// The list that holds one parameter.
fn one_param<'a>(name: &'a str, value: &'a str) -> (params: Vec<(&'a str, &'a str)>)
    ensures
        params.deep_view() == seq![(name@, value@)],
{
    let mut params = Vec::new();
    params.push((name, value));
    assert(params.deep_view() =~= seq![(name@, value@)]);
    params
}

/// Splits `path`, of `len` characters, after its first `end` characters.
fn split_path<'a>(path: &'a str, end: usize, len: usize, params: Vec<(&'a str, &'a str)>) -> (found:
    PartialPathMatch<'a>)
    requires
        end <= len,
        len == path@.len(),
    ensures
        found@ == take_prefix(path@, end as int, params.deep_view()),
{
    PartialPathMatch {
        remaining: path.substring_char(end, len),
        params,
        matched: path.substring_char(0, end),
    }
}

} // verus!
