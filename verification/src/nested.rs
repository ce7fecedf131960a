//! Trees of nested routes. A route owns segment patterns, child routes, and
//! two payloads that are only stored and handed back. A path matches a tree
//! along one chain of routes, from a root alternative down to a leaf; the
//! tree also lists every route that it stands for.

use crate::laws::consumption::{
    consumed_by, lemma_full_consumption, lemma_routes_full_consumption,
};
use crate::model::{
    boxed, kept, lemma_without_unit_empty, prepend_to_each, without_unit, MatchSpec, RouteSpec,
};
use crate::path::{fully_consumed, is_fully_consumed};
use crate::segment::{
    append_params, generate_segments, test_segments, PartialPathMatch, PathSegment, Segment,
    SegmentSpec,
};
use vstd::prelude::*;

verus! {

/// Identifies the leaf that a match ended in: the leaf's position among the
/// leaves of the tree that was matched, counted in declaration order from 0.
/// It is also the position of the leaf's route in the tree's list of routes.
#[derive(Clone, Copy, Debug, PartialEq, Eq, Structural)]
pub struct RouteMatchId(usize);

impl View for RouteMatchId {
    type V = nat;

    closed spec fn view(&self) -> nat {
        self.0 as nat
    }
}

impl RouteMatchId {
    /// Ids that stand for the same position are the same id.
    pub proof fn lemma_same_position(a: RouteMatchId, b: RouteMatchId)
        requires
            a@ == b@,
        ensures
            a == b,
    {
    }

    /// The position that this id stands for.
    pub fn as_index(&self) -> (index: usize)
        ensures
            index == self@,
    {
        self.0
    }
}

/// A node of a route tree.
#[derive(Debug, PartialEq, Eq)]
pub struct NestedRoute<D, V> {
    /// The patterns that this route matches itself, in order.
    pub segments: Vec<Segment>,
    /// The alternatives below this route, in declaration order; empty for
    /// a leaf.
    pub children: Vec<NestedRoute<D, V>>,
    /// A payload that is stored with the route and never looked at.
    pub data: D,
    /// A payload that a match at this route refers to.
    pub view: V,
}

impl<D, V> NestedRoute<D, V> {
    /// The model of this route and of all routes below it.
    pub open spec fn model(&self) -> RouteSpec<V>
        decreases self,
    {
        RouteSpec {
            segments: self.segments.deep_view(),
            children: Seq::new(
                self.children@.len(),
                |i: int|
                    if 0 <= i < self.children@.len() {
                        self.children@[i].model()
                    } else {
                        arbitrary()
                    },
            ),
            view: self.view,
        }
    }

    /// The model of a route holds the models of its children.
    pub proof fn lemma_model_children(&self)
        ensures
            self@.children == self.children.deep_view(),
    {
        assert(self.model().children =~= self.children.deep_view());
    }
}

impl<D, V> View for NestedRoute<D, V> {
    type V = RouteSpec<V>;

    open spec fn view(&self) -> RouteSpec<V> {
        self.model()
    }
}

impl<D, V> DeepView for NestedRoute<D, V> {
    type V = RouteSpec<V>;

    open spec fn deep_view(&self) -> RouteSpec<V> {
        self.model()
    }
}

/// The result of a successful match at one route, with the match of the
/// child that was taken below it.
#[derive(Debug, PartialEq, Eq)]
pub struct NestedMatch<'a, V> {
    id: RouteMatchId,
    /// The portion of the full path matched only by this nested route.
    matched: &'a str,
    /// The params matched only by this nested route.
    params: Vec<(&'a str, &'a str)>,
    /// The match of the nested route below, if there is one.
    child: Option<Box<NestedMatch<'a, V>>>,
    view: &'a V,
}

impl<'a, V> NestedMatch<'a, V> {
    /// The model of this match and of the matches below it.
    pub closed spec fn model(&self) -> MatchSpec<V>
        decreases self,
    {
        MatchSpec {
            id: self.id@,
            matched: self.matched@,
            params: self.params.deep_view(),
            child: match self.child {
                Some(child) => Some(Box::new(child.model())),
                None => None,
            },
            view: *self.view,
        }
    }
}

impl<'a, V> View for NestedMatch<'a, V> {
    type V = MatchSpec<V>;

    open spec fn view(&self) -> MatchSpec<V> {
        self.model()
    }
}

/// Tells whether `found` is what matching `path` against `route` gives:
/// on success the id of the leaf, the match, and the remainder; otherwise
/// no match, and `path` itself.
pub open spec fn is_match_of<V>(
    found: (Option<(RouteMatchId, NestedMatch<'_, V>)>, &str),
    route: RouteSpec<V>,
    path: Seq<char>,
) -> bool {
    match found.0 {
        Some((id, nested)) => {
            &&& route.match_nested(path) == Some((nested@, found.1@))
            &&& id@ == nested@.id
        },
        None => {
            &&& route.match_nested(path) is None
            &&& found.1@ == path
        },
    }
}

/// The view of an optional match.
pub open spec fn nested_view<V>(nested: Option<NestedMatch<'_, V>>) -> Option<MatchSpec<V>> {
    match nested {
        Some(inner) => Some(inner@),
        None => None,
    }
}

/// Tells whether `found` is what matching `path` against the set `routes`
/// gives: on success the id of the leaf, the match of the alternative that
/// was taken, and the remainder; otherwise no match, and `path` itself.
pub open spec fn is_routes_match_of<V>(
    found: (Option<(RouteMatchId, Option<NestedMatch<'_, V>>)>, &str),
    routes: Seq<RouteSpec<V>>,
    path: Seq<char>,
) -> bool {
    match found.0 {
        Some((id, nested)) => RouteSpec::match_routes(routes, path) == Some(
            (id@, nested_view(nested), found.1@),
        ),
        None => {
            &&& RouteSpec::match_routes(routes, path) is None
            &&& found.1@ == path
        },
    }
}

impl<'a, V> NestedMatch<'a, V> {
    /// The id of the leaf that the match ended in.
    pub fn as_id(&self) -> (id: RouteMatchId)
        ensures
            id@ == self@.id,
    {
        self.id
    }

    /// The portion of the path matched by this route's own patterns.
    pub fn as_matched(&self) -> (matched: &str)
        ensures
            matched@ == self@.matched,
    {
        self.matched
    }

    /// The portion of the path matched by this route's own patterns.
    pub fn matched(&self) -> (matched: &'a str)
        ensures
            matched@ == self@.matched,
    {
        self.matched
    }

    /// The parameters captured by this route followed by those captured by
    /// the routes matched below it. A name that was captured twice occurs
    /// twice.
    pub fn to_params(&self) -> (params: Vec<(&'a str, &'a str)>)
        ensures
            params.deep_view() == self@.all_params(),
        decreases self,
    {
        let mut params: Vec<(&'a str, &'a str)> = Vec::new();
        let mut i: usize = 0;
        assert(params.deep_view() =~= self.params.deep_view().take(0));
        while i < self.params.len()
            invariant
                i <= self.params.len(),
                params.deep_view() == self.params.deep_view().take(i as int),
            decreases self.params.len() - i,
        {
            let ghost before = params.deep_view();
            params.push(self.params[i]);
            assert(params.deep_view() =~= before.push(self.params.deep_view()[i as int]));
            assert(params.deep_view() =~= self.params.deep_view().take(i + 1));
            i = i + 1;
        }
        assert(self.params.deep_view().take(i as int) =~= self.params.deep_view());
        match &self.child {
            Some(child) => {
                append_params(&mut params, child.to_params());
            },
            None => {},
        }
        params
    }

    /// The match of the route below this one, if there is one.
    pub fn into_child(self) -> (child: Option<NestedMatch<'a, V>>)
        ensures
            boxed(nested_view(child)) == self@.child,
    {
        match self.child {
            Some(child) => Some(*child),
            None => None,
        }
    }

    /// The payload of the route matched at this level.
    pub fn to_view(&self) -> (view: &'a V)
        ensures
            *view == self@.view,
    {
        self.view
    }
}

impl<D, V> NestedRoute<D, V> {
    /// The number of routes that this route stands for.
    pub fn count_routes(&self) -> (count: usize)
        requires
            self@.route_count() <= usize::MAX,
        ensures
            count == self@.route_count(),
        decreases self,
    {
        proof {
            self.lemma_model_children();
        }
        count_nested_routes(&self.children)
    }

    /// The number of routes that this route stands for, or `None` if that
    /// number is too large for a `usize`. A tree that is counted here can
    /// be matched.
    pub fn checked_count_routes(&self) -> (count: Option<usize>)
        ensures
            match count {
                Some(n) => n == self@.route_count(),
                None => self@.route_count() > usize::MAX,
            },
        decreases self,
    {
        proof {
            self.lemma_model_children();
        }
        checked_count_nested_routes(&self.children)
    }

    /// Matches `path` against this route and the routes below it.
    ///
    /// On success the result holds the id of the leaf that the match ended
    /// in, the match, and what the match left of `path`: nothing, or one
    /// trailing separator. Otherwise it holds no match, and `path` as it was
    /// given.
    ///
    /// The ids are positions of leaves, so the tree may not stand for more
    /// routes than a `usize` can count; `checked_count_routes` tells whether
    /// it does.
    pub fn match_nested<'a>(&'a self, path: &'a str) -> (found: (
        Option<(RouteMatchId, NestedMatch<'a, V>)>,
        &'a str,
    ))
        requires
            self@.route_count() <= usize::MAX,
        ensures
            is_match_of(found, self@, path@),
            found.0 matches Some((_, nested)) ==> {
                &&& nested@.consumed() + found.1@ == path@
                &&& fully_consumed(found.1@)
            },
    {
        proof {
            if self@.match_nested(path@) is Some {
                lemma_full_consumption(self@, path@, 0);
            }
        }
        self.match_nested_at(path, 0)
    }

    /// Matches `path` against this route, whose first leaf has position
    /// `base`.
    fn match_nested_at<'a>(&'a self, path: &'a str, base: usize) -> (found: (
        Option<(RouteMatchId, NestedMatch<'a, V>)>,
        &'a str,
    ))
        requires
            base + self@.route_count() <= usize::MAX,
        ensures
            match found.0 {
                Some((id, nested)) => {
                    &&& self@.match_nested_at(path@, base as nat) == Some((nested@, found.1@))
                    &&& id@ == nested@.id
                },
                None => {
                    &&& self@.match_nested_at(path@, base as nat) is None
                    &&& found.1@ == path@
                },
            },
        decreases self,
    {
        proof {
            self.lemma_model_children();
        }
        match test_segments(&self.segments, path) {
            None => (None, path),
            Some(partial) => {
                let PartialPathMatch { remaining, params, matched } = partial;
                let (inner, remaining) = match_routes_at(&self.children, remaining, base);
                match inner {
                    None => (None, path),
                    Some((id, child)) => {
                        if is_fully_consumed(remaining) {
                            let child = match child {
                                Some(child) => Some(Box::new(child)),
                                None => None,
                            };
                            let nested = NestedMatch { id, matched, params, child, view: &self.view };
                            (Some((id, nested)), remaining)
                        } else {
                            (None, path)
                        }
                    },
                }
            },
        }
    }

    /// Lists the routes that this route stands for: its own fragments
    /// before each route of its children, without empty markers.
    pub fn generate_routes(&self) -> (routes: Vec<Vec<PathSegment>>)
        ensures
            routes.deep_view() == self@.generate_routes(),
            routes.len() == self@.route_count(),
        decreases self,
    {
        proof {
            self.lemma_model_children();
            self@.lemma_generate_routes_len();
        }
        let mut own: Vec<PathSegment> = Vec::new();
        assert(own.deep_view() =~= Seq::<SegmentSpec>::empty());
        generate_segments(&self.segments, &mut own);
        assert(own.deep_view() =~= self@.segments);
        let tails = generate_nested_routes(&self.children);
        let mut routes: Vec<Vec<PathSegment>> = Vec::new();
        let mut i: usize = 0;
        while i < tails.len()
            invariant
                i <= tails.len(),
                routes.len() == i,
                forall|j: int|
                    0 <= j < i ==> (#[trigger] routes[j]).deep_view() == without_unit(
                        own.deep_view() + tails[j].deep_view(),
                    ),
            decreases tails.len() - i,
        {
            let route = join_route(&own, &tails[i]);
            routes.push(route);
            i = i + 1;
        }
        assert(routes.deep_view() =~= prepend_to_each(own.deep_view(), tails.deep_view()));
        routes
    }
}

/// The number of routes that a set of alternatives stands for.
pub fn count_nested_routes<D, V>(routes: &Vec<NestedRoute<D, V>>) -> (count: usize)
    requires
        RouteSpec::routes_count(routes.deep_view()) <= usize::MAX,
    ensures
        count == RouteSpec::routes_count(routes.deep_view()),
    decreases routes,
{
    if routes.len() == 0 {
        return 1;
    }
    let mut count: usize = 0;
    let mut i: usize = 0;
    while i < routes.len()
        invariant
            i <= routes.len(),
            count + RouteSpec::count_from(routes.deep_view(), i as int) == RouteSpec::count_from(
                routes.deep_view(),
                0,
            ),
            RouteSpec::count_from(routes.deep_view(), 0) <= usize::MAX,
        decreases routes.len() - i,
    {
        count = count + routes[i].count_routes();
        i = i + 1;
    }
    count
}

/// The number of routes that a set of alternatives stands for, or `None` if
/// that number is too large for a `usize`.
pub fn checked_count_nested_routes<D, V>(routes: &Vec<NestedRoute<D, V>>) -> (count: Option<usize>)
    ensures
        match count {
            Some(n) => n == RouteSpec::routes_count(routes.deep_view()),
            None => RouteSpec::routes_count(routes.deep_view()) > usize::MAX,
        },
    decreases routes,
{
    if routes.len() == 0 {
        return Some(1);
    }
    let mut count: usize = 0;
    let mut i: usize = 0;
    while i < routes.len()
        invariant
            i <= routes.len(),
            routes.len() > 0,
            count + RouteSpec::count_from(routes.deep_view(), i as int) == RouteSpec::count_from(
                routes.deep_view(),
                0,
            ),
        decreases routes.len() - i,
    {
        match routes[i].checked_count_routes() {
            None => {
                return None;
            },
            Some(more) => match count.checked_add(more) {
                None => {
                    return None;
                },
                Some(sum) => {
                    count = sum;
                },
            },
        }
        i = i + 1;
    }
    Some(count)
}

/// Matches `path` against a set of alternatives, tried in declaration
/// order; the first that matches decides.
///
/// The empty set stands for the end of a route: it matches a path of which
/// nothing is left but, at most, one trailing separator. On success the
/// result holds the id of the leaf, the match of the alternative that was
/// taken (none for the empty set), and what was left of `path`. Otherwise it
/// holds no match, and `path` as it was given.
///
/// The ids are positions of leaves, so the set may not stand for more routes
/// than a `usize` can count; `checked_count_nested_routes` tells whether it
/// does.
pub fn match_nested_routes<'a, D, V>(routes: &'a Vec<NestedRoute<D, V>>, path: &'a str) -> (found: (
    Option<(RouteMatchId, Option<NestedMatch<'a, V>>)>,
    &'a str,
))
    requires
        RouteSpec::routes_count(routes.deep_view()) <= usize::MAX,
    ensures
        is_routes_match_of(found, routes.deep_view(), path@),
        found.0 matches Some((_, nested)) ==> {
            &&& consumed_by(nested_view(nested)) + found.1@ == path@
            &&& fully_consumed(found.1@)
        },
{
    proof {
        if RouteSpec::match_routes(routes.deep_view(), path@) is Some {
            lemma_routes_full_consumption(routes.deep_view(), path@, 0);
        }
    }
    match_routes_at(routes, path, 0)
}

/// Matches `path` against a set of alternatives, whose first leaf has
/// position `base`.
fn match_routes_at<'a, D, V>(routes: &'a Vec<NestedRoute<D, V>>, path: &'a str, base: usize) -> (found:
    (Option<(RouteMatchId, Option<NestedMatch<'a, V>>)>, &'a str))
    requires
        base + RouteSpec::routes_count(routes.deep_view()) <= usize::MAX,
    ensures
        match found.0 {
            Some((id, nested)) => RouteSpec::match_routes_at(
                routes.deep_view(),
                path@,
                base as nat,
            ) == Some((id@, nested_view(nested), found.1@)),
            None => {
                &&& RouteSpec::match_routes_at(routes.deep_view(), path@, base as nat) is None
                &&& found.1@ == path@
            },
        },
    decreases routes,
{
    if routes.len() == 0 {
        if is_fully_consumed(path) {
            return (Some((RouteMatchId(base), None)), path);
        } else {
            return (None, path);
        }
    }
    let mut first: usize = base;
    let mut i: usize = 0;
    while i < routes.len()
        invariant
            i <= routes.len(),
            first + RouteSpec::count_from(routes.deep_view(), i as int) <= usize::MAX,
            RouteSpec::first_match(routes.deep_view(), path@, base as nat, 0)
                == RouteSpec::first_match(routes.deep_view(), path@, first as nat, i as int),
        decreases routes.len() - i,
    {
        let (found, rest) = routes[i].match_nested_at(path, first);
        if let Some((id, nested)) = found {
            return (Some((id, Some(nested))), rest);
        }
        first = first + routes[i].count_routes();
        i = i + 1;
    }
    (None, path)
}

/// Lists the routes that a set of alternatives stands for: the routes of
/// the first alternative, then those of the second, and so on. The empty
/// set stands for the one empty route.
pub fn generate_nested_routes<D, V>(routes: &Vec<NestedRoute<D, V>>) -> (all: Vec<Vec<PathSegment>>)
    ensures
        all.deep_view() == RouteSpec::generate_all(routes.deep_view()),
        all.len() == RouteSpec::routes_count(routes.deep_view()),
    decreases routes,
{
    proof {
        RouteSpec::lemma_generate_all_len(routes.deep_view());
    }
    let mut all: Vec<Vec<PathSegment>> = Vec::new();
    if routes.len() == 0 {
        let empty: Vec<PathSegment> = Vec::new();
        assert(empty.deep_view() =~= Seq::<SegmentSpec>::empty());
        all.push(empty);
        assert(all.deep_view() =~= seq![Seq::<SegmentSpec>::empty()]);
        return all;
    }
    let mut i: usize = 0;
    assert(all.deep_view() + RouteSpec::generate_from(routes.deep_view(), 0)
        =~= RouteSpec::generate_from(routes.deep_view(), 0));
    while i < routes.len()
        invariant
            i <= routes.len(),
            all.deep_view() + RouteSpec::generate_from(routes.deep_view(), i as int)
                == RouteSpec::generate_from(routes.deep_view(), 0),
        decreases routes.len() - i,
    {
        let ghost before = all.deep_view();
        let mut more = routes[i].generate_routes();
        let ghost added = more.deep_view();
        all.append(&mut more);
        assert(all.deep_view() =~= before + added);
        assert((before + added) + RouteSpec::generate_from(routes.deep_view(), i + 1) =~= before + (
            added + RouteSpec::generate_from(routes.deep_view(), i + 1)));
        i = i + 1;
    }
    assert(all.deep_view() + Seq::<Seq<SegmentSpec>>::empty() =~= all.deep_view());
    all
}

/// Joins `head` and `tail` into one route, leaving out the empty markers.
fn join_route(head: &Vec<PathSegment>, tail: &Vec<PathSegment>) -> (route: Vec<PathSegment>)
    ensures
        route.deep_view() == without_unit(head.deep_view() + tail.deep_view()),
{
    let mut route: Vec<PathSegment> = Vec::new();
    assert(route.deep_view() =~= Seq::<SegmentSpec>::empty());
    push_kept(&mut route, head);
    push_kept(&mut route, tail);
    proof {
        Seq::filter_distributes_over_add(head.deep_view(), tail.deep_view(), kept());
        assert(route.deep_view() =~= without_unit(head.deep_view()) + without_unit(
            tail.deep_view(),
        ));
    }
    route
}

/// Appends to `route` copies of the segments of `segments` that are no
/// empty markers.
fn push_kept(route: &mut Vec<PathSegment>, segments: &Vec<PathSegment>)
    ensures
        final(route).deep_view() == old(route).deep_view() + without_unit(segments.deep_view()),
{
    let mut i: usize = 0;
    proof {
        assert(segments.deep_view().take(0) =~= Seq::<SegmentSpec>::empty());
        lemma_without_unit_empty();
        assert(route.deep_view() =~= old(route).deep_view() + without_unit(
            segments.deep_view().take(0),
        ));
    }
    while i < segments.len()
        invariant
            i <= segments.len(),
            route.deep_view() == old(route).deep_view() + without_unit(
                segments.deep_view().take(i as int),
            ),
        decreases segments.len() - i,
    {
        let ghost before = route.deep_view();
        proof {
            let seen = segments.deep_view().take(i as int);
            assert(segments.deep_view().take(i + 1) =~= seen.push(segments[i as int]@));
            seen.lemma_filter_push(segments[i as int]@, kept());
        }
        if !segments[i].is_unit() {
            route.push(segments[i].clone());
            assert(route.deep_view() =~= before.push(segments[i as int]@));
            assert(before.push(segments[i as int]@) =~= old(route).deep_view() + without_unit(
                segments.deep_view().take(i as int),
            ).push(segments[i as int]@));
        }
        i = i + 1;
    }
    assert(segments.deep_view().take(i as int) =~= segments.deep_view());
}

} // verus!
