//! The model of a route tree and of a match: what matching a path against a
//! tree gives, and which routes a tree stands for, as functions on
//! sequences.

use crate::path::fully_consumed;
use crate::segment::SegmentSpec;
use vstd::prelude::*;

verus! {

/// A route as matching and enumeration see it: its patterns, its children
/// in declaration order, and the payload that a match refers to.
pub struct RouteSpec<V> {
    pub segments: Seq<SegmentSpec>,
    pub children: Seq<RouteSpec<V>>,
    pub view: V,
}

/// One level of a successful match, with the levels below it.
pub struct MatchSpec<V> {
    /// Position of the matched leaf among the leaves of the tree.
    pub id: nat,
    /// What this level's own patterns took from the path.
    pub matched: Seq<char>,
    /// What this level's own patterns captured.
    pub params: Seq<(Seq<char>, Seq<char>)>,
    /// The match of the child that was taken, if this level is no leaf.
    pub child: Option<Box<MatchSpec<V>>>,
    /// The payload of the route matched at this level.
    pub view: V,
}

impl<V> MatchSpec<V> {
    /// The parameters of this level followed by those of the levels below.
    pub open spec fn all_params(self) -> Seq<(Seq<char>, Seq<char>)>
        decreases self,
    {
        match self.child {
            Some(child) => self.params + child.all_params(),
            None => self.params,
        }
    }

    /// What this level and the levels below took from the path, joined in
    /// that order.
    pub open spec fn consumed(self) -> Seq<char>
        decreases self,
    {
        match self.child {
            Some(child) => self.matched + child.consumed(),
            None => self.matched,
        }
    }

    /// Every level carries `id`.
    pub open spec fn carries(self, id: nat) -> bool
        decreases self,
    {
        &&& self.id == id
        &&& match self.child {
            Some(child) => child.carries(id),
            None => true,
        }
    }
}

/// Puts an optional match in a box, as the level above holds it.
pub open spec fn boxed<V>(nested: Option<MatchSpec<V>>) -> Option<Box<MatchSpec<V>>> {
    match nested {
        Some(inner) => Some(Box::new(inner)),
        None => None,
    }
}

impl<V> RouteSpec<V> {
    /// The number of routes that this route stands for: as many as its
    /// children do.
    pub open spec fn route_count(self) -> nat
        decreases self, 0nat, 0nat,
    {
        Self::routes_count(self.children)
    }

    /// The number of routes that a set of alternatives stands for: one for
    /// the empty set, which closes a route; else the sum over the
    /// alternatives.
    pub open spec fn routes_count(routes: Seq<RouteSpec<V>>) -> nat
        decreases routes, 1nat, 0nat,
    {
        if routes.len() == 0 {
            1
        } else {
            Self::count_from(routes, 0)
        }
    }

    /// The number of routes that the alternatives `routes[from..]` stand
    /// for.
    pub open spec fn count_from(routes: Seq<RouteSpec<V>>, from: int) -> nat
        decreases routes, 0nat, routes.len() - from,
    {
        if 0 <= from < routes.len() {
            routes[from].route_count() + Self::count_from(routes, from + 1)
        } else {
            0
        }
    }

    /// Matches `path` against this route, whose first leaf has position
    /// `base`.
    ///
    /// The route's own patterns must match a prefix of `path`, its
    /// children must match what is left, and what they leave in turn must
    /// be used up. The result is the match and the final remainder.
    pub open spec fn match_nested_at(self, path: Seq<char>, base: nat) -> Option<
        (MatchSpec<V>, Seq<char>),
    >
        decreases self, 0nat, 0nat,
    {
        match SegmentSpec::test_all(self.segments, path) {
            None => None,
            Some(partial) => match Self::match_routes_at(self.children, partial.remaining, base) {
                None => None,
                Some((id, child, rest)) => if fully_consumed(rest) {
                    Some(
                        (
                            MatchSpec {
                                id,
                                matched: partial.matched,
                                params: partial.params,
                                child: boxed(child),
                                view: self.view,
                            },
                            rest,
                        ),
                    )
                } else {
                    None
                },
            },
        }
    }

    /// Matches `path` against a set of alternatives, whose first leaf has
    /// position `base`.
    ///
    /// The empty set matches a path that is used up, and nothing else; it
    /// is the leaf at `base`. Any other set matches as its first
    /// alternative that matches does. The result is the id of the leaf, the
    /// match of that alternative (none for the empty set), and the
    /// remainder.
    pub open spec fn match_routes_at(routes: Seq<RouteSpec<V>>, path: Seq<char>, base: nat) -> Option<
        (nat, Option<MatchSpec<V>>, Seq<char>),
    >
        decreases routes, 1nat, 0nat,
    {
        if routes.len() == 0 {
            if fully_consumed(path) {
                Some((base, None, path))
            } else {
                None
            }
        } else {
            Self::first_match(routes, path, base, 0)
        }
    }

    /// The match of the first of `routes[from..]` that matches `path`,
    /// where `base` is the position of the first leaf of `routes[from]`.
    pub open spec fn first_match(
        routes: Seq<RouteSpec<V>>,
        path: Seq<char>,
        base: nat,
        from: int,
    ) -> Option<(nat, Option<MatchSpec<V>>, Seq<char>)>
        decreases routes, 0nat, routes.len() - from,
    {
        if 0 <= from < routes.len() {
            match routes[from].match_nested_at(path, base) {
                Some((nested, rest)) => Some((nested.id, Some(nested), rest)),
                None => Self::first_match(
                    routes,
                    path,
                    base + routes[from].route_count(),
                    from + 1,
                ),
            }
        } else {
            None
        }
    }

    /// Matches `path` against this route taken as a tree of its own.
    pub open spec fn match_nested(self, path: Seq<char>) -> Option<(MatchSpec<V>, Seq<char>)> {
        self.match_nested_at(path, 0)
    }

    /// Matches `path` against a set of alternatives taken as a tree of its
    /// own.
    pub open spec fn match_routes(routes: Seq<RouteSpec<V>>, path: Seq<char>) -> Option<
        (nat, Option<MatchSpec<V>>, Seq<char>),
    > {
        Self::match_routes_at(routes, path, 0)
    }

    /// The routes that this route stands for: its own fragments before
    /// each route of its children, without empty markers.
    pub open spec fn generate_routes(self) -> Seq<Seq<SegmentSpec>>
        decreases self, 0nat, 0nat,
    {
        prepend_to_each(self.segments, Self::generate_all(self.children))
    }

    /// The routes that a set of alternatives stands for: the one empty
    /// route for the empty set; else the routes of the alternatives, one
    /// alternative after the other.
    pub open spec fn generate_all(routes: Seq<RouteSpec<V>>) -> Seq<Seq<SegmentSpec>>
        decreases routes, 1nat, 0nat,
    {
        if routes.len() == 0 {
            seq![Seq::empty()]
        } else {
            Self::generate_from(routes, 0)
        }
    }

    /// The routes of the alternatives `routes[from..]`, one alternative
    /// after the other.
    pub open spec fn generate_from(routes: Seq<RouteSpec<V>>, from: int) -> Seq<Seq<SegmentSpec>>
        decreases routes, 0nat, routes.len() - from,
    {
        if 0 <= from < routes.len() {
            routes[from].generate_routes() + Self::generate_from(routes, from + 1)
        } else {
            Seq::empty()
        }
    }
}

impl<V> RouteSpec<V> {
    /// A route stands for as many routes as `route_count` says.
    pub proof fn lemma_generate_routes_len(self)
        ensures
            self.generate_routes().len() == self.route_count(),
        decreases self, 0nat, 0nat,
    {
        Self::lemma_generate_all_len(self.children);
    }

    /// A set of alternatives stands for as many routes as `routes_count`
    /// says.
    pub proof fn lemma_generate_all_len(routes: Seq<RouteSpec<V>>)
        ensures
            Self::generate_all(routes).len() == Self::routes_count(routes),
        decreases routes, 1nat, 0nat,
    {
        if routes.len() > 0 {
            Self::lemma_generate_from_len(routes, 0);
        }
    }

    /// The alternatives `routes[from..]` stand for as many routes as
    /// `count_from` says.
    pub proof fn lemma_generate_from_len(routes: Seq<RouteSpec<V>>, from: int)
        ensures
            Self::generate_from(routes, from).len() == Self::count_from(routes, from),
        decreases routes, 0nat, routes.len() - from,
    {
        if 0 <= from < routes.len() {
            routes[from].lemma_generate_routes_len();
            Self::lemma_generate_from_len(routes, from + 1);
        }
    }
}

/// Tells an empty marker from the segments that stay in a route.
pub open spec fn is_kept(segment: SegmentSpec) -> bool {
    segment != SegmentSpec::Unit
}

/// `is_kept` as a predicate to filter by.
pub open spec fn kept() -> spec_fn(SegmentSpec) -> bool {
    |segment: SegmentSpec| is_kept(segment)
}

/// `route` without its empty markers.
pub open spec fn without_unit(route: Seq<SegmentSpec>) -> Seq<SegmentSpec> {
    route.filter(kept())
}

/// Nothing is left out of an empty route.
pub proof fn lemma_without_unit_empty()
    ensures
        without_unit(Seq::empty()) == Seq::<SegmentSpec>::empty(),
{
    Seq::<SegmentSpec>::empty().lemma_filter_len(kept());
    assert(without_unit(Seq::empty()) =~= Seq::<SegmentSpec>::empty());
}

/// Each of `tails` with `head` before it, and the empty markers left out.
pub open spec fn prepend_to_each(head: Seq<SegmentSpec>, tails: Seq<Seq<SegmentSpec>>) -> Seq<
    Seq<SegmentSpec>,
> {
    Seq::new(tails.len(), |i: int| without_unit(head + tails[i]))
}

} // verus!
