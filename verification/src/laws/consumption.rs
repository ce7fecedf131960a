//! Full consumption: a match uses up its path.

use crate::model::{MatchSpec, RouteSpec};
use crate::path::fully_consumed;
use crate::segment::SegmentSpec;
use vstd::prelude::*;

verus! {

/// What a match, if there is one, took from the path at all its levels.
pub open spec fn consumed_by<V>(nested: Option<MatchSpec<V>>) -> Seq<char> {
    match nested {
        Some(inner) => inner.consumed(),
        None => Seq::empty(),
    }
}

/// Full consumption: what a match took at its levels, joined from the
/// outermost level to the leaf, is the whole path but for the remainder,
/// and the remainder is empty or one trailing separator.
pub proof fn lemma_full_consumption<V>(route: RouteSpec<V>, path: Seq<char>, base: nat)
    requires
        route.match_nested_at(path, base) is Some,
    ensures
        route.match_nested_at(path, base).unwrap().0.consumed() + route.match_nested_at(
            path,
            base,
        ).unwrap().1 == path,
        fully_consumed(route.match_nested_at(path, base).unwrap().1),
    decreases route, 0nat, 0nat,
{
    let partial = SegmentSpec::test_all(route.segments, path).unwrap();
    SegmentSpec::lemma_test_from_splits(route.segments, path, 0);
    lemma_routes_full_consumption(route.children, partial.remaining, base);
    let (id, child, rest) = RouteSpec::match_routes_at(
        route.children,
        partial.remaining,
        base,
    ).unwrap();
    let nested = route.match_nested_at(path, base).unwrap().0;
    assert(nested.consumed() == partial.matched + consumed_by(child)) by {
        if child is None {
            assert(partial.matched + Seq::<char>::empty() =~= partial.matched);
        }
    }
    assert((partial.matched + consumed_by(child)) + rest =~= partial.matched + (consumed_by(child)
        + rest));
}

/// Full consumption for a set of alternatives: the match of the
/// alternative that was taken, and the remainder, make up the path; the
/// remainder is empty or one trailing separator.
pub proof fn lemma_routes_full_consumption<V>(
    routes: Seq<RouteSpec<V>>,
    path: Seq<char>,
    base: nat,
)
    requires
        RouteSpec::match_routes_at(routes, path, base) is Some,
    ensures
        consumed_by(RouteSpec::match_routes_at(routes, path, base).unwrap().1)
            + RouteSpec::match_routes_at(routes, path, base).unwrap().2 == path,
        fully_consumed(RouteSpec::match_routes_at(routes, path, base).unwrap().2),
    decreases routes, 1nat, 0nat,
{
    if routes.len() == 0 {
        assert(Seq::<char>::empty() + path =~= path);
    } else {
        lemma_first_match_full_consumption(routes, path, base, 0);
    }
}

/// Full consumption for the search through `routes[from..]`.
proof fn lemma_first_match_full_consumption<V>(
    routes: Seq<RouteSpec<V>>,
    path: Seq<char>,
    base: nat,
    from: int,
)
    requires
        RouteSpec::first_match(routes, path, base, from) is Some,
    ensures
        consumed_by(RouteSpec::first_match(routes, path, base, from).unwrap().1)
            + RouteSpec::first_match(routes, path, base, from).unwrap().2 == path,
        fully_consumed(RouteSpec::first_match(routes, path, base, from).unwrap().2),
    decreases routes, 0nat, routes.len() - from,
{
    if 0 <= from < routes.len() {
        if routes[from].match_nested_at(path, base) is Some {
            lemma_full_consumption(routes[from], path, base);
        } else {
            lemma_first_match_full_consumption(
                routes,
                path,
                base + routes[from].route_count(),
                from + 1,
            );
        }
    }
}

} // verus!
