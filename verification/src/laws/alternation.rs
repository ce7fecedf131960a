//! Alternatives are tried in declaration order, and the first that matches
//! decides.

use crate::model::{MatchSpec, RouteSpec};
use crate::segment::SegmentSpec;
use vstd::prelude::*;

verus! {

/// The number of routes that the alternatives before `routes[index]` stand
/// for.
pub open spec fn count_before<V>(routes: Seq<RouteSpec<V>>, index: int) -> nat
    decreases index,
{
    if 0 < index <= routes.len() {
        count_before(routes, index - 1) + routes[index - 1].route_count()
    } else {
        0
    }
}

/// The index of the first alternative at or after `from` that matches
/// `path` when taken alone, or the number of alternatives if none does.
pub open spec fn first_matching<V>(routes: Seq<RouteSpec<V>>, path: Seq<char>, from: int) -> int
    decreases routes.len() - from,
{
    if 0 <= from < routes.len() && routes[from].match_nested(path) is None {
        first_matching(routes, path, from + 1)
    } else {
        from
    }
}

/// The outcome of a set of alternatives where one of them gave `found`.
pub open spec fn taken<V>(found: Option<(MatchSpec<V>, Seq<char>)>) -> Option<
    (nat, Option<MatchSpec<V>>, Seq<char>),
> {
    match found {
        Some((nested, rest)) => Some((nested.id, Some(nested), rest)),
        None => None,
    }
}

/// First match wins: a set of alternatives matches a path exactly if one
/// of its alternatives does when taken alone, and then as the first such
/// alternative does in its place, behind the leaves of the alternatives
/// before it, however many alternatives match after it.
pub proof fn lemma_routes_match_first<V>(routes: Seq<RouteSpec<V>>, path: Seq<char>, base: nat)
    requires
        routes.len() > 0,
    ensures
        ({
            let first = first_matching(routes, path, 0);
            &&& 0 <= first <= routes.len()
            &&& forall|k: int| 0 <= k < first ==> (#[trigger] routes[k]).match_nested(path) is None
            &&& first < routes.len() ==> routes[first].match_nested(path) is Some
            &&& RouteSpec::match_routes_at(routes, path, base) == if first < routes.len() {
                taken(routes[first].match_nested_at(path, base + count_before(routes, first)))
            } else {
                None
            }
        }),
{
    lemma_first_matching(routes, path, 0);
    lemma_first_match_from(routes, path, base, 0);
}

/// Alternation order: if two alternatives of a set both match a path when
/// taken alone, the set matches as the first alternative that matches
/// does. That alternative is the first of the two or stands before it; it
/// is never the second.
pub proof fn lemma_first_alternative_wins<V>(
    routes: Seq<RouteSpec<V>>,
    path: Seq<char>,
    first: int,
    second: int,
)
    requires
        0 <= first < second < routes.len(),
        routes[first].match_nested(path) is Some,
        routes[second].match_nested(path) is Some,
    ensures
        ({
            let winner = first_matching(routes, path, 0);
            &&& 0 <= winner <= first
            &&& routes[winner].match_nested(path) is Some
            &&& forall|k: int| 0 <= k < winner ==> (#[trigger] routes[k]).match_nested(path) is None
            &&& RouteSpec::match_routes(routes, path) == taken(
                routes[winner].match_nested_at(path, count_before(routes, winner)),
            )
            &&& RouteSpec::match_routes(routes, path) is Some
        }),
{
    lemma_routes_match_first(routes, path, 0);
    let winner = first_matching(routes, path, 0);
    if first < winner {
        assert(routes[first].match_nested(path) is None);
    }
    lemma_match_shift(routes[winner], path, 0, count_before(routes, winner));
}

/// `first_matching` finds an alternative that matches and passes over none
/// that does.
proof fn lemma_first_matching<V>(routes: Seq<RouteSpec<V>>, path: Seq<char>, from: int)
    requires
        0 <= from <= routes.len(),
    ensures
        from <= first_matching(routes, path, from) <= routes.len(),
        forall|k: int|
            from <= k < first_matching(routes, path, from) ==> (#[trigger] routes[k]).match_nested(
                path,
            ) is None,
        first_matching(routes, path, from) < routes.len() ==> routes[first_matching(
            routes,
            path,
            from,
        )].match_nested(path) is Some,
    decreases routes.len() - from,
{
    if from < routes.len() && routes[from].match_nested(path) is None {
        lemma_first_matching(routes, path, from + 1);
    }
}

/// The search from `from` on ends at the first alternative that matches.
proof fn lemma_first_match_from<V>(
    routes: Seq<RouteSpec<V>>,
    path: Seq<char>,
    base: nat,
    from: int,
)
    requires
        0 <= from <= routes.len(),
    ensures
        ({
            let first = first_matching(routes, path, from);
            RouteSpec::first_match(routes, path, base + count_before(routes, from), from)
                == if first < routes.len() {
                taken(routes[first].match_nested_at(path, base + count_before(routes, first)))
            } else {
                None
            }
        }),
    decreases routes.len() - from,
{
    if from < routes.len() {
        lemma_match_shift(routes[from], path, 0, base + count_before(routes, from));
        if routes[from].match_nested(path) is None {
            assert(base + count_before(routes, from) + routes[from].route_count() == base
                + count_before(routes, from + 1));
            lemma_first_match_from(routes, path, base, from + 1);
        }
    }
}

/// A match with every id in it raised by `by`.
pub open spec fn shifted<V>(nested: MatchSpec<V>, by: nat) -> MatchSpec<V>
    decreases nested,
{
    MatchSpec {
        id: nested.id + by,
        matched: nested.matched,
        params: nested.params,
        child: match nested.child {
            Some(child) => Some(Box::new(shifted(*child, by))),
            None => None,
        },
        view: nested.view,
    }
}

/// The outcome of matching a route, with every id in it raised by `by`.
pub open spec fn shifted_match<V>(found: Option<(MatchSpec<V>, Seq<char>)>, by: nat) -> Option<
    (MatchSpec<V>, Seq<char>),
> {
    match found {
        Some((nested, rest)) => Some((shifted(nested, by), rest)),
        None => None,
    }
}

/// The outcome of matching a set of alternatives, with every id in it
/// raised by `by`.
pub open spec fn shifted_routes_match<V>(
    found: Option<(nat, Option<MatchSpec<V>>, Seq<char>)>,
    by: nat,
) -> Option<(nat, Option<MatchSpec<V>>, Seq<char>)> {
    match found {
        Some((id, Some(nested), rest)) => Some((id + by, Some(shifted(nested, by)), rest)),
        Some((id, None, rest)) => Some((id + by, None, rest)),
        None => None,
    }
}

/// Where a tree stands among the leaves before it changes the ids of a
/// match and nothing else.
pub proof fn lemma_match_shift<V>(route: RouteSpec<V>, path: Seq<char>, base: nat, by: nat)
    ensures
        route.match_nested_at(path, base + by) == shifted_match(
            route.match_nested_at(path, base),
            by,
        ),
    decreases route, 0nat, 0nat,
{
    match SegmentSpec::test_all(route.segments, path) {
        None => {},
        Some(partial) => {
            lemma_routes_match_shift(route.children, partial.remaining, base, by);
        },
    }
}

/// Where a set of alternatives stands among the leaves before it changes
/// the ids of a match and nothing else.
pub proof fn lemma_routes_match_shift<V>(
    routes: Seq<RouteSpec<V>>,
    path: Seq<char>,
    base: nat,
    by: nat,
)
    ensures
        RouteSpec::match_routes_at(routes, path, base + by) == shifted_routes_match(
            RouteSpec::match_routes_at(routes, path, base),
            by,
        ),
    decreases routes, 1nat, 0nat,
{
    if routes.len() > 0 {
        lemma_first_match_shift(routes, path, base, by, 0);
    }
}

/// Where the alternatives `routes[from..]` stand among the leaves before
/// them changes the ids of a match and nothing else.
proof fn lemma_first_match_shift<V>(
    routes: Seq<RouteSpec<V>>,
    path: Seq<char>,
    base: nat,
    by: nat,
    from: int,
)
    ensures
        RouteSpec::first_match(routes, path, base + by, from) == shifted_routes_match(
            RouteSpec::first_match(routes, path, base, from),
            by,
        ),
    decreases routes, 0nat, routes.len() - from,
{
    if 0 <= from < routes.len() {
        lemma_match_shift(routes[from], path, base, by);
        if routes[from].match_nested_at(path, base) is None {
            let count = routes[from].route_count();
            assert(base + by + count == (base + count) + by);
            lemma_first_match_shift(routes, path, base + count, by, from + 1);
        }
    }
}

} // verus!
