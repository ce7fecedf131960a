//! The id of a match: which leaf it stands for, and that matching the same
//! path again gives the same match.

use crate::laws::alternation::{count_before, first_matching, lemma_routes_match_first};
use crate::model::RouteSpec;
use crate::nested::{is_match_of, is_routes_match_of, nested_view, NestedMatch, RouteMatchId};
use crate::segment::SegmentSpec;
use vstd::prelude::*;

verus! {

/// Whether `trail` leads from the set `routes` down to a leaf: it names
/// one alternative at each level, and ends at a route without children.
pub open spec fn is_trail<V>(routes: Seq<RouteSpec<V>>, trail: Seq<int>) -> bool
    decreases trail.len(),
{
    if routes.len() == 0 {
        trail.len() == 0
    } else {
        &&& trail.len() > 0
        &&& 0 <= trail[0] < routes.len()
        &&& is_trail(routes[trail[0]].children, trail.drop_first())
    }
}

/// The position, among the leaves below `routes`, of the leaf that `trail`
/// leads to.
pub open spec fn leaf_position<V>(routes: Seq<RouteSpec<V>>, trail: Seq<int>) -> nat
    decreases trail.len(),
{
    if trail.len() > 0 && 0 <= trail[0] < routes.len() {
        count_before(routes, trail[0]) + leaf_position(
            routes[trail[0]].children,
            trail.drop_first(),
        )
    } else {
        0
    }
}

/// The alternatives that matching `path` against `routes` takes, level by
/// level: at each level the first alternative that matches.
pub open spec fn trail_taken<V>(routes: Seq<RouteSpec<V>>, path: Seq<char>) -> Seq<int>
    decreases routes,
{
    let first = first_matching(routes, path, 0);
    if 0 <= first < routes.len() {
        match SegmentSpec::test_all(routes[first].segments, path) {
            Some(partial) => seq![first] + trail_taken(routes[first].children, partial.remaining),
            None => seq![first],
        }
    } else {
        Seq::empty()
    }
}

/// The id of a match is the position of a leaf of the tree that was
/// matched, and every level of the match carries it.
pub proof fn lemma_match_id<V>(route: RouteSpec<V>, path: Seq<char>, base: nat)
    requires
        route.match_nested_at(path, base) is Some,
    ensures
        base <= route.match_nested_at(path, base).unwrap().0.id < base + route.route_count(),
        route.match_nested_at(path, base).unwrap().0.carries(
            route.match_nested_at(path, base).unwrap().0.id,
        ),
    decreases route, 0nat, 0nat,
{
    let partial = SegmentSpec::test_all(route.segments, path).unwrap();
    lemma_routes_match_id(route.children, partial.remaining, base);
}

/// The id that a set of alternatives gives is the position of one of its
/// leaves, and every level of the match carries it.
pub proof fn lemma_routes_match_id<V>(routes: Seq<RouteSpec<V>>, path: Seq<char>, base: nat)
    requires
        RouteSpec::match_routes_at(routes, path, base) is Some,
    ensures
        base <= RouteSpec::match_routes_at(routes, path, base).unwrap().0 < base
            + RouteSpec::routes_count(routes),
        match RouteSpec::match_routes_at(routes, path, base).unwrap().1 {
            Some(nested) => nested.carries(
                RouteSpec::match_routes_at(routes, path, base).unwrap().0,
            ),
            None => true,
        },
    decreases routes, 1nat, 0nat,
{
    if routes.len() > 0 {
        lemma_first_match_id(routes, path, base, 0);
    }
}

/// The id that the search through `routes[from..]` gives is the position
/// of one of their leaves, and every level of the match carries it.
proof fn lemma_first_match_id<V>(routes: Seq<RouteSpec<V>>, path: Seq<char>, base: nat, from: int)
    requires
        RouteSpec::first_match(routes, path, base, from) is Some,
    ensures
        base <= RouteSpec::first_match(routes, path, base, from).unwrap().0 < base
            + RouteSpec::count_from(routes, from),
        match RouteSpec::first_match(routes, path, base, from).unwrap().1 {
            Some(nested) => nested.carries(
                RouteSpec::first_match(routes, path, base, from).unwrap().0,
            ),
            None => true,
        },
    decreases routes, 0nat, routes.len() - from,
{
    if 0 <= from < routes.len() {
        if routes[from].match_nested_at(path, base) is Some {
            lemma_match_id(routes[from], path, base);
        } else {
            lemma_first_match_id(routes, path, base + routes[from].route_count(), from + 1);
        }
    }
}

/// The id of a match is the position of the leaf that the match ended in:
/// the match follows a trail to a leaf, and its id counts the leaves that
/// stand before that leaf.
pub proof fn lemma_id_is_leaf_position<V>(routes: Seq<RouteSpec<V>>, path: Seq<char>, base: nat)
    requires
        RouteSpec::match_routes_at(routes, path, base) is Some,
    ensures
        is_trail(routes, trail_taken(routes, path)),
        RouteSpec::match_routes_at(routes, path, base).unwrap().0 == base + leaf_position(
            routes,
            trail_taken(routes, path),
        ),
    decreases routes,
{
    if routes.len() > 0 {
        lemma_routes_match_first(routes, path, base);
        let first = first_matching(routes, path, 0);
        let partial = SegmentSpec::test_all(routes[first].segments, path).unwrap();
        let below = trail_taken(routes[first].children, partial.remaining);
        lemma_id_is_leaf_position(
            routes[first].children,
            partial.remaining,
            base + count_before(routes, first),
        );
        assert(trail_taken(routes, path).drop_first() =~= below);
    }
}

/// The same leaf has the same id, and only the same leaf: two paths that
/// match in one tree give the same id exactly if their matches took the
/// same alternative at every level.
pub proof fn lemma_same_id_same_leaf<V>(
    routes: Seq<RouteSpec<V>>,
    one: Seq<char>,
    other: Seq<char>,
    base: nat,
)
    requires
        RouteSpec::match_routes_at(routes, one, base) is Some,
        RouteSpec::match_routes_at(routes, other, base) is Some,
    ensures
        RouteSpec::match_routes_at(routes, one, base).unwrap().0 == RouteSpec::match_routes_at(
            routes,
            other,
            base,
        ).unwrap().0 <==> trail_taken(routes, one) == trail_taken(routes, other),
{
    lemma_id_is_leaf_position(routes, one, base);
    lemma_id_is_leaf_position(routes, other, base);
    if leaf_position(routes, trail_taken(routes, one)) == leaf_position(
        routes,
        trail_taken(routes, other),
    ) {
        lemma_leaf_position_tells_apart(routes, trail_taken(routes, one), trail_taken(routes, other));
    }
}

/// Idempotence: two matches of one path against one tree agree. Both
/// succeed or both fail, with the same remainder; if they succeed, they
/// carry the same id and hold the same matched text and the same
/// parameters at every level.
pub proof fn lemma_match_is_repeatable<V>(
    once: (Option<(RouteMatchId, NestedMatch<'_, V>)>, &str),
    again: (Option<(RouteMatchId, NestedMatch<'_, V>)>, &str),
    route: RouteSpec<V>,
    path: Seq<char>,
)
    requires
        is_match_of(once, route, path),
        is_match_of(again, route, path),
    ensures
        once.0 is Some <==> again.0 is Some,
        once.1@ == again.1@,
        once.0 is Some ==> {
            &&& once.0.unwrap().0 == again.0.unwrap().0
            &&& once.0.unwrap().1@ == again.0.unwrap().1@
        },
{
    if once.0 is Some {
        RouteMatchId::lemma_same_position(once.0.unwrap().0, again.0.unwrap().0);
    }
}

/// Idempotence for a set of alternatives: two matches of one path against
/// one set agree in success, remainder, id, and in the match of the
/// alternative that was taken.
pub proof fn lemma_routes_match_is_repeatable<V>(
    once: (Option<(RouteMatchId, Option<NestedMatch<'_, V>>)>, &str),
    again: (Option<(RouteMatchId, Option<NestedMatch<'_, V>>)>, &str),
    routes: Seq<RouteSpec<V>>,
    path: Seq<char>,
)
    requires
        is_routes_match_of(once, routes, path),
        is_routes_match_of(again, routes, path),
    ensures
        once.0 is Some <==> again.0 is Some,
        once.1@ == again.1@,
        once.0 is Some ==> {
            &&& once.0.unwrap().0 == again.0.unwrap().0
            &&& nested_view(once.0.unwrap().1) == nested_view(again.0.unwrap().1)
        },
{
    if once.0 is Some {
        RouteMatchId::lemma_same_position(once.0.unwrap().0, again.0.unwrap().0);
    }
}

/// As many routes stand before an alternative as before the one ahead of
/// it and in that one together.
pub proof fn lemma_count_before_grows<V>(routes: Seq<RouteSpec<V>>, i: int, j: int)
    requires
        0 <= i < j <= routes.len(),
    ensures
        count_before(routes, i) + routes[i].route_count() <= count_before(routes, j),
    decreases j - i,
{
    if i + 1 < j {
        lemma_count_before_grows(routes, i, j - 1);
    }
}

/// The alternatives from `from` on stand for what the whole set stands
/// for, less what stands before `from`.
proof fn lemma_count_before_all<V>(routes: Seq<RouteSpec<V>>, from: int)
    requires
        0 <= from <= routes.len(),
    ensures
        count_before(routes, from) + RouteSpec::count_from(routes, from) == count_before(
            routes,
            routes.len() as int,
        ),
    decreases routes.len() - from,
{
    if from < routes.len() {
        lemma_count_before_all(routes, from + 1);
    }
}

/// The leaf that a trail leads to stands among the leaves of the tree.
proof fn lemma_leaf_position_in_range<V>(routes: Seq<RouteSpec<V>>, trail: Seq<int>)
    requires
        is_trail(routes, trail),
    ensures
        leaf_position(routes, trail) < RouteSpec::routes_count(routes),
    decreases trail.len(),
{
    if routes.len() > 0 {
        let first = trail[0];
        lemma_leaf_position_in_range(routes[first].children, trail.drop_first());
        lemma_count_before_grows(routes, first, routes.len() as int);
        lemma_count_before_all(routes, 0);
    }
}

/// Trails to different leaves lead to different positions.
proof fn lemma_leaf_position_tells_apart<V>(
    routes: Seq<RouteSpec<V>>,
    one: Seq<int>,
    other: Seq<int>,
)
    requires
        is_trail(routes, one),
        is_trail(routes, other),
        leaf_position(routes, one) == leaf_position(routes, other),
    ensures
        one == other,
    decreases one.len(),
{
    if routes.len() == 0 {
        assert(one =~= other);
    } else {
        let i = one[0];
        let j = other[0];
        lemma_leaf_position_in_range(routes[i].children, one.drop_first());
        lemma_leaf_position_in_range(routes[j].children, other.drop_first());
        if i < j {
            lemma_count_before_grows(routes, i, j);
        } else if j < i {
            lemma_count_before_grows(routes, j, i);
        } else {
            lemma_leaf_position_tells_apart(routes[i].children, one.drop_first(), other.drop_first());
            assert(one =~= seq![i] + one.drop_first());
            assert(other =~= seq![j] + other.drop_first());
        }
    }
}

} // verus!
