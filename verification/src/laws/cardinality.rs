//! How many routes a tree stands for, and which.

use crate::laws::alternation::count_before;
use crate::laws::identity::{
    is_trail, leaf_position, lemma_count_before_grows, lemma_id_is_leaf_position, trail_taken,
};
use crate::model::{kept, lemma_without_unit_empty, without_unit, RouteSpec};
use crate::segment::SegmentSpec;
use vstd::prelude::*;

verus! {

/// The product of the numbers of alternatives in the sets that `trail`
/// passes, from the set `routes` down to the leaf.
pub open spec fn width_product<V>(routes: Seq<RouteSpec<V>>, trail: Seq<int>) -> nat
    decreases trail.len(),
{
    if trail.len() > 0 && 0 <= trail[0] < routes.len() {
        routes.len() * width_product(routes[trail[0]].children, trail.drop_first())
    } else {
        1
    }
}

/// The trail that takes the first alternative at every level.
pub open spec fn first_trail<V>(routes: Seq<RouteSpec<V>>) -> Seq<int>
    decreases routes,
{
    if routes.len() > 0 {
        seq![0int] + first_trail(routes[0].children)
    } else {
        Seq::empty()
    }
}

/// Cardinality: where the numbers of alternatives, multiplied from the
/// root down to a leaf, give the same product along every trail, the tree
/// stands for that many routes.
pub proof fn lemma_route_count_is_product<V>(routes: Seq<RouteSpec<V>>, product: nat)
    requires
        forall|trail: Seq<int>| #[trigger]
            is_trail(routes, trail) ==> width_product(routes, trail) == product,
    ensures
        RouteSpec::generate_all(routes).len() == product,
        RouteSpec::routes_count(routes) == product,
    decreases routes,
{
    RouteSpec::lemma_generate_all_len(routes);
    if routes.len() == 0 {
        assert(is_trail(routes, Seq::<int>::empty()));
    } else {
        let width = routes.len();
        lemma_first_trail(routes[0].children);
        lemma_trail_through(routes, 0, first_trail(routes[0].children));
        let each = width_product(routes[0].children, first_trail(routes[0].children));
        assert forall|i: int| 0 <= i < routes.len() implies (#[trigger] routes[i]).route_count()
            == each by {
            let below = routes[i].children;
            lemma_first_trail(below);
            lemma_trail_through(routes, i, first_trail(below));
            let here = width_product(below, first_trail(below));
            assert(here == each) by (nonlinear_arith)
                requires
                    width * here == product,
                    width * each == product,
                    width > 0,
            ;
            assert forall|trail: Seq<int>| #[trigger] is_trail(below, trail) implies width_product(
                below,
                trail,
            ) == each by {
                lemma_trail_through(routes, i, trail);
                let there = width_product(below, trail);
                assert(there == each) by (nonlinear_arith)
                    requires
                        width * there == product,
                        width * each == product,
                        width > 0,
                ;
            }
            lemma_route_count_is_product(below, each);
        }
        lemma_count_of_equals(routes, each, 0);
    }
}

/// The patterns of the routes that `trail` passes, from the outermost on.
pub open spec fn segments_along<V>(routes: Seq<RouteSpec<V>>, trail: Seq<int>) -> Seq<SegmentSpec>
    decreases trail.len(),
{
    if trail.len() > 0 && 0 <= trail[0] < routes.len() {
        routes[trail[0]].segments + segments_along(routes[trail[0]].children, trail.drop_first())
    } else {
        Seq::empty()
    }
}

/// The id of a match is the position of the matched route in the list of
/// routes that the tree stands for: the route at that position is made of
/// the patterns that the match passed, without empty markers.
pub proof fn lemma_id_is_route_position<V>(routes: Seq<RouteSpec<V>>, path: Seq<char>, base: nat)
    requires
        RouteSpec::match_routes_at(routes, path, base) is Some,
    ensures
        ({
            let id = RouteSpec::match_routes_at(routes, path, base).unwrap().0;
            let generated = RouteSpec::generate_all(routes);
            &&& base <= id < base + generated.len()
            &&& generated[id - base] == without_unit(
                segments_along(routes, trail_taken(routes, path)),
            )
        }),
{
    lemma_id_is_leaf_position(routes, path, base);
    lemma_route_at_leaf_position(routes, trail_taken(routes, path));
}

/// No route that a tree stands for holds an empty marker.
pub proof fn lemma_routes_hold_no_unit<V>(route: RouteSpec<V>, i: int, j: int)
    requires
        0 <= i < route.generate_routes().len(),
        0 <= j < route.generate_routes()[i].len(),
    ensures
        route.generate_routes()[i][j] != SegmentSpec::Unit,
{
    let tails = RouteSpec::generate_all(route.children);
    (route.segments + tails[i]).lemma_filter_pred(kept(), j);
}

/// `first_trail` is a trail.
proof fn lemma_first_trail<V>(routes: Seq<RouteSpec<V>>)
    ensures
        is_trail(routes, first_trail(routes)),
    decreases routes,
{
    if routes.len() > 0 {
        lemma_first_trail(routes[0].children);
        assert(first_trail(routes).drop_first() =~= first_trail(routes[0].children));
    }
}

/// A trail below an alternative, with that alternative put before it, is a
/// trail of the set.
proof fn lemma_trail_through<V>(routes: Seq<RouteSpec<V>>, index: int, below: Seq<int>)
    requires
        0 <= index < routes.len(),
        is_trail(routes[index].children, below),
    ensures
        is_trail(routes, seq![index] + below),
        width_product(routes, seq![index] + below) == routes.len() * width_product(
            routes[index].children,
            below,
        ),
{
    assert((seq![index] + below).drop_first() =~= below);
}

/// Alternatives that stand for `each` routes each stand for `each` times
/// their number together.
proof fn lemma_count_of_equals<V>(routes: Seq<RouteSpec<V>>, each: nat, from: int)
    requires
        0 <= from <= routes.len(),
        forall|i: int| 0 <= i < routes.len() ==> (#[trigger] routes[i]).route_count() == each,
    ensures
        RouteSpec::count_from(routes, from) == (routes.len() - from) * each,
    decreases routes.len() - from,
{
    if from < routes.len() {
        lemma_count_of_equals(routes, each, from + 1);
        assert(each + (routes.len() - (from + 1)) * each == (routes.len() - from) * each)
            by (nonlinear_arith);
    } else {
        assert((routes.len() - from) * each == 0) by (nonlinear_arith)
            requires
                routes.len() - from == 0,
        ;
    }
}

/// Leaving out empty markers twice leaves out no more than once.
proof fn lemma_without_unit_twice(route: Seq<SegmentSpec>)
    ensures
        without_unit(without_unit(route)) == without_unit(route),
    decreases route.len(),
{
    if route.len() == 0 {
        assert(route =~= Seq::<SegmentSpec>::empty());
        lemma_without_unit_empty();
    } else {
        let front = route.drop_last();
        let last = route.last();
        lemma_without_unit_twice(front);
        assert(route =~= front.push(last));
        front.lemma_filter_push(last, kept());
        without_unit(front).lemma_filter_push(last, kept());
    }
}

/// Empty markers may be left out of the end of a route before or after it
/// is joined to its start.
proof fn lemma_without_unit_absorbs(head: Seq<SegmentSpec>, tail: Seq<SegmentSpec>)
    ensures
        without_unit(head + without_unit(tail)) == without_unit(head + tail),
{
    Seq::filter_distributes_over_add(head, without_unit(tail), kept());
    Seq::filter_distributes_over_add(head, tail, kept());
    lemma_without_unit_twice(tail);
}

/// The routes of one alternative stand in the list of the whole set behind
/// the routes of the alternatives before it.
proof fn lemma_generated_route_at<V>(routes: Seq<RouteSpec<V>>, from: int, index: int, at: int)
    requires
        0 <= from <= index < routes.len(),
        0 <= at < routes[index].route_count(),
    ensures
        count_before(routes, from) <= count_before(routes, index),
        count_before(routes, index) - count_before(routes, from) + at < RouteSpec::generate_from(
            routes,
            from,
        ).len(),
        RouteSpec::generate_from(routes, from)[count_before(routes, index) - count_before(
            routes,
            from,
        ) + at] == routes[index].generate_routes()[at],
    decreases index - from,
{
    routes[from].lemma_generate_routes_len();
    RouteSpec::lemma_generate_from_len(routes, from + 1);
    if from < index {
        lemma_count_before_grows(routes, from, index);
        lemma_generated_route_at(routes, from + 1, index, at);
    }
}

/// The route at the position that a trail leads to is made of the patterns
/// along the trail, without empty markers.
proof fn lemma_route_at_leaf_position<V>(routes: Seq<RouteSpec<V>>, trail: Seq<int>)
    requires
        is_trail(routes, trail),
    ensures
        leaf_position(routes, trail) < RouteSpec::generate_all(routes).len(),
        RouteSpec::generate_all(routes)[leaf_position(routes, trail) as int] == without_unit(
            segments_along(routes, trail),
        ),
    decreases trail.len(),
{
    if routes.len() == 0 {
        lemma_without_unit_empty();
    } else {
        let first = trail[0];
        let below = trail.drop_first();
        let at = leaf_position(routes[first].children, below) as int;
        let own = routes[first].segments;
        let along = segments_along(routes[first].children, below);
        lemma_route_at_leaf_position(routes[first].children, below);
        RouteSpec::lemma_generate_all_len(routes[first].children);
        lemma_generated_route_at(routes, 0, first, at);
        assert(RouteSpec::generate_all(routes)[leaf_position(routes, trail) as int]
            == routes[first].generate_routes()[at]);
        assert(routes[first].generate_routes()[at] == without_unit(own + without_unit(along)));
        lemma_without_unit_absorbs(own, along);
        assert(segments_along(routes, trail) == own + along);
    }
}

} // verus!
