//! The order of the parameters of a match.

use crate::model::{MatchSpec, RouteSpec};
use crate::segment::SegmentSpec;
use vstd::prelude::*;

verus! {

/// What a match, if there is one, captured at all its levels.
pub open spec fn params_of<V>(nested: Option<MatchSpec<V>>) -> Seq<(Seq<char>, Seq<char>)> {
    match nested {
        Some(inner) => inner.all_params(),
        None => Seq::empty(),
    }
}

/// Order of parameters: the parameters of a match are those that the
/// route's own patterns captured, followed by those of the match below it.
/// Every parameter of the outer level stands before every parameter of the
/// levels below, and none is dropped or merged, whatever its name.
pub proof fn lemma_params_order<V>(route: RouteSpec<V>, path: Seq<char>, base: nat)
    requires
        route.match_nested_at(path, base) is Some,
    ensures
        ({
            let nested = route.match_nested_at(path, base).unwrap().0;
            let own = SegmentSpec::test_all(route.segments, path).unwrap().params;
            let below = RouteSpec::match_routes_at(
                route.children,
                SegmentSpec::test_all(route.segments, path).unwrap().remaining,
                base,
            ).unwrap().1;
            &&& nested.params == own
            &&& nested.all_params() == own + params_of(below)
            &&& nested.all_params().len() == own.len() + params_of(below).len()
            &&& forall|i: int| 0 <= i < own.len() ==> nested.all_params()[i] == own[i]
            &&& forall|j: int|
                0 <= j < params_of(below).len() ==> nested.all_params()[own.len() + j] == params_of(
                    below,
                )[j]
        }),
{
    let nested = route.match_nested_at(path, base).unwrap().0;
    let own = SegmentSpec::test_all(route.segments, path).unwrap().params;
    let below = RouteSpec::match_routes_at(
        route.children,
        SegmentSpec::test_all(route.segments, path).unwrap().remaining,
        base,
    ).unwrap().1;
    if below is None {
        assert(own + Seq::<(Seq<char>, Seq<char>)>::empty() =~= own);
    }
    assert(nested.all_params() == own + params_of(below));
}

} // verus!
