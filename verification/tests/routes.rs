use routing_utils::nested::{
    generate_nested_routes, match_nested_routes, NestedMatch, NestedRoute,
};
use routing_utils::segment::{PathSegment, Segment};

fn fixed(text: &str) -> Segment {
    Segment::Static(text.to_string())
}

fn param(name: &str) -> Segment {
    Segment::Param(name.to_string())
}

fn route(
    segments: Vec<Segment>,
    children: Vec<NestedRoute<(), &'static str>>,
    view: &'static str,
) -> NestedRoute<(), &'static str> {
    NestedRoute { segments, children, data: (), view }
}

fn users_tree() -> NestedRoute<(), &'static str> {
    route(vec![fixed("/users")], vec![route(vec![param("id")], vec![], "user")], "users")
}

fn a_tree() -> Vec<NestedRoute<(), &'static str>> {
    vec![
        route(vec![fixed("/a")], vec![], "first"),
        route(vec![fixed("/a"), param("x")], vec![], "second"),
    ]
}

fn views<'a>(nested: NestedMatch<'a, &'static str>) -> Vec<&'static str> {
    let mut seen = vec![*nested.to_view()];
    let mut level = nested.into_child();
    while let Some(inner) = level {
        seen.push(*inner.to_view());
        level = inner.into_child();
    }
    seen
}

#[test]
fn param_child_matches_one_component() {
    let tree = users_tree();
    let (found, remaining) = tree.match_nested("/users/42");
    let (_, nested) = found.expect("the path matches");
    assert_eq!(nested.to_params(), vec![("id", "42")]);
    assert_eq!(remaining, "");
    assert_eq!(nested.matched(), "/users");
    assert_eq!(views(nested), vec!["users", "user"]);
}

#[test]
fn unconsumed_component_fails_the_match() {
    let tree = users_tree();
    let (found, remaining) = tree.match_nested("/users/42/extra");
    assert!(found.is_none());
    assert_eq!(remaining, "/users/42/extra");
}

#[test]
fn shorter_alternative_matches_shorter_path() {
    let tree = a_tree();
    let (found, remaining) = match_nested_routes(&tree, "/a");
    let (id, nested) = found.expect("the path matches");
    let nested = nested.expect("an alternative was taken");
    assert_eq!(id.as_index(), 0);
    assert_eq!(nested.to_params(), Vec::<(&str, &str)>::new());
    assert_eq!(*nested.to_view(), "first");
    assert_eq!(remaining, "");
}

#[test]
fn second_alternative_matches_when_first_leaves_text() {
    let tree = a_tree();
    let (found, remaining) = match_nested_routes(&tree, "/a/5");
    let (id, nested) = found.expect("the path matches");
    let nested = nested.expect("an alternative was taken");
    assert_eq!(id.as_index(), 1);
    assert_eq!(nested.to_params(), vec![("x", "5")]);
    assert_eq!(*nested.to_view(), "second");
    assert_eq!(nested.matched(), "/a/5");
    assert_eq!(remaining, "");
}

#[test]
fn generated_routes_leave_out_unit() {
    let root = route(
        vec![],
        vec![
            route(vec![fixed("A")], vec![], "a"),
            route(vec![Segment::Unit, param("b")], vec![], "b"),
        ],
        "root",
    );
    assert_eq!(
        root.generate_routes(),
        vec![
            vec![PathSegment::Static("A".to_string())],
            vec![PathSegment::Param("b".to_string())],
        ]
    );
    assert_eq!(generate_nested_routes(&vec![root]).len(), 2);
}
