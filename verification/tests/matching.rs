use routing_utils::nested::{match_nested_routes, NestedMatch, NestedRoute};
use routing_utils::segment::Segment;

type Route = NestedRoute<u32, &'static str>;

fn fixed(text: &str) -> Segment {
    Segment::Static(text.to_string())
}

fn param(name: &str) -> Segment {
    Segment::Param(name.to_string())
}

fn splat(name: &str) -> Segment {
    Segment::Splat(name.to_string())
}

fn route(segments: Vec<Segment>, children: Vec<Route>, view: &'static str) -> Route {
    NestedRoute { segments, children, data: 0, view }
}

/// Leaves, in declaration order:
///   0  /                      home
///   1  /users                 (index route of users)
///   2  /users/:id             user
///   3  /users/:id/posts/:id   post
///   4  /about                 about
///   5  /files/*path           files
fn site() -> Vec<Route> {
    vec![
        route(vec![fixed("/")], vec![], "home"),
        route(
            vec![fixed("/users")],
            vec![
                route(vec![Segment::Unit], vec![], "user list"),
                route(
                    vec![param("id")],
                    vec![
                        route(vec![], vec![], "user"),
                        route(vec![fixed("posts"), param("id")], vec![], "post"),
                    ],
                    "user frame",
                ),
            ],
            "users",
        ),
        route(vec![fixed("/about")], vec![], "about"),
        route(vec![fixed("/files"), splat("path")], vec![], "files"),
    ]
}

/// The matched text, the id and the payload of every level, from the
/// outermost to the leaf.
fn levels<'a>(nested: NestedMatch<'a, &'static str>) -> Vec<(String, usize, &'static str)> {
    let mut seen = Vec::new();
    let mut level = Some(nested);
    while let Some(inner) = level {
        seen.push((inner.as_matched().to_string(), inner.as_id().as_index(), *inner.to_view()));
        level = inner.into_child();
    }
    seen
}

fn matched_leaf(routes: &Vec<Route>, path: &str) -> Option<(usize, &'static str)> {
    let (found, _) = match_nested_routes(routes, path);
    let (id, nested) = found?;
    let seen = levels(nested?);
    let (_, _, view) = seen.last()?;
    Some((id.as_index(), *view))
}

#[test]
fn each_leaf_is_reached_under_its_own_id() {
    let routes = site();
    assert_eq!(matched_leaf(&routes, "/"), Some((0, "home")));
    assert_eq!(matched_leaf(&routes, ""), Some((0, "home")));
    assert_eq!(matched_leaf(&routes, "/users"), Some((1, "user list")));
    assert_eq!(matched_leaf(&routes, "/users/7"), Some((2, "user")));
    assert_eq!(matched_leaf(&routes, "/users/7/posts/9"), Some((3, "post")));
    assert_eq!(matched_leaf(&routes, "/about"), Some((4, "about")));
    assert_eq!(matched_leaf(&routes, "/files/a/b.txt"), Some((5, "files")));
    assert_eq!(matched_leaf(&routes, "/files"), Some((5, "files")));
}

#[test]
fn same_leaf_has_same_id_for_different_paths() {
    let routes = site();
    assert_eq!(matched_leaf(&routes, "/users/1"), matched_leaf(&routes, "/users/anyone"));
    assert_eq!(
        matched_leaf(&routes, "/users/1/posts/2"),
        matched_leaf(&routes, "/users/3/posts/4")
    );
}

#[test]
fn paths_that_no_route_covers_do_not_match() {
    let routes = site();
    for path in ["/nothing", "/users/7/posts", "/users/7/posts/9/more", "/about/us", "/abouts"] {
        let (found, remaining) = match_nested_routes(&routes, path);
        assert!(found.is_none(), "{path} should not match");
        assert_eq!(remaining, path);
    }
}

#[test]
fn trailing_separator_is_left_over() {
    let routes = site();
    let (found, remaining) = match_nested_routes(&routes, "/users/7/");
    let (id, nested) = found.expect("the path matches");
    assert_eq!(id.as_index(), 2);
    assert_eq!(remaining, "/");
    assert_eq!(nested.expect("an alternative was taken").to_params(), vec![("id", "7")]);
    let (found, remaining) = match_nested_routes(&routes, "/about/");
    assert!(found.is_some());
    assert_eq!(remaining, "/");
}

#[test]
fn two_trailing_separators_do_not_match() {
    let routes = site();
    let (found, remaining) = match_nested_routes(&routes, "/about//");
    assert!(found.is_none());
    assert_eq!(remaining, "/about//");
}

#[test]
fn every_level_carries_the_id_of_the_leaf() {
    let routes = site();
    let (found, _) = match_nested_routes(&routes, "/users/7/posts/9");
    let (id, nested) = found.expect("the path matches");
    assert_eq!(id.as_index(), 3);
    assert_eq!(
        levels(nested.expect("an alternative was taken")),
        vec![
            ("/users".to_string(), 3, "users"),
            ("/7".to_string(), 3, "user frame"),
            ("/posts/9".to_string(), 3, "post"),
        ]
    );
}

#[test]
fn matched_levels_and_remainder_make_up_the_path() {
    let routes = site();
    for path in ["/users/7/posts/9", "/users/7/posts/9/", "/users", "/files/x/y/z", "/"] {
        let (found, remaining) = match_nested_routes(&routes, path);
        let (_, nested) = found.expect("the path matches");
        let mut joined = String::new();
        for (matched, _, _) in levels(nested.expect("an alternative was taken")) {
            joined.push_str(&matched);
        }
        joined.push_str(remaining);
        assert_eq!(joined, path);
        assert!(remaining.is_empty() || remaining == "/");
    }
}

#[test]
fn outer_params_come_before_inner_params_and_names_may_repeat() {
    let routes = site();
    let (found, _) = match_nested_routes(&routes, "/users/7/posts/9");
    let (_, nested) = found.expect("the path matches");
    let users = nested.expect("an alternative was taken");
    assert_eq!(users.to_params(), vec![("id", "7"), ("id", "9")]);
    let frame = users.into_child().expect("users has a child");
    assert_eq!(frame.to_params(), vec![("id", "7"), ("id", "9")]);
    let post = frame.into_child().expect("the frame has a child");
    assert_eq!(post.to_params(), vec![("id", "9")]);
    assert!(post.into_child().is_none());
}

#[test]
fn matching_twice_gives_equal_results() {
    let routes = site();
    for path in ["/users/7/posts/9", "/about/", "/nothing", ""] {
        let once = match_nested_routes(&routes, path);
        let again = match_nested_routes(&routes, path);
        assert_eq!(once, again);
    }
    let tree = &routes[1];
    let once = tree.match_nested("/users/7");
    let again = tree.match_nested("/users/7");
    assert_eq!(once, again);
    let (id, nested) = once.0.expect("the path matches");
    let (same_id, same_nested) = again.0.expect("the path matches");
    assert_eq!(id, same_id);
    assert_eq!(nested.matched(), same_nested.matched());
    assert_eq!(nested.to_params(), same_nested.to_params());
}

#[test]
fn first_of_two_matching_alternatives_is_taken() {
    let routes = vec![
        route(vec![param("first")], vec![], "first"),
        route(vec![param("second")], vec![], "second"),
        route(vec![fixed("/a")], vec![], "third"),
    ];
    let (found, _) = match_nested_routes(&routes, "/a");
    let (id, nested) = found.expect("the path matches");
    let nested = nested.expect("an alternative was taken");
    assert_eq!(id.as_index(), 0);
    assert_eq!(*nested.to_view(), "first");
    assert_eq!(nested.to_params(), vec![("first", "a")]);
}

#[test]
fn alternative_is_matched_in_a_set_as_it_is_alone_but_for_the_id() {
    let routes = site();
    let path = "/users/7/posts/9";
    let alone = routes[1].match_nested(path);
    let (alone_id, alone_match) = alone.0.expect("the path matches");
    let (found, remaining) = match_nested_routes(&routes, path);
    let (id, nested) = found.expect("the path matches");
    let nested = nested.expect("an alternative was taken");
    assert_eq!(alone_id.as_index(), 2);
    assert_eq!(id.as_index(), 3);
    assert_eq!(alone.1, remaining);
    assert_eq!(alone_match.to_params(), nested.to_params());
    assert_eq!(alone_match.matched(), nested.matched());
}

#[test]
fn route_fails_if_its_children_fail() {
    let tree = route(vec![fixed("/a")], vec![route(vec![fixed("b")], vec![], "b")], "a");
    let (found, remaining) = tree.match_nested("/a");
    assert!(found.is_none());
    assert_eq!(remaining, "/a");
    let (found, remaining) = tree.match_nested("/a/c");
    assert!(found.is_none());
    assert_eq!(remaining, "/a/c");
}

#[test]
fn route_fails_if_its_own_patterns_fail() {
    let tree = route(vec![fixed("/a")], vec![route(vec![splat("any")], vec![], "b")], "a");
    let (found, remaining) = tree.match_nested("/b/c");
    assert!(found.is_none());
    assert_eq!(remaining, "/b/c");
    assert!(tree.match_nested("/a/b/c").0.is_some());
}

#[test]
fn empty_set_matches_only_what_is_used_up() {
    let none: Vec<Route> = Vec::new();
    for path in ["", "/"] {
        let (found, remaining) = match_nested_routes(&none, path);
        let (id, nested) = found.expect("the end of a route matches");
        assert_eq!(id.as_index(), 0);
        assert!(nested.is_none());
        assert_eq!(remaining, path);
    }
    for path in ["/a", "a", "//"] {
        let (found, remaining) = match_nested_routes(&none, path);
        assert!(found.is_none());
        assert_eq!(remaining, path);
    }
}

#[test]
fn leaf_match_has_no_child() {
    let leaf = route(vec![fixed("/a")], vec![], "a");
    let (found, remaining) = leaf.match_nested("/a");
    let (id, nested) = found.expect("the path matches");
    assert_eq!(id.as_index(), 0);
    assert_eq!(nested.as_id(), id);
    assert_eq!(nested.as_matched(), "/a");
    assert_eq!(nested.matched(), "/a");
    assert_eq!(*nested.to_view(), "a");
    assert_eq!(remaining, "");
    assert!(nested.into_child().is_none());
}

#[test]
fn route_without_patterns_passes_the_path_to_its_children() {
    let tree = route(vec![], vec![route(vec![param("x")], vec![], "x")], "frame");
    let (found, _) = tree.match_nested("/1");
    let (_, nested) = found.expect("the path matches");
    assert_eq!(nested.matched(), "");
    assert_eq!(nested.to_params(), vec![("x", "1")]);
}

#[test]
fn data_is_stored_untouched() {
    let tree: NestedRoute<Vec<u8>, ()> =
        NestedRoute { segments: vec![], children: vec![], data: vec![1, 2, 3], view: () };
    assert!(tree.match_nested("").0.is_some());
    assert_eq!(tree.data, vec![1, 2, 3]);
}
