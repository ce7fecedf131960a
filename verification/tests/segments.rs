use routing_utils::segment::{
    generate_segments, test_segments, PartialPathMatch, PathSegment, Segment,
};

fn fixed(text: &str) -> Segment {
    Segment::Static(text.to_string())
}

fn param(name: &str) -> Segment {
    Segment::Param(name.to_string())
}

fn splat(name: &str) -> Segment {
    Segment::Splat(name.to_string())
}

fn partial<'a>(
    matched: &'a str,
    params: Vec<(&'a str, &'a str)>,
    remaining: &'a str,
) -> Option<PartialPathMatch<'a>> {
    Some(PartialPathMatch { remaining, params, matched })
}

#[test]
fn unit_takes_nothing() {
    assert_eq!(Segment::Unit.test("/a/b"), partial("", vec![], "/a/b"));
    assert_eq!(Segment::Unit.test(""), partial("", vec![], ""));
}

#[test]
fn static_matches_with_its_separator() {
    let segment = fixed("/users");
    assert_eq!(segment.test("/users/42"), partial("/users", vec![], "/42"));
    assert_eq!(segment.test("/users"), partial("/users", vec![], ""));
    assert_eq!(segment.test("/users/"), partial("/users", vec![], "/"));
}

#[test]
fn static_written_without_separator_matches_alike() {
    let segment = fixed("users");
    assert_eq!(segment.test("/users/42"), partial("/users", vec![], "/42"));
    assert_eq!(segment.test("users/42"), partial("users", vec![], "/42"));
}

#[test]
fn static_with_separator_matches_path_without_one() {
    assert_eq!(fixed("/users").test("users"), partial("users", vec![], ""));
}

#[test]
fn static_must_match_verbatim() {
    let segment = fixed("/users");
    assert_eq!(segment.test("/user"), None);
    assert_eq!(segment.test("/usern"), None);
    assert_eq!(segment.test("/Users"), None);
    assert_eq!(segment.test(""), None);
    assert_eq!(segment.test("/"), None);
    assert_eq!(segment.test("//users"), None);
}

#[test]
fn static_must_end_where_a_component_ends() {
    assert_eq!(fixed("/users").test("/usersfoo"), None);
    assert_eq!(fixed("a").test("/ab"), None);
}

#[test]
fn static_may_span_components() {
    assert_eq!(fixed("/a/b").test("/a/b/c"), partial("/a/b", vec![], "/c"));
    assert_eq!(fixed("/a/b").test("/a/c"), None);
}

#[test]
fn empty_static_takes_nothing() {
    assert_eq!(fixed("").test("/a"), partial("", vec![], "/a"));
    assert_eq!(fixed("/").test("/a"), partial("", vec![], "/a"));
    assert_eq!(fixed("/").test(""), partial("", vec![], ""));
}

#[test]
fn static_matches_text_beyond_ascii() {
    assert_eq!(fixed("/café").test("/café/1"), partial("/café", vec![], "/1"));
    assert_eq!(fixed("/café").test("/cafe/1"), None);
}

#[test]
fn param_takes_one_component() {
    let segment = param("id");
    assert_eq!(segment.test("/42/extra"), partial("/42", vec![("id", "42")], "/extra"));
    assert_eq!(segment.test("/42"), partial("/42", vec![("id", "42")], ""));
    assert_eq!(segment.test("42/x"), partial("42", vec![("id", "42")], "/x"));
    assert_eq!(segment.test("/42/"), partial("/42", vec![("id", "42")], "/"));
}

#[test]
fn param_needs_a_component() {
    let segment = param("id");
    assert_eq!(segment.test(""), None);
    assert_eq!(segment.test("/"), None);
    assert_eq!(segment.test("//42"), None);
}

#[test]
fn param_counts_characters_not_bytes() {
    assert_eq!(param("name").test("/zoë/x"), partial("/zoë", vec![("name", "zoë")], "/x"));
}

#[test]
fn splat_takes_all_that_is_left() {
    let segment = splat("rest");
    assert_eq!(segment.test("/a/b/c"), partial("/a/b/c", vec![("rest", "a/b/c")], ""));
    assert_eq!(segment.test("a/b"), partial("a/b", vec![("rest", "a/b")], ""));
    assert_eq!(segment.test("/"), partial("/", vec![("rest", "")], ""));
    assert_eq!(segment.test(""), partial("", vec![("rest", "")], ""));
}

#[test]
fn segments_are_tested_one_after_the_other() {
    let segments = vec![fixed("/users"), param("id"), fixed("posts"), param("post")];
    assert_eq!(
        test_segments(&segments, "/users/7/posts/9/rest"),
        partial("/users/7/posts/9", vec![("id", "7"), ("post", "9")], "/rest")
    );
}

#[test]
fn segments_fail_if_one_of_them_fails() {
    let segments = vec![fixed("/users"), param("id"), fixed("posts")];
    assert_eq!(test_segments(&segments, "/users/7/comments"), None);
    assert_eq!(test_segments(&segments, "/users"), None);
    assert_eq!(test_segments(&segments, "/people/7/posts"), None);
}

#[test]
fn no_segments_take_nothing() {
    assert_eq!(test_segments(&vec![], "/a"), partial("", vec![], "/a"));
}

#[test]
fn unit_between_segments_changes_nothing() {
    let segments = vec![Segment::Unit, fixed("a"), Segment::Unit, param("x"), Segment::Unit];
    assert_eq!(test_segments(&segments, "/a/1"), partial("/a/1", vec![("x", "1")], ""));
}

#[test]
fn splat_after_static_captures_the_rest() {
    let segments = vec![fixed("/files"), splat("path")];
    assert_eq!(
        test_segments(&segments, "/files/a/b.txt"),
        partial("/files/a/b.txt", vec![("path", "a/b.txt")], "")
    );
    assert_eq!(test_segments(&segments, "/files"), partial("/files", vec![("path", "")], ""));
}

#[test]
fn nothing_matches_after_a_splat_but_what_takes_nothing() {
    assert_eq!(test_segments(&vec![splat("all"), param("x")], "/a/b"), None);
    assert_eq!(
        test_segments(&vec![splat("all"), Segment::Unit], "/a/b"),
        partial("/a/b", vec![("all", "a/b")], "")
    );
}

#[test]
fn matched_and_remaining_make_up_the_path() {
    let segments = vec![fixed("/a"), param("x"), param("y")];
    let path = "/a/1/2/3/4";
    let found = test_segments(&segments, path).expect("the patterns match");
    assert_eq!(format!("{}{}", found.matched, found.remaining), path);
    assert_eq!(found.matched, "/a/1/2");
}

#[test]
fn each_pattern_generates_its_fragment() {
    let mut path = vec![PathSegment::Static("before".to_string())];
    Segment::Unit.generate_path(&mut path);
    fixed("/users").generate_path(&mut path);
    param("id").generate_path(&mut path);
    splat("rest").generate_path(&mut path);
    assert_eq!(
        path,
        vec![
            PathSegment::Static("before".to_string()),
            PathSegment::Unit,
            PathSegment::Static("/users".to_string()),
            PathSegment::Param("id".to_string()),
            PathSegment::Splat("rest".to_string()),
        ]
    );
}

#[test]
fn segments_generate_their_fragments_in_order() {
    let mut path = Vec::new();
    generate_segments(&vec![fixed("a"), Segment::Unit, param("b")], &mut path);
    assert_eq!(
        path,
        vec![
            PathSegment::Static("a".to_string()),
            PathSegment::Unit,
            PathSegment::Param("b".to_string()),
        ]
    );
}

#[test]
fn unit_is_told_from_other_fragments() {
    assert!(PathSegment::Unit.is_unit());
    assert!(!PathSegment::Static(String::new()).is_unit());
    assert!(!PathSegment::Param("x".to_string()).is_unit());
    assert!(!PathSegment::Splat("x".to_string()).is_unit());
}

#[test]
fn clones_are_equal() {
    let fragment = PathSegment::Param("id".to_string());
    assert_eq!(fragment.clone(), fragment);
    let pattern = splat("rest");
    assert_eq!(pattern.clone(), pattern);
}
