use milim_web::request::Method;
use milim_web::router::{
    match_route, parse_query, query_of, split_path_query, split_target, Router,
};
use milim_web::textmap::TextMap;

fn map(pairs: &[(&str, &str)]) -> TextMap {
    let mut m = TextMap::new();
    for (k, v) in pairs {
        m.insert(k.to_string(), v.to_string());
    }
    m
}

#[test]
fn query_of_two_pairs() {
    assert_eq!(parse_query(Some("a=1&b=2")), map(&[("a", "1"), ("b", "2")]));
}

#[test]
fn query_key_without_equals_has_empty_value() {
    assert_eq!(parse_query(Some("a&b=2")), map(&[("a", ""), ("b", "2")]));
}

#[test]
fn query_last_of_duplicate_keys_wins() {
    let m = parse_query(Some("a=1&a=2"));
    assert_eq!(m, map(&[("a", "2")]));
    assert_eq!(m.len(), 1);
}

#[test]
fn query_edge_cases() {
    assert_eq!(parse_query(None), TextMap::new());
    assert_eq!(parse_query(Some("")), TextMap::new());
    assert_eq!(parse_query(Some("&&")), TextMap::new());
    assert_eq!(parse_query(Some("a=b=c")), map(&[("a", "b=c")]));
    assert_eq!(parse_query(Some("=v")), map(&[("", "v")]));
    assert_eq!(parse_query(Some("k=")), map(&[("k", "")]));
    assert_eq!(parse_query(Some("&a=1&&b=2&")), map(&[("a", "1"), ("b", "2")]));
    assert_eq!(parse_query(Some("a=%20&b=c+d")), map(&[("a", "%20"), ("b", "c+d")]));
}

#[test]
fn query_keeps_the_place_of_a_key_that_comes_again() {
    let m = parse_query(Some("a=1&b=2&a=3"));
    assert_eq!(m.key_at(0), "a");
    assert_eq!(m.value_at(0), "3");
    assert_eq!(m.key_at(1), "b");
    assert_eq!(m.value_at(1), "2");
}

#[test]
fn query_of_slices() {
    let q: Vec<char> = "x=1".chars().collect();
    assert_eq!(query_of(Some(&q)), map(&[("x", "1")]));
    assert_eq!(query_of(None), TextMap::new());
}

#[test]
fn target_splits_at_the_first_question_mark() {
    assert_eq!(split_path_query("/a/b?x=1?y"), ("/a/b".to_string(), Some("x=1?y".to_string())));
    assert_eq!(split_path_query("/a/b"), ("/a/b".to_string(), None));
    assert_eq!(split_path_query("/a?"), ("/a".to_string(), Some("".to_string())));
    assert_eq!(split_path_query("?q"), ("".to_string(), Some("q".to_string())));
    assert_eq!(split_path_query(""), ("".to_string(), None));
    let t: Vec<char> = "/p?q".chars().collect();
    let (path, query) = split_target(&t);
    assert_eq!(path, &['/', 'p']);
    assert_eq!(query, Some(&['q'][..]));
}

#[test]
fn match_binds_captures() {
    let (params, queries) = match_route("/users/:id/posts/:post", "/users/7/posts/abc").unwrap();
    assert_eq!(params, map(&[("id", "7"), ("post", "abc")]));
    assert_eq!(queries, TextMap::new());
}

#[test]
fn match_needs_equal_literals() {
    assert!(match_route("/users/:id", "/user/7").is_none());
    assert!(match_route("/users/:id", "/users/7").is_some());
    assert!(match_route("/a/b", "/a/B").is_none());
}

#[test]
fn match_needs_equal_segment_counts() {
    assert!(match_route("/users/:id", "/users").is_none());
    assert!(match_route("/users/:id", "/users/7/x").is_none());
    assert!(match_route("/:a", "/").is_some());
    assert!(match_route("/", "/x/y").is_none());
    assert!(match_route("/a", "/a//").is_some());
    assert!(match_route("/a/b", "/a//b").is_none());
}

#[test]
fn match_root() {
    let (params, queries) = match_route("/", "/").unwrap();
    assert_eq!(params, TextMap::new());
    assert_eq!(queries, TextMap::new());
    assert!(match_route("/", "").is_some());
    assert!(match_route("", "/").is_some());
    assert!(match_route("/", "/?a=1").is_some());
}

#[test]
fn match_ignores_slashes_at_the_ends() {
    assert!(match_route("users/:id/", "//users/7").is_some());
    assert_eq!(match_route("/x/:v", "/x/1/").unwrap().0, map(&[("v", "1")]));
}

#[test]
fn match_takes_the_query_apart() {
    let (params, queries) = match_route("/greet/:name", "/greet/sam?loud=1&x").unwrap();
    assert_eq!(params, map(&[("name", "sam")]));
    assert_eq!(queries, map(&[("loud", "1"), ("x", "")]));
}

#[test]
fn match_capture_binds_an_empty_segment() {
    assert_eq!(match_route("/a/:b/c", "/a//c").unwrap().0, map(&[("b", "")]));
}

#[test]
fn match_capture_name_drops_all_leading_colons() {
    assert_eq!(match_route("/::id", "/5").unwrap().0, map(&[("id", "5")]));
    assert_eq!(match_route("/:", "/5").unwrap().0, map(&[("", "5")]));
}

#[test]
fn match_last_capture_of_a_name_wins() {
    assert_eq!(match_route("/:x/:x", "/1/2").unwrap().0, map(&[("x", "2")]));
}

#[test]
fn match_does_not_decode() {
    let (params, queries) = match_route("/f/:n", "/f/a%2Fb?k=%26").unwrap();
    assert_eq!(params, map(&[("n", "a%2Fb")]));
    assert_eq!(queries, map(&[("k", "%26")]));
}

#[test]
fn match_question_mark_ends_the_path() {
    assert!(match_route("/a", "/a?/b/c").is_some());
    assert!(match_route("/a?x", "/a").is_none());
}

#[test]
fn router_new_keeps_its_parts() {
    let r: Router<u8, u16> = Router::new("/p/:q", 9u16, Method::Put, vec![1u8, 2]);
    assert_eq!(r.pattern, "/p/:q");
    assert_eq!(r.handler, 9);
    assert_eq!(r.method, Method::Put);
    assert_eq!(r.guards, vec![1, 2]);
}
