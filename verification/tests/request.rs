use milim_web::request::{
    process_header_line, process_req_line, HttpRequest, HttpRequestData, Method, ParseError,
    Resource, Version,
};
use milim_web::textmap::TextMap;

#[test]
fn test_method_into() {
    let m: Method = "GET".into();
    assert_eq!(m, Method::Get)
}

#[test]
fn test_version_into() {
    let v: Version = "HTTP/1.1".into();
    assert_eq!(v, Version::V1_1)
}

#[test]
fn test_read_http() {
    let s: String = String::from(
        "GET /greeting HTTP/1.1\r\nHost: localhost:3000\r\nUser-Agent: curl/7.64.1\r\nAccept: */*\r\n\r\n",
    );
    let mut headers_expected = TextMap::new();
    headers_expected.insert("Host".into(), "localhost:3000".into());
    headers_expected.insert("Accept".into(), "*/*".into());
    headers_expected.insert("User-Agent".into(), "curl/7.64.1".into());
    let req: HttpRequestData = HttpRequestData::parse(&s).unwrap();
    assert_eq!(Method::Get, req.method);
    assert_eq!(Version::V1_1, req.version);
    assert_eq!(Resource::Path("/greeting".to_string()), req.resource);
    assert_eq!(headers_expected, req.headers);
}

#[test]
fn every_method_token_is_known() {
    assert_eq!(Method::from("GET"), Method::Get);
    assert_eq!(Method::from("HEAD"), Method::Head);
    assert_eq!(Method::from("POST"), Method::Post);
    assert_eq!(Method::from("PUT"), Method::Put);
    assert_eq!(Method::from("DELETE"), Method::Delete);
    assert_eq!(Method::from("CONNECT"), Method::Connect);
    assert_eq!(Method::from("OPTIONS"), Method::Options);
    assert_eq!(Method::from("TRACE"), Method::Trace);
    assert_eq!(Method::from("PATCH"), Method::Patch);
    assert_eq!(Method::from("BREW"), Method::Uninitialized);
    assert_eq!(Method::from(""), Method::Uninitialized);
}

#[test]
fn method_token_in_any_case() {
    assert_eq!(Method::from("get"), Method::Get);
    assert_eq!(Method::from("Post"), Method::Post);
    assert_eq!(Method::from("dElEtE"), Method::Delete);
}

#[test]
fn named_method_is_case_sensitive() {
    assert_eq!(Method::named("GET"), Method::Get);
    assert_eq!(Method::named("get"), Method::Uninitialized);
}

#[test]
fn version_tokens() {
    assert_eq!(Version::from("HTTP/1.1"), Version::V1_1);
    assert_eq!(Version::from("HTTP/2.0"), Version::V2_0);
    assert_eq!(Version::from("HTTP/1.0"), Version::Uninitialized);
    assert_eq!(Version::from("http/1.1"), Version::Uninitialized);
}

#[test]
fn request_line_tokens() {
    let (m, r, v) = process_req_line("POST   /a/b?x=1 \t HTTP/2.0");
    assert_eq!(m, Method::Post);
    assert_eq!(r, Resource::Path("/a/b?x=1".to_string()));
    assert_eq!(v, Version::V2_0);
}

#[test]
fn request_line_ignores_further_tokens() {
    let (m, r, v) = process_req_line("GET / HTTP/1.1 and more");
    assert_eq!(m, Method::Get);
    assert_eq!(r, Resource::Path("/".to_string()));
    assert_eq!(v, Version::V1_1);
}

#[test]
fn header_line_splits_at_first_colon_and_trims_value() {
    assert_eq!(
        process_header_line("Host: localhost:3000"),
        ("Host".to_string(), "localhost:3000".to_string())
    );
    assert_eq!(
        process_header_line("X-Pad:  \t spaced out  \r"),
        ("X-Pad".to_string(), "spaced out".to_string())
    );
    assert_eq!(process_header_line("Empty:"), ("Empty".to_string(), "".to_string()));
    assert_eq!(process_header_line(":v"), ("".to_string(), "v".to_string()));
}

#[test]
fn header_line_without_colon_is_all_name() {
    assert_eq!(process_header_line("no colon"), ("no colon".to_string(), "".to_string()));
}

#[test]
fn header_name_is_not_trimmed() {
    assert_eq!(process_header_line(" A : b"), (" A ".to_string(), "b".to_string()));
}

#[test]
fn parse_keeps_body_as_it_stands() {
    let req = HttpRequestData::parse("POST /p HTTP/1.1\r\nA: b\r\n\r\n line 1\r\n\r\nline 2 ").unwrap();
    assert_eq!(req.body, " line 1\r\n\r\nline 2 ");
    assert_eq!(req.method, Method::Post);
}

#[test]
fn parse_without_blank_line_has_no_body() {
    let req = HttpRequestData::parse("GET /p HTTP/1.1\r\nA: b").unwrap();
    assert_eq!(req.body, "");
    assert_eq!(req.headers.get("A"), Some(&"b".to_string()));
}

#[test]
fn parse_last_header_of_a_name_wins() {
    let req = HttpRequestData::parse("GET / HTTP/1.1\r\nA: 1\r\nB: 2\r\nA: 3\r\n\r\n").unwrap();
    assert_eq!(req.headers.len(), 2);
    assert_eq!(req.headers.get("A"), Some(&"3".to_string()));
    assert_eq!(req.headers.get("B"), Some(&"2".to_string()));
}

#[test]
fn parse_passes_over_lines_of_neither_shape() {
    let req = HttpRequestData::parse("\r\nnoise\r\nGET /x HTTP/1.1\r\nmore noise\r\nK: v\r\n\r\n").unwrap();
    assert_eq!(req.method, Method::Get);
    assert_eq!(req.resource, Resource::Path("/x".to_string()));
    assert_eq!(req.headers.len(), 1);
    assert_eq!(req.headers.get("K"), Some(&"v".to_string()));
}

#[test]
fn parse_takes_the_first_request_line() {
    let req = HttpRequestData::parse("GET /first HTTP/1.1\r\nPUT /second HTTP/2.0\r\n\r\n").unwrap();
    assert_eq!(req.method, Method::Get);
    assert_eq!(req.resource, Resource::Path("/first".to_string()));
    assert_eq!(req.version, Version::V1_1);
    assert_eq!(req.headers.len(), 0);
}

#[test]
fn parse_reads_a_header_before_the_request_line() {
    let req = HttpRequestData::parse("K: v\r\nGET / HTTP/1.1\r\n\r\n").unwrap();
    assert_eq!(req.headers.get("K"), Some(&"v".to_string()));
    assert_eq!(req.method, Method::Get);
}

#[test]
fn parse_unknown_tokens_are_no_error() {
    let req = HttpRequestData::parse("BREW /pot HTCPCP/1.0\r\n\r\n").unwrap();
    assert_eq!(req.method, Method::Uninitialized);
    assert_eq!(req.version, Version::Uninitialized);
    assert_eq!(req.resource, Resource::Path("/pot".to_string()));
}

#[test]
fn parse_without_request_line_fails() {
    assert_eq!(HttpRequestData::parse("GET /\r\nHost: x\r\n\r\n").err(), Some(ParseError::NoRequestLine));
    assert_eq!(HttpRequestData::parse("").err(), Some(ParseError::NoRequestLine));
    assert_eq!(HttpRequestData::parse("\r\n\r\nGET / HTTP/1.1").err(), Some(ParseError::NoRequestLine));
}

#[test]
fn parse_line_feed_alone_ends_a_line() {
    let req = HttpRequestData::parse("GET / HTTP/1.1\nA: b\n\r\n\r\nbody").unwrap();
    assert_eq!(req.headers.get("A"), Some(&"b".to_string()));
    assert_eq!(req.body, "body");
}

#[test]
fn parse_leaves_params_unset() {
    let req = HttpRequestData::parse("GET /a?b=c HTTP/1.1\r\n\r\n").unwrap();
    assert_eq!(req.params, None);
    assert_eq!(req.queryes, None);
    assert_eq!(req.get_param("b"), None);
    assert_eq!(req.get_query("b"), None);
}

#[test]
fn parse_keeps_percent_signs() {
    let req = HttpRequestData::parse("GET /a%20b?c=%41 HTTP/1.1\r\n\r\n").unwrap();
    assert_eq!(req.resource, Resource::Path("/a%20b?c=%41".to_string()));
}

#[test]
fn parse_text_beyond_ascii() {
    let req = HttpRequestData::parse("GET /caf\u{e9} HTTP/1.1\r\nX: \u{3000}na\u{ef}ve\u{a0}\r\n\r\n\u{1f600}").unwrap();
    assert_eq!(req.resource, Resource::Path("/caf\u{e9}".to_string()));
    assert_eq!(req.headers.get("X"), Some(&"na\u{ef}ve".to_string()));
    assert_eq!(req.body, "\u{1f600}");
}

#[test]
fn get_param_and_get_query_read_what_was_attached() {
    let mut req = HttpRequestData::parse("GET /u/7?x=1 HTTP/1.1\r\n\r\n").unwrap();
    let mut params = TextMap::new();
    params.insert("id".to_string(), "7".to_string());
    let mut queries = TextMap::new();
    queries.insert("x".to_string(), "1".to_string());
    req.params = Some(params);
    req.queryes = Some(queries);
    assert_eq!(req.get_param("id"), Some("7".to_string()));
    assert_eq!(req.get_param("x"), None);
    assert_eq!(req.get_query("x"), Some("1".to_string()));
    assert_eq!(req.get_query("id"), None);
}

#[test]
fn new_request_has_an_empty_context() {
    let data = HttpRequestData::parse("GET / HTTP/1.1\r\n\r\n").unwrap();
    let req: HttpRequest<u32> = HttpRequest::new(data);
    assert_eq!(req.ctx.get(0), None);
    assert_eq!(req.raw.method, Method::Get);
}
