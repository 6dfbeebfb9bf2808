//! The request as it is read from the wire.

use crate::assoc::{as_map, put};
use crate::context::RequestContext;
use crate::text::{
    find, index_of, position_of, same_text, split, split_on, split_words, to_chars, to_text, trim,
    trimmed, views, words,
};
use crate::textmap::{Pairs, TextMap};
use vstd::prelude::*;
use vstd::slice::slice_subrange;
use vstd::std_specs::convert::FromSpecImpl;

verus! {

/// The upper-case form of a text according to Unicode.
pub uninterp spec fn uppercase(s: Seq<char>) -> Seq<char>;

/// `str::to_uppercase` returns the upper-case form of its argument, which
/// depends on the argument alone.
pub assume_specification[ str::to_uppercase ](s: &str) -> (r: String)
    ensures
        r@ == uppercase(s@),
;

/// The method of a request.
#[derive(Debug, PartialEq, Eq, Clone, Copy, Structural)]
pub enum Method {
    Get,
    Head,
    Post,
    Put,
    Delete,
    Connect,
    Options,
    Trace,
    Patch,
    Uninitialized,
}

/// The method that an upper-case token names.
pub open spec fn method_named(token: Seq<char>) -> Method {
    if token == "GET"@ {
        Method::Get
    } else if token == "POST"@ {
        Method::Post
    } else if token == "HEAD"@ {
        Method::Head
    } else if token == "PUT"@ {
        Method::Put
    } else if token == "DELETE"@ {
        Method::Delete
    } else if token == "CONNECT"@ {
        Method::Connect
    } else if token == "OPTIONS"@ {
        Method::Options
    } else if token == "TRACE"@ {
        Method::Trace
    } else if token == "PATCH"@ {
        Method::Patch
    } else {
        Method::Uninitialized
    }
}

/// The method that a token names, whatever its case.
pub open spec fn method_of(token: Seq<char>) -> Method {
    method_named(uppercase(token))
}

impl Method {
    /// The method that an upper-case token names.
    pub fn named(token: &str) -> (m: Method)
        ensures
            m == method_named(token@),
    {
        if same_text(token, "GET") {
            Method::Get
        } else if same_text(token, "POST") {
            Method::Post
        } else if same_text(token, "HEAD") {
            Method::Head
        } else if same_text(token, "PUT") {
            Method::Put
        } else if same_text(token, "DELETE") {
            Method::Delete
        } else if same_text(token, "CONNECT") {
            Method::Connect
        } else if same_text(token, "OPTIONS") {
            Method::Options
        } else if same_text(token, "TRACE") {
            Method::Trace
        } else if same_text(token, "PATCH") {
            Method::Patch
        } else {
            Method::Uninitialized
        }
    }
}

impl From<&str> for Method {
    fn from(value: &str) -> (m: Method) {
        let upper = value.to_uppercase();
        Method::named(upper.as_str())
    }
}

impl FromSpecImpl<&str> for Method {
    open spec fn obeys_from_spec() -> bool {
        true
    }

    open spec fn from_spec(value: &str) -> Method {
        method_of(value@)
    }
}

/// The protocol version of a request.
#[derive(Debug, PartialEq, Eq, Clone, Copy, Structural)]
pub enum Version {
    V1_1,
    V2_0,
    Uninitialized,
}

/// The version that a token names.
pub open spec fn version_of(token: Seq<char>) -> Version {
    if token == "HTTP/1.1"@ {
        Version::V1_1
    } else if token == "HTTP/2.0"@ {
        Version::V2_0
    } else {
        Version::Uninitialized
    }
}

impl From<&str> for Version {
    fn from(value: &str) -> (v: Version) {
        if same_text(value, "HTTP/1.1") {
            Version::V1_1
        } else if same_text(value, "HTTP/2.0") {
            Version::V2_0
        } else {
            Version::Uninitialized
        }
    }
}

impl FromSpecImpl<&str> for Version {
    open spec fn obeys_from_spec() -> bool {
        true
    }

    open spec fn from_spec(value: &str) -> Version {
        version_of(value@)
    }
}

/// What a request asks for.
#[derive(Debug, PartialEq)]
pub enum Resource {
    Path(String),
}

impl Resource {
    /// The path as text.
    pub open spec fn path(self) -> Seq<char> {
        match self {
            Resource::Path(p) => p@,
        }
    }
}

/// Why a buffer holds no request.
#[derive(Debug, PartialEq, Eq, Clone, Copy, Structural)]
pub enum ParseError {
    /// No line of the head has the three tokens of a request line.
    NoRequestLine,
}

/// The request as it stands on the wire, and what the matcher found in its
/// path.
#[derive(Debug)]
pub struct HttpRequestData {
    pub method: Method,
    pub version: Version,
    pub resource: Resource,
    pub headers: TextMap,
    pub body: String,
    pub params: Option<TextMap>,
    pub queryes: Option<TextMap>,
}

/// What a request holds, as plain values.
pub ghost struct RequestView {
    pub method: Method,
    pub version: Version,
    pub path: Seq<char>,
    pub headers: Pairs,
    pub body: Seq<char>,
    pub params: Option<Pairs>,
    pub queryes: Option<Pairs>,
}

/// The entries of an optional map.
pub open spec fn pairs_of(m: Option<TextMap>) -> Option<Pairs> {
    match m {
        Some(t) => Some(t.pairs()),
        None => None,
    }
}

impl View for HttpRequestData {
    type V = RequestView;

    open spec fn view(&self) -> RequestView {
        RequestView {
            method: self.method,
            version: self.version,
            path: self.resource.path(),
            headers: self.headers.pairs(),
            body: self.body@,
            params: pairs_of(self.params),
            queryes: pairs_of(self.queryes),
        }
    }
}

/// The part of the buffer before the first blank line, or all of it.
pub open spec fn head_of(raw: Seq<char>) -> Seq<char> {
    raw.take(find(raw, "\r\n\r\n"@))
}

/// The part of the buffer after the first blank line, as it stands.
pub open spec fn body_of(raw: Seq<char>) -> Seq<char> {
    let i = find(raw, "\r\n\r\n"@);
    if i < raw.len() {
        raw.skip(i + "\r\n\r\n"@.len())
    } else {
        Seq::empty()
    }
}

/// The lines of the head. A carriage return before the line feed stays with
/// the line; it is white space, and no token or header value keeps it.
pub open spec fn head_lines(raw: Seq<char>) -> Seq<Seq<char>> {
    split(head_of(raw), '\n')
}

/// A request line has at least three tokens.
pub open spec fn is_request_line(line: Seq<char>) -> bool {
    words(line).len() >= 3
}

/// The index of the first request line among `lines`, or their number.
pub open spec fn request_line_at(lines: Seq<Seq<char>>) -> int
    decreases lines.len(),
{
    if lines.len() == 0 || is_request_line(lines[0]) {
        0
    } else {
        1 + request_line_at(lines.drop_first())
    }
}

/// A header line holds a colon.
pub open spec fn is_header_line(line: Seq<char>) -> bool {
    find(line, seq![':']) < line.len()
}

/// The name of a header line: what stands before the first colon.
pub open spec fn header_name(line: Seq<char>) -> Seq<char> {
    line.take(find(line, seq![':']))
}

/// The value of a header line: what stands after the first colon, trimmed.
pub open spec fn header_value(line: Seq<char>) -> Seq<char> {
    if is_header_line(line) {
        trim(line.skip(find(line, seq![':']) + 1))
    } else {
        Seq::empty()
    }
}

/// The headers that `lines` give, the line at index `skip` left out. A name
/// that comes again takes the later value.
pub open spec fn header_pairs(lines: Seq<Seq<char>>, skip: int) -> Pairs
    decreases lines.len(),
{
    if lines.len() == 0 {
        Pairs::empty()
    } else {
        let before = header_pairs(lines.drop_last(), skip);
        let line = lines.last();
        if lines.len() - 1 != skip && is_header_line(line) {
            put(before, header_name(line), header_value(line))
        } else {
            before
        }
    }
}

/// Whether the head of `raw` holds a request line.
pub open spec fn has_request_line(raw: Seq<char>) -> bool {
    request_line_at(head_lines(raw)) < head_lines(raw).len()
}

/// The request that `raw` holds, if it holds a request line.
pub open spec fn parsed(raw: Seq<char>) -> RequestView {
    let lines = head_lines(raw);
    let k = request_line_at(lines);
    let tokens = words(lines[k]);
    RequestView {
        method: method_of(tokens[0]),
        version: version_of(tokens[2]),
        path: tokens[1],
        headers: header_pairs(lines, k),
        body: body_of(raw),
        params: None,
        queryes: None,
    }
}

/// `request_line_at` finds the first request line, and no line before it is
/// one.
pub proof fn lemma_request_line_at(lines: Seq<Seq<char>>)
    ensures
        0 <= request_line_at(lines) <= lines.len(),
        request_line_at(lines) < lines.len() ==> is_request_line(lines[request_line_at(lines)]),
        forall|j: int| 0 <= j < request_line_at(lines) ==> !is_request_line(lines[j]),
    decreases lines.len(),
{
    if lines.len() == 0 || is_request_line(lines[0]) {
    } else {
        let rest = lines.drop_first();
        lemma_request_line_at(rest);
        assert forall|j: int| 0 <= j < request_line_at(lines) implies !is_request_line(
            lines[j],
        ) by {
            if j > 0 {
                assert(lines[j] == rest[j - 1]);
            }
        }
    }
}

/// The method, the resource and the version that the first three tokens of a
/// request line name.
pub fn process_req_line(s: &str) -> (r: (Method, Resource, Version))
    requires
        is_request_line(s@),
    ensures
        r.0 == method_of(words(s@)[0]),
        r.1.path() == words(s@)[1],
        r.2 == version_of(words(s@)[2]),
{
    let chars = to_chars(s);
    let tokens = split_words(chars.as_slice());
    assert(views(tokens@).len() == tokens@.len());
    assert(views(tokens@)[0] == tokens@[0]@);
    assert(views(tokens@)[1] == tokens@[1]@);
    assert(views(tokens@)[2] == tokens@[2]@);
    request_line(tokens[0], tokens[1], tokens[2])
}

/// The method, the resource and the version that three tokens name.
pub fn request_line(method: &[char], path: &[char], version: &[char]) -> (r: (
    Method,
    Resource,
    Version,
))
    ensures
        r.0 == method_of(method@),
        r.1.path() == path@,
        r.2 == version_of(version@),
{
    let m = to_text(method);
    let v = to_text(version);
    (Method::from(m.as_str()), Resource::Path(to_text(path)), Version::from(v.as_str()))
}

/// The name and the value of a header line. A line without a colon is all
/// name.
pub fn process_header_line(s: &str) -> (r: (String, String))
    ensures
        r.0@ == header_name(s@),
        r.1@ == header_value(s@),
{
    let chars = to_chars(s);
    header_line(chars.as_slice())
}

/// The name and the value of a header line. A line without a colon is all
/// name.
pub fn header_line(line: &[char]) -> (r: (String, String))
    ensures
        r.0@ == header_name(line@),
        r.1@ == header_value(line@),
{
    let i = index_of(line, ':');
    let name = to_text(slice_subrange(line, 0, i));
    if i < line.len() {
        let value = to_text(trimmed(slice_subrange(line, i + 1, line.len())));
        (name, value)
    } else {
        (name, String::new())
    }
}

impl HttpRequestData {
    /// Reads a request from the text of a buffer. The text before the first
    /// blank line is the head, the text after it the body. The first line of
    /// the head with three tokens is the request line; every other line
    /// with a colon is a header; the rest is passed over.
    pub fn parse(raw: &str) -> (r: Result<HttpRequestData, ParseError>)
        ensures
            r is Ok == has_request_line(raw@),
            r is Ok ==> r.unwrap()@ == parsed(raw@),
    {
        let chars = to_chars(raw);
        let gap = to_chars("\r\n\r\n");
        let all = chars.as_slice();
        let cut = position_of(all, gap.as_slice());
        let head = slice_subrange(all, 0, cut);
        let body = if cut < all.len() {
            to_text(slice_subrange(all, cut + gap.len(), all.len()))
        } else {
            String::new()
        };
        assert(body@ == body_of(raw@));
        let lines = split_on(head, '\n');
        assert(views(lines@) == head_lines(raw@));
        let ghost texts = views(lines@);
        proof {
            lemma_request_line_at(texts);
        }
        let mut k: usize = 0;
        let mut found: Option<(Method, Resource, Version)> = None;
        while k < lines.len() && found.is_none()
            invariant
                k <= lines@.len(),
                texts == views(lines@),
                forall|j: int| 0 <= j < k ==> !is_request_line(#[trigger] texts[j]) || found is Some,
                found is Some ==> k > 0 && is_request_line(texts[k - 1])
                    && forall|j: int| 0 <= j < k - 1 ==> !is_request_line(#[trigger] texts[j]),
                found is Some ==> found.unwrap().0 == method_of(words(texts[k - 1])[0])
                    && found.unwrap().1.path() == words(texts[k - 1])[1] && found.unwrap().2
                    == version_of(words(texts[k - 1])[2]),
            decreases lines@.len() - k + (if found is None { 1int } else { 0int }),
        {
            let tokens = split_words(lines[k]);
            assert(texts[k as int] == lines@[k as int]@);
            if tokens.len() >= 3 {
                assert(views(tokens@)[0] == tokens@[0]@);
                assert(views(tokens@)[1] == tokens@[1]@);
                assert(views(tokens@)[2] == tokens@[2]@);
                found = Some(request_line(tokens[0], tokens[1], tokens[2]));
            }
            k += 1;
        }
        match found {
            None => {
                proof {
                    lemma_first_is(texts, k as int);
                }
                Err(ParseError::NoRequestLine)
            },
            Some((method, resource, version)) => {
                let at = k - 1;
                proof {
                    lemma_first_is(texts, at as int);
                }
                let mut headers = TextMap::new();
                let mut j: usize = 0;
                assert(texts.take(0) =~= Seq::<Seq<char>>::empty());
                while j < lines.len()
                    invariant
                        j <= lines@.len(),
                        texts == views(lines@),
                        headers.pairs() == header_pairs(texts.take(j as int), at as int),
                        body@ == body_of(raw@),
                    decreases lines@.len() - j,
                {
                    let line = lines[j];
                    assert(texts[j as int] == line@);
                    let ghost upto = texts.take(j + 1);
                    assert(upto.drop_last() =~= texts.take(j as int));
                    assert(upto.last() == line@);
                    if j != at && index_of(line, ':') < line.len() {
                        let (name, value) = header_line(line);
                        headers.insert(name, value);
                    }
                    j += 1;
                }
                assert(texts.take(j as int) =~= texts);
                Ok(
                    HttpRequestData {
                        method,
                        version,
                        resource,
                        headers,
                        body,
                        params: None,
                        queryes: None,
                    },
                )
            },
        }
    }

    /// The path parameter bound to `key` by the last match.
    pub fn get_param(&self, key: &str) -> (r: Option<String>)
        ensures
            r is Some == (self@.params is Some && as_map(self@.params.unwrap()).contains_key(key@)),
            r is Some ==> r.unwrap()@ == as_map(self@.params.unwrap())[key@],
    {
        match &self.params {
            Some(m) => match m.get(key) {
                Some(v) => Some(v.clone()),
                None => None,
            },
            None => None,
        }
    }

    /// The query parameter bound to `key` by the last match.
    pub fn get_query(&self, key: &str) -> (r: Option<String>)
        ensures
            r is Some == (self@.queryes is Some && as_map(self@.queryes.unwrap()).contains_key(
                key@,
            )),
            r is Some ==> r.unwrap()@ == as_map(self@.queryes.unwrap())[key@],
    {
        match &self.queryes {
            Some(m) => match m.get(key) {
                Some(v) => Some(v.clone()),
                None => None,
            },
            None => None,
        }
    }
}

/// An index that holds a request line and has none before it is where
/// `request_line_at` points.
pub proof fn lemma_first_is(lines: Seq<Seq<char>>, i: int)
    requires
        0 <= i <= lines.len(),
        i < lines.len() ==> is_request_line(lines[i]),
        forall|j: int| 0 <= j < i ==> !is_request_line(#[trigger] lines[j]),
    ensures
        request_line_at(lines) == i,
{
    lemma_request_line_at(lines);
}

/// A request on its way through the pipeline: what came over the wire, and
/// the values that the stages hand to one another.
#[derive(Debug)]
pub struct HttpRequest<V> {
    pub raw: HttpRequestData,
    pub ctx: RequestContext<V>,
}

impl<V> HttpRequest<V> {
    pub fn new(req: HttpRequestData) -> (r: HttpRequest<V>)
        ensures
            r.raw == req,
            r.ctx@ == Map::<u64, V>::empty(),
            r.ctx.wf(),
    {
        HttpRequest { raw: req, ctx: RequestContext::new() }
    }
}

} // verus!
