//! Routes, and the matching of a request target against a route's pattern.

use crate::aplication::App;
use crate::assoc::{as_map, lemma_put, put};
use crate::request::Method;
use crate::text::{
    find, index_of, lemma_find_char, lemma_find_char_is, lemma_split_join, lemma_split_one,
    same_chars, split, split_on, strip, strip_start, stripped, to_chars, to_text, views,
};
use crate::textmap::{Pairs, TextMap};
use vstd::prelude::*;
use vstd::slice::slice_subrange;

verus! {

/// The part of a request target before the first question mark.
pub open spec fn path_part(target: Seq<char>) -> Seq<char> {
    target.take(find(target, seq!['?']))
}

/// The part of a request target after the first question mark, if it has
/// one.
pub open spec fn query_part(target: Seq<char>) -> Option<Seq<char>> {
    let i = find(target, seq!['?']);
    if i < target.len() {
        Some(target.skip(i + 1))
    } else {
        None
    }
}

/// The segments of a path or a pattern: the slashes at both ends do not
/// count, every slash between them does.
pub open spec fn segments(path: Seq<char>) -> Seq<Seq<char>> {
    split(strip(path, '/'), '/')
}

/// A pattern segment that begins with a colon stands for any path segment.
pub open spec fn is_capture(segment: Seq<char>) -> bool {
    segment.len() > 0 && segment[0] == ':'
}

/// The name that a capture binds: the segment without its leading colons.
pub open spec fn capture_name(segment: Seq<char>) -> Seq<char> {
    strip_start(segment, ':')
}

/// The segments are as many, and every pattern segment that is no capture
/// equals the path segment in its place.
pub open spec fn segments_match(pattern: Seq<Seq<char>>, path: Seq<Seq<char>>) -> bool {
    &&& pattern.len() == path.len()
    &&& forall|i: int|
        0 <= i < pattern.len() ==> is_capture(#[trigger] pattern[i]) || pattern[i] == path[i]
}

/// What the captures of `pattern` bind in `path`, from left to right. A name
/// that comes again takes the later segment.
pub open spec fn bindings(pattern: Seq<Seq<char>>, path: Seq<Seq<char>>) -> Pairs
    decreases pattern.len(),
{
    if pattern.len() == 0 || path.len() == 0 {
        Pairs::empty()
    } else {
        let before = bindings(pattern.drop_last(), path.drop_last());
        if is_capture(pattern.last()) {
            put(before, capture_name(pattern.last()), path.last())
        } else {
            before
        }
    }
}

/// Whether the path of `target` has the shape of `pattern`.
pub open spec fn shape_matches(pattern: Seq<char>, target: Seq<char>) -> bool {
    segments_match(segments(pattern), segments(path_part(target)))
}

/// The path parameters that `pattern` binds in `target`.
pub open spec fn path_params(pattern: Seq<char>, target: Seq<char>) -> Pairs {
    bindings(segments(pattern), segments(path_part(target)))
}

/// The key of one item of a query: what stands before its first equals
/// sign.
pub open spec fn query_key(item: Seq<char>) -> Seq<char> {
    item.take(find(item, seq!['=']))
}

/// The value of one item of a query: what stands after its first equals
/// sign, or nothing.
pub open spec fn query_value(item: Seq<char>) -> Seq<char> {
    let i = find(item, seq!['=']);
    if i < item.len() {
        item.skip(i + 1)
    } else {
        Seq::empty()
    }
}

/// What the items of a query bind, from left to right. Empty items do not
/// count, and a key that comes again takes the later value.
pub open spec fn query_items(items: Seq<Seq<char>>) -> Pairs
    decreases items.len(),
{
    if items.len() == 0 {
        Pairs::empty()
    } else {
        let before = query_items(items.drop_last());
        let item = items.last();
        if item.len() > 0 {
            put(before, query_key(item), query_value(item))
        } else {
            before
        }
    }
}

/// The query parameters of a query string, if there is one.
pub open spec fn query_pairs(query: Option<Seq<char>>) -> Pairs {
    match query {
        Some(q) => query_items(split(q, '&')),
        None => Pairs::empty(),
    }
}

/// The query parameters of a request target.
pub open spec fn query_params(target: Seq<char>) -> Pairs {
    query_pairs(query_part(target))
}

/// The view of an optional text.
pub open spec fn text_of(t: Option<&str>) -> Option<Seq<char>> {
    match t {
        Some(s) => Some(s@),
        None => None,
    }
}

/// The path and the query of a request target, as slices of it.
pub fn split_target<'a>(target: &'a [char]) -> (r: (&'a [char], Option<&'a [char]>))
    ensures
        r.0@ == path_part(target@),
        match r.1 {
            Some(q) => query_part(target@) == Some(q@),
            None => query_part(target@) is None,
        },
{
    let i = index_of(target, '?');
    let path = slice_subrange(target, 0, i);
    if i < target.len() {
        (path, Some(slice_subrange(target, i + 1, target.len())))
    } else {
        (path, None)
    }
}

/// The path and the query of a request target.
pub fn split_path_query(s: &str) -> (r: (String, Option<String>))
    ensures
        r.0@ == path_part(s@),
        match r.1 {
            Some(q) => query_part(s@) == Some(q@),
            None => query_part(s@) is None,
        },
{
    let chars = to_chars(s);
    let (path, query) = split_target(chars.as_slice());
    match query {
        Some(q) => (to_text(path), Some(to_text(q))),
        None => (to_text(path), None),
    }
}

/// The parameters that the items of a query bind.
pub fn query_of(query: Option<&[char]>) -> (m: TextMap)
    ensures
        m.pairs() == query_pairs(
            match query {
                Some(q) => Some(q@),
                None => None,
            },
        ),
{
    let mut m = TextMap::new();
    match query {
        None => {},
        Some(q) => {
            let items = split_on(q, '&');
            let ghost texts = views(items@);
            let mut j: usize = 0;
            assert(texts.take(0) =~= Seq::<Seq<char>>::empty());
            while j < items.len()
                invariant
                    j <= items@.len(),
                    texts == views(items@),
                    m.pairs() == query_items(texts.take(j as int)),
                decreases items@.len() - j,
            {
                let item = items[j];
                assert(texts[j as int] == item@);
                let ghost upto = texts.take(j + 1);
                assert(upto.drop_last() =~= texts.take(j as int));
                assert(upto.last() == item@);
                if item.len() > 0 {
                    let i = index_of(item, '=');
                    let key = to_text(slice_subrange(item, 0, i));
                    let value = if i < item.len() {
                        to_text(slice_subrange(item, i + 1, item.len()))
                    } else {
                        String::new()
                    };
                    m.insert(key, value);
                }
                j += 1;
            }
            assert(texts.take(j as int) =~= texts);
        },
    }
    m
}

/// The parameters of a query string: one for each item between ampersands
/// that is not empty.
pub fn parse_query(q: Option<&str>) -> (m: TextMap)
    ensures
        m.pairs() == query_pairs(text_of(q)),
{
    match q {
        Some(s) => {
            let chars = to_chars(s);
            query_of(Some(chars.as_slice()))
        },
        None => query_of(None),
    }
}

/// Matches a request target against a pattern. On a match, the path
/// parameters that the pattern's captures bind and the query parameters of
/// the target.
pub fn match_route(pattern: &str, path: &str) -> (r: Option<(TextMap, TextMap)>)
    ensures
        r is Some == shape_matches(pattern@, path@),
        r is Some ==> r.unwrap().0.pairs() == path_params(pattern@, path@),
        r is Some ==> r.unwrap().1.pairs() == query_params(path@),
{
    let pattern_chars = to_chars(pattern);
    let target_chars = to_chars(path);
    let (path_only, query) = split_target(target_chars.as_slice());
    let want = split_on(stripped(pattern_chars.as_slice(), '/'), '/');
    let have = split_on(stripped(path_only, '/'), '/');
    let ghost pat = views(want@);
    let ghost segs = views(have@);
    assert(pat == segments(pattern@));
    assert(segs == segments(path_part(path@)));
    if want.len() != have.len() {
        return None;
    }
    let mut params = TextMap::new();
    let mut i: usize = 0;
    assert(pat.take(0) =~= Seq::<Seq<char>>::empty());
    while i < want.len()
        invariant
            i <= want@.len(),
            want@.len() == have@.len(),
            pat == views(want@),
            segs == views(have@),
            pat == segments(pattern@),
            segs == segments(path_part(path@)),
            forall|j: int| 0 <= j < i ==> is_capture(#[trigger] pat[j]) || pat[j] == segs[j],
            params.pairs() == bindings(pat.take(i as int), segs.take(i as int)),
        decreases want@.len() - i,
    {
        let pp = want[i];
        let rp = have[i];
        assert(pat[i as int] == pp@);
        assert(segs[i as int] == rp@);
        let ghost p1 = pat.take(i + 1);
        let ghost s1 = segs.take(i + 1);
        assert(p1.drop_last() =~= pat.take(i as int));
        assert(s1.drop_last() =~= segs.take(i as int));
        assert(p1.last() == pp@ && s1.last() == rp@);
        if pp.len() > 0 && pp[0] == ':' {
            let name = to_text(strip_colons(pp));
            params.insert(name, to_text(rp));
        } else if !same_chars(pp, rp) {
            assert(!is_capture(pat[i as int]) && pat[i as int] != segs[i as int]);
            return None;
        }
        i += 1;
    }
    assert(pat.take(i as int) =~= pat);
    assert(segs.take(i as int) =~= segs);
    let queries = query_of(query);
    Some((params, queries))
}

/// `s` without its leading colons.
fn strip_colons<'a>(s: &'a [char]) -> (t: &'a [char])
    ensures
        t@ == strip_start(s@, ':'),
{
    let mut a: usize = 0;
    assert(s@.skip(0) == s@);
    while a < s.len() && s[a] == ':'
        invariant
            a <= s.len(),
            strip_start(s@, ':') == strip_start(s@.skip(a as int), ':'),
        decreases s.len() - a,
    {
        assert(s@.skip(a as int).drop_first() == s@.skip(a + 1));
        a += 1;
    }
    slice_subrange(s, a, s.len())
}

/// A route: a pattern, a method, the handler, and the guards that stand
/// before the handler, in the order in which they check.
pub struct Router<G, H> {
    pub pattern: String,
    pub handler: H,
    pub method: Method,
    pub guards: Vec<G>,
}

impl<G, H> Router<G, H> {
    pub fn new(pattern: &str, handler: H, method: Method, middlewares: Vec<G>) -> (r: Router<G, H>)
        ensures
            r.pattern@ == pattern@,
            r.handler == handler,
            r.method == method,
            r.guards == middlewares,
    {
        Router { pattern: pattern.to_owned(), handler, method, guards: middlewares }
    }

    /// Whether the route is the one for a request: the path has the shape of
    /// the pattern, and the method is the route's.
    pub open spec fn serves(self, method: Method, target: Seq<char>) -> bool {
        shape_matches(self.pattern@, target) && self.method == method
    }
}

/// A route in the making: it collects guards, and joins the application
/// when it gets its handler.
pub struct RouteBuilder<'a, S, F, G, H> {
    pub app: &'a mut App<S, F, G, H>,
    pub pattern: String,
    pub method: Method,
    pub guards: Vec<G>,
}

impl<'a, S, F, G, H> RouteBuilder<'a, S, F, G, H> {
    /// Adds a guard; it checks after those added before it.
    pub fn faiting(self, guard: G) -> (r: RouteBuilder<'a, S, F, G, H>)
        ensures
            r.guards@ == self.guards@.push(guard),
            r.pattern == self.pattern,
            r.method == self.method,
            *r.app == *old(self.app),
            *final(self.app) == *final(r.app),
    {
        let mut this = self;
        this.guards.push(guard);
        this
    }

    /// Registers the route with `handler` and hands the application back.
    pub fn handler(self, handler: H) -> (app: &'a mut App<S, F, G, H>)
        ensures
            app.routes@ == old(self.app).routes@.push(
                Router { pattern: self.pattern, handler, method: self.method, guards: self.guards },
            ),
            app.fairings == old(self.app).fairings,
            app.context == old(self.app).context,
            app.config == old(self.app).config,
            *final(self.app) == *final(app),
    {
        let app_ref: &'a mut App<S, F, G, H> = self.app;
        app_ref.add_route(
            Router { pattern: self.pattern, handler, method: self.method, guards: self.guards },
        );
        app_ref
    }
}

/// The segment with index `i` of `pattern` is a capture of the name `name`.
pub open spec fn captures(pattern: Seq<Seq<char>>, i: int, name: Seq<char>) -> bool {
    0 <= i < pattern.len() && is_capture(pattern[i]) && capture_name(pattern[i]) == name
}

/// The parameters are exactly the names that the pattern captures, and
/// each name is bound to the path segment in the place of its last capture.
pub proof fn lemma_bindings(pattern: Seq<Seq<char>>, path: Seq<Seq<char>>)
    requires
        pattern.len() == path.len(),
    ensures
        forall|name: Seq<char>| #[trigger]
            as_map(bindings(pattern, path)).contains_key(name) <==> exists|i: int| #[trigger]
                captures(pattern, i, name),
        forall|i: int, name: Seq<char>|
            #[trigger] captures(pattern, i, name) && (forall|j: int|
                i < j ==> !#[trigger] captures(pattern, j, name)) ==> as_map(
                bindings(pattern, path),
            )[name] == path[i],
    decreases pattern.len(),
{
    if pattern.len() == 0 {
    } else {
        let p0 = pattern.drop_last();
        let s0 = path.drop_last();
        let last = pattern.len() - 1;
        lemma_bindings(p0, s0);
        let before = bindings(p0, s0);
        let now = bindings(pattern, path);
        if is_capture(pattern.last()) {
            lemma_put(before, capture_name(pattern.last()), path.last());
        }
        assert forall|i: int, name: Seq<char>| captures(p0, i, name) == (captures(
            pattern,
            i,
            name,
        ) && i < last) by {
            if 0 <= i < last {
                assert(p0[i] == pattern[i]);
            }
        }
        assert forall|name: Seq<char>| #[trigger]
            as_map(now).contains_key(name) <==> exists|i: int| #[trigger]
                captures(pattern, i, name) by {
            if as_map(now).contains_key(name) {
                if captures(pattern, last, name) {
                } else {
                    assert(as_map(before).contains_key(name));
                    let i = choose|i: int| #[trigger] captures(p0, i, name);
                    assert(captures(pattern, i, name));
                }
            }
            if exists|i: int| #[trigger] captures(pattern, i, name) {
                let i = choose|i: int| #[trigger] captures(pattern, i, name);
                if i < last {
                    assert(captures(p0, i, name));
                    assert(as_map(before).contains_key(name));
                }
            }
        }
        assert forall|i: int, name: Seq<char>|
            #[trigger] captures(pattern, i, name) && (forall|j: int|
                i < j ==> !#[trigger] captures(pattern, j, name)) implies as_map(now)[name]
            == path[i] by {
            if i < last {
                assert(!captures(pattern, last, name));
                assert(captures(p0, i, name));
                assert forall|j: int| i < j implies !#[trigger] captures(p0, j, name) by {
                    assert(!captures(pattern, j, name));
                }
                assert(s0[i] == path[i]);
            }
        }
    }
}

/// A path with another number of segments than the pattern does not match.
/// A path with as many segments, each equal to the pattern's segment in its
/// place unless that is a capture, matches; its parameters are exactly the
/// names that the pattern captures, each bound to the path segment in the
/// place of its last capture.
pub proof fn lemma_shape(pattern: Seq<char>, target: Seq<char>)
    ensures
        segments(pattern).len() != segments(path_part(target)).len() ==> !shape_matches(
            pattern,
            target,
        ),
        segments(pattern).len() == segments(path_part(target)).len() && (forall|i: int|
            0 <= i < segments(pattern).len() && !is_capture(#[trigger] segments(pattern)[i])
                ==> segments(pattern)[i] == segments(path_part(target))[i]) ==> shape_matches(
            pattern,
            target,
        ),
        shape_matches(pattern, target) ==> forall|name: Seq<char>| #[trigger]
            as_map(path_params(pattern, target)).contains_key(name) <==> exists|i: int| #[trigger]
                captures(segments(pattern), i, name),
        shape_matches(pattern, target) ==> forall|i: int, name: Seq<char>|
            #[trigger] captures(segments(pattern), i, name) && (forall|j: int|
                i < j ==> !#[trigger] captures(segments(pattern), j, name)) ==> as_map(
                path_params(pattern, target),
            )[name] == segments(path_part(target))[i],
{
    if shape_matches(pattern, target) {
        lemma_bindings(segments(pattern), segments(path_part(target)));
    }
}

/// The items of two lists bind what the first list binds, overridden by
/// what the second binds.
pub proof fn lemma_query_items_add(first: Seq<Seq<char>>, second: Seq<Seq<char>>)
    ensures
        as_map(query_items(first + second)) == as_map(query_items(first)).union_prefer_right(
            as_map(query_items(second)),
        ),
    decreases second.len(),
{
    let a = as_map(query_items(first));
    if second.len() == 0 {
        assert(first + second =~= first);
        assert(a.union_prefer_right(as_map(query_items(second))) =~= a);
    } else {
        let rest = second.drop_last();
        let item = second.last();
        assert((first + second).drop_last() =~= first + rest);
        assert((first + second).last() == item);
        lemma_query_items_add(first, rest);
        if item.len() > 0 {
            lemma_put(query_items(first + rest), query_key(item), query_value(item));
            lemma_put(query_items(rest), query_key(item), query_value(item));
            assert(a.union_prefer_right(as_map(query_items(rest))).insert(
                query_key(item),
                query_value(item),
            ) =~= a.union_prefer_right(
                as_map(query_items(rest)).insert(query_key(item), query_value(item)),
            ));
        }
    }
}

/// Two queries joined by an ampersand bind what the first binds,
/// overridden by what the second binds: of a key that comes twice the later
/// value stays.
pub proof fn lemma_query_join(first: Seq<char>, second: Seq<char>)
    ensures
        as_map(query_pairs(Some(first + seq!['&'] + second))) == as_map(
            query_pairs(Some(first)),
        ).union_prefer_right(as_map(query_pairs(Some(second)))),
{
    lemma_split_join(first, second, '&');
    lemma_query_items_add(split(first, '&'), split(second, '&'));
}

/// One item that is not empty binds its key to its value.
pub proof fn lemma_query_one(item: Seq<char>)
    requires
        item.len() > 0,
    ensures
        query_items(seq![item]) == seq![(query_key(item), query_value(item))],
{
    let one = seq![item];
    assert(one.drop_last() =~= Seq::<Seq<char>>::empty());
    assert(query_items(one.drop_last()) == Pairs::empty());
    assert(one.last() == item);
    assert(put(Pairs::empty(), query_key(item), query_value(item)) =~= seq![
        (query_key(item), query_value(item)),
    ]);
}

/// A query that is one key, an equals sign and one value binds that key to
/// that value.
pub proof fn lemma_query_pair(key: Seq<char>, value: Seq<char>)
    requires
        !key.contains('&'),
        !key.contains('='),
        !value.contains('&'),
    ensures
        query_pairs(Some(key + seq!['='] + value)) == seq![(key, value)],
{
    let item = key + seq!['='] + value;
    assert(!item.contains('&')) by {
        if item.contains('&') {
            let i = choose|i: int| 0 <= i < item.len() && item[i] == '&';
            if i < key.len() {
                assert(key.contains(key[i]));
            } else if i > key.len() {
                assert(value.contains(value[i - key.len() - 1]));
            }
        }
    }
    lemma_split_one(item, '&');
    assert forall|j: int| 0 <= j < key.len() implies item[j] != '=' by {
        assert(key.contains(key[j]) && item[j] == key[j]);
    }
    lemma_find_char_is(item, '=', key.len() as int);
    assert(item.take(key.len() as int) =~= key);
    assert(item.skip(key.len() as int + 1) =~= value);
    lemma_query_one(item);
}

/// A query that is one key without an equals sign binds that key to the
/// empty text.
pub proof fn lemma_query_bare(key: Seq<char>)
    requires
        key.len() > 0,
        !key.contains('&'),
        !key.contains('='),
    ensures
        query_pairs(Some(key)) == seq![(key, Seq::<char>::empty())],
{
    lemma_split_one(key, '&');
    lemma_find_char(key, '=');
    if find(key, seq!['=']) < key.len() {
        assert(key.contains(key[find(key, seq!['='])]));
    }
    assert(key.take(key.len() as int) =~= key);
    lemma_query_one(key);
}

} // verus!
