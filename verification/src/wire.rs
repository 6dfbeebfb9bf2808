//! What is written can be read: the parser cuts the wire text of a response
//! where the writer joined it.

use crate::request::{body_of, head_of};
use crate::response::{effective_headers, header_lines, wire_text, ResponseView};
use crate::text::{decimal, find, lemma_find, starts_with};
use crate::textmap::Pairs;
use vstd::prelude::*;
use vstd::utf8::encode_utf8;

verus! {

/// The text holds no line feed.
pub open spec fn one_line(s: Seq<char>) -> bool {
    forall|i: int| 0 <= i < s.len() ==> s[i] != '\n'
}

/// No name and no value holds a line feed.
pub open spec fn one_line_each(pairs: Pairs) -> bool {
    forall|i: int|
        0 <= i < pairs.len() ==> one_line((#[trigger] pairs[i]).0) && one_line(pairs[i].1)
}

/// A blank line stands at index `j` of `s`.
pub open spec fn blank_at(s: Seq<char>, j: int) -> bool {
    &&& 0 <= j
    &&& j + 4 <= s.len()
    &&& s[j] == '\r'
    &&& s[j + 1] == '\n'
    &&& s[j + 2] == '\r'
    &&& s[j + 3] == '\n'
}

/// The text holds no blank line.
pub open spec fn no_blank(s: Seq<char>) -> bool {
    forall|j: int| !blank_at(s, j)
}

/// The wire text of a response up to the blank line.
pub open spec fn wire_head(r: ResponseView) -> Seq<char> {
    r.version + " "@ + r.status_code.digits() + " "@ + r.status_text + "\r\n"@ + header_lines(
        effective_headers(r.headers),
    ) + "Content-Length: "@ + decimal(encode_utf8(r.body).len())
}

/// A blank line stands where the text from there on begins with one.
proof fn lemma_blank_at(s: Seq<char>, j: int)
    requires
        0 <= j <= s.len(),
    ensures
        starts_with(s.skip(j), "\r\n\r\n"@) == blank_at(s, j),
{
    reveal_strlit("\r\n\r\n");
    let gap = "\r\n\r\n"@;
    let rest = s.skip(j);
    if blank_at(s, j) {
        assert(rest.take(4) =~= gap);
    }
    if starts_with(rest, gap) {
        assert(rest.take(4)[0] == gap[0]);
        assert(rest.take(4)[1] == gap[1]);
        assert(rest.take(4)[2] == gap[2]);
        assert(rest.take(4)[3] == gap[3]);
    }
}

proof fn lemma_decimal_one_line(n: nat)
    ensures
        one_line(decimal(n)),
        decimal(n).len() > 0,
        decimal(n).last() != '\n',
    decreases n,
{
    if n >= 10 {
        lemma_decimal_one_line(n / 10);
    }
}

/// A line that is not empty, added with its line end to a text without
/// blank line, leaves it without blank line.
proof fn lemma_add_line(before: Seq<char>, line: Seq<char>)
    requires
        no_blank(before),
        one_line(line),
        line.len() > 0,
    ensures
        no_blank(before + line + "\r\n"@),
{
    reveal_strlit("\r\n");
    let all = before + line + "\r\n"@;
    assert forall|j: int| !blank_at(all, j) by {
        if blank_at(all, j) {
            if j + 3 < before.len() {
                assert(blank_at(before, j));
            } else if j + 3 < before.len() + line.len() {
                assert(all[j + 3] == line[j + 3 - before.len()]);
            } else if j + 3 == before.len() + line.len() {
            } else {
                assert(all[j + 1] == line[j + 1 - before.len()]);
            }
        }
    }
}

/// A text without line feed, added to a text without blank line, leaves it
/// without blank line.
proof fn lemma_add_rest(before: Seq<char>, rest: Seq<char>)
    requires
        no_blank(before),
        one_line(rest),
    ensures
        no_blank(before + rest),
{
    let all = before + rest;
    assert forall|j: int| !blank_at(all, j) by {
        if blank_at(all, j) {
            if j + 3 < before.len() {
                assert(blank_at(before, j));
            } else {
                assert(all[j + 3] == rest[j + 3 - before.len()]);
            }
        }
    }
}

proof fn lemma_add_headers(before: Seq<char>, pairs: Pairs)
    requires
        no_blank(before),
        one_line_each(pairs),
    ensures
        no_blank(before + header_lines(pairs)),
    decreases pairs.len(),
{
    if pairs.len() == 0 {
        assert(before + header_lines(pairs) =~= before);
    } else {
        reveal_strlit(": ");
        let rest = pairs.drop_last();
        assert forall|i: int| 0 <= i < rest.len() implies one_line((#[trigger] rest[i]).0)
            && one_line(rest[i].1) by {
            assert(rest[i] == pairs[i]);
        }
        lemma_add_headers(before, rest);
        let (name, value) = pairs.last();
        let line = name + ": "@ + value;
        lemma_add_line(before + header_lines(rest), line);
        assert(before + header_lines(pairs) =~= before + header_lines(rest) + line + "\r\n"@);
    }
}

/// The head of a response's wire text holds no blank line and does not end
/// in a line feed, where no part of it holds a line feed of its own.
proof fn lemma_wire_head(r: ResponseView)
    requires
        one_line(r.version),
        one_line(r.status_text),
        one_line_each(effective_headers(r.headers)),
    ensures
        no_blank(wire_head(r)),
        wire_head(r).len() > 0,
        wire_head(r).last() != '\n',
{
    reveal_strlit(" ");
    reveal_strlit("Content-Length: ");
    reveal_strlit("200");
    reveal_strlit("400");
    reveal_strlit("404");
    reveal_strlit("405");
    reveal_strlit("500");
    reveal_strlit("401");
    let status = r.version + " "@ + r.status_code.digits() + " "@ + r.status_text;
    let length = decimal(encode_utf8(r.body).len());
    let last = "Content-Length: "@ + length;
    lemma_decimal_one_line(encode_utf8(r.body).len());
    assert(one_line(status));
    assert(one_line(last));
    lemma_add_line(Seq::empty(), status);
    assert(Seq::<char>::empty() + status + "\r\n"@ =~= status + "\r\n"@);
    lemma_add_headers(status + "\r\n"@, effective_headers(r.headers));
    lemma_add_rest(status + "\r\n"@ + header_lines(effective_headers(r.headers)), last);
    assert(wire_head(r) =~= status + "\r\n"@ + header_lines(effective_headers(r.headers)) + last);
    assert(wire_head(r).last() == length.last());
}

/// Read back, the wire text of a response falls apart where it was joined:
/// the head is the status line, the headers and the length, the body is the
/// body. This holds of every response whose version, status text, header
/// names and header values hold no line feed.
pub proof fn lemma_round_trip(r: ResponseView)
    requires
        one_line(r.version),
        one_line(r.status_text),
        one_line_each(effective_headers(r.headers)),
    ensures
        head_of(wire_text(r)) == wire_head(r),
        body_of(wire_text(r)) == r.body,
{
    reveal_strlit("\r\n\r\n");
    let gap = "\r\n\r\n"@;
    let head = wire_head(r);
    let all = wire_text(r);
    let n = head.len() as int;
    lemma_wire_head(r);
    assert(all =~= head + gap + r.body);
    assert forall|j: int| 0 <= j < n implies !starts_with(#[trigger] all.skip(j), gap) by {
        lemma_blank_at(all, j);
        if blank_at(all, j) {
            if j + 3 < n {
                assert(blank_at(head, j));
            } else if j + 3 == n {
            } else if j + 3 == n + 1 {
                assert(all[j + 1] == head.last());
            } else {
            }
        }
    }
    lemma_blank_at(all, n);
    assert(blank_at(all, n));
    lemma_find(all, gap);
    let at = find(all, gap);
    if at < n {
        assert(!starts_with(all.skip(at), gap));
    }
    if at > n {
        assert(starts_with(all.skip(n), gap));
    }
    assert(all.take(n) =~= head);
    assert(all.skip(n + gap.len()) =~= r.body);
}

} // verus!
