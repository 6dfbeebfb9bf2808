//! The canonical response and its rendering as wire text.

use crate::responder::IntoBody;
use crate::status::StatusCode;
use crate::text::{decimal, push_decimal};
use crate::assoc::{put, without};
use crate::textmap::{Pairs, TextMap};
use vstd::prelude::*;
use vstd::std_specs::convert::FromSpecImpl;
use vstd::string::StringExecFns;
use vstd::utf8::encode_utf8;

verus! {

#[derive(Debug, PartialEq)]
pub struct HttpResponse {
    pub version: String,
    pub status_code: StatusCode,
    pub status_text: String,
    pub headers: Option<TextMap>,
    pub body: String,
}

/// What a response holds, as plain values.
pub ghost struct ResponseView {
    pub version: Seq<char>,
    pub status_code: StatusCode,
    pub status_text: Seq<char>,
    pub headers: Option<Pairs>,
    pub body: Seq<char>,
}

impl View for HttpResponse {
    type V = ResponseView;

    open spec fn view(&self) -> ResponseView {
        ResponseView {
            version: self.version@,
            status_code: self.status_code,
            status_text: self.status_text@,
            headers: match self.headers {
                Some(h) => Some(h.pairs()),
                None => None,
            },
            body: self.body@,
        }
    }
}

/// The error type in the signatures of `add_header` and `remove_header`,
/// `std::io::Error`; no value of it is ever made here.
#[verifier::external_type_specification]
#[verifier::external_body]
pub struct ExIoError(std::io::Error);

/// The headers that a response holds, none counting as an empty set.
pub open spec fn held_headers(headers: Option<Pairs>) -> Pairs {
    match headers {
        Some(h) => h,
        None => Pairs::empty(),
    }
}

/// The headers of a response that was given none.
pub open spec fn default_headers() -> Pairs {
    seq![("Content-Type"@, "text/html"@)]
}

/// The headers that a response goes out with.
pub open spec fn effective_headers(headers: Option<Pairs>) -> Pairs {
    match headers {
        Some(h) => h,
        None => default_headers(),
    }
}

/// A new response: version 1.1, the status with its own text, the headers
/// given or else the default ones.
pub open spec fn fresh(status: StatusCode, headers: Option<Pairs>, body: Seq<char>) -> ResponseView {
    ResponseView {
        version: "HTTP/1.1"@,
        status_code: status,
        status_text: status.reason(),
        headers: Some(effective_headers(headers)),
        body,
    }
}

/// One line per header: name, colon, space, value, line end.
pub open spec fn header_lines(pairs: Pairs) -> Seq<char>
    decreases pairs.len(),
{
    if pairs.len() == 0 {
        Seq::empty()
    } else {
        header_lines(pairs.drop_last()) + pairs.last().0 + ": "@ + pairs.last().1 + "\r\n"@
    }
}

/// The response as it goes onto the wire. The length announced is that of
/// the body in bytes, whatever the headers say.
pub open spec fn wire_text(r: ResponseView) -> Seq<char> {
    r.version + " "@ + r.status_code.digits() + " "@ + r.status_text + "\r\n"@ + header_lines(
        effective_headers(r.headers),
    ) + "Content-Length: "@ + decimal(encode_utf8(r.body).len()) + "\r\n\r\n"@ + r.body
}

impl Default for HttpResponse {
    fn default() -> (r: HttpResponse)
        ensures
            r@ == (ResponseView {
                version: "HTTP/1.1"@,
                status_code: StatusCode::Okay,
                status_text: "OK"@,
                headers: None,
                body: ""@,
            }),
    {
        HttpResponse {
            version: "HTTP/1.1".to_owned(),
            status_code: StatusCode::Okay,
            status_text: "OK".to_owned(),
            headers: None,
            body: "".to_owned(),
        }
    }
}

impl Clone for HttpResponse {
    fn clone(&self) -> (r: HttpResponse)
        ensures
            r@ == self@,
    {
        HttpResponse {
            version: self.version.clone(),
            status_code: self.status_code,
            status_text: self.status_text.clone(),
            headers: match &self.headers {
                Some(h) => Some(h.clone()),
                None => None,
            },
            body: self.body.clone(),
        }
    }
}

impl HttpResponse {
    pub fn new<I: IntoBody>(status_code: StatusCode, headers: Option<TextMap>, body: I) -> (r:
        HttpResponse)
        ensures
            r@ == fresh(
                status_code,
                match headers {
                    Some(h) => Some(h.pairs()),
                    None => None,
                },
                body.body_text(),
            ),
    {
        let headers = match headers {
            Some(h) => h,
            None => {
                let mut h = TextMap::new();
                h.insert("Content-Type".to_owned(), "text/html".to_owned());
                assert(h.pairs() =~= default_headers());
                h
            },
        };
        HttpResponse {
            version: "HTTP/1.1".to_owned(),
            status_code,
            status_text: status_code.text().to_owned(),
            headers: Some(headers),
            body: body.into_body(),
        }
    }

    /// An empty response with status 200.
    pub fn ok() -> (r: HttpResponse)
        ensures
            r@ == fresh(StatusCode::Okay, None, ""@),
    {
        HttpResponse::new(StatusCode::Okay, None, "")
    }

    pub fn get_version(&self) -> (s: &str)
        ensures
            s@ == self@.version,
    {
        self.version.as_str()
    }

    pub fn get_status_code(&self) -> (s: &str)
        ensures
            s@ == self@.status_code.digits(),
    {
        self.status_code.as_str()
    }

    pub fn get_status_text(&self) -> (s: &str)
        ensures
            s@ == self@.status_text,
    {
        self.status_text.as_str()
    }

    pub fn get_body(&self) -> (s: &str)
        ensures
            s@ == self@.body,
    {
        self.body.as_str()
    }

    /// The header lines as they go onto the wire.
    pub fn get_headers(&self) -> (s: String)
        ensures
            s@ == header_lines(effective_headers(self@.headers)),
    {
        let mut out = String::new();
        match &self.headers {
            Some(h) => {
                let mut i: usize = 0;
                assert(h.pairs().take(0) =~= Pairs::empty());
                while i < h.len()
                    invariant
                        i <= h.pairs().len(),
                        out@ == header_lines(h.pairs().take(i as int)),
                    decreases h.pairs().len() - i,
                {
                    let ghost done = h.pairs().take(i as int);
                    let ghost next = h.pairs().take(i + 1);
                    assert(next.drop_last() =~= done);
                    assert(next.last() == h.pairs()[i as int]);
                    out.append(h.key_at(i).as_str());
                    out.append(": ");
                    out.append(h.value_at(i).as_str());
                    out.append("\r\n");
                    i += 1;
                }
                assert(h.pairs().take(i as int) =~= h.pairs());
            },
            None => {
                let ghost d = default_headers();
                assert(d.drop_last() =~= Pairs::empty());
                assert(header_lines(d) == header_lines(Pairs::empty()) + d.last().0 + ": "@
                    + d.last().1 + "\r\n"@);
                out.append("Content-Type");
                out.append(": ");
                out.append("text/html");
                out.append("\r\n");
                assert(Seq::<char>::empty() + "Content-Type"@ =~= "Content-Type"@);
            },
        }
        out
    }

    /// Replaces the body and hands back a copy of the response.
    pub fn body<I: IntoBody>(&mut self, body: I) -> (r: HttpResponse)
        ensures
            final(self)@ == (ResponseView { body: body.body_text(), ..old(self)@ }),
            r@ == final(self)@,
    {
        self.body = body.into_body();
        self.clone()
    }

    /// Binds the header `key` to `value`; always succeeds.
    pub fn add_header(&mut self, key: &str, value: &str) -> (r: Result<(), std::io::Error>)
        ensures
            r is Ok,
            final(self)@ == (ResponseView {
                headers: Some(put(held_headers(old(self)@.headers), key@, value@)),
                ..old(self)@
            }),
    {
        let mut h = match &self.headers {
            Some(h) => h.clone(),
            None => TextMap::new(),
        };
        h.insert(key.to_owned(), value.to_owned());
        self.headers = Some(h);
        Ok(())
    }

    /// Unbinds the header `key`; always succeeds.
    pub fn remove_header(&mut self, key: &str) -> (r: Result<(), std::io::Error>)
        ensures
            r is Ok,
            final(self)@ == (ResponseView {
                headers: Some(without(held_headers(old(self)@.headers), key@)),
                ..old(self)@
            }),
    {
        let mut h = match &self.headers {
            Some(h) => h.clone(),
            None => TextMap::new(),
        };
        h.remove(key);
        self.headers = Some(h);
        Ok(())
    }

    /// The response as it goes onto the wire.
    pub fn to_wire(&self) -> (s: String)
        ensures
            s@ == wire_text(self@),
    {
        let mut out = String::new();
        out.append(self.get_version());
        assert(out@ =~= self@.version);
        out.append(" ");
        out.append(self.get_status_code());
        out.append(" ");
        out.append(self.get_status_text());
        out.append("\r\n");
        let lines = self.get_headers();
        out.append(lines.as_str());
        out.append("Content-Length: ");
        push_decimal(&mut out, self.body.as_str().as_bytes().len());
        out.append("\r\n\r\n");
        out.append(self.get_body());
        assert(out@ =~= wire_text(self@));
        out
    }
}

impl From<HttpResponse> for String {
    fn from(value: HttpResponse) -> (s: String)
        ensures
            s@ == wire_text(value@),
    {
        value.to_wire()
    }
}

impl FromSpecImpl<HttpResponse> for String {
    open spec fn obeys_from_spec() -> bool {
        false
    }

    open spec fn from_spec(value: HttpResponse) -> String {
        value.body
    }
}

} // verus!
