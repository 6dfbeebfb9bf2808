//! Conversions of the values a handler may return.

use crate::response::{fresh, HttpResponse, ResponseView};
use crate::status::StatusCode;
use vstd::prelude::*;

verus! {

/// A value that can become the body of a response.
pub trait IntoBody: Sized {
    /// The text that the value holds.
    spec fn body_text(&self) -> Seq<char>;

    fn into_body(self) -> (s: String)
        ensures
            s@ == self.body_text(),
    ;
}

impl IntoBody for String {
    open spec fn body_text(&self) -> Seq<char> {
        self@
    }

    fn into_body(self) -> (s: String) {
        self
    }
}

impl IntoBody for &str {
    open spec fn body_text(&self) -> Seq<char> {
        self@
    }

    fn into_body(self) -> (s: String) {
        self.to_owned()
    }
}

/// A value that a handler may return: text, or a response ready made.
pub trait Responder: Sized {
    /// The response that the value stands for.
    spec fn response(&self) -> ResponseView;

    fn into_response(self) -> (r: HttpResponse)
        ensures
            r@ == self.response(),
    ;
}

impl Responder for &str {
    open spec fn response(&self) -> ResponseView {
        fresh(StatusCode::Okay, None, self@)
    }

    fn into_response(self) -> (r: HttpResponse) {
        HttpResponse::new(StatusCode::Okay, None, self)
    }
}

impl Responder for String {
    open spec fn response(&self) -> ResponseView {
        fresh(StatusCode::Okay, None, self@)
    }

    fn into_response(self) -> (r: HttpResponse) {
        HttpResponse::new(StatusCode::Okay, None, self)
    }
}

impl Responder for HttpResponse {
    open spec fn response(&self) -> ResponseView {
        self@
    }

    fn into_response(self) -> (r: HttpResponse) {
        self
    }
}

} // verus!
