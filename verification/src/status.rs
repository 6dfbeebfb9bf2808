//! The closed set of response statuses.

use crate::text::decimal;
use vstd::prelude::*;

verus! {

#[derive(PartialEq, Eq, Clone, Copy, Debug, Structural)]
pub enum StatusCode {
    Okay,
    BadRequest,
    NotFound,
    MethodNotAllowed,
    InternalServerError,
    NotAutorized,
}

impl StatusCode {
    /// The status number.
    pub open spec fn number(self) -> nat {
        match self {
            StatusCode::Okay => 200,
            StatusCode::BadRequest => 400,
            StatusCode::NotFound => 404,
            StatusCode::MethodNotAllowed => 405,
            StatusCode::InternalServerError => 500,
            StatusCode::NotAutorized => 401,
        }
    }

    /// The status number as it stands in a status line.
    pub open spec fn digits(self) -> Seq<char> {
        match self {
            StatusCode::Okay => "200"@,
            StatusCode::BadRequest => "400"@,
            StatusCode::NotFound => "404"@,
            StatusCode::MethodNotAllowed => "405"@,
            StatusCode::InternalServerError => "500"@,
            StatusCode::NotAutorized => "401"@,
        }
    }

    /// The status text that goes with the number.
    pub open spec fn reason(self) -> Seq<char> {
        match self {
            StatusCode::Okay => "OK"@,
            StatusCode::BadRequest => "Bad Request"@,
            StatusCode::NotFound => "Not Found"@,
            StatusCode::MethodNotAllowed => "Method Not Allowed"@,
            StatusCode::InternalServerError => "Internal Server Error"@,
            StatusCode::NotAutorized => "Unauthorized"@,
        }
    }

    pub fn code(self) -> (n: u16)
        ensures
            n == self.number(),
    {
        match self {
            StatusCode::Okay => 200,
            StatusCode::BadRequest => 400,
            StatusCode::NotFound => 404,
            StatusCode::MethodNotAllowed => 405,
            StatusCode::InternalServerError => 500,
            StatusCode::NotAutorized => 401,
        }
    }

    pub fn as_str(self) -> (s: &'static str)
        ensures
            s@ == self.digits(),
    {
        match self {
            StatusCode::Okay => "200",
            StatusCode::BadRequest => "400",
            StatusCode::NotFound => "404",
            StatusCode::MethodNotAllowed => "405",
            StatusCode::InternalServerError => "500",
            StatusCode::NotAutorized => "401",
        }
    }

    pub fn text(self) -> (s: &'static str)
        ensures
            s@ == self.reason(),
    {
        match self {
            StatusCode::Okay => "OK",
            StatusCode::BadRequest => "Bad Request",
            StatusCode::NotFound => "Not Found",
            StatusCode::MethodNotAllowed => "Method Not Allowed",
            StatusCode::InternalServerError => "Internal Server Error",
            StatusCode::NotAutorized => "Unauthorized",
        }
    }
}

/// The digits of a status are its number in decimal.
pub proof fn lemma_digits(status: StatusCode)
    ensures
        status.digits() == decimal(status.number()),
{
    reveal_strlit("200");
    reveal_strlit("400");
    reveal_strlit("404");
    reveal_strlit("405");
    reveal_strlit("500");
    reveal_strlit("401");
    reveal_with_fuel(decimal, 3);
    assert(status.digits() =~= decimal(status.number()));
}

} // verus!
