//! Checks that let a request through to one route or turn it away.

use crate::context::Context;
use crate::request::HttpRequest;
use crate::response::HttpResponse;
use vstd::prelude::*;

verus! {

/// The verdict of a guard.
#[derive(Debug, PartialEq)]
pub enum Outcome {
    Success,
    Failure(HttpResponse),
}

impl Clone for Outcome {
    fn clone(&self) -> (r: Outcome)
        ensures
            match (self, r) {
                (Outcome::Success, Outcome::Success) => true,
                (Outcome::Failure(a), Outcome::Failure(b)) => a@ == b@,
                _ => false,
            },
    {
        match self {
            Outcome::Success => Outcome::Success,
            Outcome::Failure(res) => Outcome::Failure(res.clone()),
        }
    }
}

/// A check that lets a request through to a route, or answers in the
/// handler's place.
pub trait Guard<V, S> {
    /// Whether `verdict` is a verdict that this guard may give on `req`
    /// with the state `ctx`. A guard that says nothing of itself may give
    /// any.
    open spec fn may_give(&self, req: HttpRequest<V>, ctx: Context<S>, verdict: Outcome) -> bool {
        true
    }

    fn from_request(&self, req: &HttpRequest<V>, ctx: &Context<S>) -> (verdict: Outcome)
        ensures
            self.may_give(*req, *ctx, verdict),
    ;
}

/// A boxed guard is the guard in the box: it gives a verdict that the guard
/// in it may give on the same request and state.
impl<V, S> Guard<V, S> for Box<dyn Guard<V, S>> {
    open spec fn may_give(&self, req: HttpRequest<V>, ctx: Context<S>, verdict: Outcome) -> bool {
        (**self).may_give(req, ctx, verdict)
    }

    fn from_request(&self, req: &HttpRequest<V>, ctx: &Context<S>) -> (verdict: Outcome) {
        (**self).from_request(req, ctx)
    }
}

} // verus!
