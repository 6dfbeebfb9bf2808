//! What answers a request once it is admitted.

use crate::context::Context;
use crate::request::HttpRequest;
use crate::responder::Responder;
use vstd::prelude::*;

verus! {

/// The handler of a route. What it returns becomes the response by way of
/// `Responder`.
pub trait Handler<V, S, R: Responder> {
    /// Whether `reply` is a value that this handler may return on `req` with
    /// the state `ctx`. A handler that says nothing of itself may return
    /// any.
    open spec fn may_reply(&self, req: HttpRequest<V>, ctx: Context<S>, reply: R) -> bool {
        true
    }

    fn handle(&self, req: &HttpRequest<V>, ctx: &Context<S>) -> (reply: R)
        ensures
            self.may_reply(*req, *ctx, reply),
    ;
}

/// A boxed handler is the handler in the box: it returns a value that the
/// handler in it may return on the same request and state.
impl<V, S, R: Responder> Handler<V, S, R> for Box<dyn Handler<V, S, R>> {
    open spec fn may_reply(&self, req: HttpRequest<V>, ctx: Context<S>, reply: R) -> bool {
        (**self).may_reply(req, ctx, reply)
    }

    fn handle(&self, req: &HttpRequest<V>, ctx: &Context<S>) -> (reply: R) {
        (**self).handle(req, ctx)
    }
}

} // verus!
