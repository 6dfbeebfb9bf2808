//! Units that run around every request.

use crate::context::Context;
use crate::request::HttpRequest;
use crate::response::HttpResponse;
use vstd::prelude::*;

verus! {

/// What a unit asks for after it has seen the request.
#[derive(Debug, PartialEq, Eq, Clone, Copy, Structural)]
pub enum MwFlow {
    Continue,
    Stop,
}

/// A unit with a part before the handler and a part after it.
pub trait Fairing<V, S> {
    /// Whether this unit, given `req` and the state `ctx`, may leave the
    /// request as `left` and ask for `flow`. A unit that says nothing of
    /// itself may do anything.
    open spec fn may_begin(
        &self,
        req: HttpRequest<V>,
        ctx: Context<S>,
        left: HttpRequest<V>,
        flow: MwFlow,
    ) -> bool {
        true
    }

    /// Whether this unit, given `req`, the response `res` and the state
    /// `ctx`, may leave the response as `left`. A unit that says nothing of
    /// itself may do anything.
    open spec fn may_end(
        &self,
        req: HttpRequest<V>,
        res: HttpResponse,
        ctx: Context<S>,
        left: HttpResponse,
    ) -> bool {
        true
    }

    fn on_request(&self, req: &mut HttpRequest<V>, ctx: &Context<S>) -> (flow: MwFlow)
        ensures
            self.may_begin(*old(req), *ctx, *final(req), flow),
    ;

    fn on_response(&self, req: &HttpRequest<V>, res: &mut HttpResponse, ctx: &Context<S>)
        ensures
            self.may_end(*req, *old(res), *ctx, *final(res)),
    ;
}

/// A boxed unit is the unit in the box: each part does to the request or
/// the response, and asks for, what that part of the unit in it may on the
/// same request, response and state.
impl<V, S> Fairing<V, S> for Box<dyn Fairing<V, S>> {
    open spec fn may_begin(
        &self,
        req: HttpRequest<V>,
        ctx: Context<S>,
        left: HttpRequest<V>,
        flow: MwFlow,
    ) -> bool {
        (**self).may_begin(req, ctx, left, flow)
    }

    open spec fn may_end(
        &self,
        req: HttpRequest<V>,
        res: HttpResponse,
        ctx: Context<S>,
        left: HttpResponse,
    ) -> bool {
        (**self).may_end(req, res, ctx, left)
    }

    fn on_request(&self, req: &mut HttpRequest<V>, ctx: &Context<S>) -> (flow: MwFlow) {
        (**self).on_request(req, ctx)
    }

    fn on_response(&self, req: &HttpRequest<V>, res: &mut HttpResponse, ctx: &Context<S>) {
        (**self).on_response(req, res, ctx)
    }
}

} // verus!
