//! The application: its routes, its global units, its state, and the way
//! from the text of a request to the text of the response.

use crate::config::Config;
use crate::context::{Context, TypeKey};
use crate::fairing::{Fairing, MwFlow};
use crate::guard::{Guard, Outcome};
use crate::handler::Handler;
use crate::pipeline::{can_end, plan, Cause, Pipeline, Step};
use crate::request::{
    has_request_line, parsed, HttpRequest, HttpRequestData, Method, RequestView, Resource,
};
use crate::responder::Responder;
use crate::response::{fresh, wire_text, HttpResponse, ResponseView};
use crate::router::{
    match_route, path_params, query_params, shape_matches, RouteBuilder, Router,
};
use crate::status::StatusCode;
use crate::textmap::TextMap;
use vstd::prelude::*;

verus! {

/// What the route table says to a request.
#[derive(Debug)]
pub enum Resolution {
    /// The route with this index is the first that has the shape of the
    /// path and the method of the request.
    Matched { index: usize, params: TextMap, queries: TextMap },
    /// Some route has the shape of the path, none of those the method.
    MethodMismatch,
    /// No route has the shape of the path.
    NoMatch,
}

/// What becomes of a buffer before any unit runs.
#[derive(Debug)]
pub enum Admission {
    /// The buffer is empty: there is no request, and no answer.
    NoRequest,
    /// The buffer holds no request line.
    BadRequest,
    /// No route has the shape of the path.
    NotFound,
    /// Some route has the shape of the path, none of those the method.
    MethodNotAllowed,
    /// The request goes to the route with this index, with the parameters
    /// of its path and of its query attached.
    Route { index: usize, request: HttpRequestData },
}

/// A request with the parameters that the route of pattern `pattern` finds
/// in its path, and those of its query.
pub open spec fn with_params(request: RequestView, pattern: Seq<char>) -> RequestView {
    RequestView {
        params: Some(path_params(pattern, request.path)),
        queryes: Some(query_params(request.path)),
        ..request
    }
}

impl Admission {
    /// The response to a buffer that no route gets: status 400 where it
    /// holds no request line, 404 where no route has the shape of the path,
    /// 405 where only routes of other methods have it.
    pub open spec fn refusal(self) -> Option<ResponseView> {
        match self {
            Admission::BadRequest => Some(fresh(StatusCode::BadRequest, None, "Bad Request"@)),
            Admission::NotFound => Some(fresh(StatusCode::NotFound, None, "Not Found"@)),
            Admission::MethodNotAllowed => Some(fresh(StatusCode::MethodNotAllowed, None, ""@)),
            _ => None,
        }
    }

    /// The response to a buffer that no route gets.
    pub fn answer(&self) -> (r: Option<HttpResponse>)
        ensures
            r is Some == self.refusal() is Some,
            r is Some ==> r.unwrap()@ == self.refusal().unwrap(),
    {
        match self {
            Admission::BadRequest => Some(
                HttpResponse::new(StatusCode::BadRequest, None, "Bad Request"),
            ),
            Admission::NotFound => Some(HttpResponse::new(StatusCode::NotFound, None, "Not Found")),
            Admission::MethodNotAllowed => Some(
                HttpResponse::new(StatusCode::MethodNotAllowed, None, ""),
            ),
            _ => None,
        }
    }
}

/// How a request went through the units of its route.
#[derive(Debug)]
pub struct Served {
    /// The response as the last unit left it.
    pub response: HttpResponse,
    /// The number of global units that started.
    pub started: usize,
    /// Why the run turned round.
    pub cause: Cause,
    /// What ran, in the order in which it ran.
    pub steps: Vec<Step>,
}

/// Some route has the shape of the path of `target`.
pub open spec fn any_shape<G, H>(routes: Seq<Router<G, H>>, target: Seq<char>) -> bool {
    exists|i: int| 0 <= i < routes.len() && shape_matches(#[trigger] routes[i].pattern@, target)
}

/// Some route has the shape of the path of `target` and the method.
pub open spec fn any_route<G, H>(
    routes: Seq<Router<G, H>>,
    method: Method,
    target: Seq<char>,
) -> bool {
    exists|i: int| 0 <= i < routes.len() && (#[trigger] routes[i]).serves(method, target)
}

/// The before parts of the first `k` units, run in order on `from` with
/// each asking to go on, may leave the request as `to`.
pub open spec fn entered<V, S, F: Fairing<V, S>>(
    units: Seq<F>,
    k: nat,
    from: HttpRequest<V>,
    ctx: Context<S>,
    to: HttpRequest<V>,
) -> bool
    decreases k,
{
    if k == 0 {
        to == from
    } else {
        exists|mid: HttpRequest<V>|
            entered(units, (k - 1) as nat, from, ctx, mid) && #[trigger] units[k - 1].may_begin(
                mid,
                ctx,
                to,
                MwFlow::Continue,
            )
    }
}

/// The before parts of a run in which `started` units started and which
/// turned round for `cause` may leave the request `from` as `to`: every
/// unit that started asked to go on, but for the last where it stopped the
/// run.
pub open spec fn began<V, S, F: Fairing<V, S>>(
    units: Seq<F>,
    started: nat,
    cause: Cause,
    from: HttpRequest<V>,
    ctx: Context<S>,
    to: HttpRequest<V>,
) -> bool {
    if cause == Cause::Stopped {
        started >= 1 && exists|mid: HttpRequest<V>|
            entered(units, (started - 1) as nat, from, ctx, mid) && #[trigger] units[started
                - 1].may_begin(mid, ctx, to, MwFlow::Stop)
    } else {
        entered(units, started, from, ctx, to)
    }
}

/// Each of the first `k` guards may let `req` pass.
pub open spec fn passed<V, S, G: Guard<V, S>>(
    guards: Seq<G>,
    k: nat,
    req: HttpRequest<V>,
    ctx: Context<S>,
) -> bool {
    forall|i: int| 0 <= i < k ==> (#[trigger] guards[i]).may_give(req, ctx, Outcome::Success)
}

/// `start` may be the response with which a run that turned round for
/// `cause` goes back: an empty response of status 200 where a unit stopped
/// the run; the response of the guard that refused, the guards before it
/// having let the request pass; or what the value that the handler returned
/// stands for, every guard having let the request pass.
pub open spec fn answered<V, S, G: Guard<V, S>, H: Handler<V, S, R>, R: Responder>(
    guards: Seq<G>,
    handler: H,
    cause: Cause,
    req: HttpRequest<V>,
    ctx: Context<S>,
    start: HttpResponse,
) -> bool {
    match cause {
        Cause::Stopped => start@ == fresh(StatusCode::Okay, None, ""@),
        Cause::Refused(j) => {
            &&& j < guards.len()
            &&& passed(guards, j as nat, req, ctx)
            &&& guards[j as int].may_give(req, ctx, Outcome::Failure(start))
        },
        Cause::Handled => passed(guards, guards.len(), req, ctx) && exists|reply: R| #[trigger]
            handler.may_reply(req, ctx, reply) && start@ == reply.response(),
    }
}

/// The after parts of the units with the indices from `hi - 1` down to
/// `lo`, run in that order on the response `from`, may leave it as `to`.
pub open spec fn unwound<V, S, F: Fairing<V, S>>(
    units: Seq<F>,
    hi: nat,
    lo: nat,
    req: HttpRequest<V>,
    ctx: Context<S>,
    from: HttpResponse,
    to: HttpResponse,
) -> bool
    decreases hi - lo,
{
    if hi <= lo {
        to == from
    } else {
        exists|mid: HttpResponse|
            unwound(units, hi, lo + 1, req, ctx, from, mid) && #[trigger] units[lo as int]
                .may_end(req, mid, ctx, to)
    }
}

/// The route with index `index` is the first that serves the request.
pub open spec fn first_route<G, H>(
    routes: Seq<Router<G, H>>,
    index: int,
    method: Method,
    target: Seq<char>,
) -> bool {
    &&& 0 <= index < routes.len()
    &&& routes[index].serves(method, target)
    &&& forall|j: int| 0 <= j < index ==> !(#[trigger] routes[j]).serves(method, target)
}

/// The application.
pub struct App<S, F, G, H> {
    pub routes: Vec<Router<G, H>>,
    pub context: Context<S>,
    pub config: Config,
    pub fairings: Vec<F>,
}

impl<S, F, G, H> App<S, F, G, H> {
    /// An application without routes, units or state.
    pub fn new() -> (app: App<S, F, G, H>)
        ensures
            app.routes@.len() == 0,
            app.fairings@.len() == 0,
            app.context@ == Map::<TypeKey, S>::empty(),
            app.context.wf(),
            app.config == Config::defaults(),
    {
        App {
            routes: Vec::new(),
            context: Context::new(),
            config: Config::new(),
            fairings: Vec::new(),
        }
    }

    /// Adds a global unit; it runs after those added before it.
    pub fn fairing(&mut self, middleware: F)
        ensures
            final(self).fairings@ == old(self).fairings@.push(middleware),
            final(self).routes == old(self).routes,
            final(self).context == old(self).context,
            final(self).config == old(self).config,
    {
        self.fairings.push(middleware);
    }

    /// Begins a route for `method` and the pattern `path`.
    pub fn route<'a>(&'a mut self, method: Method, path: &str) -> (b: RouteBuilder<'a, S, F, G, H>)
        ensures
            b.pattern@ == path@,
            b.method == method,
            b.guards@.len() == 0,
            *b.app == *old(self),
            *final(self) == *final(b.app),
    {
        RouteBuilder { app: self, pattern: path.to_owned(), method, guards: Vec::new() }
    }

    /// Stores `state` under `key` in the application's state, in place of
    /// what was there.
    pub fn manage(&mut self, key: TypeKey, state: S)
        ensures
            final(self).context@ == old(self).context@.insert(key, state),
            old(self).context.wf() ==> final(self).context.wf(),
            final(self).routes == old(self).routes,
            final(self).fairings == old(self).fairings,
            final(self).config == old(self).config,
    {
        self.context.state(key, state);
    }

    /// Adds a route; it is asked after those added before it.
    pub fn add_route(&mut self, route: Router<G, H>)
        ensures
            final(self).routes@ == old(self).routes@.push(route),
            final(self).fairings == old(self).fairings,
            final(self).context == old(self).context,
            final(self).config == old(self).config,
    {
        self.routes.push(route);
    }

    /// What becomes of a buffer before any unit runs: whether it holds a
    /// request, and which route the request goes to, with which parameters.
    pub fn receive(&self, raw: &str) -> (a: Admission)
        ensures
            a is NoRequest == (raw@.len() == 0),
            a is BadRequest == (raw@.len() > 0 && !has_request_line(raw@)),
            a is NotFound == (raw@.len() > 0 && has_request_line(raw@) && !any_shape(
                self.routes@,
                parsed(raw@).path,
            )),
            a is MethodNotAllowed == (raw@.len() > 0 && has_request_line(raw@) && any_shape(
                self.routes@,
                parsed(raw@).path,
            ) && !any_route(self.routes@, parsed(raw@).method, parsed(raw@).path)),
            a is Route == (raw@.len() > 0 && has_request_line(raw@) && any_route(
                self.routes@,
                parsed(raw@).method,
                parsed(raw@).path,
            )),
            match a {
                Admission::Route { index, request } => {
                    &&& index < self.routes@.len()
                    &&& self.routes@[index as int].serves(parsed(raw@).method, parsed(raw@).path)
                    &&& forall|j: int|
                        0 <= j < index ==> !(#[trigger] self.routes@[j]).serves(
                            parsed(raw@).method,
                            parsed(raw@).path,
                        )
                    &&& request@ == with_params(parsed(raw@), self.routes@[index as int].pattern@)
                },
                _ => true,
            },
    {
        if raw.is_empty() {
            return Admission::NoRequest;
        }
        let mut data = match HttpRequestData::parse(raw) {
            Ok(data) => data,
            Err(_) => {
                return Admission::BadRequest;
            },
        };
        let resolution = match &data.resource {
            Resource::Path(p) => self.resolve(data.method, p.as_str()),
        };
        match resolution {
            Resolution::NoMatch => Admission::NotFound,
            Resolution::MethodMismatch => Admission::MethodNotAllowed,
            Resolution::Matched { index, params, queries } => {
                data.params = Some(params);
                data.queryes = Some(queries);
                Admission::Route { index, request: data }
            },
        }
    }

    /// Asks the routes in the order of registration. The first that has the
    /// shape of the path and the method of the request is the match; a route
    /// with the shape and another method does not end the search.
    pub fn resolve(&self, method: Method, target: &str) -> (r: Resolution)
        ensures
            r is Matched == any_route(self.routes@, method, target@),
            r is NoMatch == !any_shape(self.routes@, target@),
            match r {
                Resolution::Matched { index, params, queries } => {
                    &&& index < self.routes@.len()
                    &&& self.routes@[index as int].serves(method, target@)
                    &&& forall|j: int|
                        0 <= j < index ==> !(#[trigger] self.routes@[j]).serves(method, target@)
                    &&& params.pairs() == path_params(self.routes@[index as int].pattern@, target@)
                    &&& queries.pairs() == query_params(target@)
                },
                Resolution::MethodMismatch => any_shape(self.routes@, target@) && !any_route(
                    self.routes@,
                    method,
                    target@,
                ),
                Resolution::NoMatch => !any_shape(self.routes@, target@),
            },
    {
        let mut method_mismatch = false;
        let mut i: usize = 0;
        while i < self.routes.len()
            invariant
                i <= self.routes@.len(),
                forall|j: int| 0 <= j < i ==> !(#[trigger] self.routes@[j]).serves(method, target@),
                method_mismatch == (exists|j: int|
                    0 <= j < i && shape_matches(#[trigger] self.routes@[j].pattern@, target@)),
            decreases self.routes@.len() - i,
        {
            let route = &self.routes[i];
            match match_route(route.pattern.as_str(), target) {
                Some((params, queries)) => {
                    if route.method == method {
                        return Resolution::Matched { index: i, params, queries };
                    }
                    method_mismatch = true;
                },
                None => {},
            }
            i += 1;
        }
        if method_mismatch {
            Resolution::MethodMismatch
        } else {
            Resolution::NoMatch
        }
    }
}

impl<S, F, G, H> App<S, F, G, H> {
    /// What a run through the units of the route with index `index` may
    /// come to. The request `from` is left as `to` by the before parts of
    /// the units that started. The run goes back with the response that its
    /// cause gives: an empty response of status 200 where a unit stopped it,
    /// the response of the guard that refused, or what the value of the
    /// handler stands for. That response, left by the after parts of the
    /// units that started, last started first, is the response served.
    pub open spec fn runs<V, R>(
        &self,
        index: int,
        from: HttpRequest<V>,
        to: HttpRequest<V>,
        served: Served,
    ) -> bool where F: Fairing<V, S>, G: Guard<V, S>, H: Handler<V, S, R>, R: Responder {
        let route = self.routes@[index];
        &&& can_end(
            self.fairings@.len(),
            route.guards@.len(),
            served.started as nat,
            served.cause,
        )
        &&& served.steps@ == plan(route.guards@.len(), served.started as nat, served.cause)
        &&& began(self.fairings@, served.started as nat, served.cause, from, self.context, to)
        &&& exists|start: HttpResponse| #[trigger]
            answered::<V, S, G, H, R>(
                route.guards@,
                route.handler,
                served.cause,
                to,
                self.context,
                start,
            ) && unwound(
                self.fairings@,
                served.started as nat,
                0,
                to,
                self.context,
                start,
                served.response,
            )
    }

    /// What the answer `out` to the buffer `raw` may be where a route serves
    /// its request: the request `from`, which is the request read with the
    /// parameters of its path and query attached and nothing in its context,
    /// runs through the units of the first route that serves it, and `out`
    /// is the response served as it goes onto the wire.
    pub open spec fn answers<V, R>(
        &self,
        raw: Seq<char>,
        index: int,
        from: HttpRequest<V>,
        to: HttpRequest<V>,
        served: Served,
        out: Seq<char>,
    ) -> bool where F: Fairing<V, S>, G: Guard<V, S>, H: Handler<V, S, R>, R: Responder {
        &&& first_route(self.routes@, index, parsed(raw).method, parsed(raw).path)
        &&& from.raw@ == with_params(parsed(raw), self.routes@[index].pattern@)
        &&& from.ctx@ == Map::<TypeKey, V>::empty()
        &&& self.runs::<V, R>(index, from, to, served)
        &&& out == wire_text(served.response@)
    }

    /// What holds of a run through the units of the route with index
    /// `index` once it has turned round, while `left` units wait for their
    /// after part: the before parts have left the request `from` as `now`,
    /// the run went back with `start`, and the after parts that ran have
    /// left it as `res`.
    spec fn going_back<V, R>(
        &self,
        index: int,
        run: Pipeline,
        left: nat,
        from: HttpRequest<V>,
        now: HttpRequest<V>,
        start: HttpResponse,
        res: HttpResponse,
    ) -> bool where F: Fairing<V, S>, G: Guard<V, S>, H: Handler<V, S, R>, R: Responder {
        let route = self.routes@[index];
        &&& run.ending() is Some
        &&& began(
            self.fairings@,
            run.ending().unwrap().0 as nat,
            run.ending().unwrap().1,
            from,
            self.context,
            now,
        )
        &&& answered::<V, S, G, H, R>(
            route.guards@,
            route.handler,
            run.ending().unwrap().1,
            now,
            self.context,
            start,
        )
        &&& unwound(
            self.fairings@,
            run.ending().unwrap().0 as nat,
            left,
            now,
            self.context,
            start,
            res,
        )
    }

    /// What holds in the middle of a run through the units of the route
    /// with index `index`, by the step that is next: of the request `now`
    /// that `from` has become, and of the response `res` that the run went
    /// back with as `start`.
    spec fn midway<V, R>(
        &self,
        index: int,
        run: Pipeline,
        from: HttpRequest<V>,
        now: HttpRequest<V>,
        start: HttpResponse,
        res: HttpResponse,
    ) -> bool where F: Fairing<V, S>, G: Guard<V, S>, H: Handler<V, S, R>, R: Responder {
        let route = self.routes@[index];
        let units = self.fairings@;
        let ctx = self.context;
        match run.next_step() {
            Step::Before(i) => entered(units, i as nat, from, ctx, now) && res@ == fresh(
                StatusCode::Okay,
                None,
                ""@,
            ),
            Step::Check(j) => entered(units, units.len(), from, ctx, now) && passed(
                route.guards@,
                j as nat,
                now,
                ctx,
            ),
            Step::Handle => entered(units, units.len(), from, ctx, now) && passed(
                route.guards@,
                route.guards@.len(),
                now,
                ctx,
            ),
            Step::After(i) => self.going_back::<V, R>(
                index,
                run,
                (i + 1) as nat,
                from,
                now,
                start,
                res,
            ),
            Step::Finish => self.going_back::<V, R>(index, run, 0, from, now, start, res),
        }
    }

    /// Runs the units around the route with index `index` and its handler:
    /// the before part of every global unit in the order of registration;
    /// unless one of them stopped the request, the guards of the route in
    /// their order; if all let it pass, the handler, whose value becomes the
    /// response; then the after part of every global unit that started, last
    /// started first. A guard that refuses gives the response in the
    /// handler's place. A stopped request leaves with an empty response of
    /// status 200, unless a unit changes it.
    pub fn dispatch<V, R>(&self, index: usize, req: &mut HttpRequest<V>) -> (served: Served) where
        F: Fairing<V, S>,
        G: Guard<V, S>,
        H: Handler<V, S, R>,
        R: Responder,

        requires
            index < self.routes@.len(),
        ensures
            self.runs::<V, R>(index as int, *old(req), *final(req), served),
    {
        let route = &self.routes[index];
        let mut run = Pipeline::new(self.fairings.len(), route.guards.len());
        let mut res = HttpResponse::new(StatusCode::Okay, None, "");
        let mut steps: Vec<Step> = Vec::new();
        let count = self.fairings.len();
        let ghost from = *req;
        let ghost mut start = res;
        proof {
            Pipeline::lemma_start(self.fairings.len(), route.guards.len());
        }
        loop
            invariant
                index < self.routes@.len(),
                *route == self.routes@[index as int],
                count == self.fairings@.len(),
                run.wf(),
                run.units() == self.fairings@.len(),
                run.guards() == route.guards@.len(),
                steps@ == run.history(),
                self.midway::<V, R>(index as int, run, from, *req, start, res),
            ensures
                run.done(),
                self.midway::<V, R>(index as int, run, from, *req, start, res),
            decreases run.rank(),
        {
            proof {
                run.lemma_next_step();
                run.lemma_turn(true);
                run.lemma_turn(false);
                if !run.done() {
                    run.lemma_after(true);
                    run.lemma_after(false);
                }
            }
            let step = run.next();
            let ghost was = *req;
            let ghost had = res;
            match step {
                Step::Before(i) => {
                    steps.push(step);
                    let flow = self.fairings[i].on_request(req, &self.context);
                    run.advance(flow == MwFlow::Stop);
                    proof {
                        let k = (i + 1) as nat;
                        assert(i < count && ((i + 1) as usize) as nat == k);
                        assert(entered(self.fairings@, (k - 1) as nat, from, self.context, was)
                            && self.fairings@[k - 1].may_begin(was, self.context, *req, flow));
                        if flow == MwFlow::Stop {
                            start = res;
                            assert(began(
                                self.fairings@,
                                k,
                                Cause::Stopped,
                                from,
                                self.context,
                                *req,
                            ));
                        } else {
                            assert(flow == MwFlow::Continue);
                            assert(entered(self.fairings@, k, from, self.context, *req));
                        }
                    }
                },
                Step::Check(j) => {
                    steps.push(step);
                    match route.guards[j].from_request(req, &self.context) {
                        Outcome::Success => {
                            run.advance(false);
                        },
                        Outcome::Failure(response) => {
                            res = response;
                            run.advance(true);
                            proof {
                                start = res;
                            }
                        },
                    }
                },
                Step::Handle => {
                    steps.push(step);
                    let reply = route.handler.handle(req, &self.context);
                    let ghost said = reply;
                    res = reply.into_response();
                    run.advance(false);
                    proof {
                        start = res;
                        assert(route.handler.may_reply(*req, self.context, said) && start@
                            == said.response());
                    }
                },
                Step::After(i) => {
                    steps.push(step);
                    self.fairings[i].on_response(req, &mut res, &self.context);
                    run.advance(false);
                    proof {
                        let started = run.ending().unwrap().0 as nat;
                        let lo = i as nat;
                        assert(unwound(
                            self.fairings@,
                            started,
                            lo + 1,
                            *req,
                            self.context,
                            start,
                            had,
                        ) && self.fairings@[lo as int].may_end(*req, had, self.context, res));
                        assert(unwound(
                            self.fairings@,
                            started,
                            lo,
                            *req,
                            self.context,
                            start,
                            res,
                        ));
                    }
                },
                Step::Finish => {
                    break ;
                },
            }
        }
        proof {
            run.lemma_done();
            run.lemma_next_step();
            assert(self.going_back::<V, R>(index as int, run, 0, from, *req, start, res));
        }
        match run.outcome() {
            Some((started, cause)) => Served { response: res, started, cause, steps },
            None => Served {
                response: res,
                started: self.fairings.len(),
                cause: Cause::Handled,
                steps,
            },
        }
    }

    /// The text that answers the text of a request. An empty buffer holds
    /// no request and gets no answer. A buffer without a request line gets
    /// status 400; a path that no route has the shape of, 404; a path that
    /// only routes of other methods have the shape of, 405. Any other
    /// request goes through the units of the first route that serves it,
    /// with the parameters of its path and query attached, and gets the
    /// response that they leave.
    pub fn respond<V, R>(&self, raw: &str) -> (out: Option<String>) where
        F: Fairing<V, S>,
        G: Guard<V, S>,
        H: Handler<V, S, R>,
        R: Responder,

        ensures
            out is None == (raw@.len() == 0),
            out is Some && !has_request_line(raw@) ==> out.unwrap()@ == wire_text(
                fresh(StatusCode::BadRequest, None, "Bad Request"@),
            ),
            out is Some && has_request_line(raw@) && !any_shape(self.routes@, parsed(raw@).path)
                ==> out.unwrap()@ == wire_text(fresh(StatusCode::NotFound, None, "Not Found"@)),
            out is Some && has_request_line(raw@) && any_shape(self.routes@, parsed(raw@).path)
                && !any_route(self.routes@, parsed(raw@).method, parsed(raw@).path)
                ==> out.unwrap()@ == wire_text(fresh(StatusCode::MethodNotAllowed, None, ""@)),
            out is Some && has_request_line(raw@) && any_route(
                self.routes@,
                parsed(raw@).method,
                parsed(raw@).path,
            ) ==> exists|index: int, from: HttpRequest<V>, to: HttpRequest<V>, served: Served|
                #[trigger] self.answers::<V, R>(raw@, index, from, to, served, out.unwrap()@),
    {
        let admission = self.receive(raw);
        match admission {
            Admission::NoRequest => None,
            Admission::Route { index, request } => {
                let mut req = HttpRequest::new(request);
                let ghost from = req;
                let served = self.dispatch(index, &mut req);
                let text = served.response.to_wire();
                let out = Some(text);
                assert(self.answers::<V, R>(
                    raw@,
                    index as int,
                    from,
                    req,
                    served,
                    out.unwrap()@,
                ));
                out
            },
            _ => match admission.answer() {
                Some(response) => Some(response.to_wire()),
                None => None,
            },
        }
    }
}

} // verus!
