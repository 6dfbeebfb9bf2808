use milim_web::aplication::{Admission, App, Resolution};
use milim_web::context::Context;
use milim_web::fairing::{Fairing, MwFlow};
use milim_web::guard::{Guard, Outcome};
use milim_web::handler::Handler;
use milim_web::pipeline::{Cause, Step};
use milim_web::request::{HttpRequest, HttpRequestData, Method};
use milim_web::response::HttpResponse;
use milim_web::server;
use milim_web::status::StatusCode;
use milim_web::textmap::TextMap;
use std::cell::RefCell;
use std::rc::Rc;

type Log = Rc<RefCell<Vec<String>>>;

const COUNT: u64 = 1;

struct Unit {
    name: &'static str,
    flow: MwFlow,
    log: Log,
}

impl Fairing<u32, u32> for Unit {
    fn on_request(&self, req: &mut HttpRequest<u32>, _ctx: &Context<u32>) -> MwFlow {
        self.log.borrow_mut().push(format!("{} before", self.name));
        let seen = req.ctx.get(COUNT).copied().unwrap_or(0);
        req.ctx.data(COUNT, seen + 1);
        self.flow
    }

    fn on_response(&self, req: &HttpRequest<u32>, res: &mut HttpResponse, _ctx: &Context<u32>) {
        self.log.borrow_mut().push(format!("{} after", self.name));
        let seen = req.ctx.get(COUNT).copied().unwrap_or(0);
        res.add_header(self.name, &seen.to_string()).unwrap();
    }
}

struct Gate {
    name: &'static str,
    open: bool,
    log: Log,
}

impl Guard<u32, u32> for Gate {
    fn from_request(&self, _req: &HttpRequest<u32>, _ctx: &Context<u32>) -> Outcome {
        self.log.borrow_mut().push(format!("{} check", self.name));
        if self.open {
            Outcome::Success
        } else {
            Outcome::Failure(HttpResponse::new(StatusCode::NotAutorized, None, "no"))
        }
    }
}

struct Echo {
    param: &'static str,
    log: Log,
}

impl Handler<u32, u32, String> for Echo {
    fn handle(&self, req: &HttpRequest<u32>, ctx: &Context<u32>) -> String {
        self.log.borrow_mut().push("handler".to_string());
        let loud = req.raw.get_query("loud").unwrap_or_default();
        let state = ctx.get_state(COUNT).copied().unwrap_or(0);
        self.log.borrow_mut().push(format!("loud={} state={}", loud, state));
        req.raw.get_param(self.param).unwrap_or_default()
    }
}

type Site = App<u32, Unit, Gate, Echo>;

fn unit(name: &'static str, flow: MwFlow, log: &Log) -> Unit {
    Unit { name, flow, log: log.clone() }
}

fn echo(param: &'static str, log: &Log) -> Echo {
    Echo { param, log: log.clone() }
}

fn entries(log: &Log) -> Vec<String> {
    log.borrow().clone()
}

fn ask(app: &Site, raw: &str) -> Option<String> {
    app.respond::<u32, String>(raw)
}

#[test]
fn end_to_end_greeting() {
    let log = Log::default();
    let mut app: Site = server();
    app.route(Method::Get, "/greet/:name").handler(echo("name", &log));
    let out = ask(&app, "GET /greet/sam?loud=1 HTTP/1.1\r\nHost: x\r\n\r\n").unwrap();
    assert_eq!(out, "HTTP/1.1 200 OK\r\nContent-Type: text/html\r\nContent-Length: 3\r\n\r\nsam");
    assert_eq!(entries(&log), vec!["handler", "loud=1 state=0"]);
    let data = HttpRequestData::parse("GET /greet/sam?loud=1 HTTP/1.1\r\nHost: x\r\n\r\n").unwrap();
    match app.resolve(data.method, "/greet/sam?loud=1") {
        Resolution::Matched { index, params, queries } => {
            assert_eq!(index, 0);
            let mut p = TextMap::new();
            p.insert("name".to_string(), "sam".to_string());
            let mut q = TextMap::new();
            q.insert("loud".to_string(), "1".to_string());
            assert_eq!(params, p);
            assert_eq!(queries, q);
        }
        other => panic!("{:?}", other),
    }
}

#[test]
fn other_method_on_a_known_shape_is_405() {
    let log = Log::default();
    let mut app: Site = server();
    app.route(Method::Get, "/items/:id").handler(echo("id", &log));
    let out = ask(&app, "POST /items/4 HTTP/1.1\r\n\r\n").unwrap();
    assert_eq!(
        out,
        "HTTP/1.1 405 Method Not Allowed\r\nContent-Type: text/html\r\nContent-Length: 0\r\n\r\n"
    );
    assert!(entries(&log).is_empty());
    assert!(matches!(app.resolve(Method::Post, "/items/4"), Resolution::MethodMismatch));
}

#[test]
fn unknown_shape_is_404() {
    let log = Log::default();
    let mut app: Site = server();
    app.route(Method::Get, "/items/:id").handler(echo("id", &log));
    let out = ask(&app, "GET /items HTTP/1.1\r\n\r\n").unwrap();
    assert_eq!(
        out,
        "HTTP/1.1 404 Not Found\r\nContent-Type: text/html\r\nContent-Length: 9\r\n\r\nNot Found"
    );
    assert!(matches!(app.resolve(Method::Get, "/items"), Resolution::NoMatch));
    let empty: Site = server();
    assert!(matches!(empty.resolve(Method::Get, "/"), Resolution::NoMatch));
}

#[test]
fn a_later_route_of_the_right_method_still_matches() {
    let log = Log::default();
    let mut app: Site = server();
    app.route(Method::Post, "/items/:id").handler(echo("id", &log));
    app.route(Method::Get, "/items/:key").handler(echo("key", &log));
    app.route(Method::Get, "/items/:late").handler(echo("late", &log));
    let out = ask(&app, "GET /items/9 HTTP/1.1\r\n\r\n").unwrap();
    assert!(out.ends_with("\r\n\r\n9"));
    match app.resolve(Method::Get, "/items/9") {
        Resolution::Matched { index, .. } => assert_eq!(index, 1),
        other => panic!("{:?}", other),
    }
}

#[test]
fn units_run_in_order_and_leave_in_reverse() {
    let log = Log::default();
    let mut app: Site = server();
    app.fairing(unit("A", MwFlow::Continue, &log));
    app.fairing(unit("B", MwFlow::Continue, &log));
    app.fairing(unit("C", MwFlow::Continue, &log));
    app.route(Method::Get, "/").handler(echo("none", &log));
    let out = ask(&app, "GET / HTTP/1.1\r\n\r\n").unwrap();
    assert_eq!(
        entries(&log),
        vec!["A before", "B before", "C before", "handler", "loud= state=0", "C after", "B after", "A after"]
    );
    assert_eq!(
        out,
        "HTTP/1.1 200 OK\r\nContent-Type: text/html\r\nC: 3\r\nB: 3\r\nA: 3\r\nContent-Length: 0\r\n\r\n"
    );
}

#[test]
fn a_stop_skips_guards_handler_and_later_units() {
    let log = Log::default();
    let mut app: Site = server();
    app.fairing(unit("A", MwFlow::Continue, &log));
    app.fairing(unit("B", MwFlow::Stop, &log));
    app.fairing(unit("C", MwFlow::Continue, &log));
    app.route(Method::Get, "/").faiting(Gate { name: "g", open: true, log: log.clone() }).handler(
        echo("none", &log),
    );
    let out = ask(&app, "GET / HTTP/1.1\r\n\r\n").unwrap();
    assert_eq!(entries(&log), vec!["A before", "B before", "B after", "A after"]);
    assert_eq!(
        out,
        "HTTP/1.1 200 OK\r\nContent-Type: text/html\r\nB: 2\r\nA: 2\r\nContent-Length: 0\r\n\r\n"
    );
}

#[test]
fn a_refusing_guard_answers_in_the_handlers_place() {
    let log = Log::default();
    let mut app: Site = server();
    app.fairing(unit("A", MwFlow::Continue, &log));
    app.route(Method::Get, "/")
        .faiting(Gate { name: "g1", open: true, log: log.clone() })
        .faiting(Gate { name: "g2", open: false, log: log.clone() })
        .faiting(Gate { name: "g3", open: true, log: log.clone() })
        .handler(echo("none", &log));
    let out = ask(&app, "GET / HTTP/1.1\r\n\r\n").unwrap();
    assert_eq!(entries(&log), vec!["A before", "g1 check", "g2 check", "A after"]);
    assert_eq!(
        out,
        "HTTP/1.1 401 Unauthorized\r\nContent-Type: text/html\r\nA: 1\r\nContent-Length: 2\r\n\r\nno"
    );
}

#[test]
fn dispatch_reports_how_the_run_ended() {
    let log = Log::default();
    let mut app: Site = server();
    app.fairing(unit("A", MwFlow::Continue, &log));
    app.fairing(unit("B", MwFlow::Continue, &log));
    app.route(Method::Get, "/ok").handler(echo("none", &log));
    app.route(Method::Get, "/no").faiting(Gate { name: "g", open: false, log: log.clone() }).handler(
        echo("none", &log),
    );
    let data = HttpRequestData::parse("GET /ok HTTP/1.1\r\n\r\n").unwrap();
    let mut req = HttpRequest::new(data);
    let served = app.dispatch::<u32, String>(0, &mut req);
    assert_eq!(served.started, 2);
    assert_eq!(served.cause, Cause::Handled);
    assert_eq!(
        served.steps,
        vec![Step::Before(0), Step::Before(1), Step::Handle, Step::After(1), Step::After(0)]
    );
    assert_eq!(served.response.get_status_code(), "200");
    assert_eq!(req.ctx.get(COUNT), Some(&2));
    let data = HttpRequestData::parse("GET /no HTTP/1.1\r\n\r\n").unwrap();
    let mut req = HttpRequest::new(data);
    let served = app.dispatch::<u32, String>(1, &mut req);
    assert_eq!(served.started, 2);
    assert_eq!(served.cause, Cause::Refused(0));
    assert_eq!(
        served.steps,
        vec![Step::Before(0), Step::Before(1), Step::Check(0), Step::After(1), Step::After(0)]
    );
    assert_eq!(served.response.get_status_code(), "401");
    assert_eq!(served.response.get_body(), "no");
}

#[test]
fn units_do_not_run_without_a_route() {
    let log = Log::default();
    let mut app: Site = server();
    app.fairing(unit("A", MwFlow::Continue, &log));
    app.route(Method::Get, "/a").handler(echo("none", &log));
    ask(&app, "GET /b HTTP/1.1\r\n\r\n").unwrap();
    ask(&app, "PUT /a HTTP/1.1\r\n\r\n").unwrap();
    assert!(entries(&log).is_empty());
}

#[test]
fn an_empty_buffer_gets_no_answer() {
    let app: Site = server();
    assert_eq!(ask(&app, ""), None);
}

#[test]
fn a_buffer_without_request_line_is_400() {
    let log = Log::default();
    let mut app: Site = server();
    app.route(Method::Get, "/").handler(echo("none", &log));
    let out = ask(&app, "GET\r\n\r\n").unwrap();
    assert_eq!(
        out,
        "HTTP/1.1 400 Bad Request\r\nContent-Type: text/html\r\nContent-Length: 11\r\n\r\nBad Request"
    );
    assert!(entries(&log).is_empty());
}

#[test]
fn state_reaches_the_handler() {
    let log = Log::default();
    let mut app: Site = server();
    app.manage(COUNT, 41);
    app.manage(COUNT, 42);
    app.route(Method::Get, "/").handler(echo("none", &log));
    ask(&app, "GET /?loud=yes HTTP/1.1\r\n\r\n").unwrap();
    assert_eq!(entries(&log), vec!["handler", "loud=yes state=42"]);
    assert_eq!(app.context.get_state(COUNT), Some(&42));
}

#[test]
fn params_are_those_of_the_route_that_matched() {
    let log = Log::default();
    let mut app: Site = server();
    app.route(Method::Get, "/a/:x").handler(echo("x", &log));
    app.route(Method::Get, "/:y/:x/c").handler(echo("y", &log));
    let out = ask(&app, "GET /p/q/c HTTP/1.1\r\n\r\n").unwrap();
    assert!(out.ends_with("\r\n\r\np"));
    let out = ask(&app, "GET /a/z HTTP/1.1\r\n\r\n").unwrap();
    assert!(out.ends_with("\r\n\r\nz"));
}

#[test]
fn boxed_units_of_different_kinds() {
    struct Quiet;
    impl Fairing<u32, u32> for Quiet {
        fn on_request(&self, _req: &mut HttpRequest<u32>, _ctx: &Context<u32>) -> MwFlow {
            MwFlow::Continue
        }
        fn on_response(&self, _req: &HttpRequest<u32>, res: &mut HttpResponse, _ctx: &Context<u32>) {
            res.body("quiet was here");
        }
    }
    struct Fixed;
    impl Handler<u32, u32, HttpResponse> for Fixed {
        fn handle(&self, _req: &HttpRequest<u32>, _ctx: &Context<u32>) -> HttpResponse {
            HttpResponse::new(StatusCode::InternalServerError, None, "x")
        }
    }
    let log = Log::default();
    let mut app: App<
        u32,
        Box<dyn Fairing<u32, u32>>,
        Box<dyn Guard<u32, u32>>,
        Box<dyn Handler<u32, u32, HttpResponse>>,
    > = server();
    app.fairing(Box::new(Quiet));
    app.fairing(Box::new(unit("A", MwFlow::Continue, &log)));
    app.route(Method::Get, "/")
        .faiting(Box::new(Gate { name: "g", open: true, log: log.clone() }))
        .handler(Box::new(Fixed));
    let out = app.respond::<u32, HttpResponse>("GET / HTTP/1.1\r\n\r\n").unwrap();
    assert_eq!(entries(&log), vec!["A before", "g check", "A after"]);
    assert_eq!(
        out,
        "HTTP/1.1 500 Internal Server Error\r\nContent-Type: text/html\r\nA: 1\r\nContent-Length: 14\r\n\r\nquiet was here"
    );
}

#[test]
fn text_handlers_answer_200() {
    struct Plain;
    impl Handler<u32, u32, &'static str> for Plain {
        fn handle(&self, _req: &HttpRequest<u32>, _ctx: &Context<u32>) -> &'static str {
            "plain"
        }
    }
    let mut app: App<u32, Unit, Gate, Plain> = server();
    app.route(Method::Get, "/").handler(Plain);
    let out = app.respond::<u32, &'static str>("GET / HTTP/1.1\r\n\r\n").unwrap();
    assert_eq!(out, "HTTP/1.1 200 OK\r\nContent-Type: text/html\r\nContent-Length: 5\r\n\r\nplain");
}

#[test]
fn dispatch_reports_a_stop() {
    let log = Log::default();
    let mut app: Site = server();
    app.fairing(unit("A", MwFlow::Continue, &log));
    app.fairing(unit("B", MwFlow::Stop, &log));
    app.fairing(unit("C", MwFlow::Continue, &log));
    app.route(Method::Get, "/").handler(echo("none", &log));
    let data = HttpRequestData::parse("GET / HTTP/1.1\r\n\r\n").unwrap();
    let mut req = HttpRequest::new(data);
    let served = app.dispatch::<u32, String>(0, &mut req);
    assert_eq!(served.started, 2);
    assert_eq!(served.cause, Cause::Stopped);
    assert_eq!(
        served.steps,
        vec![Step::Before(0), Step::Before(1), Step::After(1), Step::After(0)]
    );
    let mut expected = HttpResponse::new(StatusCode::Okay, None, "");
    expected.add_header("B", "2").unwrap();
    expected.add_header("A", "2").unwrap();
    assert_eq!(served.response, expected);
}

#[test]
fn receive_sorts_buffers() {
    let log = Log::default();
    let mut app: Site = server();
    app.route(Method::Get, "/greet/:name").handler(echo("name", &log));
    assert!(matches!(app.receive(""), Admission::NoRequest));
    assert!(matches!(app.receive("nothing here"), Admission::BadRequest));
    assert!(matches!(app.receive("GET /greet HTTP/1.1\r\n\r\n"), Admission::NotFound));
    assert!(matches!(
        app.receive("DELETE /greet/sam HTTP/1.1\r\n\r\n"),
        Admission::MethodNotAllowed
    ));
    match app.receive("GET /greet/sam?loud=1 HTTP/1.1\r\nHost: x\r\n\r\nbody") {
        Admission::Route { index, request } => {
            assert_eq!(index, 0);
            assert_eq!(request.method, Method::Get);
            assert_eq!(request.get_param("name"), Some("sam".to_string()));
            assert_eq!(request.get_query("loud"), Some("1".to_string()));
            assert_eq!(request.params.as_ref().unwrap().len(), 1);
            assert_eq!(request.queryes.as_ref().unwrap().len(), 1);
            assert_eq!(request.headers.get("Host"), Some(&"x".to_string()));
            assert_eq!(request.body, "body");
        }
        other => panic!("{:?}", other),
    }
    assert!(entries(&log).is_empty());
}

#[test]
fn refusals_have_their_answers() {
    assert_eq!(Admission::NoRequest.answer(), None);
    assert_eq!(
        Admission::BadRequest.answer(),
        Some(HttpResponse::new(StatusCode::BadRequest, None, "Bad Request"))
    );
    assert_eq!(
        Admission::NotFound.answer(),
        Some(HttpResponse::new(StatusCode::NotFound, None, "Not Found"))
    );
    assert_eq!(
        Admission::MethodNotAllowed.answer(),
        Some(HttpResponse::new(StatusCode::MethodNotAllowed, None, ""))
    );
    let request = HttpRequestData::parse("GET / HTTP/1.1\r\n\r\n").unwrap();
    assert_eq!(Admission::Route { index: 0, request }.answer(), None);
}

#[test]
fn the_first_route_of_the_right_method_answers() {
    let log = Log::default();
    let mut app: Site = server();
    app.route(Method::Get, "/a").handler(echo("h1", &log));
    app.route(Method::Post, "/a").handler(echo("h2", &log));
    app.route(Method::Post, "/:x").handler(echo("x", &log));
    match app.resolve(Method::Post, "/a") {
        Resolution::Matched { index, .. } => assert_eq!(index, 1),
        other => panic!("{:?}", other),
    }
    let out = ask(&app, "POST /a HTTP/1.1\r\n\r\n").unwrap();
    assert_eq!(out, "HTTP/1.1 200 OK\r\nContent-Type: text/html\r\nContent-Length: 0\r\n\r\n");
    assert_eq!(entries(&log), vec!["handler", "loud= state=0"]);
}

#[test]
fn a_refusing_first_guard_hands_its_response_to_the_after_part() {
    let log = Log::default();
    let mut app: Site = server();
    app.fairing(unit("A", MwFlow::Continue, &log));
    app.route(Method::Get, "/")
        .faiting(Gate { name: "g1", open: false, log: log.clone() })
        .faiting(Gate { name: "g2", open: true, log: log.clone() })
        .handler(echo("none", &log));
    let data = HttpRequestData::parse("GET / HTTP/1.1\r\n\r\n").unwrap();
    let mut req = HttpRequest::new(data);
    let served = app.dispatch::<u32, String>(0, &mut req);
    assert_eq!(entries(&log), vec!["A before", "g1 check", "A after"]);
    assert_eq!(served.cause, Cause::Refused(0));
    assert_eq!(served.steps, vec![Step::Before(0), Step::Check(0), Step::After(0)]);
    let mut expected = HttpResponse::new(StatusCode::NotAutorized, None, "no");
    expected.add_header("A", "1").unwrap();
    assert_eq!(served.response, expected);
    let out = ask(&app, "GET / HTTP/1.1\r\n\r\n").unwrap();
    assert_eq!(out, expected.to_wire());
}
