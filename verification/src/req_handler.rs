//! The middleware chain: stages that each turn a request and a response in
//! the making into the next response in the making, the router that is its
//! last stage, and the endpoints that the router hands requests to.

use crate::http::request::{HttpRequest, Method, PeerAddr, RequestView};
use crate::http::response::{
    status_line_of, wire_text, BuilderView, HttpResponseBuilder, ResStatus,
};
use crate::http::line::{is_token, law_request_line_is_read_back, request_line};
use crate::http::wire::{
    body_extent, head, headers_of, line_len, parse_request, request_tokens,
};
use crate::text::{decimal, decimal_text, decimal_value, lemma_decimal_round_trip};
use crate::text_map::TextMap;
use vstd::prelude::*;
use vstd::string::*;
use vstd::utf8::*;

verus! {

/// A stage of the chain. What it hands back depends on the request and on the
/// builder that it was given, and on nothing else; the chain is shared between
/// threads as it is, so a stage can be sent to and used from any of them.
///
/// `outcome` is never run: where the trait is implemented for a type that is
/// not verified, its body can be anything.
pub trait Middleware: Send + Sync {
    /// The builder that `process` hands back.
    spec fn outcome(&self, req: RequestView, res: BuilderView) -> BuilderView;

    /// Takes the request and the response in the making, and hands back the
    /// next response in the making.
    fn process(&self, req: &HttpRequest, res: HttpResponseBuilder) -> (out: HttpResponseBuilder)
        ensures
            out@ == self.outcome(req@, res@),
    ;
}

/// What an endpoint with the given content makes of a builder: the status
/// `OK`, one more header `Content-Length` with the content's length in bytes,
/// and the content as the body.
pub open spec fn served(content: Seq<char>, res: BuilderView) -> BuilderView {
    BuilderView {
        status: Some(ResStatus::OK),
        headers: res.headers.push(("Content-Length"@, decimal(encode_utf8(content).len()))),
        html: Some(content),
    }
}

/// What a router makes of a builder for which it has no handler: the status
/// `NotFound`, and the rest as it was.
pub open spec fn missed(res: BuilderView) -> BuilderView {
    BuilderView { status: Some(ResStatus::NotFound), ..res }
}

/// The `Content-Length` that an endpoint registers is its last header, and
/// reads back as the length of its content in bytes.
pub proof fn law_endpoint_states_its_length(content: Seq<char>, res: BuilderView)
    ensures
        ({
            let (name, value) = served(content, res).headers.last();
            name == "Content-Length"@ && decimal_value(value) == Some(encode_utf8(content).len())
        }),
{
    lemma_decimal_round_trip(encode_utf8(content).len());
}

/// A leaf of the chain, which answers every request with the same content.
pub struct Endpoint {
    content: String,
}

impl Endpoint {
    /// The content that the endpoint answers with.
    pub closed spec fn content(&self) -> Seq<char> {
        self.content@
    }

    /// An endpoint that answers with `content`.
    pub fn with_content(content: String) -> (e: Self)
        ensures
            e.content() == content@,
    {
        Self { content }
    }
}

impl Middleware for Endpoint {
    open spec fn outcome(&self, req: RequestView, res: BuilderView) -> BuilderView {
        served(self.content(), res)
    }

    fn process(&self, _req: &HttpRequest, res: HttpResponseBuilder) -> (out: HttpResponseBuilder) {
        let length = decimal_text(self.content.as_str().as_bytes().len());
        let out = res.status(ResStatus::OK).header("Content-Length".to_string(), length).html(
            self.content.clone(),
        );
        assert(out@.headers == served(self.content(), res@).headers);
        out
    }
}

/// A stage as a router or a chain holds it: an endpoint, a router, or a stage
/// of the caller's own behind a handle.
pub enum Handler {
    Endpoint(Endpoint),
    Router(Router),
    Custom(Box<dyn Middleware>),
}

/// The handlers that a router has for one route, at most one for each method.
pub struct MethodSwitch {
    get: Option<Handler>,
    post: Option<Handler>,
    put: Option<Handler>,
    delete: Option<Handler>,
}

impl MethodSwitch {
    /// The handler for `method`, if there is one.
    pub closed spec fn slot(&self, method: Method) -> Option<Handler> {
        match method {
            Method::GET => self.get,
            Method::POST => self.post,
            Method::PUT => self.put,
            Method::DELETE => self.delete,
        }
    }

    /// A switch with no handler.
    pub fn new() -> (s: Self)
        ensures
            forall|m: Method| s.slot(m) is None,
    {
        MethodSwitch { get: None, post: None, put: None, delete: None }
    }

    /// The switch with `handler` for `method`, in place of any it had for it.
    pub fn with(self, method: Method, handler: Handler) -> (s: Self)
        ensures
            forall|m: Method|
                #[trigger] s.slot(m) == if m == method {
                    Some(handler)
                } else {
                    self.slot(m)
                },
    {
        let mut s = self;
        match method {
            Method::GET => {
                s.get = Some(handler);
            },
            Method::POST => {
                s.post = Some(handler);
            },
            Method::PUT => {
                s.put = Some(handler);
            },
            Method::DELETE => {
                s.delete = Some(handler);
            },
        }
        s
    }

    /// The handler for `method`, if there is one.
    pub fn get(&self, method: &Method) -> (r: Option<&Handler>)
        ensures
            r is Some <==> self.slot(*method) is Some,
            r matches Some(h) ==> self.slot(*method) == Some(*h),
    {
        match method {
            Method::GET => self.get.as_ref(),
            Method::POST => self.post.as_ref(),
            Method::PUT => self.put.as_ref(),
            Method::DELETE => self.delete.as_ref(),
        }
    }
}

/// The last stage of a chain: it hands a request to the handler registered
/// for exactly its route and its method.
pub struct Router {
    routes: TextMap<MethodSwitch>,
}

/// What a handler makes of a request and a builder.
pub open spec fn handler_outcome(h: Handler, req: RequestView, res: BuilderView) -> BuilderView
    decreases h,
{
    match h {
        Handler::Endpoint(e) => served(e.content(), res),
        Handler::Router(r) => router_outcome(r, req, res),
        Handler::Custom(m) => m.outcome(req, res),
    }
}

/// What a router makes of a request and a builder: what the handler for the
/// request's route and method makes of them; `NotFound` where it has none for
/// the route, or none for the method under that route.
pub open spec fn router_outcome(r: Router, req: RequestView, res: BuilderView) -> BuilderView
    decreases r,
    via router_outcome_descends
{
    match r.lookup(req.route, req.method) {
        Some(h) => handler_outcome(h, req, res),
        None => missed(res),
    }
}

#[via_fn]
proof fn router_outcome_descends(r: Router, req: RequestView, res: BuilderView) {
    if r.routes@.contains_key(req.route) {
        r.routes.lemma_value_decreases(req.route);
    }
}

impl Router {
    /// The handler registered for `route` and `method`, if there is one.
    pub closed spec fn lookup(&self, route: Seq<char>, method: Method) -> Option<Handler> {
        if self.routes@.contains_key(route) {
            self.routes@[route].slot(method)
        } else {
            None
        }
    }

    /// A router with no handler.
    pub fn new() -> (r: Self)
        ensures
            forall|route: Seq<char>, method: Method| r.lookup(route, method) is None,
    {
        Self { routes: TextMap::new() }
    }

    /// The router with `middleware` registered for `route` and `method`, in
    /// place of what was registered for the two before.
    pub fn add(self, route: String, method: Method, middleware: Handler) -> (r: Self)
        ensures
            forall|p: Seq<char>, m: Method|
                #[trigger] r.lookup(p, m) == if p == route@ && m == method {
                    Some(middleware)
                } else {
                    self.lookup(p, m)
                },
    {
        let ghost before = self.routes@;
        let (routes, found) = self.routes.remove(route.as_str());
        let switch = match found {
            Some(s) => s,
            None => MethodSwitch::new(),
        };
        let switch = switch.with(method, middleware);
        let routes = routes.insert(route, switch);
        let r = Self { routes };
        assert forall|p: Seq<char>, m: Method|
            #[trigger] r.lookup(p, m) == if p == route@ && m == method {
                Some(middleware)
            } else {
                self.lookup(p, m)
            } by {
            if p == route@ {
                assert(r.routes@[p] == switch);
            } else {
                assert(r.routes@.contains_key(p) == before.contains_key(p));
            }
        }
        r
    }

    /// The router with an endpoint that answers with `body` registered for
    /// `route` and `method`.
    pub fn add_endpoint(self, route: String, method: Method, body: String) -> (r: Self)
        ensures
            forall|p: Seq<char>, m: Method|
                !(p == route@ && m == method) ==> #[trigger] r.lookup(p, m) == self.lookup(p, m),
            r.lookup(route@, method) matches Some(Handler::Endpoint(e)) && e.content() == body@,
    {
        self.add(route, method, Handler::Endpoint(Endpoint::with_content(body)))
    }

    /// The router with another router registered for `route` and `method`.
    pub fn add_router(self, route: String, method: Method, router: Router) -> (r: Self)
        ensures
            forall|p: Seq<char>, m: Method|
                #[trigger] r.lookup(p, m) == if p == route@ && m == method {
                    Some(Handler::Router(router))
                } else {
                    self.lookup(p, m)
                },
    {
        self.add(route, method, Handler::Router(router))
    }

    /// Whether the router is the one that `default` makes of `content`: it has
    /// an endpoint with that content for `GET /`, and no other handler.
    pub open spec fn is_default(&self, content: Seq<char>) -> bool {
        &&& self.lookup("/"@, Method::GET) matches Some(Handler::Endpoint(e)) && e.content()
            == content
        &&& forall|p: Seq<char>, m: Method|
            !(p == "/"@ && m == Method::GET) ==> #[trigger] self.lookup(p, m) is None
    }

    /// The router that serves the page `content` at `GET /`, and nothing else.
    pub fn default(content: String) -> (r: Self)
        ensures
            r.is_default(content@),
    {
        Self::new().add_endpoint("/".to_string(), Method::GET, content)
    }
}

impl Middleware for Handler {
    open spec fn outcome(&self, req: RequestView, res: BuilderView) -> BuilderView {
        handler_outcome(*self, req, res)
    }

    fn process(&self, req: &HttpRequest, res: HttpResponseBuilder) -> (out: HttpResponseBuilder)
        decreases self,
    {
        match self {
            Handler::Endpoint(e) => e.process(req, res),
            Handler::Router(r) => r.process(req, res),
            Handler::Custom(m) => m.process(req, res),
        }
    }
}

impl Middleware for Router {
    open spec fn outcome(&self, req: RequestView, res: BuilderView) -> BuilderView {
        router_outcome(*self, req, res)
    }

    fn process(&self, req: &HttpRequest, res: HttpResponseBuilder) -> (out: HttpResponseBuilder)
        decreases self,
    {
        match self.routes.get(req.route.as_str()) {
            None => res.status(ResStatus::NotFound),
            Some(switch) => match switch.get(&req.method) {
                None => res.status(ResStatus::NotFound),
                Some(handler) => {
                    proof {
                        self.routes.lemma_value_decreases(req.route@);
                    }
                    handler.process(req, res)
                },
            },
        }
    }
}

/// A builder as a chain starts with it: no status, no header, no body.
pub open spec fn blank() -> BuilderView {
    BuilderView { status: None, headers: Seq::empty(), html: None }
}

/// What the stages make of a builder, each in its turn, in the order in which
/// they were registered.
pub open spec fn chain_outcome(stages: Seq<Handler>, req: RequestView, res: BuilderView) -> BuilderView
    decreases stages.len(),
{
    if stages.len() == 0 {
        res
    } else {
        handler_outcome(stages.last(), req, chain_outcome(stages.drop_last(), req, res))
    }
}

/// The text that goes out for a response in the making: nothing where no
/// status was set.
pub open spec fn reply_text(b: BuilderView) -> Option<Seq<char>> {
    match b.status {
        Some(status) => Some(
            wire_text(
                status_line_of(status),
                b.headers,
                match b.html {
                    Some(h) => h,
                    None => Seq::<char>::empty(),
                },
            ),
        ),
        None => None,
    }
}

/// The whole pipeline for one connection: a chain of stages, and a router
/// after them.
pub struct RequestHandler {
    middleware: Vec<Handler>,
    router: Option<Router>,
}

impl RequestHandler {
    /// The stages, in the order in which they were registered.
    pub closed spec fn stages(&self) -> Seq<Handler> {
        self.middleware@
    }

    /// The router, if one was set.
    pub closed spec fn router(&self) -> Option<Router> {
        self.router
    }

    /// What the pipeline makes of a request: the stages work on a blank
    /// builder in their order, and the router, if there is one, comes last.
    pub open spec fn outcome(&self, req: RequestView) -> BuilderView {
        let b = chain_outcome(self.stages(), req, blank());
        match self.router() {
            Some(r) => router_outcome(r, req, b),
            None => b,
        }
    }

    /// What goes back to the peer for the bytes of a connection: nothing where
    /// they hold no request, or where no stage set a status.
    pub open spec fn reply(&self, stream: Seq<u8>, ip: Option<PeerAddr>) -> Option<Seq<char>> {
        match parse_request(stream, ip) {
            Some(req) => reply_text(self.outcome(req)),
            None => None,
        }
    }

    /// A pipeline with no stage and no router.
    pub fn new() -> (h: Self)
        ensures
            h.stages() == Seq::<Handler>::empty(),
            h.router() is None,
    {
        RequestHandler { middleware: Vec::new(), router: None }
    }

    /// A pipeline with no stage and the default router for the page `content`.
    pub fn default(content: String) -> (h: Self)
        ensures
            h.stages() == Seq::<Handler>::empty(),
            h.router() matches Some(r) && r.is_default(content@),
    {
        Self::new().set_router(Router::default(content))
    }

    /// The pipeline with `mw` as one more stage, after those it has.
    pub fn add_middleware(self, mw: Handler) -> (h: Self)
        ensures
            h.stages() == self.stages().push(mw),
            h.router() == self.router(),
    {
        let mut middleware = self.middleware;
        middleware.push(mw);
        RequestHandler { middleware, router: self.router }
    }

    /// The pipeline with `router` as its router, in place of any it had.
    pub fn set_router(self, router: Router) -> (h: Self)
        ensures
            h.stages() == self.stages(),
            h.router() == Some(router),
    {
        RequestHandler { middleware: self.middleware, router: Some(router) }
    }

    /// Runs the stages and the router on a request.
    pub fn respond(&self, request: &HttpRequest) -> (out: HttpResponseBuilder)
        ensures
            out@ == self.outcome(request@),
    {
        let mut response = HttpResponseBuilder::new();
        let mut i: usize = 0;
        assert(self.stages().take(0) == Seq::<Handler>::empty());
        while i < self.middleware.len()
            invariant
                i <= self.middleware@.len(),
                response@ == chain_outcome(self.stages().take(i as int), request@, blank()),
            decreases self.middleware@.len() - i,
        {
            proof {
                let t = self.stages().take(i + 1);
                assert(t.drop_last() == self.stages().take(i as int));
                assert(t.last() == self.middleware@[i as int]);
            }
            response = self.middleware[i].process(request, response);
            i += 1;
        }
        assert(self.stages().take(i as int) == self.stages());
        match &self.router {
            Some(router) => router.process(request, response),
            None => response,
        }
    }

    /// Handles one connection: reads the request from its bytes, runs the
    /// pipeline, and writes the response out. `None`, and so nothing to send,
    /// where the bytes hold no request or no stage set a status.
    pub fn process(&self, stream: &[u8], ip: Option<PeerAddr>) -> (r: Option<String>)
        ensures
            r is Some <==> self.reply(stream@, ip) is Some,
            r matches Some(text) ==> Some(text@) == self.reply(stream@, ip),
    {
        match HttpRequest::from_stream(stream, ip) {
            None => None,
            Some(request) => {
                let response = self.respond(&request);
                if response.has_status() {
                    Some(response.build().to_string())
                } else {
                    None
                }
            },
        }
    }
}

/// Nothing goes back to the peer of a connection whose request line has fewer
/// than three tokens.
pub proof fn law_short_request_line_gets_no_reply(
    h: RequestHandler,
    stream: Seq<u8>,
    ip: Option<PeerAddr>,
)
    requires
        request_tokens(stream.take(line_len(stream))).len() < 3,
    ensures
        h.reply(stream, ip) is None,
{
}

/// A pipeline with the default router and no other stage answers a request
/// for `GET /` with the status `OK` and its page, and any other request with
/// `NotFound`.
pub proof fn law_default_pipeline(h: RequestHandler, content: Seq<char>, req: RequestView)
    requires
        h.stages() == Seq::<Handler>::empty(),
        h.router() matches Some(r) && r.is_default(content),
    ensures
        req.route == "/"@ && req.method == Method::GET ==> h.outcome(req) == served(
            content,
            blank(),
        ),
        !(req.route == "/"@ && req.method == Method::GET) ==> h.outcome(req) == missed(blank()),
{
    law_default_router(h.router().unwrap(), content, req, blank());
}

/// On the wire: a pipeline with the default router and no other stage answers
/// a well-formed request for `GET /` with the status `OK`, the length of its
/// page, and the page; and a well-formed request for another route or with
/// another method with `NotFound` and nothing else.
pub proof fn law_default_pipeline_on_the_wire(
    h: RequestHandler,
    content: Seq<char>,
    method: Method,
    route: Seq<char>,
    version: Seq<char>,
    rest: Seq<u8>,
    ip: Option<PeerAddr>,
)
    requires
        h.stages() == Seq::<Handler>::empty(),
        h.router() matches Some(r) && r.is_default(content),
        is_token(route),
        is_token(version),
        version.len() > 0,
        head(rest) matches Some((lines, m)) && body_extent(headers_of(lines), rest.len() - m)
            is Some,
    ensures
        ({
            let stream = encode_utf8(request_line(method, route, version)) + rest;
            h.reply(stream, ip) == if route == "/"@ && method == Method::GET {
                Some(
                    wire_text(
                        status_line_of(ResStatus::OK),
                        seq![("Content-Length"@, decimal(encode_utf8(content).len()))],
                        content,
                    ),
                )
            } else {
                Some(wire_text(status_line_of(ResStatus::NotFound), Seq::empty(), Seq::empty()))
            }
        }),
{
    let stream = encode_utf8(request_line(method, route, version)) + rest;
    law_request_line_is_read_back(method, route, version, rest, ip);
    let req = parse_request(stream, ip).unwrap();
    law_default_pipeline(h, content, req);
    assert(blank().headers.push(("Content-Length"@, decimal(encode_utf8(content).len())))
        == seq![("Content-Length"@, decimal(encode_utf8(content).len()))]);
}

/// The default router answers `GET /` with its page and the status `OK`, and
/// every other request, whatever its route or its method, with `NotFound`.
pub proof fn law_default_router(r: Router, content: Seq<char>, req: RequestView, res: BuilderView)
    requires
        r.is_default(content),
    ensures
        req.route == "/"@ && req.method == Method::GET ==> router_outcome(r, req, res) == served(
            content,
            res,
        ),
        !(req.route == "/"@ && req.method == Method::GET) ==> router_outcome(r, req, res)
            == missed(res),
{
}

} // verus!
