//! The handler capability and route registration.
//!
//! A handler is the engine's one extension point: process a request,
//! produce a response. Each handler states its own behaviour as a spec
//! function; the engine's dispatch contract then says exactly whose
//! response a request receives.

use vstd::prelude::*;

use crate::http_constants::HttpMethod;
use crate::request::{HttpRequest, ReqView};
use crate::response::{HttpResponse, RespView};

verus! {

/// What a route dispatches to.
pub trait RouteHandler: Sized {
    /// The response this handler gives to a request. A handler states its
    /// behaviour by overriding this; the default leaves it unspecified, as
    /// for handlers implemented outside the engine.
    open spec fn spec_respond(&self, request: ReqView) -> RespView {
        arbitrary()
    }

    /// Handles one request.
    fn respond(&self, request: HttpRequest) -> (r: HttpResponse)
        ensures
            r@ == self.spec_respond(request@),
            r.wf(),
    ;
}

/// A handler-level failure.
#[derive(Debug, PartialEq, Eq, Structural, Clone, Copy)]
pub enum ServerError {
    Fail,
}

/// A handler whose request body is a textual rendering of a request
/// object. A body that does not parse is answered with a bad-request
/// response; the object's processing is the handler's own.
pub trait JsonRouteHandler: Sized {
    type RequestObject;

    /// Which object the body text denotes, if any.
    spec fn spec_parse(body: Seq<char>) -> Option<Self::RequestObject>;

    /// Reads the body into a request object.
    fn parse(body: &String) -> (r: Option<Self::RequestObject>)
        ensures
            r == Self::spec_parse(body@),
    ;

    /// The response for a parsed request object.
    spec fn spec_process(&self, obj: Self::RequestObject) -> RespView;

    /// Processes one parsed request object.
    fn process(&self, body: Self::RequestObject) -> (r: HttpResponse)
        ensures
            r@ == self.spec_process(body),
            r.wf(),
    ;
}

/// The bad-request answer for a body that does not parse.
pub open spec fn bad_request_view() -> RespView {
    RespView {
        status_code: 400,
        body: Seq::empty(),
        headers: Seq::empty(),
    }
}

impl<R: JsonRouteHandler> RouteHandler for R {
    open spec fn spec_respond(&self, request: ReqView) -> RespView {
        match R::spec_parse(request.body) {
            Some(obj) => self.spec_process(obj),
            None => bad_request_view(),
        }
    }

    fn respond(&self, request: HttpRequest) -> (r: HttpResponse) {
        match R::parse(&request.body) {
            Some(obj) => self.process(obj),
            None => {
                let r = HttpResponse::new(400);
                proof {
                    assert(r@ =~~= bad_request_view());
                }
                r
            },
        }
    }
}

/// A route registration: a URI template, a method, and the handler.
pub struct Route<H> {
    pub uri: String,
    pub method: HttpMethod,
    pub handler: H,
}

impl<H> Route<H> {
    /// Binds a template and method to a handler.
    pub fn new(uri: &str, method: HttpMethod, handler: H) -> (r: Self)
        ensures
            r.uri@ == uri@,
            r.method == method,
            r.handler == handler,
    {
        Route { uri: uri.to_owned(), method, handler }
    }
}

impl<H> PartialEq for Route<H> {
    /// Two registrations are the same when template and method agree; the
    /// handler is not compared.
    fn eq(&self, other: &Self) -> (r: bool) {
        self.uri == other.uri && self.method == other.method
    }
}

impl<H> vstd::std_specs::cmp::PartialEqSpecImpl for Route<H> {
    open spec fn obeys_eq_spec() -> bool {
        true
    }

    open spec fn eq_spec(&self, other: &Self) -> bool {
        self.uri@ == other.uri@ && self.method == other.method
    }
}

/// An ordered collection of route registrations.
pub struct HttpService<H> {
    routes: Vec<Route<H>>,
}

impl<H> HttpService<H> {
    /// The registrations so far, in order.
    pub closed spec fn spec_routes(self) -> Seq<Route<H>> {
        self.routes@
    }

    /// An empty service.
    pub fn new() -> (r: Self)
        ensures
            r.spec_routes() == Seq::<Route<H>>::empty(),
    {
        HttpService { routes: Vec::new() }
    }

    /// Registers one more route, after all earlier ones.
    pub fn add_route(&mut self, route: Route<H>)
        ensures
            final(self).spec_routes() == old(self).spec_routes().push(route),
    {
        self.routes.push(route);
    }
}

} // verus!
