//! Accumulates bind addresses, a worker-pool size and routes, compiling
//! each route's template at registration. Binding listeners and spawning
//! the pool are the embedding program's part; the builder hands it the
//! compiled table and configuration.

use vstd::prelude::*;

use crate::server::{RegexRoute, RouteAddress};
use crate::service::Route;

verus! {

/// The pool size used when none is configured.
pub const WORKER_POOL_LIMIT_DEFAULT: usize = 16;

/// The accumulating builder.
pub struct HttpServerBuilder<H> {
    bindings: Vec<String>,
    routes: Vec<RegexRoute<H>>,
    worker_pool_limit: usize,
}

impl<H> HttpServerBuilder<H> {
    /// The addresses to bind, in the order given.
    pub closed spec fn spec_bindings(self) -> Seq<String> {
        self.bindings@
    }

    /// The compiled routes, in registration order.
    pub closed spec fn spec_routes(self) -> Seq<RegexRoute<H>> {
        self.routes@
    }

    /// The configured pool size.
    pub closed spec fn spec_worker_pool_limit(self) -> usize {
        self.worker_pool_limit
    }

    /// An empty builder with the default pool size.
    pub fn new() -> (r: Self)
        ensures
            r.spec_bindings() == Seq::<String>::empty(),
            r.spec_routes() == Seq::<RegexRoute<H>>::empty(),
            r.spec_worker_pool_limit() == WORKER_POOL_LIMIT_DEFAULT,
    {
        HttpServerBuilder {
            bindings: Vec::new(),
            routes: Vec::new(),
            worker_pool_limit: WORKER_POOL_LIMIT_DEFAULT,
        }
    }

    /// Sets the pool size, which must be positive.
    pub fn worker_pool_limit(self, size: usize) -> (r: Self)
        requires
            size > 0,
        ensures
            r.spec_bindings() == self.spec_bindings(),
            r.spec_routes() == self.spec_routes(),
            r.spec_worker_pool_limit() == size,
    {
        let mut b = self;
        b.worker_pool_limit = size;
        b
    }

    /// Records one more address to bind. Resolving it to a socket address
    /// happens when the server is brought up.
    pub fn bind(self, address: &str) -> (r: Self)
        ensures
            r.spec_bindings().len() == self.spec_bindings().len() + 1,
            r.spec_bindings().last()@ == address@,
            forall|i: int|
                0 <= i < self.spec_bindings().len() ==> r.spec_bindings()[i]
                    == self.spec_bindings()[i],
            r.spec_routes() == self.spec_routes(),
            r.spec_worker_pool_limit() == self.spec_worker_pool_limit(),
    {
        let mut b = self;
        b.bindings.push(address.to_owned());
        b
    }

    /// Compiles the route's template and appends the compiled route.
    pub fn add_route(self, route: Route<H>) -> (r: Self)
        ensures
            r.spec_routes().len() == self.spec_routes().len() + 1,
            r.spec_routes().last().uri.wf(),
            r.spec_routes().last().uri.uri_template@ == route.uri@,
            r.spec_routes().last().method == route.method,
            r.spec_routes().last().handler == route.handler,
            forall|i: int|
                0 <= i < self.spec_routes().len() ==> r.spec_routes()[i] == self.spec_routes()[i],
            r.spec_bindings() == self.spec_bindings(),
            r.spec_worker_pool_limit() == self.spec_worker_pool_limit(),
    {
        let mut b = self;
        let regex_route = RegexRoute {
            uri: RouteAddress::new(route.uri),
            method: route.method,
            handler: route.handler,
        };
        b.routes.push(regex_route);
        b
    }

    /// Hands the accumulated configuration out, for the embedding program
    /// to bind listeners and start the pool with.
    pub fn into_parts(self) -> (r: (Vec<String>, Vec<RegexRoute<H>>, usize))
        ensures
            r.0@ == self.spec_bindings(),
            r.1@ == self.spec_routes(),
            r.2 == self.spec_worker_pool_limit(),
    {
        let HttpServerBuilder { bindings, routes, worker_pool_limit } = self;
        (bindings, routes, worker_pool_limit)
    }
}

} // verus!
