//! The routing table: an ownership-exclusive registry from
//! (method, path) to one handler each. Built once, before serving;
//! duplicate registration is refused at build time.

use crate::method::Method;
use crate::request::Request;
use crate::response::Response;
use vstd::prelude::*;
use vstd::std_specs::vec::vec_index_mut;

verus! {

/// What a route does with a request. Handlers may carry their own
/// mutable state; each is invoked at most once per request and never
/// concurrently.
pub trait Handler {
    fn call(&mut self, req: Request) -> Response;
}

/// One (method, path) pair bound to one handler.
pub struct Route<H> {
    pub method: Method,
    pub path: String,
    pub handler: H,
}

/// Raised when a second route is registered for a pair that already
/// has one.
#[derive(Clone, Copy, Debug, PartialEq, Eq, Structural)]
pub struct DuplicateRouteError;

/// The index of the first route for `(m, p)` at or after `i`.
pub open spec fn spec_find_route<H>(rs: Seq<Route<H>>, m: Method, p: Seq<char>, i: int) -> Option<
    int,
>
    decreases rs.len() - i,
{
    if i < 0 || i >= rs.len() {
        None
    } else if rs[i].method == m && rs[i].path@ == p {
        Some(i)
    } else {
        spec_find_route(rs, m, p, i + 1)
    }
}

/// Some route is registered for `(m, p)`.
pub open spec fn spec_has_route<H>(rs: Seq<Route<H>>, m: Method, p: Seq<char>) -> bool {
    exists|i: int| 0 <= i < rs.len() && (#[trigger] rs[i]).method == m && rs[i].path@ == p
}

/// `spec_find_route` finds exactly the registered pairs.
pub proof fn lemma_find_route_complete<H>(rs: Seq<Route<H>>, m: Method, p: Seq<char>, i: int)
    requires
        0 <= i <= rs.len(),
    ensures
        match spec_find_route(rs, m, p, i) {
            Some(k) => i <= k < rs.len() && rs[k].method == m && rs[k].path@ == p,
            None => forall|j: int|
                i <= j < rs.len() ==> !((#[trigger] rs[j]).method == m && rs[j].path@ == p),
        },
    decreases rs.len() - i,
{
    if i < rs.len() && !(rs[i].method == m && rs[i].path@ == p) {
        lemma_find_route_complete(rs, m, p, i + 1);
    }
}

/// Law: in a table without duplicate pairs, a route that matches a
/// looked-up pair is the one and only registered route for it — so
/// resolving after registering always finds exactly the registered
/// handler.
pub proof fn lemma_resolve_is_registered<H>(rs: Seq<Route<H>>, r: Route<H>, i: int)
    requires
        forall|a: int, b: int|
            0 <= a < b < rs.push(r).len() ==> !((#[trigger] rs.push(r)[a]).method == (
            #[trigger] rs.push(r)[b]).method && rs.push(r)[a].path@ == rs.push(r)[b].path@),
        0 <= i < rs.push(r).len(),
        rs.push(r)[i].method == r.method,
        rs.push(r)[i].path@ == r.path@,
    ensures
        i == rs.len(),
        rs.push(r)[i] == r,
{
    assert(rs.push(r)[rs.len() as int] == r);
    if i < rs.len() {
        assert(rs.push(r)[i].method == rs.push(r)[rs.len() as int].method && rs.push(r)[i].path@
            == rs.push(r)[rs.len() as int].path@);
    }
}

/// Law: registering a route changes resolution for no other pair.
pub proof fn lemma_resolve_other_pairs<H>(rs: Seq<Route<H>>, r: Route<H>, m: Method, p: Seq<char>)
    requires
        !(r.method == m && r.path@ == p),
    ensures
        spec_has_route(rs.push(r), m, p) == spec_has_route(rs, m, p),
{
    if spec_has_route(rs.push(r), m, p) {
        let i = choose|i: int|
            0 <= i < rs.push(r).len() && (#[trigger] rs.push(r)[i]).method == m && rs.push(
                r,
            )[i].path@ == p;
        assert(i < rs.len());
        assert(rs[i].method == m && rs[i].path@ == p);
    }
    if spec_has_route(rs, m, p) {
        let i = choose|i: int|
            0 <= i < rs.len() && (#[trigger] rs[i]).method == m && rs[i].path@ == p;
        assert(rs.push(r)[i].method == m && rs.push(r)[i].path@ == p);
    }
}

/// The routing table.
pub struct Router<H> {
    routes: Vec<Route<H>>,
}

impl<H: Handler> Default for Router<H> {
    /// An empty table, as `new` gives.
    fn default() -> (r: Router<H>)
        ensures
            r.wf(),
            r.routes_seq().len() == 0,
    {
        Router::new()
    }
}

impl<H: Handler> Router<H> {
    /// The routes, in registration order.
    pub closed spec fn routes_seq(&self) -> Seq<Route<H>> {
        self.routes@
    }

    /// No two routes share a (method, path) pair.
    pub open spec fn wf(&self) -> bool {
        forall|i: int, j: int|
            0 <= i < j < self.routes_seq().len() ==> !((#[trigger] self.routes_seq()[i]).method
                == (#[trigger] self.routes_seq()[j]).method && self.routes_seq()[i].path@
                == self.routes_seq()[j].path@)
    }

    /// An empty table.
    pub fn new() -> (r: Router<H>)
        ensures
            r.wf(),
            r.routes_seq().len() == 0,
    {
        Router { routes: Vec::new() }
    }

    /// How many routes are registered.
    pub fn len(&self) -> (r: usize)
        ensures
            r == self.routes_seq().len(),
    {
        self.routes.len()
    }

    /// Register a route. Fails, leaving the table as it was, exactly
    /// when the pair is already registered.
    pub fn add(self, method: Method, path: String, handler: H) -> (r: Result<
        Router<H>,
        DuplicateRouteError,
    >)
        ensures
            match r {
                Ok(t) => !spec_has_route(self.routes_seq(), method, path@) && (self.wf()
                    ==> t.wf()) && t.routes_seq().len() == self.routes_seq().len() + 1
                    && t.routes_seq()
                    == self.routes_seq().push(
                    (Route { method: method, path: path, handler: handler }),
                ),
                Err(_) => spec_has_route(self.routes_seq(), method, path@),
            },
    {
        let mut table = self;
        if table.find_index(method, path.as_str()).is_some() {
            return Err(DuplicateRouteError);
        }
        proof {
            lemma_find_route_complete(table.routes_seq(), method, path@, 0);
        }
        let route = Route { method, path, handler };
        table.routes.push(route);
        proof {
            let rs = table.routes@;
            assert(rs.drop_last() =~= self.routes_seq());
            if self.wf() {
                assert forall|i: int, j: int|
                    0 <= i < j < rs.len() implies !((#[trigger] rs[i]).method
                    == (#[trigger] rs[j]).method && rs[i].path@ == rs[j].path@) by {
                    if j < rs.len() - 1 {
                        assert(rs[i] == self.routes_seq()[i]);
                        assert(rs[j] == self.routes_seq()[j]);
                    } else {
                        assert(rs[i] == self.routes_seq()[i]);
                    }
                }
            }
        }
        Ok(table)
    }

    /// Register a route for the `GET` method.
    pub fn get(self, path: String, handler: H) -> (r: Result<Router<H>, DuplicateRouteError>)
        ensures
            match r {
                Ok(t) => !spec_has_route(self.routes_seq(), Method::Get, path@) && (self.wf()
                    ==> t.wf()) && t.routes_seq() == self.routes_seq().push(
                    (Route { method: Method::Get, path: path, handler: handler }),
                ),
                Err(_) => spec_has_route(self.routes_seq(), Method::Get, path@),
            },
    {
        self.add(Method::Get, path, handler)
    }

    /// The position of the route for `(method, path)`, if one is
    /// registered.
    pub fn find_index(&self, method: Method, path: &str) -> (r: Option<usize>)
        ensures
            match r {
                Some(i) => i < self.routes_seq().len() && self.routes_seq()[i as int].method
                    == method && self.routes_seq()[i as int].path@ == path@,
                None => !spec_has_route(self.routes_seq(), method, path@),
            },
    {
        let n = self.routes.len();
        let mut i: usize = 0;
        while i < n
            invariant
                n == self.routes_seq().len(),
                i <= n,
                forall|j: int|
                    0 <= j < i ==> !((#[trigger] self.routes_seq()[j]).method == method
                        && self.routes_seq()[j].path@ == path@),
            decreases n - i,
        {
            let route = &self.routes[i];
            if route.method == method && crate::text::str_eq(route.path.as_str(), path) {
                return Some(i);
            }
            i = i + 1;
        }
        None
    }

    /// Resolve a pair to its handler's position, or report it
    /// unresolved. Exact match only: no wildcards, no prefixes.
    pub fn lookup_handler(&self, method: Method, path: &str) -> (r: Option<usize>)
        ensures
            match r {
                Some(i) => i < self.routes_seq().len() && self.routes_seq()[i as int].method
                    == method && self.routes_seq()[i as int].path@ == path@,
                None => !spec_has_route(self.routes_seq(), method, path@),
            },
    {
        self.find_index(method, path)
    }

    /// Run the handler registered for the request's (method, path),
    /// or report that none is. The table keeps its pairs; only the
    /// matched handler's own state may change.
    pub fn dispatch(&mut self, req: Request) -> (r: Option<Response>)
        ensures
            old(self).wf() ==> final (self).wf(),
            final (self).routes_seq().len() == old(self).routes_seq().len(),
            forall|j: int|
                0 <= j < old(self).routes_seq().len() ==> (#[trigger] final (self).routes_seq()[j]).method
                    == old(self).routes_seq()[j].method && final (self).routes_seq()[j].path@
                    == old(self).routes_seq()[j].path@,
            r is Some <==> spec_has_route(old(self).routes_seq(), req.method, req.path@),
    {
        let i = match self.find_index(req.method, req.path.as_str()) {
            None => {
                return None;
            },
            Some(i) => i,
        };
        let route = vec_index_mut(&mut self.routes, i);
        let response = route.handler.call(req);
        proof {
            assert forall|j: int| 0 <= j < old(self).routes_seq().len() implies (#[trigger] self
                .routes_seq()[j]).method == old(self).routes_seq()[j].method
                && self.routes_seq()[j].path@ == old(self).routes_seq()[j].path@ by {
                assert(self.routes@ == old(self).routes@.update(i as int, self.routes@[i as int]));
            }
        }
        Some(response)
    }
}

} // verus!
