//! A single list of (method, path, handler) routes matched by exact path,
//! telling "no such path" apart from "path known, method not allowed".

use vstd::prelude::*;
use vstd::string::*;
use crate::http::{Method, MethodView, Reply, ReplyView};
use crate::text::{
    first_where, lemma_first_where_found, lemma_first_where_none, lemma_first_where_valid,
    str_eq,
};

verus! {

/// One route: a method, an exact path and its handler.
pub struct Route<'p, H> {
    method: Method,
    path: &'p str,
    handler: H,
}

impl<'p, H> Route<'p, H> {
    pub closed spec fn method_of(self) -> MethodView {
        self.method@
    }

    pub closed spec fn path_of(self) -> Seq<char> {
        self.path@
    }

    pub closed spec fn handler_of(self) -> H {
        self.handler
    }

    /// A route for `method` at `path`.
    pub fn new(method: Method, path: &'p str, handler: H) -> (r: Self)
        ensures
            r.method_of() == method@,
            r.path_of() == path@,
            r.handler_of() == handler,
    {
        Route { method, path, handler }
    }
}

/// A route seen as (method, path, handler).
pub open spec fn route_view<'p, H>(r: Route<'p, H>) -> (MethodView, Seq<char>, H) {
    (r.method_of(), r.path_of(), r.handler_of())
}

/// The test that picks a route for exactly method `m` and path `p`.
pub open spec fn exact<H>(m: MethodView, p: Seq<char>) -> spec_fn((MethodView, Seq<char>, H)) -> bool {
    |e: (MethodView, Seq<char>, H)| e.1 == p && e.0 == m
}

/// What a lookup finds.
pub enum Dispatched<H> {
    Handler(H),
    MethodNotAllowed,
    NotFound,
}

/// Where a request goes: the handler of the first route with its method and
/// path; failing that, "method not allowed" when some route has the path;
/// otherwise "not found".
pub open spec fn dispatch<H>(routes: Seq<(MethodView, Seq<char>, H)>, m: MethodView, p: Seq<char>) -> Dispatched<H> {
    match first_where(routes, exact::<H>(m, p)) {
        Some(i) => Dispatched::Handler(routes[i].2),
        None => if exists|j: int| 0 <= j < routes.len() && (#[trigger] routes[j]).1 == p {
            Dispatched::MethodNotAllowed
        } else {
            Dispatched::NotFound
        },
    }
}

/// Where `Router::route` sends a request.
pub enum Target<'a, H> {
    Handler(&'a H),
    MethodNotAllowed,
    NotFound,
}

/// The routes of an application, in the order they were added.
pub struct Router<'p, H> {
    routes: Vec<Route<'p, H>>,
}

impl<'p, H> Router<'p, H> {
    /// The routes as (method, path, handler), oldest first.
    pub closed spec fn table(&self) -> Seq<(MethodView, Seq<char>, H)> {
        self.routes@.map_values(|r: Route<'p, H>| route_view(r))
    }

    /// A router with no routes.
    pub fn new() -> (r: Self)
        ensures
            r.table() == Seq::<(MethodView, Seq<char>, H)>::empty(),
    {
        let r = Router { routes: Vec::new() };
        assert(r.table() =~= Seq::<(MethodView, Seq<char>, H)>::empty());
        r
    }

    /// Adds a route after the existing ones.
    pub fn method(self, method: Method, path: &'p str, handler: H) -> (r: Self)
        ensures
            r.table() == self.table().push((method@, path@, handler)),
    {
        let ghost m = method@;
        let route = Route::new(method, path, handler);
        let mut routes = self.routes;
        routes.push(route);
        let r = Router { routes };
        assert(r.table() =~= self.table().push((m, path@, handler)));
        r
    }

    /// Adds a `GET` route.
    pub fn get(self, path: &'p str, handler: H) -> (r: Self)
        ensures
            r.table() == self.table().push((MethodView::Get, path@, handler)),
    {
        self.method(Method::Get, path, handler)
    }

    /// Adds a `POST` route.
    pub fn post(self, path: &'p str, handler: H) -> (r: Self)
        ensures
            r.table() == self.table().push((MethodView::Post, path@, handler)),
    {
        self.method(Method::Post, path, handler)
    }

    /// Adds a `PUT` route.
    pub fn put(self, path: &'p str, handler: H) -> (r: Self)
        ensures
            r.table() == self.table().push((MethodView::Put, path@, handler)),
    {
        self.method(Method::Put, path, handler)
    }

    /// Adds a `PATCH` route.
    pub fn patch(self, path: &'p str, handler: H) -> (r: Self)
        ensures
            r.table() == self.table().push((MethodView::Patch, path@, handler)),
    {
        self.method(Method::Patch, path, handler)
    }

    /// Adds a `DELETE` route.
    pub fn delete(self, path: &'p str, handler: H) -> (r: Self)
        ensures
            r.table() == self.table().push((MethodView::Delete, path@, handler)),
    {
        self.method(Method::Delete, path, handler)
    }

    /// Where a request for `method` and `path` goes, as `dispatch` says.
    pub fn route(&self, method: &Method, path: &str) -> (r: Target<'_, H>)
        ensures
            match r {
                Target::Handler(h) => dispatch(self.table(), method@, path@) == Dispatched::Handler(*h),
                Target::MethodNotAllowed => dispatch(self.table(), method@, path@)
                    == Dispatched::<H>::MethodNotAllowed,
                Target::NotFound => dispatch(self.table(), method@, path@) == Dispatched::<H>::NotFound,
            },
    {
        let ghost table = self.table();
        let ghost p = exact::<H>(method@, path@);
        let mut path_exists = false;
        let mut i: usize = 0;
        while i < self.routes.len()
            invariant
                table == self.table(),
                p == exact::<H>(method@, path@),
                i <= self.routes@.len(),
                forall|j: int| 0 <= j < i ==> !p(#[trigger] table[j]),
                path_exists == exists|j: int| 0 <= j < i && (#[trigger] table[j]).1 == path@,
            decreases self.routes@.len() - i,
        {
            let route = &self.routes[i];
            assert(table[i as int] == route_view(*route));
            if str_eq(route.path, path) {
                path_exists = true;
                if route.method.same_as(method) {
                    proof {
                        lemma_first_where_found(table, p, i as int);
                    }
                    return Target::Handler(&route.handler);
                }
            }
            i = i + 1;
        }
        proof {
            lemma_first_where_none(table, p);
        }
        if path_exists {
            Target::MethodNotAllowed
        } else {
            Target::NotFound
        }
    }
}

/// The reply for a path that no route has: `404` and a body that names the path.
pub fn not_found(path: &str) -> (r: Reply)
    ensures
        r@ == (ReplyView { status: 404, headers: seq![], body: "Path not found: "@ + path@ }),
{
    let body = "Path not found: ".to_owned().concat(path);
    Reply::new().with_status(404).with_body(body)
}

/// The reply for a known path asked with a method it has no route for: `405`.
pub fn method_not_allowed() -> (r: Reply)
    ensures
        r@ == (ReplyView { status: 405, headers: seq![], body: seq![] }),
{
    Reply::new().with_status(405)
}

/// The reply for a request whose handler failed: `500` and the error's description.
pub fn translate_error(description: String) -> (r: Reply)
    ensures
        r@ == (ReplyView { status: 500, headers: seq![], body: description@ }),
{
    Reply::new().with_status(500).with_body(description)
}

/// Adding a route never takes a request away from the handler it already
/// reached; a request for exactly the new route's method and path that
/// reached no handler before reaches the new one; and a path that had a
/// route keeps being known.
pub proof fn lemma_dispatch_after_method<H>(
    table: Seq<(MethodView, Seq<char>, H)>,
    method: MethodView,
    path: Seq<char>,
    handler: H,
    m: MethodView,
    p: Seq<char>,
)
    ensures
        dispatch(table, m, p) is Handler ==> dispatch(table.push((method, path, handler)), m, p)
            == dispatch(table, m, p),
        !(dispatch(table, m, p) is Handler) && m == method && p == path ==> dispatch(
            table.push((method, path, handler)),
            m,
            p,
        ) == Dispatched::Handler(handler),
        dispatch(table, m, p) is MethodNotAllowed ==> !(dispatch(
            table.push((method, path, handler)),
            m,
            p,
        ) is NotFound),
{
    let t2 = table.push((method, path, handler));
    let e = exact::<H>(m, p);
    lemma_first_where_valid(table, e);
    match first_where(table, e) {
        Some(i) => {
            assert forall|j: int| 0 <= j < i implies !e(#[trigger] t2[j]) by {
                assert(t2[j] == table[j]);
            }
            assert(t2[i] == table[i]);
            lemma_first_where_found(t2, e, i);
        },
        None => {
            assert forall|j: int| 0 <= j < table.len() implies !e(#[trigger] t2[j]) by {
                assert(t2[j] == table[j]);
            }
            if m == method && p == path {
                assert(t2[table.len() as int] == (method, path, handler));
                lemma_first_where_found(t2, e, table.len() as int);
            }
            if dispatch(table, m, p) is MethodNotAllowed {
                let j = choose|j: int| 0 <= j < table.len() && (#[trigger] table[j]).1 == p;
                assert(t2[j] == table[j]);
                lemma_first_where_valid(t2, e);
            }
        },
    }
}

} // verus!
