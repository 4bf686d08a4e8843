//! The framework's router: a sub-router per method and a handler for
//! requests that no route takes.

pub mod tree;
pub mod vecrouter;

use vstd::prelude::*;
use vstd::string::*;
use crate::http::{Method, MethodView, Reply, ReplyView};
use crate::slots::{
    find_slot, lemma_distinct_push, lemma_distinct_update, lemma_slot_push, lemma_slot_update,
    methods_distinct, slot_for, slot_value,
};
use crate::text::lemma_first_where_valid;
use crate::matching::{lemma_first_match_push, path_matches};
use self::vecrouter::VecRouter;

verus! {

/// What a router of one method offers: it starts empty, takes routes in order
/// and answers lookups.
pub trait SubRouter<H>: Sized {
    /// The (path, handler) pairs it was given, oldest first.
    spec fn entries(&self) -> Seq<(Seq<char>, H)>;

    /// The handler it finds for `path`.
    spec fn lookup(&self, path: Seq<char>) -> Option<H>;

    fn empty() -> (r: Self)
        ensures
            r.entries() == Seq::<(Seq<char>, H)>::empty(),
    ;

    fn insert(&mut self, path: &str, handler: H)
        ensures
            final(self).entries() == old(self).entries().push((path@, handler)),
    ;

    fn route(&self, path: &str) -> (r: Option<&H>)
        ensures
            match r {
                Some(h) => self.lookup(path@) == Some(*h),
                None => self.lookup(path@) is None,
            },
    ;
}

/// The routes of a method's slot, or none when the method has no slot.
pub open spec fn slot_entries<H, R: SubRouter<H>>(slot: Option<R>) -> Seq<(Seq<char>, H)> {
    match slot {
        Some(t) => t.entries(),
        None => seq![],
    }
}

/// What a method's slot finds for a path (nothing when the method has no slot).
pub open spec fn slot_lookup<H, R: SubRouter<H>>(slot: Option<R>, path: Seq<char>) -> Option<H> {
    match slot {
        Some(t) => t.lookup(path),
        None => None,
    }
}

/// A router with one sub-router per method and an optional handler for
/// requests that none takes (`None`: `default_not_found` answers).
pub struct Router<R, H> {
    subrouters: Vec<(Method, R)>,
    not_found: Option<H>,
}

impl<R, H> Router<R, H> {
    /// No method has two sub-routers.
    #[verifier::type_invariant]
    spec fn one_slot_per_method(self) -> bool {
        methods_distinct(self.subrouters@)
    }
}

impl<H> Router<VecRouter<H>, H> {
    /// A router with no routes that answers unmatched requests with `default_not_found`.
    pub fn new() -> (r: Self)
        ensures
            forall|m: MethodView| #[trigger] r.slot(m) is None,
            r.not_found_handler() is None,
    {
        Router { subrouters: Vec::new(), not_found: None }
    }
}

impl<R: SubRouter<H>, H> Router<R, H> {
    /// The sub-router of method `m`, if the method has one.
    pub closed spec fn slot(&self, m: MethodView) -> Option<R> {
        slot_value(self.subrouters@, m)
    }

    /// The handler set for unmatched requests, if any.
    pub closed spec fn not_found_handler(&self) -> Option<H> {
        self.not_found
    }

    /// What `route` answers for method `m` and `path`: the handler found by the
    /// method's sub-router, else the not-found handler (`None`: the default one).
    pub open spec fn routed(&self, m: MethodView, path: Seq<char>) -> Option<H> {
        match slot_lookup(self.slot(m), path) {
            Some(h) => Some(h),
            None => self.not_found_handler(),
        }
    }

    /// Adds a route for `method` to its sub-router, making one if it has none.
    pub fn method(self, method: Method, path: &str, handler: H) -> (r: Self)
        ensures
            r.slot(method@) is Some,
            r.slot(method@)->0.entries() == slot_entries(self.slot(method@)).push((path@, handler)),
            forall|m: MethodView| m != method@ ==> #[trigger] r.slot(m) == self.slot(m),
            r.not_found_handler() == self.not_found_handler(),
    {
        proof {
            use_type_invariant(&self);
        }
        let ghost old_subs = self.subrouters@;
        let ghost k = method@;
        let mut subrouters = self.subrouters;
        let i = find_slot(&subrouters, &method);
        if i < subrouters.len() {
            let (m, mut subrouter) = subrouters.remove(i);
            subrouter.insert(path, handler);
            subrouters.insert(i, (m, subrouter));
            let ghost e = (m, subrouter);
            proof {
                lemma_distinct_update(old_subs, i as int, e);
                lemma_first_where_valid(old_subs, slot_for::<R>(k));
            }
            assert(m@ == k);
            assert(subrouters@ =~= old_subs.update(i as int, e));
            assert forall|mv: MethodView| #[trigger] slot_value(subrouters@, mv) == (if mv == k {
                Some(subrouter)
            } else {
                slot_value(old_subs, mv)
            }) by {
                lemma_slot_update(old_subs, i as int, e, mv);
                lemma_first_where_valid(old_subs, slot_for::<R>(mv));
            }
        } else {
            let mut subrouter = R::empty();
            subrouter.insert(path, handler);
            let ghost e = (method, subrouter);
            subrouters.push((method, subrouter));
            proof {
                lemma_distinct_push(old_subs, e);
            }
            assert forall|mv: MethodView| #[trigger] slot_value(subrouters@, mv) == (if mv == k {
                Some(subrouter)
            } else {
                slot_value(old_subs, mv)
            }) by {
                lemma_slot_push(old_subs, e, mv);
                lemma_first_where_valid(old_subs, slot_for::<R>(mv));
                assert(subrouters@ == old_subs.push(e));
            }
        }
        Router { subrouters, not_found: self.not_found }
    }

    /// Sets the handler for requests that no route takes.
    pub fn not_found(self, handler: H) -> (r: Self)
        ensures
            r.not_found_handler() == Some(handler),
            forall|m: MethodView| #[trigger] r.slot(m) == self.slot(m),
    {
        proof {
            use_type_invariant(&self);
        }
        Router { subrouters: self.subrouters, not_found: Some(handler) }
    }

    /// Adds a `GET` route.
    pub fn get(self, path: &str, handler: H) -> (r: Self)
        ensures
            r.slot(MethodView::Get) is Some,
            r.slot(MethodView::Get)->0.entries() == slot_entries(self.slot(MethodView::Get)).push(
                (path@, handler),
            ),
            forall|m: MethodView| m != MethodView::Get ==> #[trigger] r.slot(m) == self.slot(m),
            r.not_found_handler() == self.not_found_handler(),
    {
        self.method(Method::Get, path, handler)
    }

    /// Adds a `POST` route.
    pub fn post(self, path: &str, handler: H) -> (r: Self)
        ensures
            r.slot(MethodView::Post) is Some,
            r.slot(MethodView::Post)->0.entries() == slot_entries(self.slot(MethodView::Post)).push(
                (path@, handler),
            ),
            forall|m: MethodView| m != MethodView::Post ==> #[trigger] r.slot(m) == self.slot(m),
            r.not_found_handler() == self.not_found_handler(),
    {
        self.method(Method::Post, path, handler)
    }

    /// Adds a `PUT` route.
    pub fn put(self, path: &str, handler: H) -> (r: Self)
        ensures
            r.slot(MethodView::Put) is Some,
            r.slot(MethodView::Put)->0.entries() == slot_entries(self.slot(MethodView::Put)).push(
                (path@, handler),
            ),
            forall|m: MethodView| m != MethodView::Put ==> #[trigger] r.slot(m) == self.slot(m),
            r.not_found_handler() == self.not_found_handler(),
    {
        self.method(Method::Put, path, handler)
    }

    /// Adds a `PATCH` route.
    pub fn patch(self, path: &str, handler: H) -> (r: Self)
        ensures
            r.slot(MethodView::Patch) is Some,
            r.slot(MethodView::Patch)->0.entries() == slot_entries(self.slot(MethodView::Patch)).push(
                (path@, handler),
            ),
            forall|m: MethodView| m != MethodView::Patch ==> #[trigger] r.slot(m) == self.slot(m),
            r.not_found_handler() == self.not_found_handler(),
    {
        self.method(Method::Patch, path, handler)
    }

    /// Adds a `DELETE` route.
    pub fn delete(self, path: &str, handler: H) -> (r: Self)
        ensures
            r.slot(MethodView::Delete) is Some,
            r.slot(MethodView::Delete)->0.entries() == slot_entries(self.slot(MethodView::Delete)).push(
                (path@, handler),
            ),
            forall|m: MethodView| m != MethodView::Delete ==> #[trigger] r.slot(m) == self.slot(m),
            r.not_found_handler() == self.not_found_handler(),
    {
        self.method(Method::Delete, path, handler)
    }

    /// The handler for a request, as `routed` says; `None` means that
    /// `default_not_found` answers.
    pub fn route(&self, method: &Method, path: &str) -> (r: Option<&H>)
        ensures
            match r {
                Some(h) => self.routed(method@, path@) == Some(*h),
                None => self.routed(method@, path@) is None,
            },
    {
        let i = find_slot(&self.subrouters, method);
        let found = if i < self.subrouters.len() {
            self.subrouters[i].1.route(path)
        } else {
            None
        };
        match found {
            Some(h) => Some(h),
            None => match &self.not_found {
                Some(h) => Some(h),
                None => None,
            },
        }
    }
}

/// Registering a route leaves every other method's routing as it was; for its
/// own method, a path that a route already took stays with it, a path that
/// none took goes to the new handler when the new path matches it, and is
/// otherwise still answered by the not-found handler.
pub proof fn lemma_route_after_method<H>(
    before: Router<VecRouter<H>, H>,
    after: Router<VecRouter<H>, H>,
    method: MethodView,
    path: Seq<char>,
    handler: H,
    m: MethodView,
    target: Seq<char>,
)
    requires
        after.slot(method) is Some,
        after.slot(method)->0.entries() == slot_entries(before.slot(method)).push((path, handler)),
        forall|x: MethodView| x != method ==> #[trigger] after.slot(x) == before.slot(x),
        after.not_found_handler() == before.not_found_handler(),
    ensures
        m != method ==> after.routed(m, target) == before.routed(m, target),
        m == method && slot_lookup(before.slot(m), target) is Some ==> after.routed(m, target)
            == before.routed(m, target),
        m == method && slot_lookup(before.slot(m), target) is None && path_matches(path, target)
            ==> after.routed(m, target) == Some(handler),
        m == method && slot_lookup(before.slot(m), target) is None && !path_matches(path, target)
            ==> after.routed(m, target) == before.not_found_handler(),
{
    let entries = slot_entries(before.slot(method));
    lemma_first_match_push(entries, (path, handler), target);
    if before.slot(method) is None {
        assert(entries =~= Seq::<(Seq<char>, H)>::empty());
        crate::text::lemma_first_where_none(entries, crate::matching::entry_matches::<H>(target));
    }
}

/// The body of the default reply for a path that no route takes.
pub open spec fn not_found_body(path: Seq<char>) -> Seq<char> {
    "Path not found: "@ + path
}

/// The default reply for a path that no route takes: `404` and a body that names the path.
pub fn default_not_found(path: &str) -> (r: Reply)
    ensures
        r@ == (ReplyView { status: 404, headers: seq![], body: not_found_body(path@) }),
{
    let body = "Path not found: ".to_owned().concat(path);
    Reply::new().with_status(404).with_body(body)
}

} // verus!
