//! Routes kept per request method, each method with its own `VecRouter`.

pub mod vecrouter;

use vstd::prelude::*;
use vstd::string::*;
use crate::http::{Method, MethodView, Reply, ReplyView};
use crate::matching::{first_match, lemma_first_match_push, path_matches};
use crate::slots::{
    find_slot, lemma_distinct_push, lemma_distinct_update, lemma_slot_push, lemma_slot_update,
    methods_distinct, slot_for, slot_value,
};
use self::vecrouter::VecRouter;

verus! {

/// The routes of a method's slot, or none when the method has no slot.
pub open spec fn routes_in<'p, H>(slot: Option<VecRouter<'p, H>>) -> Seq<(Seq<char>, H)> {
    match slot {
        Some(t) => t.entries(),
        None => seq![],
    }
}

/// Routes grouped by method.
pub struct Router<'p, H> {
    trees: Vec<(Method, VecRouter<'p, H>)>,
}

impl<'p, H> Router<'p, H> {
    /// No method has two sub-routers.
    #[verifier::type_invariant]
    spec fn one_slot_per_method(self) -> bool {
        methods_distinct(self.trees@)
    }

    /// The (path, handler) pairs registered for method `m`, oldest first.
    pub closed spec fn routes_for(&self, m: MethodView) -> Seq<(Seq<char>, H)> {
        routes_in(slot_value(self.trees@, m))
    }

    /// A router with no routes.
    pub fn new() -> (r: Self)
        ensures
            forall|m: MethodView| #[trigger] r.routes_for(m) == Seq::<(Seq<char>, H)>::empty(),
    {
        Router { trees: Vec::new() }
    }

    /// Adds a route for `method` after the ones it has.
    pub fn method(self, method: Method, path: &'p str, handler: H) -> (r: Self)
        ensures
            r.routes_for(method@) == self.routes_for(method@).push((path@, handler)),
            forall|m: MethodView| m != method@ ==> #[trigger] r.routes_for(m) == self.routes_for(m),
    {
        proof {
            use_type_invariant(&self);
        }
        let ghost old_trees = self.trees@;
        let ghost k = method@;
        let mut trees = self.trees;
        let i = find_slot(&trees, &method);
        if i < trees.len() {
            let (m, mut tree) = trees.remove(i);
            tree.insert(path, handler);
            trees.insert(i, (m, tree));
            let ghost e = (m, tree);
            proof {
                lemma_distinct_update(old_trees, i as int, e);
                crate::text::lemma_first_where_valid(old_trees, slot_for::<VecRouter<'p, H>>(k));
            }
            assert(m@ == k);
            assert(trees@ =~= old_trees.update(i as int, e));
            assert forall|mv: MethodView| #[trigger] slot_value(trees@, mv) == (if mv == k {
                Some(tree)
            } else {
                slot_value(old_trees, mv)
            }) by {
                lemma_slot_update(old_trees, i as int, e, mv);
                crate::text::lemma_first_where_valid(old_trees, slot_for::<VecRouter<'p, H>>(mv));
            }
        } else {
            let mut tree = VecRouter::new();
            tree.insert(path, handler);
            let ghost e = (method, tree);
            trees.push((method, tree));
            proof {
                lemma_distinct_push(old_trees, e);
            }
            assert forall|mv: MethodView| #[trigger] slot_value(trees@, mv) == (if mv == k {
                Some(tree)
            } else {
                slot_value(old_trees, mv)
            }) by {
                lemma_slot_push(old_trees, e, mv);
                crate::text::lemma_first_where_valid(old_trees, slot_for::<VecRouter<'p, H>>(mv));
                assert(trees@ == old_trees.push(e));
            }
        }
        Router { trees }
    }

    /// Adds a `GET` route.
    pub fn get(self, path: &'p str, handler: H) -> (r: Self)
        ensures
            r.routes_for(MethodView::Get) == self.routes_for(MethodView::Get).push((path@, handler)),
            forall|m: MethodView| m != MethodView::Get ==> #[trigger] r.routes_for(m) == self.routes_for(m),
    {
        self.method(Method::Get, path, handler)
    }

    /// Adds a `POST` route.
    pub fn post(self, path: &'p str, handler: H) -> (r: Self)
        ensures
            r.routes_for(MethodView::Post) == self.routes_for(MethodView::Post).push((path@, handler)),
            forall|m: MethodView| m != MethodView::Post ==> #[trigger] r.routes_for(m) == self.routes_for(m),
    {
        self.method(Method::Post, path, handler)
    }

    /// Adds a `PUT` route.
    pub fn put(self, path: &'p str, handler: H) -> (r: Self)
        ensures
            r.routes_for(MethodView::Put) == self.routes_for(MethodView::Put).push((path@, handler)),
            forall|m: MethodView| m != MethodView::Put ==> #[trigger] r.routes_for(m) == self.routes_for(m),
    {
        self.method(Method::Put, path, handler)
    }

    /// Adds a `PATCH` route.
    pub fn patch(self, path: &'p str, handler: H) -> (r: Self)
        ensures
            r.routes_for(MethodView::Patch) == self.routes_for(MethodView::Patch).push((path@, handler)),
            forall|m: MethodView| m != MethodView::Patch ==> #[trigger] r.routes_for(m) == self.routes_for(m),
    {
        self.method(Method::Patch, path, handler)
    }

    /// Adds a `DELETE` route.
    pub fn delete(self, path: &'p str, handler: H) -> (r: Self)
        ensures
            r.routes_for(MethodView::Delete) == self.routes_for(MethodView::Delete).push((path@, handler)),
            forall|m: MethodView| m != MethodView::Delete ==> #[trigger] r.routes_for(m) == self.routes_for(m),
    {
        self.method(Method::Delete, path, handler)
    }

    /// The handler for a request: the first route of its method whose path
    /// matches; `None` when there is none, and `not_found` answers.
    pub fn route(&self, method: &Method, path: &str) -> (r: Option<&H>)
        ensures
            match r {
                Some(h) => first_match(self.routes_for(method@), path@) == Some(*h),
                None => first_match(self.routes_for(method@), path@) is None,
            },
    {
        let i = find_slot(&self.trees, method);
        if i < self.trees.len() {
            self.trees[i].1.route(path)
        } else {
            assert(self.routes_for(method@) =~= Seq::<(Seq<char>, H)>::empty());
            proof {
                crate::text::lemma_first_where_none(
                    self.routes_for(method@),
                    crate::matching::entry_matches::<H>(path@),
                );
            }
            None
        }
    }
}

/// The body of the reply for a path that no route matches.
pub open spec fn not_found_body(path: Seq<char>) -> Seq<char> {
    "Path not found: "@ + path
}

/// The reply for a path that no route matches: `404` and a body that names the path.
pub fn not_found(path: &str) -> (r: Reply)
    ensures
        r@ == (ReplyView { status: 404, headers: seq![], body: not_found_body(path@) }),
{
    let body = "Path not found: ".to_owned().concat(path);
    Reply::new().with_status(404).with_body(body)
}

/// Registering a route for one method never changes how another method routes;
/// for its own method, a path that already had a route keeps it, and a path
/// that had none gets the new handler when the new route's path matches it.
pub proof fn lemma_route_after_method<'p, H>(
    before: Router<'p, H>,
    after: Router<'p, H>,
    method: MethodView,
    path: Seq<char>,
    handler: H,
    m: MethodView,
    target: Seq<char>,
)
    requires
        after.routes_for(method) == before.routes_for(method).push((path, handler)),
        forall|x: MethodView| x != method ==> #[trigger] after.routes_for(x) == before.routes_for(x),
    ensures
        m != method ==> first_match(after.routes_for(m), target) == first_match(
            before.routes_for(m),
            target,
        ),
        m == method && first_match(before.routes_for(m), target) is Some ==> first_match(
            after.routes_for(m),
            target,
        ) == first_match(before.routes_for(m), target),
        m == method && first_match(before.routes_for(m), target) is None && path_matches(
            path,
            target,
        ) ==> first_match(after.routes_for(m), target) == Some(handler),
        m == method && first_match(before.routes_for(m), target) is None && !path_matches(
            path,
            target,
        ) ==> first_match(after.routes_for(m), target) is None,
{
    lemma_first_match_push(before.routes_for(method), (path, handler), target);
}

} // verus!
