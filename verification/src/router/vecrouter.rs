//! A route list keyed by path: routes are tried in the order they were added.

use vstd::prelude::*;
use crate::matching::{
    components_match, entry_matches, first_match, path_matches, lemma_first_match_push,
};
use crate::paths::components;
use crate::text::{lemma_first_where_found, lemma_first_where_none};

verus! {

struct Node<'p, H> {
    path: &'p str,
    handler: H,
}

impl<'p, H> Node<'p, H> {
    /// The stored path and `target` have the same components.
    fn matches(&self, target: &str) -> (r: bool)
        ensures
            r == path_matches(self.path@, target@),
    {
        let path = components(self.path);
        let target = components(target);
        components_match(path, target)
    }
}

/// Routes of one method, tried in the order they were added.
pub struct VecRouter<'p, H> {
    inner: Vec<Node<'p, H>>,
}

impl<'p, H> VecRouter<'p, H> {
    /// The registered (path, handler) pairs, oldest first.
    pub closed spec fn entries(&self) -> Seq<(Seq<char>, H)> {
        self.inner@.map_values(|n: Node<'p, H>| (n.path@, n.handler))
    }

    /// A router with no routes.
    pub fn new() -> (r: Self)
        ensures
            r.entries() == Seq::<(Seq<char>, H)>::empty(),
    {
        let r = VecRouter { inner: Vec::new() };
        assert(r.entries() =~= Seq::<(Seq<char>, H)>::empty());
        r
    }

    /// Adds a route after the existing ones.
    pub fn insert(&mut self, path: &'p str, handler: H)
        ensures
            final(self).entries() == old(self).entries().push((path@, handler)),
    {
        let node = Node { path, handler };
        self.inner.push(node);
        assert(self.entries() =~= old(self).entries().push((path@, handler)));
    }

    /// The handler of the first route whose path matches `path`.
    pub fn route(&self, path: &str) -> (r: Option<&H>)
        ensures
            match r {
                Some(h) => first_match(self.entries(), path@) == Some(*h),
                None => first_match(self.entries(), path@) is None,
            },
    {
        let ghost entries = self.entries();
        let mut i: usize = 0;
        while i < self.inner.len()
            invariant
                entries == self.entries(),
                i <= self.inner@.len(),
                forall|j: int| 0 <= j < i ==> !entry_matches::<H>(path@)(#[trigger] entries[j]),
            decreases self.inner@.len() - i,
        {
            let node = &self.inner[i];
            if node.matches(path) {
                proof {
                    lemma_first_where_found(entries, entry_matches::<H>(path@), i as int);
                }
                return Some(&node.handler);
            }
            i = i + 1;
        }
        proof {
            lemma_first_where_none(entries, entry_matches::<H>(path@));
        }
        None
    }
}

/// A route added to a router wins for every path it matches, unless an
/// earlier route already matches that path.
pub proof fn lemma_insert_then_route<'p, H>(
    before: VecRouter<'p, H>,
    after: VecRouter<'p, H>,
    path: Seq<char>,
    handler: H,
    target: Seq<char>,
)
    requires
        after.entries() == before.entries().push((path, handler)),
    ensures
        first_match(before.entries(), target) is Some ==> first_match(after.entries(), target)
            == first_match(before.entries(), target),
        first_match(before.entries(), target) is None && path_matches(path, target)
            ==> first_match(after.entries(), target) == Some(handler),
        first_match(before.entries(), target) is None && !path_matches(path, target)
            ==> first_match(after.entries(), target) is None,
{
    lemma_first_match_push(before.entries(), (path, handler), target);
}

} // verus!
