//! The list-backed sub-router: routes of one method, tried in the order they
//! were added, each path matched by its components.

use vstd::prelude::*;
use vstd::string::*;
use crate::matching::{components_match, entry_matches, first_match, path_matches};
use crate::paths::components;
use crate::text::{lemma_first_where_found, lemma_first_where_none};
use super::SubRouter;

verus! {

struct Node<H> {
    path: String,
    handler: H,
}

impl<H> Node<H> {
    /// The stored path and `target` have the same components.
    fn matches(&self, target: &str) -> (r: bool)
        ensures
            r == path_matches(self.path@, target@),
    {
        let path = components(self.path.as_str());
        let target = components(target);
        components_match(path, target)
    }
}

/// Routes of one method kept in a list.
pub struct VecRouter<H> {
    inner: Vec<Node<H>>,
}

impl<H> SubRouter<H> for VecRouter<H> {
    closed spec fn entries(&self) -> Seq<(Seq<char>, H)> {
        self.inner@.map_values(|n: Node<H>| (n.path@, n.handler))
    }

    open spec fn lookup(&self, path: Seq<char>) -> Option<H> {
        first_match(self.entries(), path)
    }

    fn empty() -> (r: Self) {
        let r = VecRouter { inner: Vec::new() };
        assert(r.entries() =~= Seq::<(Seq<char>, H)>::empty());
        r
    }

    fn insert(&mut self, path: &str, handler: H) {
        let node = Node { path: path.to_owned(), handler };
        self.inner.push(node);
        assert(self.entries() =~= old(self).entries().push((path@, handler)));
    }

    fn route(&self, path: &str) -> (r: Option<&H>) {
        let ghost entries = self.entries();
        let mut i: usize = 0;
        while i < self.inner.len()
            invariant
                entries == self.entries(),
                i <= self.inner@.len(),
                forall|j: int| 0 <= j < i ==> !entry_matches::<H>(path@)(#[trigger] entries[j]),
            decreases self.inner@.len() - i,
        {
            let node = &self.inner[i];
            if node.matches(path) {
                proof {
                    lemma_first_where_found(entries, entry_matches::<H>(path@), i as int);
                }
                return Some(&node.handler);
            }
            i = i + 1;
        }
        proof {
            lemma_first_where_none(entries, entry_matches::<H>(path@));
        }
        None
    }
}

} // verus!
