//! A prefix tree of routes: each node holds a piece of path, an optional
//! handler and its children, which are kept in order of priority.

use vstd::prelude::*;
use vstd::string::*;
use vstd::utf8::*;
use crate::text::{
    bytes_of, common_prefix_len, first_where, is_slash, lemma_common_prefix_bounds,
    lemma_common_prefix_len, lemma_common_prefix_symmetric, lemma_first_where_found,
    lemma_first_where_none, starts_with, starts_with_char,
    str_is_slash, tail_from_byte, byte_len, decimal, decimal_string,
};

verus! {

broadcast use vstd::utf8::group_utf8_lib;

/// A node of the route tree.
pub struct TreeNode<'p, H> {
    path: &'p str,
    handler: Option<H>,
    children: Vec<TreeNode<'p, H>>,  // sorted by priority, highest first
    priority: u32,
}

/// Children ordered from the highest priority to the lowest.
pub open spec fn sorted_by_priority<'p, H>(children: Seq<TreeNode<'p, H>>) -> bool {
    forall|i: int, j: int|
        0 <= i < j < children.len() ==> children[i].priority_of() >= children[j].priority_of()
}

/// Where a child of priority `p`, now at position `i`, comes to stand when it
/// moves towards the front past every child before it of lower priority.
pub open spec fn rise_to<'p, H>(children: Seq<TreeNode<'p, H>>, i: int, p: int) -> int
    decreases i,
{
    if i <= 0 || children[i - 1].priority_of() >= p {
        i
    } else {
        rise_to(children, i - 1, p)
    }
}

/// Where the child at `idx` comes to stand once its priority has gone up by one.
pub open spec fn risen_index<'p, H>(children: Seq<TreeNode<'p, H>>, idx: int) -> int {
    rise_to(children, idx, children[idx].priority_of() + 1)
}

/// `after` is `before` with its priority one higher and nothing else changed.
pub open spec fn bumped_from<'p, H>(after: TreeNode<'p, H>, before: TreeNode<'p, H>) -> bool {
    &&& after.priority_of() == before.priority_of() + 1
    &&& after.path_of() == before.path_of()
    &&& after.handler_of() == before.handler_of()
    &&& after.children_of() == before.children_of()
}

/// The string that remains after repeatedly cutting `n` bytes off the front of
/// `path` until it is empty or `"/"`; `None` where that never ends or a cut
/// falls off a character boundary.
pub open spec fn strip_repeated(path: Seq<char>, n: nat) -> Option<Seq<char>>
    decreases bytes_of(path).len(),
{
    if path.len() == 0 || is_slash(path) {
        Some(path)
    } else if n == 0 || n > bytes_of(path).len() || !is_char_boundary(bytes_of(path), n as int) {
        None
    } else {
        let rest = bytes_of(path).subrange(n as int, bytes_of(path).len() as int);
        proof {
            valid_utf8_split(bytes_of(path), n as int);
            decode_utf8_encode_utf8(rest);
        }
        strip_repeated(decode_utf8(rest), n)
    }
}

/// Holds of a node whose piece of path begins with `c`.
pub open spec fn leads_with<'p, H>(c: char) -> spec_fn(TreeNode<'p, H>) -> bool {
    |n: TreeNode<'p, H>| n.path_of().len() > 0 && n.path_of()[0] == c
}

/// The text `to_debug_string` gives for a node: its piece of path, priority,
/// whether it has a handler, and the texts of its children, each followed by `", "`.
pub open spec fn node_text<'p, H>(node: TreeNode<'p, H>) -> Seq<char>
    decreases node, node.children_of().len() + 1,
{
    "TreeNode(path='"@ + node.path_of() + "', priority="@ + decimal(node.priority_of() as nat)
        + ", handler="@ + (if node.handler_of() is Some {
        "YES"@
    } else {
        "NO"@
    }) + ", children=["@ + children_text(node, node.children_of().len() as int) + "])"@
}

/// The texts of the first `k` children of `node`, each followed by `", "`.
pub open spec fn children_text<'p, H>(node: TreeNode<'p, H>, k: int) -> Seq<char>
    decreases node, k,
{
    if k <= 0 || k > node.children_of().len() {
        seq![]
    } else {
        children_text(node, k - 1) + node_text(node.children_of()[k - 1]) + ", "@
    }
}

/// A fresh node: it holds `handler` at `path`, has no children and priority 0.
pub open spec fn is_leaf_for<'p, H>(node: TreeNode<'p, H>, path: Seq<char>, handler: H) -> bool {
    &&& node.path_of() == path
    &&& node.handler_of() == Some(handler)
    &&& node.children_of().len() == 0
    &&& node.priority_of() == 0
}

/// What `insert` hands to the new child: the part of `path` after the piece
/// `node` holds (cut by its length in bytes), cut again by that length until
/// it is empty or `"/"`.
pub open spec fn child_piece<'p, H>(node: TreeNode<'p, H>, path: Seq<char>) -> Option<Seq<char>> {
    let n = bytes_of(node.path_of()).len();
    strip_repeated(decode_utf8(bytes_of(path).subrange(n as int, bytes_of(path).len() as int)), n)
}

/// `insert` can finish: the node's count of routes can still go up, the node's
/// piece ends on a character boundary of `path`, and the cutting ends.
pub open spec fn insert_accepts<'p, H>(node: TreeNode<'p, H>, path: Seq<char>) -> bool {
    &&& node.priority_of() < u32::MAX
    &&& is_char_boundary(bytes_of(path), bytes_of(node.path_of()).len() as int)
    &&& child_piece(node, path) is Some
}

/// `after` is `before` once `insert` has added `handler` for `path`: one more
/// route counted, and a new last child holding `handler` at `child_piece`.
pub open spec fn inserted<'p, H>(
    before: TreeNode<'p, H>,
    after: TreeNode<'p, H>,
    path: Seq<char>,
    handler: H,
) -> bool {
    &&& after.priority_of() == before.priority_of() + 1
    &&& after.path_of() == before.path_of()
    &&& after.handler_of() == before.handler_of()
    &&& after.children_of().len() == before.children_of().len() + 1
    &&& after.children_of().take(before.children_of().len() as int) == before.children_of()
    &&& is_leaf_for(after.children_of().last(), child_piece(before, path)->0, handler)
}

/// Whether cutting `n` bytes off the front of `path`, again and again, ends
/// at an empty string or `"/"`, as `insert` does with what follows a node's piece.
fn cuts_down(path: &str, n: usize) -> (r: bool)
    ensures
        r == strip_repeated(path@, n as nat) is Some,
{
    let mut rest = path;
    loop
        invariant
            strip_repeated(rest@, n as nat) == strip_repeated(path@, n as nat),
        decreases bytes_of(rest@).len(),
    {
        if str_is_slash(rest) || rest.is_empty() {
            return true;
        }
        if n == 0 || n > byte_len(rest) || !rest.is_char_boundary(n) {
            return false;
        }
        let ghost bytes = bytes_of(rest@);
        proof {
            valid_utf8_split(bytes, n as int);
            decode_utf8_encode_utf8(bytes.subrange(n as int, bytes.len() as int));
        }
        rest = tail_from_byte(rest, n);
    }
}

impl<'p, H> TreeNode<'p, H> {
    pub closed spec fn path_of(self) -> Seq<char> {
        self.path@
    }

    pub closed spec fn handler_of(self) -> Option<H> {
        self.handler
    }

    pub closed spec fn children_of(self) -> Seq<TreeNode<'p, H>> {
        self.children@
    }

    pub closed spec fn priority_of(self) -> u32 {
        self.priority
    }

    /// What `get` finds for `path`: at `"/"` this node's handler; otherwise,
    /// when the path begins with this node's piece, the first child whose piece
    /// begins with the next character is asked for the rest.
    pub open spec fn lookup(self, path: Seq<char>) -> Option<H>
        decreases self,
    {
        if is_slash(path) {
            self.handler_of()
        } else if !self.path_of().is_prefix_of(path) {
            None
        } else {
            let rest = path.skip(self.path_of().len() as int);
            if rest.len() == 0 {
                None
            } else {
                match first_where(self.children_of(), leads_with::<'p, H>(rest[0])) {
                    Some(i) => if 0 <= i < self.children_of().len() {
                        self.children_of()[i].lookup(rest)
                    } else {
                        None
                    },
                    None => None,
                }
            }
        }
    }

    /// A node that holds `handler` at `path`, with no children.
    pub fn new(path: &'p str, handler: H) -> (r: Self)
        ensures
            is_leaf_for(r, path@, handler),
    {
        TreeNode { path, handler: Some(handler), children: Vec::new(), priority: 0 }
    }

    /// Counts one more route under this node and adds a child for the part of
    /// `path` after this node's piece (cut off by byte length).
    pub fn insert(&mut self, path: &'p str, handler: H)
        requires
            insert_accepts(*old(self), path@),
        ensures
            inserted(*old(self), *final(self), path@, handler),
            sorted_by_priority(old(self).children_of()) ==> sorted_by_priority(
                final(self).children_of(),
            ),
    {
        self.priority = self.priority + 1;
        // the child holds what follows this node's piece, counted in bytes
        let rest = tail_from_byte(path, byte_len(self.path));
        self.insert_child(rest, handler);
    }

    /// `insert`, with its arguments checked first: where `insert` could not
    /// finish (the count of routes is at its limit, or `path` cannot be cut as
    /// `insert` cuts it), nothing changes and the handler is handed back.
    pub fn try_insert(&mut self, path: &'p str, handler: H) -> (r: Result<(), H>)
        ensures
            r is Ok <==> insert_accepts(*old(self), path@),
            r is Ok ==> inserted(*old(self), *final(self), path@, handler),
            r is Ok ==> (sorted_by_priority(old(self).children_of()) ==> sorted_by_priority(
                final(self).children_of(),
            )),
            r matches Err(h) ==> h == handler && *final(self) == *old(self),
    {
        if self.priority == u32::MAX {
            return Err(handler);
        }
        let n = byte_len(self.path);
        if !path.is_char_boundary(n) {
            return Err(handler);
        }
        let rest = tail_from_byte(path, n);
        if !cuts_down(rest, n) {
            return Err(handler);
        }
        self.insert(path, handler);
        Ok(())
    }

    fn insert_child(&mut self, path: &'p str, handler: H)
        requires
            strip_repeated(path@, bytes_of(old(self).path_of()).len()) is Some,
        ensures
            final(self).priority_of() == old(self).priority_of(),
            final(self).path_of() == old(self).path_of(),
            final(self).handler_of() == old(self).handler_of(),
            final(self).children_of().len() == old(self).children_of().len() + 1,
            final(self).children_of().take(old(self).children_of().len() as int)
                == old(self).children_of(),
            is_leaf_for(
                final(self).children_of().last(),
                strip_repeated(path@, bytes_of(old(self).path_of()).len())->0,
                handler,
            ),
            sorted_by_priority(old(self).children_of()) ==> sorted_by_priority(
                final(self).children_of(),
            ),
    {
        let ghost n = bytes_of(self.path@).len();
        let ghost target = strip_repeated(path@, n);
        let ghost path0 = path@;
        let step = byte_len(self.path);
        let mut rest = path;
        loop
            invariant
                *self == *old(self),
                target == strip_repeated(path0, n),
                path0 == path@,
                n == bytes_of(old(self).path@).len(),
                step == n,
                n == bytes_of(self.path@).len(),
                strip_repeated(rest@, n) == target,
                target is Some,
            decreases bytes_of(rest@).len(),
        {
            if str_is_slash(rest) || rest.is_empty() {
                // The path is already the root, we should insert here
                let child = TreeNode::new(rest, handler);
                let ghost before = self.children@;
                self.children.push(child);
                assert(self.children@.take(before.len() as int) =~= before);
                assert(strip_repeated(rest@, n) == Some(rest@));
                assert(self.children@.last() == child);
                return;
            }
            let ghost bytes = bytes_of(rest@);
            proof {
                valid_utf8_split(bytes, n as int);
                decode_utf8_encode_utf8(bytes.subrange(n as int, bytes.len() as int));
            }
            rest = tail_from_byte(rest, step);
        }
    }

    /// Finds the handler that `lookup` describes.
    pub fn get(&self, path: &str) -> (r: Option<&H>)
        ensures
            match r {
                Some(h) => self.lookup(path@) == Some(*h),
                None => self.lookup(path@) is None,
            },
        decreases self,
    {
        if str_is_slash(path) {
            // We're at the correct node
            return match &self.handler {
                Some(h) => Some(h),
                None => None,
            };
        }
        if !starts_with(path, self.path) {
            return None;
        }
        let rest = path.substring_char(self.path.unicode_len(), path.unicode_len());
        assert(rest@ =~= path@.skip(self.path@.len() as int));

        if rest.unicode_len() > 0 {
            let c = rest.get_char(0);
            let mut i: usize = 0;
            while i < self.children.len()
                invariant
                    rest@ == path@.skip(self.path@.len() as int),
                    !is_slash(path@),
                    self.path@.is_prefix_of(path@),
                    rest@.len() > 0,
                    c == rest@[0],
                    i <= self.children@.len(),
                    forall|j: int| 0 <= j < i ==> !leads_with::<'p, H>(c)(#[trigger] self.children@[j]),
                decreases self.children@.len() - i,
            {
                let child = &self.children[i];
                if starts_with_char(child.path, c) {
                    proof {
                        lemma_first_where_found(self.children@, leads_with::<'p, H>(c), i as int);
                    }
                    let r = child.get(rest);
                    return r;
                }
                i = i + 1;
            }
            proof {
                lemma_first_where_none(self.children@, leads_with::<'p, H>(c));
            }
        }
        None
    }

    /// A text showing the node and, nested, its children.
    pub fn to_debug_string(&self) -> (r: String)
        ensures
            r@ == node_text(*self),
        decreases self,
    {
        let handler = if let Some(_) = &self.handler {
            "YES"
        } else {
            "NO"
        };
        let mut out = "TreeNode(path='".to_owned();
        out = out.concat(self.path).concat("', priority=").concat(
            decimal_string(self.priority).as_str(),
        ).concat(", handler=").concat(handler).concat(", children=[");
        let ghost head = out@;
        let mut i: usize = 0;
        while i < self.children.len()
            invariant
                i <= self.children@.len(),
                out@ == head + children_text(*self, i as int),
            decreases self.children@.len() - i,
        {
            let child = &self.children[i];
            out = out.concat(child.to_debug_string().as_str()).concat(", ");
            i = i + 1;
        }
        out.concat("])")
    }

    /// Counts one more route under the child at `idx`, and moves that child
    /// towards the front past every child before it of lower priority, so that
    /// children sorted by priority stay sorted.
    fn increment_priority(&mut self, idx: usize)
        requires
            idx < old(self).children_of().len(),
            old(self).children_of()[idx as int].priority_of() < u32::MAX,
        ensures
            final(self).priority_of() == old(self).priority_of(),
            final(self).path_of() == old(self).path_of(),
            final(self).handler_of() == old(self).handler_of(),
            final(self).children_of().len() == old(self).children_of().len(),
            final(self).children_of().remove(risen_index(old(self).children_of(), idx as int))
                == old(self).children_of().remove(idx as int),
            bumped_from(
                final(self).children_of()[risen_index(old(self).children_of(), idx as int)],
                old(self).children_of()[idx as int],
            ),
            sorted_by_priority(old(self).children_of()) ==> sorted_by_priority(
                final(self).children_of(),
            ),
    {
        assert(self.children@.len() > 0);
        let ghost before = self.children@;

        let priority = {
            let child = &mut self.children[idx];
            child.priority = child.priority + 1;
            child.priority
        };

        let ghost mid = *self;
        let ghost bumped = self.children@;
        proof {
            assert(bumped.remove(idx as int) =~= before.remove(idx as int));
        }
        let mut j: usize = idx;
        while j > 0
            invariant_except_break
                rise_to(before, idx as int, priority as int) == rise_to(before, j as int, priority as int),
            invariant
                idx < before.len(),
                bumped.len() == before.len(),
                j <= idx,
                priority == bumped[idx as int].priority_of(),
                forall|m: int| 0 <= m < bumped.len() && m != idx ==> bumped[m] == before[m],
                self.children@ == bumped.remove(idx as int).insert(j as int, bumped[idx as int]),
                self.priority == mid.priority,
                self.path == mid.path,
                self.handler == mid.handler,
            ensures
                j as int == rise_to(before, idx as int, priority as int),
            decreases j,
        {
            if self.children[j - 1].priority >= priority {
                proof {
                    assert(self.children@[j - 1] == before[j - 1]);
                }
                break;
            }
            let ghost s = self.children@;
            proof {
                assert(s[j - 1] == before[j - 1]);
                assert(s[j as int] == bumped[idx as int]);
            }
            let child = self.children.remove(j);
            self.children.insert(j - 1, child);
            j = j - 1;
            proof {
                assert(self.children@ =~= bumped.remove(idx as int).insert(j as int, bumped[idx as int]));
            }
        }
        proof {
            lemma_rise_keeps_sorted(before, idx as int, bumped[idx as int], self.children@);
            let k = j as int;
            assert(self.children@.remove(k) =~= bumped.remove(idx as int));
        }
    }
}

/// The place `rise_to` finds lies between 0 and `i`; every child it passes has
/// a lower priority than `p`, and the child just before it (if any) does not.
proof fn lemma_rise_to<'p, H>(children: Seq<TreeNode<'p, H>>, i: int, p: int)
    requires
        0 <= i <= children.len(),
    ensures
        0 <= rise_to(children, i, p) <= i,
        forall|j: int| rise_to(children, i, p) <= j < i ==> #[trigger] children[j].priority_of() < p,
        rise_to(children, i, p) == 0 || children[rise_to(children, i, p) - 1].priority_of() >= p,
    decreases i,
{
    if i > 0 && children[i - 1].priority_of() < p {
        lemma_rise_to(children, i - 1, p);
    }
}

/// Moving a child whose priority went up by one to the place `rise_to` finds
/// keeps children sorted by priority.
proof fn lemma_rise_keeps_sorted<'p, H>(
    children: Seq<TreeNode<'p, H>>,
    idx: int,
    moved: TreeNode<'p, H>,
    result: Seq<TreeNode<'p, H>>,
)
    requires
        0 <= idx < children.len(),
        moved.priority_of() == children[idx].priority_of() + 1,
        result == children.remove(idx).insert(
            rise_to(children, idx, moved.priority_of() as int),
            moved,
        ),
    ensures
        sorted_by_priority(children) ==> sorted_by_priority(result),
{
    let k = rise_to(children, idx, moved.priority_of() as int);
    let p = moved.priority_of() as int;
    lemma_rise_to(children, idx, p);
    let rest = children.remove(idx);
    rest.insert_ensures(k, moved);
    children.remove_ensures(idx);
    assert(result.len() == children.len());
    assert forall|m: int| 0 <= m < k implies #[trigger] result[m] == children[m] by {}
    assert(result[k] == moved);
    assert forall|m: int| k < m <= idx implies #[trigger] result[m] == children[m - 1] by {
        assert(result[m] == rest[m - 1]);
    }
    assert forall|m: int| idx < m < result.len() implies #[trigger] result[m] == children[m] by {
        assert(result[m] == rest[m - 1]);
    }
    if sorted_by_priority(children) {
        assert forall|a: int, c: int| 0 <= a < c < result.len() implies result[a].priority_of()
            >= result[c].priority_of() by {
            let pa = if a < k { children[a].priority_of() as int } else if a == k { p } else if a
                <= idx { children[a - 1].priority_of() as int } else { children[a].priority_of() as int };
            let pc = if c < k { children[c].priority_of() as int } else if c == k { p } else if c
                <= idx { children[c - 1].priority_of() as int } else { children[c].priority_of() as int };
            assert(result[a].priority_of() == pa);
            assert(result[c].priority_of() == pc);
            if a < k && c == k {
                assert(children[k - 1].priority_of() >= children[k - 1].priority_of());
                assert(children[a].priority_of() >= children[k - 1].priority_of());
            } else if a == k && c <= idx {
                assert(children[c - 1].priority_of() < p);
            } else if a == k {
                assert(children[idx].priority_of() >= children[c].priority_of());
            } else if a < k && c <= idx {
                assert(children[a].priority_of() >= children[c - 1].priority_of());
            } else if a < k {
                assert(children[a].priority_of() >= children[c].priority_of());
            } else if a <= idx && c <= idx {
                assert(children[a - 1].priority_of() >= children[c - 1].priority_of());
            } else if a <= idx {
                assert(children[a - 1].priority_of() >= children[c].priority_of());
            } else {
                assert(children[a].priority_of() >= children[c].priority_of());
            }
        }
    }
}

/// Where `insert` is given a path that is this node's (non-empty) piece followed by `"/"`,
/// and no child yet begins with `'/'`, `get` finds the new handler at that path.
pub proof fn lemma_get_after_insert<'p, H>(
    before: TreeNode<'p, H>,
    after: TreeNode<'p, H>,
    path: Seq<char>,
    handler: H,
)
    requires
        before.path_of().len() > 0,
        path == before.path_of() + seq!['/'],
        forall|i: int|
            0 <= i < before.children_of().len() ==> !leads_with::<'p, H>('/')(
                #[trigger] before.children_of()[i],
            ),
        inserted(before, after, path, handler),
    ensures
        after.lookup(path) == Some(handler),
{
    let p = before.path_of();
    let slash = seq!['/'];
    crate::text::lemma_bytes_of_concat(p, slash);
    assert(bytes_of(path).subrange(bytes_of(p).len() as int, bytes_of(path).len() as int)
        =~= bytes_of(slash));
    assert(decode_utf8(bytes_of(slash)) == slash);
    assert(is_slash(slash));
    assert(strip_repeated(slash, bytes_of(p).len()) == Some(slash));
    assert(child_piece(before, path) == Some(slash));
    let n = before.children_of().len();
    let kids = after.children_of();
    assert(p.is_prefix_of(path)) by {
        assert(path.take(p.len() as int) =~= p);
    }
    assert(path.skip(p.len() as int) =~= slash);
    assert(!is_slash(path));
    assert forall|j: int| 0 <= j < n implies !leads_with::<'p, H>('/')(#[trigger] kids[j]) by {
        assert(kids[j] == kids.take(n as int)[j]);
    }
    assert(kids[n as int] == kids.last());
    lemma_first_where_found(kids, leads_with::<'p, H>('/'), n as int);
    assert(kids.last().lookup(slash) == Some(handler));
    assert(path.skip(after.path_of().len() as int)[0] == '/');
}

/// `insert` never changes what `get` already found: the node's own handler at
/// `"/"` stays, and a path an earlier child answered keeps its answer.
pub proof fn lemma_insert_keeps_lookups<'p, H>(
    before: TreeNode<'p, H>,
    after: TreeNode<'p, H>,
    inserted_path: Seq<char>,
    handler: H,
    path: Seq<char>,
)
    requires
        inserted(before, after, inserted_path, handler),
        before.lookup(path) is Some,
    ensures
        after.lookup(path) == before.lookup(path),
{
    if !is_slash(path) {
        let rest = path.skip(before.path_of().len() as int);
        let kids = after.children_of();
        let old = before.children_of();
        let lw = leads_with::<'p, H>(rest[0]);
        crate::text::lemma_first_where_valid(old, lw);
        let i = first_where(old, lw)->0;
        assert forall|j: int| 0 <= j < i implies !lw(#[trigger] kids[j]) by {
            assert(kids[j] == kids.take(old.len() as int)[j]);
        }
        assert(kids[i] == kids.take(old.len() as int)[i]);
        lemma_first_where_found(kids, lw, i);
    }
}

/// The cutting `insert` does ends only at an empty string or at exactly `"/"`:
/// a rest that merely begins with `'/'` is cut further.
pub proof fn lemma_strip_ends_empty_or_slash(path: Seq<char>, n: nat)
    ensures
        strip_repeated(path, n) matches Some(q) ==> q.len() == 0 || q == seq!['/'],
    decreases bytes_of(path).len(),
{
    if !(path.len() == 0 || is_slash(path)) && !(n == 0 || n > bytes_of(path).len()
        || !is_char_boundary(bytes_of(path), n as int)) {
        let bytes = bytes_of(path);
        let rest = bytes.subrange(n as int, bytes.len() as int);
        valid_utf8_split(bytes, n as int);
        decode_utf8_encode_utf8(rest);
        lemma_strip_ends_empty_or_slash(decode_utf8(rest), n);
    } else if path.len() > 0 && is_slash(path) {
        assert(path =~= seq!['/']);
    }
}

/// The child that `insert` adds always holds an empty piece or exactly `"/"`.
pub proof fn lemma_child_piece_empty_or_slash<'p, H>(node: TreeNode<'p, H>, path: Seq<char>)
    ensures
        child_piece(node, path) matches Some(q) ==> q.len() == 0 || q == seq!['/'],
{
    let n = bytes_of(node.path_of()).len();
    lemma_strip_ends_empty_or_slash(
        decode_utf8(bytes_of(path).subrange(n as int, bytes_of(path).len() as int)),
        n,
    );
}

/// `get_prefix` gives the same text whichever order its arguments come in.
pub proof fn lemma_get_prefix_symmetric(a: Seq<char>, b: Seq<char>)
    ensures
        a.take(common_prefix_len(a, b) as int) == b.take(common_prefix_len(b, a) as int),
        common_prefix_len(a, b) == common_prefix_len(b, a),
{
    lemma_common_prefix_symmetric(a, b);
    lemma_common_prefix_bounds(a, b);
    assert(a.take(common_prefix_len(a, b) as int) =~= b.take(common_prefix_len(b, a) as int));
}

/// Returns the longest prefix, counted in characters, that `shorter` and
/// `longer` share; it is cut from the shorter string (in bytes).
pub fn get_prefix<'p>(shorter: &'p str, longer: &'p str) -> (r: &'p str)
    ensures
        r@ == shorter@.take(common_prefix_len(shorter@, longer@) as int),
        r@ == longer@.take(common_prefix_len(shorter@, longer@) as int),
        r@.is_prefix_of(shorter@),
        r@.is_prefix_of(longer@),
        r@.len() == shorter@.len() || r@.len() == longer@.len() || shorter@[r@.len() as int]
            != longer@[r@.len() as int],
    decreases
            (if (shorter.spec_bytes().len() as usize) > (longer.spec_bytes().len() as usize) {
                1int
            } else {
                0int
            }),
{
    proof {
        lemma_common_prefix_bounds(shorter@, longer@);
        lemma_common_prefix_symmetric(shorter@, longer@);
    }
    if shorter.len() > longer.len() {
        return get_prefix(longer, shorter);
    }
    let n = shorter.unicode_len();
    let m = longer.unicode_len();
    let mut i: usize = 0;
    while i < n && i < m
        invariant_except_break
            n == shorter@.len(),
            m == longer@.len(),
            i <= n,
            i <= m,
            forall|j: int| 0 <= j < i ==> shorter@[j] == longer@[j],
        ensures
            i <= n,
            i <= m,
            forall|j: int| 0 <= j < i ==> shorter@[j] == longer@[j],
            i == n || i == m || shorter@[i as int] != longer@[i as int],
        decreases n - i,
    {
        if shorter.get_char(i) != longer.get_char(i) {
            break;
        }
        i = i + 1;
    }
    proof {
        lemma_common_prefix_len(shorter@, longer@, i as int);
    }
    let r = shorter.substring_char(0, i);
    assert(r@ =~= longer@.take(i as int));
    assert(r@ =~= shorter@.take(i as int));
    r
}

} // verus!
