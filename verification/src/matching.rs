//! Matching a registered route path against a request path, component by
//! component, and the first-match rule that the route lists follow.

use vstd::prelude::*;
use itertools::{EitherOrBoth, Itertools};
use crate::paths::{components, lemma_append_component, path_components, views};
use crate::text::{first_where, lemma_first_where_found, lemma_first_where_none};

verus! {

/// One step of walking two lists side by side until both end.
pub enum Paired {
    Both(String, String),
    Left(String),
    Right(String),
}

/// The view of a `Paired`.
pub enum PairedView {
    Both(Seq<char>, Seq<char>),
    Left(Seq<char>),
    Right(Seq<char>),
}

impl View for Paired {
    type V = PairedView;

    open spec fn view(&self) -> PairedView {
        match self {
            Paired::Both(a, b) => PairedView::Both(a@, b@),
            Paired::Left(a) => PairedView::Left(a@),
            Paired::Right(b) => PairedView::Right(b@),
        }
    }
}

/// The steps `zip_longest` yields: both elements while both lists last, then
/// the rest of the longer one.
pub open spec fn zip_longest_steps(a: Seq<Seq<char>>, b: Seq<Seq<char>>) -> Seq<PairedView> {
    Seq::new(
        if a.len() >= b.len() { a.len() } else { b.len() },
        |i: int|
            if i < a.len() && i < b.len() {
                PairedView::Both(a[i], b[i])
            } else if i < a.len() {
                PairedView::Left(a[i])
            } else {
                PairedView::Right(b[i])
            },
    )
}

/// `Itertools::zip_longest` over the two lists, each `EitherOrBoth` turned
/// into a `Paired`. Its contract claims what the iterator's `next` shows:
/// `Both` while both sides yield, then `Left` or `Right` for the longer side.
#[verifier::external_body]
fn zip_longest(a: Vec<String>, b: Vec<String>) -> (r: Vec<Paired>)
    ensures
        r@.len() == zip_longest_steps(views(a@), views(b@)).len(),
        forall|i: int| 0 <= i < r@.len() ==> #[trigger] r@[i]@ == zip_longest_steps(
            views(a@),
            views(b@),
        )[i],
{
    a.into_iter().zip_longest(b).map(|e| match e {
        EitherOrBoth::Both(x, y) => Paired::Both(x, y),
        EitherOrBoth::Left(x) => Paired::Left(x),
        EitherOrBoth::Right(y) => Paired::Right(y),
    }).collect()
}

/// Two component lists match when walking them side by side never finds a
/// missing or a differing component: exactly when they are equal.
pub fn components_match(path: Vec<String>, target: Vec<String>) -> (r: bool)
    ensures
        r == (views(path@) == views(target@)),
{
    let ghost a = views(path@);
    let ghost b = views(target@);
    let pairs = zip_longest(path, target);
    let mut i: usize = 0;
    while i < pairs.len()
        invariant
            a == views(path@),
            b == views(target@),
            pairs@.len() == zip_longest_steps(a, b).len(),
            forall|k: int| 0 <= k < pairs@.len() ==> #[trigger] pairs@[k]@ == zip_longest_steps(a, b)[k],
            i <= pairs@.len(),
            forall|k: int| 0 <= k < i ==> k < a.len() && k < b.len() && a[k] == b[k],
        decreases pairs@.len() - i,
    {
        let ghost step = zip_longest_steps(a, b)[i as int];
        assert(pairs@[i as int]@ == step);
        match &pairs[i] {
            Paired::Both(p, t) => {
                assert(step == PairedView::Both(p@, t@));
                assert(i < a.len() && i < b.len());
                assert(a[i as int] == p@ && b[i as int] == t@);
                if !(*p == *t) {
                    assert(a[i as int] != b[i as int]);
                    return false;
                }
            },
            _ => {
                assert(pairs@[i as int]@ == zip_longest_steps(a, b)[i as int]);
                assert(!(i < a.len() && i < b.len()));
                assert(a.len() != b.len());
                return false;
            },
        }
        i = i + 1;
    }
    if i > 0 {
        assert(a[i - 1] == b[i - 1]);
    }
    assert(a.len() == b.len());
    assert(a =~= b);
    true
}

/// A stored route path matches a request path when their components are equal.
pub open spec fn path_matches(stored: Seq<char>, target: Seq<char>) -> bool {
    path_components(stored) == path_components(target)
}

/// `path_matches` for a stored path and a request path given as strings.
pub fn matches_path(stored: &str, target: &str) -> (r: bool)
    ensures
        r == path_matches(stored@, target@),
{
    let path = components(stored);
    let target = components(target);
    components_match(path, target)
}

/// The test that picks, in a route list, an entry whose path matches `target`.
pub open spec fn entry_matches<H>(target: Seq<char>) -> spec_fn((Seq<char>, H)) -> bool {
    |e: (Seq<char>, H)| path_matches(e.0, target)
}

/// The handler of the first registered entry whose path matches `target`.
pub open spec fn first_match<H>(entries: Seq<(Seq<char>, H)>, target: Seq<char>) -> Option<H> {
    match first_where(entries, entry_matches::<H>(target)) {
        Some(i) => if 0 <= i < entries.len() {
            Some(entries[i].1)
        } else {
            None
        },
        None => None,
    }
}

/// Adding an entry at the end never changes a match that was already found.
pub proof fn lemma_first_match_push<H>(
    entries: Seq<(Seq<char>, H)>,
    entry: (Seq<char>, H),
    target: Seq<char>,
)
    ensures
        first_match(entries.push(entry), target) == (match first_match(entries, target) {
            Some(h) => Some(h),
            None => if path_matches(entry.0, target) {
                Some(entry.1)
            } else {
                None
            },
        }),
{
    let p = entry_matches::<H>(target);
    let s = entries.push(entry);
    crate::text::lemma_first_where_valid(entries, p);
    match first_where(entries, p) {
        Some(i) => {
            assert forall|j: int| 0 <= j < i implies !p(#[trigger] s[j]) by {
                assert(s[j] == entries[j]);
            }
            assert(s[i] == entries[i]);
            lemma_first_where_found(s, p, i);
        },
        None => {
            assert forall|j: int| 0 <= j < entries.len() implies !p(#[trigger] s[j]) by {
                assert(s[j] == entries[j]);
            }
            if p(entry) {
                assert(s[entries.len() as int] == entry);
                lemma_first_where_found(s, p, entries.len() as int);
            } else {
                lemma_first_where_none(s, p);
            }
        },
    }
}

/// Two paths that end in different segments never match, however deep they
/// are: the last components are compared like every other.
pub proof fn lemma_last_segments_must_agree(
    p: Seq<char>,
    a: Seq<char>,
    q: Seq<char>,
    b: Seq<char>,
)
    requires
        p.len() > 0,
        q.len() > 0,
        a.len() > 0,
        b.len() > 0,
        a != seq!['.'],
        b != seq!['.'],
        forall|j: int| 0 <= j < a.len() ==> a[j] != '/',
        forall|j: int| 0 <= j < b.len() ==> b[j] != '/',
        a != b,
    ensures
        !path_matches(p + seq!['/'] + a, q + seq!['/'] + b),
{
    lemma_append_component(p, a);
    lemma_append_component(q, b);
    let ca = path_components(p).push(a);
    let cb = path_components(q).push(b);
    if ca == cb {
        assert(ca[ca.len() - 1] == cb[cb.len() - 1]);
    }
}

} // verus!
