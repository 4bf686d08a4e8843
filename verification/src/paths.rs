//! Unix path rules: how a path splits into components, what its file name
//! and extension are, and how one path is pushed onto another.

use vstd::prelude::*;
use vstd::string::*;
use crate::text::{first_where, lemma_first_where_found, lemma_first_where_none, lemma_first_where_valid};

verus! {

/// The separator test used to split a path.
pub open spec fn is_sep() -> spec_fn(char) -> bool {
    |c: char| c == '/'
}

/// A piece between separators counts as a component unless it is empty or `"."`.
pub open spec fn keep_part(seg: Seq<char>) -> Seq<Seq<char>> {
    if seg.len() == 0 || seg == seq!['.'] {
        seq![]
    } else {
        seq![seg]
    }
}

/// The pieces between separators of `s`, less the empty ones and the `"."` ones.
pub open spec fn normal_parts(s: Seq<char>) -> Seq<Seq<char>>
    decreases s.len(),
{
    match first_where(s, is_sep()) {
        Some(i) => if 0 <= i < s.len() {
            keep_part(s.take(i)) + normal_parts(s.skip(i + 1))
        } else {
            seq![]
        },
        None => keep_part(s),
    }
}

/// A path that is `"."` or begins with `"./"` keeps a leading current-directory component.
pub open spec fn leads_with_cur_dir(s: Seq<char>) -> bool {
    s.len() > 0 && s[0] == '.' && (s.len() == 1 || s[1] == '/')
}

/// The components of a path as `Path::iter` yields them on Unix: the root
/// `"/"` when the path is absolute, a leading `"."` for `"."` and `"./…"`, then
/// every piece between separators that is neither empty nor `"."`.
pub open spec fn path_components(s: Seq<char>) -> Seq<Seq<char>> {
    (if s.len() > 0 && s[0] == '/' {
        seq![seq!['/']]
    } else {
        seq![]
    }) + (if leads_with_cur_dir(s) {
        seq![seq!['.']]
    } else {
        seq![]
    }) + normal_parts(s)
}

proof fn lemma_normal_parts_trailing_slash(s: Seq<char>)
    ensures
        normal_parts(s + seq!['/']) == normal_parts(s),
    decreases s.len(),
{
    let t = s + seq!['/'];
    lemma_first_where_valid(s, is_sep());
    match first_where(s, is_sep()) {
        Some(i) => {
            assert forall|j: int| 0 <= j < i implies !is_sep()(#[trigger] t[j]) by {
                assert(t[j] == s[j]);
            }
            assert(t[i] == s[i]);
            lemma_first_where_found(t, is_sep(), i);
            assert(t.take(i) =~= s.take(i));
            assert(t.skip(i + 1) =~= s.skip(i + 1) + seq!['/']);
            lemma_normal_parts_trailing_slash(s.skip(i + 1));
        },
        None => {
            assert forall|j: int| 0 <= j < s.len() implies !is_sep()(#[trigger] t[j]) by {
                assert(t[j] == s[j]);
            }
            lemma_first_where_found(t, is_sep(), s.len() as int);
            assert(t.take(s.len() as int) =~= s);
            assert(t.skip(s.len() as int + 1) =~= Seq::<char>::empty());
            let e = Seq::<char>::empty();
            lemma_first_where_none(e, is_sep());
            assert(normal_parts(e) =~= Seq::<Seq<char>>::empty());
            assert(keep_part(s) + Seq::<Seq<char>>::empty() =~= keep_part(s));
        },
    }
}

/// A trailing separator does not change the components of a non-empty path,
/// so `"/todos/"` routes like `"/todos"`.
pub proof fn lemma_trailing_slash(s: Seq<char>)
    requires
        s.len() > 0,
    ensures
        path_components(s + seq!['/']) == path_components(s),
{
    let t = s + seq!['/'];
    assert(t[0] == s[0]);
    if s.len() > 1 {
        assert(t[1] == s[1]);
    } else {
        assert(t[1] == '/');
    }
    lemma_normal_parts_trailing_slash(s);
}

proof fn lemma_normal_parts_join(p: Seq<char>, q: Seq<char>)
    ensures
        normal_parts(p + seq!['/'] + q) == normal_parts(p) + normal_parts(q),
    decreases p.len(),
{
    let t = p + seq!['/'] + q;
    lemma_first_where_valid(p, is_sep());
    match first_where(p, is_sep()) {
        Some(i) => {
            assert forall|j: int| 0 <= j < i implies !is_sep()(#[trigger] t[j]) by {
                assert(t[j] == p[j]);
            }
            assert(t[i] == p[i]);
            lemma_first_where_found(t, is_sep(), i);
            assert(t.take(i) =~= p.take(i));
            assert(t.skip(i + 1) =~= p.skip(i + 1) + seq!['/'] + q);
            lemma_normal_parts_join(p.skip(i + 1), q);
            assert(normal_parts(t) =~= normal_parts(p) + normal_parts(q));
        },
        None => {
            assert forall|j: int| 0 <= j < p.len() implies !is_sep()(#[trigger] t[j]) by {
                assert(t[j] == p[j]);
            }
            assert(t[p.len() as int] == '/');
            lemma_first_where_found(t, is_sep(), p.len() as int);
            assert(t.take(p.len() as int) =~= p);
            assert(t.skip(p.len() as int + 1) =~= q);
        },
    }
}

/// Appending a separator and a segment that is neither empty nor `"."` (and
/// holds no separator) to a non-empty path appends exactly that segment to its
/// components: every component counts, however many there are.
pub proof fn lemma_append_component(p: Seq<char>, seg: Seq<char>)
    requires
        p.len() > 0,
        seg.len() > 0,
        seg != seq!['.'],
        forall|j: int| 0 <= j < seg.len() ==> seg[j] != '/',
    ensures
        path_components(p + seq!['/'] + seg) == path_components(p).push(seg),
{
    let t = p + seq!['/'] + seg;
    assert(t[0] == p[0]);
    if p.len() > 1 {
        assert(t[1] == p[1]);
    } else {
        assert(t[1] == '/');
    }
    lemma_normal_parts_join(p, seg);
    assert forall|j: int| 0 <= j < seg.len() implies !is_sep()(#[trigger] seg[j]) by {}
    lemma_first_where_none(seg, is_sep());
    assert(normal_parts(seg) == seq![seg]);
    assert(path_components(t) =~= path_components(p).push(seg));
}

/// The views of a vector of strings.
pub open spec fn views(v: Seq<String>) -> Seq<Seq<char>> {
    v.map_values(|s: String| s@)
}

proof fn lemma_normal_parts_step(s: Seq<char>, start: int, i: int)
    requires
        0 <= start <= i < s.len(),
        s[i] == '/',
        forall|j: int| start <= j < i ==> s[j] != '/',
    ensures
        normal_parts(s.skip(start)) == keep_part(s.subrange(start, i)) + normal_parts(
            s.skip(i + 1),
        ),
{
    let t = s.skip(start);
    assert forall|j: int| 0 <= j < i - start implies !is_sep()(#[trigger] t[j]) by {
        assert(t[j] == s[start + j]);
    }
    assert(t[i - start] == s[i]);
    lemma_first_where_found(t, is_sep(), i - start);
    assert(t.take(i - start) =~= s.subrange(start, i));
    assert(t.skip(i - start + 1) =~= s.skip(i + 1));
}

proof fn lemma_normal_parts_last(s: Seq<char>, start: int)
    requires
        0 <= start <= s.len(),
        forall|j: int| start <= j < s.len() ==> s[j] != '/',
    ensures
        normal_parts(s.skip(start)) == keep_part(s.skip(start)),
{
    let t = s.skip(start);
    assert forall|j: int| 0 <= j < t.len() implies !is_sep()(#[trigger] t[j]) by {
        assert(t[j] == s[start + j]);
    }
    lemma_first_where_none(t, is_sep());
}

/// The string `"/"`.
fn root_string() -> (r: String)
    ensures
        r@ == seq!['/'],
{
    proof {
        reveal_strlit("/");
    }
    String::from_str("/")
}

/// The string `"."`.
fn cur_dir_string() -> (r: String)
    ensures
        r@ == seq!['.'],
{
    proof {
        reveal_strlit(".");
    }
    String::from_str(".")
}

/// Appends `seg` to `out` when it counts as a component (see `keep_part`).
fn push_part(out: &mut Vec<String>, seg: &str)
    ensures
        views(final(out)@) == views(old(out)@) + keep_part(seg@),
{
    let n = seg.unicode_len();
    if n == 0 || (n == 1 && seg.get_char(0) == '.') {
        proof {
            if n == 1 {
                assert(seg@ =~= seq!['.']);
            }
        }
        assert(views(out@) =~= views(old(out)@) + keep_part(seg@));
    } else {
        out.push(seg.to_owned());
        assert(views(out@) =~= views(old(out)@) + keep_part(seg@));
    }
}

/// The components of `path` (`Path::new(path).iter()`), as strings.
pub fn components(path: &str) -> (r: Vec<String>)
    ensures
        views(r@) == path_components(path@),
{
    let n = path.unicode_len();
    let mut out: Vec<String> = Vec::new();
    if n > 0 && path.get_char(0) == '/' {
        out.push(root_string());
    }
    if n > 0 && path.get_char(0) == '.' && (n == 1 || path.get_char(1) == '/') {
        out.push(cur_dir_string());
    }
    let ghost head = views(out@);
    assert(head =~= (if path@.len() > 0 && path@[0] == '/' {
        seq![seq!['/']]
    } else {
        seq![]
    }) + (if leads_with_cur_dir(path@) {
        seq![seq!['.']]
    } else {
        seq![]
    }));
    assert(path@.skip(0) =~= path@);
    let mut start: usize = 0;
    let mut i: usize = 0;
    while i < n
        invariant
            n == path@.len(),
            start <= i <= n,
            forall|j: int| start <= j < i ==> path@[j] != '/',
            head + normal_parts(path@) == views(out@) + normal_parts(path@.skip(start as int)),
            head == (if path@.len() > 0 && path@[0] == '/' {
                seq![seq!['/']]
            } else {
                seq![]
            }) + (if leads_with_cur_dir(path@) {
                seq![seq!['.']]
            } else {
                seq![]
            }),
        decreases n - i,
    {
        if path.get_char(i) == '/' {
            proof {
                lemma_normal_parts_step(path@, start as int, i as int);
            }
            push_part(&mut out, path.substring_char(start, i));
            start = i + 1;
        }
        i = i + 1;
    }
    proof {
        lemma_normal_parts_last(path@, start as int);
    }
    let seg = path.substring_char(start, n);
    assert(seg@ =~= path@.skip(start as int));
    push_part(&mut out, seg);
    out
}

/// A component that names a file or directory (not the root, `"."` or `".."`).
pub open spec fn is_normal(c: Seq<char>) -> bool {
    c != seq!['/'] && c != seq!['.'] && c != seq!['.', '.']
}

/// The final component of a path when it is a normal one (`Path::file_name`).
pub open spec fn file_name(s: Seq<char>) -> Option<Seq<char>> {
    let c = path_components(s);
    if c.len() > 0 && is_normal(c.last()) {
        Some(c.last())
    } else {
        None
    }
}

/// The index of the last `'.'` in `f`, if any.
pub open spec fn last_dot(f: Seq<char>) -> Option<int>
    decreases f.len(),
{
    if f.len() == 0 {
        None
    } else if f.last() == '.' {
        Some(f.len() - 1)
    } else {
        last_dot(f.drop_last())
    }
}

/// The extension of a file name: what follows its last `'.'`, unless it has
/// none or that dot is its first character.
pub open spec fn name_extension(f: Seq<char>) -> Option<Seq<char>> {
    match last_dot(f) {
        Some(k) => if k > 0 {
            Some(f.skip(k + 1))
        } else {
            None
        },
        None => None,
    }
}

/// The extension of a path (`Path::extension`).
pub open spec fn path_extension(s: Seq<char>) -> Option<Seq<char>> {
    match file_name(s) {
        Some(f) => name_extension(f),
        None => None,
    }
}

proof fn lemma_last_dot(f: Seq<char>, k: int)
    requires
        0 <= k < f.len(),
        f[k] == '.',
        forall|j: int| k < j < f.len() ==> f[j] != '.',
    ensures
        last_dot(f) == Some(k),
    decreases f.len(),
{
    if k < f.len() - 1 {
        lemma_last_dot(f.drop_last(), k);
    }
}

proof fn lemma_no_dot(f: Seq<char>)
    requires
        forall|j: int| 0 <= j < f.len() ==> f[j] != '.',
    ensures
        last_dot(f) is None,
    decreases f.len(),
{
    if f.len() > 0 {
        lemma_no_dot(f.drop_last());
    }
}

/// The extension of `path` (`Path::new(path).extension()`).
pub fn extension(path: &str) -> (r: Option<String>)
    ensures
        match r {
            Some(e) => path_extension(path@) == Some(e@),
            None => path_extension(path@) is None,
        },
{
    let comps = components(path);
    let n = comps.len();
    if n == 0 {
        return None;
    }
    let last = comps[n - 1].as_str();
    assert(views(comps@).last() == last@);
    let m = last.unicode_len();
    let is_root = m == 1 && last.get_char(0) == '/';
    let is_cur = m == 1 && last.get_char(0) == '.';
    let is_parent = m == 2 && last.get_char(0) == '.' && last.get_char(1) == '.';
    proof {
        if m == 1 {
            assert(last@ == seq![last@[0]]);
        }
        if m == 2 {
            assert(last@ == seq![last@[0], last@[1]]);
        }
    }
    if is_root || is_cur || is_parent {
        assert(file_name(path@) is None);
        return None;
    }
    assert(file_name(path@) == Some(last@));
    let mut k: usize = m;
    while k > 0
        invariant
            file_name(path@) == Some(last@),
            k <= m,
            m == last@.len(),
            forall|j: int| k <= j < m ==> last@[j] != '.',
        decreases k,
    {
        if last.get_char(k - 1) == '.' {
            proof {
                lemma_last_dot(last@, k - 1);
            }
            if k - 1 > 0 {
                let ext = last.substring_char(k, m);
                assert(ext@ =~= last@.skip(k as int));
                return Some(ext.to_owned());
            } else {
                return None;
            }
        }
        k = k - 1;
    }
    proof {
        lemma_no_dot(last@);
    }
    None
}

/// The path made by pushing `rel` onto `base` (`PathBuf::push`): an absolute
/// `rel` replaces `base`; otherwise it is appended, with a separator when
/// `base` is not empty and does not end in one.
pub open spec fn push_path(base: Seq<char>, rel: Seq<char>) -> Seq<char> {
    if rel.len() > 0 && rel[0] == '/' {
        rel
    } else if base.len() > 0 && base.last() != '/' {
        base + seq!['/'] + rel
    } else {
        base + rel
    }
}

/// Pushes `rel` onto `base` as `PathBuf::push` does.
pub fn push_path_string(base: String, rel: &str) -> (r: String)
    ensures
        r@ == push_path(base@, rel@),
{
    let n = base.as_str().unicode_len();
    if rel.unicode_len() > 0 && rel.get_char(0) == '/' {
        return rel.to_owned();
    }
    if n > 0 && base.as_str().get_char(n - 1) != '/' {
        proof {
            reveal_strlit("/");
        }
        let with_sep = base.concat("/");
        with_sep.concat(rel)
    } else {
        base.concat(rel)
    }
}

} // verus!
