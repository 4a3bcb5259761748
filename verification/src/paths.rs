//! Paths as character sequences: joining, parents, and what lies under what.
//!
//! The paths meant here are Unix paths in the form that canonicalization
//! gives them: `/` between components and none at the end but for the root.

use vstd::prelude::*;
use crate::text::{char_len, concat, concat3, ends_with_char, has_prefix, last_pos, lemma_last_pos};
use crate::text::{rfind_char, skip_chars, starts_with_char, take_chars};

verus! {

/// Whether `path` begins at the root.
pub open spec fn is_absolute(path: Seq<char>) -> bool {
    path.len() > 0 && path[0] == '/'
}

/// `rel` appended to `base` as a further component. An absolute `rel`
/// replaces `base`, and an empty `base` leaves `rel` alone.
pub open spec fn join_path(base: Seq<char>, rel: Seq<char>) -> Seq<char> {
    if is_absolute(rel) || base.len() == 0 {
        rel
    } else if base.last() == '/' {
        base + rel
    } else {
        base + "/"@ + rel
    }
}

/// The directory that holds `path`: what stands before its last `/`, the
/// root itself where that `/` is the first character, and `None` where
/// `path` holds no `/`.
pub open spec fn parent_dir(path: Seq<char>) -> Option<Seq<char>> {
    let cut = last_pos(path, '/');
    if cut < 0 {
        None
    } else if cut == 0 {
        Some("/"@)
    } else {
        Some(path.take(cut))
    }
}

/// Where the symlink at `link` points, given the target text stored in it:
/// an absolute target as it is, a relative one below the link's directory.
pub open spec fn link_destination(link: Seq<char>, target: Seq<char>) -> Seq<char> {
    if is_absolute(target) {
        target
    } else {
        match parent_dir(link) {
            Some(dir) => join_path(dir, target),
            None => target,
        }
    }
}

/// Whether `inner` is `outer` itself or lies below it: `outer` is a prefix
/// of `inner` that ends at a component boundary.
pub open spec fn lies_under(inner: Seq<char>, outer: Seq<char>) -> bool {
    outer.is_prefix_of(inner) && (inner.len() == outer.len() || (outer.len() > 0 && outer.last()
        == '/') || inner[outer.len() as int] == '/')
}

/// What is left of `full` below `base`, without the `/` that parts them.
/// `None` where `full` does not lie under `base`.
pub open spec fn relative_to(base: Seq<char>, full: Seq<char>) -> Option<Seq<char>> {
    if !lies_under(full, base) {
        None
    } else if full.len() > base.len() && full[base.len() as int] == '/' {
        Some(full.skip(base.len() as int + 1))
    } else {
        Some(full.skip(base.len() as int))
    }
}

/// A path lies under itself.
pub proof fn lemma_lies_under_reflexive(path: Seq<char>)
    ensures
        lies_under(path, path),
{
    assert(path.is_prefix_of(path));
}

/// What lies under a path is at least as long, and as long only if equal.
pub proof fn lemma_lies_under_length(inner: Seq<char>, outer: Seq<char>)
    requires
        lies_under(inner, outer),
    ensures
        outer.len() <= inner.len(),
        outer.len() == inner.len() ==> inner == outer,
{
    if outer.len() == inner.len() {
        assert(inner =~= outer);
    }
}

/// Lying under is transitive.
pub proof fn lemma_lies_under_transitive(a: Seq<char>, b: Seq<char>, c: Seq<char>)
    requires
        lies_under(a, b),
        lies_under(b, c),
    ensures
        lies_under(a, c),
{
    assert(c.is_prefix_of(a)) by {
        assert forall|i: int| 0 <= i < c.len() implies c[i] == a[i] by {
            assert(c[i] == b[i]);
            assert(b[i] == a[i]);
        }
        assert(c =~= a.subrange(0, c.len() as int));
    }
    if a.len() == c.len() {
    } else if c.len() > 0 && c.last() == '/' {
    } else if b.len() == c.len() {
        assert(b =~= c);
    } else {
        assert(b[c.len() as int] == '/');
        assert(a[c.len() as int] == b[c.len() as int]);
    }
}

/// A child path, written as parent, `/` and a name, lies under the parent.
pub proof fn lemma_child_lies_under(parent: Seq<char>, name: Seq<char>)
    ensures
        lies_under(parent + "/"@ + name, parent),
{
    reveal_strlit("/");
    let child = parent + "/"@ + name;
    assert(parent =~= child.subrange(0, parent.len() as int));
    assert(child[parent.len() as int] == '/');
}

/// Whether `path` begins at the root.
pub fn path_is_absolute(path: &str) -> (r: bool)
    ensures
        r == is_absolute(path@),
{
    starts_with_char(path, '/')
}

/// Appends `rel` to `base` as a further component.
pub fn join(base: &str, rel: &str) -> (r: String)
    ensures
        r@ == join_path(base@, rel@),
{
    if starts_with_char(rel, '/') || char_len(base) == 0 {
        rel.to_owned()
    } else if ends_with_char(base, '/') {
        concat(base, rel)
    } else {
        concat3(base, "/", rel)
    }
}

/// The directory that holds `path`, if `path` names one.
pub fn parent(path: &str) -> (r: Option<String>)
    ensures
        crate::text::opt_view(r) == parent_dir(path@),
{
    proof {
        lemma_last_pos(path@, '/');
    }
    match rfind_char(path, '/') {
        None => None,
        Some(cut) => if cut == 0 {
            Some("/".to_owned())
        } else {
            Some(take_chars(path, cut))
        },
    }
}

/// Where a symlink at `link` with the stored target `target` points.
pub fn resolve_link(link: &str, target: &str) -> (r: String)
    ensures
        r@ == link_destination(link@, target@),
{
    if starts_with_char(target, '/') {
        target.to_owned()
    } else {
        match parent(link) {
            Some(dir) => join(dir.as_str(), target),
            None => target.to_owned(),
        }
    }
}

/// Whether `inner` is `outer` or lies below it.
pub fn is_under(inner: &str, outer: &str) -> (r: bool)
    ensures
        r == lies_under(inner@, outer@),
{
    if !has_prefix(inner, outer) {
        return false;
    }
    let n: usize = char_len(inner);
    let m: usize = char_len(outer);
    if n == m || ends_with_char(outer, '/') {
        return true;
    }
    inner.get_char(m) == '/'
}

/// What is left of `full` below `base`; `None` where `full` is not under it.
pub fn strip_base(base: &str, full: &str) -> (r: Option<String>)
    ensures
        crate::text::opt_view(r) == relative_to(base@, full@),
{
    if !is_under(full, base) {
        return None;
    }
    let n: usize = char_len(full);
    let m: usize = char_len(base);
    if n > m && full.get_char(m) == '/' {
        Some(skip_chars(full, m + 1))
    } else {
        Some(skip_chars(full, m))
    }
}

} // verus!
