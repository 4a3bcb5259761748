//! The order in which resolved mounts are planned: shorter host paths
//! first, so that a directory always comes before what lies in it.

use vstd::prelude::*;
use vstd::utf8::encode_utf8;
use crate::mount::{ResolvedMount, ResolvedMountView};
use crate::pathorder::{compare_paths, path_order};
use crate::paths::lies_under;
use crate::text::views;

verus! {

/// Number of bytes that `s` takes in UTF-8.
pub open spec fn byte_len(s: Seq<char>) -> nat {
    encode_utf8(s).len()
}

/// Whether the path `a` is planned no later than the path `b`: the one of
/// fewer bytes first, and of two paths with the same number of bytes the
/// one that comes first when paths are compared component by component.
pub open spec fn path_le(a: Seq<char>, b: Seq<char>) -> bool {
    byte_len(a) < byte_len(b) || (byte_len(a) == byte_len(b) && path_order(a, b) <= 0)
}

/// A text takes at least one byte for each of its characters.
pub proof fn lemma_byte_len_at_least(s: Seq<char>)
    ensures
        byte_len(s) >= s.len(),
    decreases s.len(),
{
    if s.len() > 0 {
        lemma_byte_len_at_least(s.drop_first());
    }
}

/// A text takes no fewer bytes than a text it begins with, and as many
/// only if the two are the same.
pub proof fn lemma_byte_len_prefix(inner: Seq<char>, outer: Seq<char>)
    requires
        outer.is_prefix_of(inner),
    ensures
        byte_len(outer) <= byte_len(inner),
        byte_len(outer) == byte_len(inner) ==> inner == outer,
    decreases outer.len(),
{
    if outer.len() == 0 {
        lemma_byte_len_at_least(inner);
        if byte_len(inner) == 0 {
            assert(inner =~= outer);
        }
    } else {
        assert(inner[0] == outer[0]);
        let rest_inner = inner.drop_first();
        let rest_outer = outer.drop_first();
        assert(rest_outer.is_prefix_of(rest_inner)) by {
            assert(rest_outer =~= rest_inner.subrange(0, rest_outer.len() as int));
        }
        lemma_byte_len_prefix(rest_inner, rest_outer);
        if byte_len(outer) == byte_len(inner) {
            assert(inner =~= outer);
        }
    }
}

/// What lies under a path takes at least as many bytes, and as many only
/// if it is the path itself.
pub proof fn lemma_lies_under_bytes(inner: Seq<char>, outer: Seq<char>)
    requires
        lies_under(inner, outer),
    ensures
        byte_len(outer) <= byte_len(inner),
        byte_len(outer) == byte_len(inner) ==> inner == outer,
{
    lemma_byte_len_prefix(inner, outer);
}

/// Where `x` goes into the ordered list `s`: behind the last mount that is
/// planned no later than `x`.
pub open spec fn insert_pos(s: Seq<ResolvedMountView>, x: ResolvedMountView) -> int
    decreases s.len(),
{
    if s.len() == 0 {
        0
    } else if path_le(s.last().host, x.host) {
        s.len() as int
    } else {
        insert_pos(s.drop_last(), x)
    }
}

/// The mounts of `s` in planning order: each mount goes behind the last
/// of those before it that is planned no later, so that mounts which the
/// order does not part keep the order they had in `s`.
pub open spec fn sort_spec(s: Seq<ResolvedMountView>) -> Seq<ResolvedMountView>
    decreases s.len(),
{
    if s.len() == 0 {
        Seq::empty()
    } else {
        let before = sort_spec(s.drop_last());
        before.insert(insert_pos(before, s.last()), s.last())
    }
}

/// Whether the host paths of `s` never get shorter, in bytes, from one
/// mount to the next.
pub open spec fn lengths_ascend(s: Seq<ResolvedMountView>) -> bool {
    forall|i: int, j: int| 0 <= i < j < s.len() ==> byte_len(s[i].host) <= byte_len(s[j].host)
}

/// What `insert_pos` says of its neighbours.
pub proof fn lemma_insert_pos(s: Seq<ResolvedMountView>, x: ResolvedMountView)
    ensures
        0 <= insert_pos(s, x) <= s.len(),
        insert_pos(s, x) > 0 ==> path_le(s[insert_pos(s, x) - 1].host, x.host),
        forall|j: int| insert_pos(s, x) <= j < s.len() ==> !path_le(s[j].host, x.host),
    decreases s.len(),
{
    if s.len() == 0 {
    } else if path_le(s.last().host, x.host) {
    } else {
        let t = s.drop_last();
        lemma_insert_pos(t, x);
        let p = insert_pos(t, x);
        if p > 0 {
            assert(s[p - 1] == t[p - 1]);
        }
        assert forall|j: int| p <= j < s.len() implies !path_le(s[j].host, x.host) by {
            if j < t.len() {
                assert(s[j] == t[j]);
            }
        }
    }
}

/// A position that has the neighbours of `insert_pos` is `insert_pos`.
pub proof fn lemma_insert_pos_is(s: Seq<ResolvedMountView>, x: ResolvedMountView, p: int)
    requires
        0 <= p <= s.len(),
        p > 0 ==> path_le(s[p - 1].host, x.host),
        forall|j: int| p <= j < s.len() ==> !path_le(s[j].host, x.host),
    ensures
        insert_pos(s, x) == p,
    decreases s.len(),
{
    if s.len() == 0 {
    } else if p == s.len() {
    } else {
        let t = s.drop_last();
        assert(!path_le(s[s.len() - 1].host, x.host));
        if p > 0 {
            assert(s[p - 1] == t[p - 1]);
        }
        assert forall|j: int| p <= j < t.len() implies !path_le(t[j].host, x.host) by {
            assert(s[j] == t[j]);
        }
        lemma_insert_pos_is(t, x, p);
    }
}

/// Sorting keeps every mount, as often as it occurred, and the host paths
/// of the outcome never get shorter.
pub proof fn lemma_sort_spec(s: Seq<ResolvedMountView>)
    ensures
        sort_spec(s).len() == s.len(),
        sort_spec(s).to_multiset() == s.to_multiset(),
        lengths_ascend(sort_spec(s)),
    decreases s.len(),
{
    broadcast use vstd::seq_lib::group_to_multiset_ensures;

    if s.len() == 0 {
        assert(sort_spec(s) =~= s);
    } else {
        let t = s.drop_last();
        let x = s.last();
        lemma_sort_spec(t);
        let before = sort_spec(t);
        let p = insert_pos(before, x);
        lemma_insert_pos(before, x);
        let after = before.insert(p, x);
        assert(s =~= t.push(x));
        assert(after.to_multiset() =~= before.to_multiset().insert(x));
        assert(s.to_multiset() =~= t.to_multiset().insert(x));
        assert forall|i: int, j: int| 0 <= i < j < after.len() implies byte_len(after[i].host)
            <= byte_len(after[j].host) by {
            if j < p {
                assert(after[i] == before[i] && after[j] == before[j]);
            } else if j == p {
                assert(after[i] == before[i]);
                assert(byte_len(before[i].host) <= byte_len(before[p - 1].host));
            } else if i < p {
                assert(after[i] == before[i] && after[j] == before[j - 1]);
                if i < j - 1 {
                } else {
                }
            } else if i == p {
                assert(after[j] == before[j - 1]);
                assert(!path_le(before[j - 1].host, x.host));
            } else {
                assert(after[i] == before[i - 1] && after[j] == before[j - 1]);
            }
        }
    }
}

/// Whether the path `a` is planned no later than the path `b`.
pub fn path_no_later(a: &str, b: &str) -> (r: bool)
    ensures
        r == path_le(a@, b@),
{
    let n: usize = a.as_bytes().len();
    let m: usize = b.as_bytes().len();
    if n != m {
        n < m
    } else {
        compare_paths(a, b) <= 0
    }
}

/// Puts `mounts` into planning order: by the length of the host path in
/// bytes, then by the order of paths; of mounts that this does not part,
/// the one that came first stays first.
pub fn sort_by_host(mounts: Vec<ResolvedMount>) -> (r: Vec<ResolvedMount>)
    ensures
        views(r@) == sort_spec(views(mounts@)),
{
    let mut out: Vec<ResolvedMount> = Vec::new();
    let mut input = mounts;
    let ghost all = views(mounts@);
    let mut i: usize = 0;
    let n: usize = input.len();
    proof {
        assert(all.take(0) =~= Seq::<ResolvedMountView>::empty());
        assert(views(out@) =~= Seq::<ResolvedMountView>::empty());
    }
    while i < n
        invariant
            i <= n,
            n == input.len(),
            views(input@) == all,
            views(out@) == sort_spec(all.take(i as int)),
        decreases n - i,
    {
        let x = input[i].duplicate();
        let ghost before = views(out@);
        let mut p: usize = out.len();
        while p > 0 && !path_no_later(out[p - 1].host.as_str(), x.host.as_str())
            invariant
                p <= out.len(),
                before == views(out@),
                forall|j: int| p <= j < out.len() ==> !path_le(before[j].host, x@.host),
            decreases p,
        {
            p -= 1;
        }
        proof {
            lemma_insert_pos_is(before, x@, p as int);
            assert(all.take(i + 1).drop_last() =~= all.take(i as int));
            assert(all.take(i + 1).last() == x@);
        }
        out.insert(p, x);
        proof {
            assert(views(out@) =~= before.insert(p as int, x@));
        }
        i += 1;
    }
    proof {
        assert(all.take(n as int) =~= all);
    }
    out
}

} // verus!
