//! What holds of every walk along a chain of symlinks.

use vstd::prelude::*;
use crate::mount::{resolve_paths_spec, MountErrorView, MountView, ResolvedMountView};
use crate::paths::link_destination;
use crate::resolve::{bind_of, resolved_mounts_spec, symlink_chain};
use crate::snapshot::{lookup, PathFactsView};

verus! {

/// Where the link at index `i` of `links` leads: to the next link, and
/// the last one to `end`.
pub open spec fn next_on_chain(links: Seq<Seq<char>>, end: Seq<char>, i: int) -> Seq<char> {
    if i + 1 < links.len() {
        links[i + 1]
    } else {
        end
    }
}

/// Whether `links` is a chain of symlinks that ends in `end`: each path of
/// `links` is known as a symlink that can be resolved and leads to the next,
/// and `end` is known as a path that exists and is no symlink.
pub open spec fn is_link_chain(fs: Seq<PathFactsView>, links: Seq<Seq<char>>, end: Seq<char>) -> bool {
    &&& forall|i: int|
        0 <= i < links.len() ==> match lookup(fs, #[trigger] links[i]) {
            Some(facts) => facts.canonical is Some && facts.link_target is Some
                && link_destination(links[i], facts.link_target->Some_0) == next_on_chain(
                links,
                end,
                i,
            ),
            None => false,
        }
    &&& match lookup(fs, end) {
        Some(facts) => facts.canonical is Some && facts.link_target is None,
        None => false,
    }
}

/// The binds of a chain: one for each link, under the link's own path, and
/// one for the canonical path of what the chain ends in.
pub open spec fn chain_binds(
    m: MountView,
    fs: Seq<PathFactsView>,
    links: Seq<Seq<char>>,
    end: Seq<char>,
    host_home: Seq<char>,
    container_home: Seq<char>,
) -> Seq<ResolvedMountView> {
    Seq::new(links.len(), |i: int| bind_of(m, links[i], host_home, container_home)).push(
        bind_of(m, lookup(fs, end)->Some_0.canonical->Some_0, host_home, container_home),
    )
}

/// The path at which a chain begins.
pub open spec fn chain_start(links: Seq<Seq<char>>, end: Seq<char>) -> Seq<char> {
    next_on_chain(links, end, -1)
}

/// Symlink chain completeness. A walk that may follow as many links as
/// the chain has binds every link of the chain and the target it ends in,
/// in this order, each with the mode of the mount, and nothing else.
pub proof fn lemma_chain_complete(
    m: MountView,
    fs: Seq<PathFactsView>,
    links: Seq<Seq<char>>,
    end: Seq<char>,
    host_home: Seq<char>,
    container_home: Seq<char>,
    budget: nat,
)
    requires
        is_link_chain(fs, links, end),
        links.len() <= budget,
    ensures
        symlink_chain(m, fs, chain_start(links, end), host_home, container_home, budget) == Ok::<
            Seq<ResolvedMountView>,
            MountErrorView,
        >(chain_binds(m, fs, links, end, host_home, container_home)),
        chain_binds(m, fs, links, end, host_home, container_home).len() == links.len() + 1,
        forall|i: int|
            0 <= i <= links.len() ==> (#[trigger] chain_binds(
                m,
                fs,
                links,
                end,
                host_home,
                container_home,
            )[i]).mode == m.mode,
    decreases links.len(),
{
    let all = chain_binds(m, fs, links, end, host_home, container_home);
    if links.len() == 0 {
        assert(all =~= seq![
            bind_of(m, lookup(fs, end)->Some_0.canonical->Some_0, host_home, container_home),
        ]);
    } else {
        let rest = links.drop_first();
        assert forall|i: int| 0 <= i < rest.len() implies match lookup(fs, #[trigger] rest[i]) {
            Some(facts) => facts.canonical is Some && facts.link_target is Some
                && link_destination(rest[i], facts.link_target->Some_0) == next_on_chain(
                rest,
                end,
                i,
            ),
            None => false,
        } by {
            assert(rest[i] == links[i + 1]);
            assert(next_on_chain(rest, end, i) == next_on_chain(links, end, i + 1));
        }
        lemma_chain_complete(m, fs, rest, end, host_home, container_home, (budget - 1) as nat);
        let first = links[0];
        let facts = lookup(fs, first)->Some_0;
        assert(link_destination(first, facts.link_target->Some_0) == chain_start(rest, end));
        assert(all =~= seq![bind_of(m, first, host_home, container_home)] + chain_binds(
            m,
            fs,
            rest,
            end,
            host_home,
            container_home,
        ));
    }
}

/// The paths of the entries of `fs`, in order.
pub open spec fn recorded_paths(fs: Seq<PathFactsView>) -> Seq<Seq<char>> {
    Seq::new(fs.len(), |i: int| fs[i].path)
}

/// A path that `fs` knows is the path of one of its entries.
pub proof fn lemma_lookup_is_recorded(fs: Seq<PathFactsView>, path: Seq<char>)
    requires
        lookup(fs, path) is Some,
    ensures
        recorded_paths(fs).contains(path),
    decreases fs.len(),
{
    if fs[0].path == path {
        assert(recorded_paths(fs)[0] == path);
    } else {
        let rest = fs.drop_first();
        lemma_lookup_is_recorded(rest, path);
        let k = choose|k: int| 0 <= k < rest.len() && recorded_paths(rest)[k] == path;
        assert(recorded_paths(fs)[k + 1] == path);
    }
}

/// A mount whose host path begins a chain of different links gives the
/// binds of the whole chain: no chain is too long for the walk.
pub proof fn lemma_mount_binds_whole_chain(
    m: MountView,
    fs: Seq<PathFactsView>,
    links: Seq<Seq<char>>,
    end: Seq<char>,
    host_home: Seq<char>,
    container_home: Seq<char>,
)
    requires
        is_link_chain(fs, links, end),
        links.no_duplicates(),
        resolve_paths_spec(m, host_home, container_home) is Ok,
        resolve_paths_spec(m, host_home, container_home)->Ok_0.0 == chain_start(links, end),
    ensures
        resolved_mounts_spec(m, host_home, container_home, fs) == Ok::<
            Seq<ResolvedMountView>,
            MountErrorView,
        >(chain_binds(m, fs, links, end, host_home, container_home)),
{
    let known = recorded_paths(fs);
    assert forall|x: Seq<char>| links.to_set().contains(x) implies known.to_set().contains(x) by {
        let i = choose|i: int| 0 <= i < links.len() && links[i] == x;
        assert(lookup(fs, links[i]) is Some);
        lemma_lookup_is_recorded(fs, x);
    }
    links.unique_seq_to_set();
    known.lemma_cardinality_of_set();
    vstd::set_lib::lemma_len_subset(links.to_set(), known.to_set());
    lemma_chain_complete(m, fs, links, end, host_home, container_home, fs.len());
    if links.len() > 0 {
        assert(lookup(fs, links[0]) is Some);
    }
}

} // verus!
