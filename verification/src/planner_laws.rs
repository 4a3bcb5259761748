//! What holds of every plan.

use vstd::prelude::*;
use crate::mount::{bind_string, resolve_paths_spec, MountErrorView, MountMode, MountView};
use crate::mount::ResolvedMountView;
use crate::order::{insert_pos, lemma_sort_spec, lengths_ascend, path_le, sort_spec};
use crate::order::{byte_len, lemma_lies_under_bytes};
use crate::paths::{lemma_lies_under_reflexive, lies_under};
use crate::planner::{is_covered, is_skipped, lemma_covering_index, lemma_select_keeps_seeds};
use crate::planner::{bind_strings, matches_any, planned_binds, resolve_all, seeds_of};
use crate::planner::{select_mounts, skip_flags};
use crate::resolve::symlink_chain;
use crate::snapshot::PathFactsView;

verus! {

/// Whether `e` is an error of turning a spec into paths or of looking a
/// path up: the only errors that resolving a mount can end in.
pub open spec fn is_resolution_error(e: MountErrorView) -> bool {
    match e {
        MountErrorView::InvalidHostPath { .. } => true,
        MountErrorView::InvalidContainerPath { .. } => true,
        MountErrorView::NotFound { .. } => true,
        MountErrorView::NotCanonical { .. } => true,
        MountErrorView::Unprobed { .. } => true,
        _ => false,
    }
}

/// Walking a symlink chain fails only with an error of resolution.
pub proof fn lemma_chain_errors(
    m: MountView,
    fs: Seq<PathFactsView>,
    path: Seq<char>,
    host_home: Seq<char>,
    container_home: Seq<char>,
    budget: nat,
)
    ensures
        match symlink_chain(m, fs, path, host_home, container_home, budget) {
            Err(e) => is_resolution_error(e),
            Ok(_) => true,
        },
    decreases budget,
{
    match crate::snapshot::lookup(fs, path) {
        Some(facts) => {
            if facts.canonical.is_some() && facts.link_target.is_some() && budget > 0 {
                lemma_chain_errors(
                    m,
                    fs,
                    crate::paths::link_destination(path, facts.link_target.unwrap()),
                    host_home,
                    container_home,
                    (budget - 1) as nat,
                );
            }
        },
        None => {},
    }
}

/// Resolving mounts fails only with an error of resolution.
pub proof fn lemma_resolve_all_errors(
    mounts: Seq<MountView>,
    host_home: Seq<char>,
    container_home: Seq<char>,
    fs: Seq<PathFactsView>,
)
    ensures
        match resolve_all(mounts, host_home, container_home, fs) {
            Err(e) => is_resolution_error(e),
            Ok(_) => true,
        },
    decreases mounts.len(),
{
    if mounts.len() > 0 {
        lemma_resolve_all_errors(mounts.drop_last(), host_home, container_home, fs);
        match resolve_paths_spec(mounts.last(), host_home, container_home) {
            Ok((host, _)) => {
                lemma_chain_errors(mounts.last(), fs, host, host_home, container_home, fs.len());
            },
            Err(_) => {},
        }
    }
}

/// Choosing among resolved mounts fails only with a conflict of modes, and
/// only where such conflicts were to be refused.
pub proof fn lemma_select_errors(
    sorted: Seq<ResolvedMountView>,
    skipped: Seq<bool>,
    seeds: Seq<ResolvedMountView>,
    skip_covered: bool,
    strict_modes: bool,
)
    ensures
        match select_mounts(sorted, skipped, seeds, skip_covered, strict_modes) {
            Err(e) => strict_modes && e is ModeConflict,
            Ok(_) => true,
        },
    decreases sorted.len(),
{
    if sorted.len() > 0 {
        lemma_select_errors(sorted.drop_last(), skipped, seeds, skip_covered, strict_modes);
    }
}

/// Planning fails only with an error of resolution or, where conflicts of
/// modes were to be refused, with such a conflict.
pub proof fn lemma_planning_errors(
    mounts: Seq<MountView>,
    binds: Seq<Seq<char>>,
    skip_covered: bool,
    strict_modes: bool,
    patterns: Seq<Seq<char>>,
    host_home: Seq<char>,
    container_home: Seq<char>,
    fs: Seq<PathFactsView>,
)
    ensures
        match planned_binds(
            mounts,
            binds,
            skip_covered,
            strict_modes,
            patterns,
            host_home,
            container_home,
            fs,
        ) {
            Err(e) => is_resolution_error(e) || (strict_modes && e is ModeConflict),
            Ok(_) => true,
        },
{
    lemma_resolve_all_errors(mounts, host_home, container_home, fs);
    match resolve_all(mounts, host_home, container_home, fs) {
        Ok(all) => {
            lemma_select_errors(
                sort_spec(all),
                skip_flags(sort_spec(all), patterns),
                seeds_of(binds),
                skip_covered,
                strict_modes,
            );
        },
        Err(_) => {},
    }
}

/// Whether none of the mounts of `bound` from index `from` on lies under
/// another mount of `bound`, or is the same path as another.
pub open spec fn taken_apart(bound: Seq<ResolvedMountView>, from: int) -> bool {
    forall|i: int, j: int|
        from <= i < bound.len() && 0 <= j < bound.len() && i != j ==> !lies_under(
            (#[trigger] bound[i]).host,
            (#[trigger] bound[j]).host,
        )
}

/// Whether every mount of `bound` from index `from` on has a host path no
/// longer than that of the last mount of `sorted`.
pub open spec fn taken_within(
    bound: Seq<ResolvedMountView>,
    from: int,
    sorted: Seq<ResolvedMountView>,
) -> bool {
    forall|i: int|
        from <= i < bound.len() ==> sorted.len() > 0 && byte_len((#[trigger] bound[i]).host)
            <= byte_len(sorted.last().host)
}

/// The step behind `lemma_no_bind_under_another`: what holds of the
/// mounts bound after each mount that was looked at.
pub proof fn lemma_select_apart(
    sorted: Seq<ResolvedMountView>,
    skipped: Seq<bool>,
    seeds: Seq<ResolvedMountView>,
    strict_modes: bool,
)
    requires
        lengths_ascend(sorted),
    ensures
        match select_mounts(sorted, skipped, seeds, true, strict_modes) {
            Ok(bound) => seeds.len() <= bound.len() && taken_apart(bound, seeds.len() as int)
                && taken_within(bound, seeds.len() as int, sorted),
            Err(_) => true,
        },
    decreases sorted.len(),
{
    if sorted.len() > 0 {
        let shorter = sorted.drop_last();
        assert forall|i: int, j: int| 0 <= i < j < shorter.len() implies byte_len(shorter[i].host)
            <= byte_len(shorter[j].host) by {
            assert(shorter[i] == sorted[i] && shorter[j] == sorted[j]);
        }
        lemma_select_apart(shorter, skipped, seeds, strict_modes);
        match select_mounts(shorter, skipped, seeds, true, strict_modes) {
            Err(_) => {},
            Ok(bound) => {
                let m = sorted.last();
                let from = seeds.len() as int;
                assert forall|i: int| from <= i < bound.len() implies byte_len(
                    (#[trigger] bound[i]).host,
                ) <= byte_len(m.host) by {
                    assert(shorter.len() > 0);
                    assert(shorter.last() == sorted[sorted.len() - 2]);
                }
                lemma_covering_index(bound, m.host);
                if !is_skipped(skipped, sorted.len() - 1) && !is_covered(bound, m.host) {
                    let after = bound.push(m);
                    let at = bound.len() as int;
                    assert forall|i: int, j: int|
                        from <= i < after.len() && 0 <= j < after.len() && i != j implies !lies_under(
                        (#[trigger] after[i]).host,
                        (#[trigger] after[j]).host,
                    ) by {
                        if i < at && j < at {
                            assert(after[i] == bound[i] && after[j] == bound[j]);
                        } else if i == at {
                            assert(after[j] == bound[j]);
                        } else {
                            assert(after[i] == bound[i]);
                            if lies_under(bound[i].host, m.host) {
                                lemma_lies_under_bytes(bound[i].host, m.host);
                                lemma_lies_under_reflexive(m.host);
                                assert(lies_under(m.host, bound[i].host));
                            }
                        }
                    }
                    assert forall|i: int| from <= i < after.len() implies byte_len(
                        (#[trigger] after[i]).host,
                    ) <= byte_len(m.host) by {
                        if i < at {
                            assert(after[i] == bound[i]);
                        }
                    }
                }
            },
        }
    }
}

/// Coverage. With covered mounts left out, no mount that planning binds
/// lies under another bound mount, be it one that was bound before
/// planning began or one that planning bound, and no path is bound twice.
/// A directory and a path inside it therefore never give more than the
/// bind of the directory.
pub proof fn lemma_no_bind_under_another(
    resolved: Seq<ResolvedMountView>,
    skipped: Seq<bool>,
    seeds: Seq<ResolvedMountView>,
    strict_modes: bool,
)
    ensures
        match select_mounts(sort_spec(resolved), skipped, seeds, true, strict_modes) {
            Ok(bound) => seeds.len() <= bound.len() && bound.take(seeds.len() as int) == seeds
                && taken_apart(bound, seeds.len() as int),
            Err(_) => true,
        },
{
    lemma_sort_spec(resolved);
    lemma_select_apart(sort_spec(resolved), skipped, seeds, strict_modes);
    lemma_select_keeps_seeds(sort_spec(resolved), skipped, seeds, true, strict_modes);
}

/// A mount that is marked as never to be bound is not bound, whatever
/// the other settings are: what planning binds beyond the seeds are
/// unmarked mounts of `sorted`.
pub proof fn lemma_marked_never_bound(
    sorted: Seq<ResolvedMountView>,
    skipped: Seq<bool>,
    seeds: Seq<ResolvedMountView>,
    skip_covered: bool,
    strict_modes: bool,
)
    ensures
        match select_mounts(sorted, skipped, seeds, skip_covered, strict_modes) {
            Ok(bound) => forall|i: int|
                seeds.len() <= i < bound.len() ==> exists|k: int|
                    0 <= k < sorted.len() && !is_skipped(skipped, k) && sorted[k] == #[trigger] bound[i],
            Err(_) => true,
        },
    decreases sorted.len(),
{
    if sorted.len() > 0 {
        let shorter = sorted.drop_last();
        lemma_marked_never_bound(shorter, skipped, seeds, skip_covered, strict_modes);
        lemma_select_keeps_seeds(shorter, skipped, seeds, skip_covered, strict_modes);
        match select_mounts(shorter, skipped, seeds, skip_covered, strict_modes) {
            Err(_) => {},
            Ok(before) => {
                match select_mounts(sorted, skipped, seeds, skip_covered, strict_modes) {
                    Err(_) => {},
                    Ok(bound) => {
                        assert forall|i: int| seeds.len() <= i < bound.len() implies exists|k: int|
                            0 <= k < sorted.len() && !is_skipped(skipped, k) && sorted[k]
                                == #[trigger] bound[i] by {
                            if i < before.len() {
                                assert(bound[i] == before[i]);
                                let k = choose|k: int|
                                    0 <= k < shorter.len() && !is_skipped(skipped, k) && shorter[k]
                                        == before[i];
                                assert(sorted[k] == shorter[k]);
                            } else {
                                assert(bound[i] == sorted[sorted.len() - 1]);
                            }
                        }
                    },
                }
            },
        }
    }
}

/// Coverage of a directory and a path inside it. Planning a read-write
/// mount of a directory together with a mount of a path below it, in
/// either order and with the second in any mode, binds the directory and
/// nothing else, where covered mounts are left out.
pub proof fn lemma_parent_and_child_give_one_bind(
    parent: ResolvedMountView,
    child: ResolvedMountView,
    strict_modes: bool,
)
    requires
        lies_under(child.host, parent.host),
        child.host != parent.host,
        parent.mode == MountMode::Rw,
    ensures
        select_mounts(
            sort_spec(seq![parent, child]),
            Seq::empty(),
            Seq::empty(),
            true,
            strict_modes,
        ) == Ok::<Seq<ResolvedMountView>, MountErrorView>(seq![parent]),
        select_mounts(
            sort_spec(seq![child, parent]),
            Seq::empty(),
            Seq::empty(),
            true,
            strict_modes,
        ) == Ok::<Seq<ResolvedMountView>, MountErrorView>(seq![parent]),
{
    lemma_lies_under_bytes(child.host, parent.host);
    let none = Seq::<ResolvedMountView>::empty();
    let sorted = seq![parent, child];
    let other = seq![child, parent];
    let one = seq![parent];
    let flags = Seq::<bool>::empty();
    assert(byte_len(parent.host) < byte_len(child.host));
    assert(path_le(parent.host, child.host));
    assert(!path_le(child.host, parent.host));
    assert(sort_spec(none) == none);

    assert(one.drop_last() == none) by {
        assert(one.drop_last() =~= none);
    }
    assert(insert_pos(none, parent) == 0);
    assert(sort_spec(one) == one) by {
        assert(none.insert(0, parent) =~= one);
    }
    assert(sorted.drop_last() == one) by {
        assert(sorted.drop_last() =~= one);
    }
    assert(insert_pos(one, child) == 1);
    assert(sort_spec(sorted) == sorted) by {
        assert(one.insert(1, child) =~= sorted);
    }

    let lone = seq![child];
    assert(lone.drop_last() == none) by {
        assert(lone.drop_last() =~= none);
    }
    assert(insert_pos(none, child) == 0);
    assert(sort_spec(lone) == lone) by {
        assert(none.insert(0, child) =~= lone);
    }
    assert(other.drop_last() == lone) by {
        assert(other.drop_last() =~= lone);
    }
    assert(insert_pos(lone, parent) == 0);
    assert(sort_spec(other) == sorted) by {
        assert(lone.insert(0, parent) =~= sorted);
    }

    assert(select_mounts(none, flags, none, true, strict_modes) == Ok::<
        Seq<ResolvedMountView>,
        MountErrorView,
    >(none));
    lemma_covering_index(none, parent.host);
    assert(!is_skipped(flags, 0));
    assert(select_mounts(one, flags, none, true, strict_modes) == Ok::<
        Seq<ResolvedMountView>,
        MountErrorView,
    >(one)) by {
        assert(none.push(parent) =~= one);
    }
    lemma_covering_index(one, child.host);
    assert(lies_under(child.host, one[0].host));
    assert(is_covered(one, child.host));
    assert(!is_skipped(flags, 1));
}

/// What is bound after the first `k` mounts were looked at stays bound:
/// it stands at the beginning of what is bound in the end.
pub proof fn lemma_select_prefix(
    sorted: Seq<ResolvedMountView>,
    skipped: Seq<bool>,
    seeds: Seq<ResolvedMountView>,
    skip_covered: bool,
    strict_modes: bool,
    k: int,
)
    requires
        select_mounts(sorted, skipped, seeds, skip_covered, strict_modes) is Ok,
        0 <= k <= sorted.len(),
    ensures
        select_mounts(sorted.take(k), skipped, seeds, skip_covered, strict_modes) is Ok,
        select_mounts(sorted.take(k), skipped, seeds, skip_covered, strict_modes)->Ok_0.is_prefix_of(
            select_mounts(sorted, skipped, seeds, skip_covered, strict_modes)->Ok_0,
        ),
    decreases sorted.len(),
{
    let all = select_mounts(sorted, skipped, seeds, skip_covered, strict_modes)->Ok_0;
    if k == sorted.len() {
        assert(sorted.take(k) =~= sorted);
        assert(all.is_prefix_of(all));
    } else {
        let shorter = sorted.drop_last();
        assert(shorter.take(k) =~= sorted.take(k));
        lemma_select_prefix(shorter, skipped, seeds, skip_covered, strict_modes, k);
        let before = select_mounts(shorter, skipped, seeds, skip_covered, strict_modes)->Ok_0;
        let part = select_mounts(sorted.take(k), skipped, seeds, skip_covered, strict_modes)->Ok_0;
        assert(before.is_prefix_of(all)) by {
            if all != before {
                assert(all == before.push(sorted.last()));
            }
            assert(before =~= all.subrange(0, before.len() as int));
        }
        assert(part =~= all.subrange(0, part.len() as int));
    }
}

/// Every mount that is looked at and is not marked lies, in the end,
/// under a bound mount; and it is bound itself where none of the mounts
/// bound before its turn covers it, whatever its mode.
pub proof fn lemma_unmarked_is_bound_or_covered(
    sorted: Seq<ResolvedMountView>,
    skipped: Seq<bool>,
    seeds: Seq<ResolvedMountView>,
    skip_covered: bool,
    strict_modes: bool,
    k: int,
)
    requires
        select_mounts(sorted, skipped, seeds, skip_covered, strict_modes) is Ok,
        0 <= k < sorted.len(),
        !is_skipped(skipped, k),
    ensures
        select_mounts(sorted.take(k), skipped, seeds, skip_covered, strict_modes) is Ok,
        is_covered(
            select_mounts(sorted, skipped, seeds, skip_covered, strict_modes)->Ok_0,
            sorted[k].host,
        ),
        !is_covered(
            select_mounts(sorted.take(k), skipped, seeds, skip_covered, strict_modes)->Ok_0,
            sorted[k].host,
        ) ==> {
            let before = select_mounts(
                sorted.take(k),
                skipped,
                seeds,
                skip_covered,
                strict_modes,
            )->Ok_0;
            let bound = select_mounts(sorted, skipped, seeds, skip_covered, strict_modes)->Ok_0;
            &&& seeds.len() <= before.len() < bound.len()
            &&& bound[before.len() as int] == sorted[k]
        },
{
    let bound = select_mounts(sorted, skipped, seeds, skip_covered, strict_modes)->Ok_0;
    let upto = sorted.take(k + 1);
    lemma_select_prefix(sorted, skipped, seeds, skip_covered, strict_modes, k);
    lemma_select_prefix(sorted, skipped, seeds, skip_covered, strict_modes, k + 1);
    lemma_select_keeps_seeds(sorted.take(k), skipped, seeds, skip_covered, strict_modes);
    assert(upto.drop_last() =~= sorted.take(k));
    assert(upto.last() == sorted[k]);
    let before = select_mounts(sorted.take(k), skipped, seeds, skip_covered, strict_modes)->Ok_0;
    let after = select_mounts(upto, skipped, seeds, skip_covered, strict_modes)->Ok_0;
    let m = sorted[k];
    lemma_covering_index(before, m.host);
    lemma_covering_index(bound, m.host);
    if is_covered(before, m.host) {
        let j = choose|j: int| 0 <= j < before.len() && lies_under(m.host, before[j].host);
        assert(bound[j] == before[j]);
    } else {
        assert(after == before.push(m));
        assert(bound[before.len() as int] == after[before.len() as int]);
        lemma_lies_under_reflexive(m.host);
    }
}

/// The bind of every resolved mount that no skip pattern matches and that
/// none of the mounts bound before its turn covers is among the binds that
/// planning adds, with the mode that was asked for: an overlay mount as
/// `host:container:O`.
pub proof fn lemma_plan_binds_uncovered(
    mounts: Seq<MountView>,
    binds: Seq<Seq<char>>,
    skip_covered: bool,
    strict_modes: bool,
    patterns: Seq<Seq<char>>,
    host_home: Seq<char>,
    container_home: Seq<char>,
    fs: Seq<PathFactsView>,
    k: int,
)
    requires
        planned_binds(
            mounts,
            binds,
            skip_covered,
            strict_modes,
            patterns,
            host_home,
            container_home,
            fs,
        ) is Ok,
        0 <= k < sort_spec(resolve_all(mounts, host_home, container_home, fs)->Ok_0).len(),
        !matches_any(
            patterns,
            sort_spec(resolve_all(mounts, host_home, container_home, fs)->Ok_0)[k].host,
        ),
        !is_covered(
            select_mounts(
                sort_spec(resolve_all(mounts, host_home, container_home, fs)->Ok_0).take(k),
                skip_flags(
                    sort_spec(resolve_all(mounts, host_home, container_home, fs)->Ok_0),
                    patterns,
                ),
                seeds_of(binds),
                skip_covered,
                strict_modes,
            )->Ok_0,
            sort_spec(resolve_all(mounts, host_home, container_home, fs)->Ok_0)[k].host,
        ),
    ensures
        planned_binds(
            mounts,
            binds,
            skip_covered,
            strict_modes,
            patterns,
            host_home,
            container_home,
            fs,
        )->Ok_0.contains(
            bind_string(sort_spec(resolve_all(mounts, host_home, container_home, fs)->Ok_0)[k]),
        ),
{
    let sorted = sort_spec(resolve_all(mounts, host_home, container_home, fs)->Ok_0);
    let flags = skip_flags(sorted, patterns);
    let seeds = seeds_of(binds);
    lemma_unmarked_is_bound_or_covered(sorted, flags, seeds, skip_covered, strict_modes, k);
    let before = select_mounts(sorted.take(k), flags, seeds, skip_covered, strict_modes)->Ok_0;
    let bound = select_mounts(sorted, flags, seeds, skip_covered, strict_modes)->Ok_0;
    let added = bind_strings(bound.skip(seeds.len() as int));
    let at = before.len() - seeds.len();
    assert(bound.skip(seeds.len() as int)[at] == sorted[k]);
    assert(added[at] == bind_string(sorted[k]));
}

} // verus!
