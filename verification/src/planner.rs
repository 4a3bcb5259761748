//! The mount planner: which of the requested mounts are bound, given what
//! is bound already, the paths that are never bound, and what a broader
//! mount covers.

use vstd::prelude::*;
use crate::mount::{bind_string, flag_mode, Mount, MountError, MountErrorView, MountMode};
use crate::mount::{MountView, ResolvedMount, ResolvedMountView};
use crate::order::{sort_by_host, sort_spec};
use crate::paths::{is_under, lies_under};
use crate::resolve::resolved_mounts_spec;
use crate::snapshot::{FsSnapshot, PathFactsView};
use crate::text::{char_len, find_char, first_pos, lemma_first_pos, skip_chars, take_chars, views};

verus! {

/// What the glob `pattern` says of `text`: `None` where the pattern is
/// not well formed; else whether it matches all of `text` by the rules of
/// Unix shell patterns, `?`, `*`, `**` and `[...]`, with upper and lower
/// case told apart and no special treatment of `/` or of a leading dot.
pub uninterp spec fn glob_match(pattern: Seq<char>, text: Seq<char>) -> Option<bool>;

/// Whether `pattern` is free of wildcards: it holds none of `?`, `*`, `[`.
pub open spec fn is_plain_pattern(pattern: Seq<char>) -> bool {
    !pattern.contains('?') && !pattern.contains('*') && !pattern.contains('[')
}

/// Compiles `pattern` with `glob::Pattern::new` and matches `text` against
/// it with `glob::Pattern::matches`; the error of a pattern that does not
/// compile is handed on as `None`. Both calls depend on their arguments
/// alone, and the contract names their outcome. It claims one thing more,
/// which the source of both functions shows: a pattern without `?`, `*`
/// and `[` compiles to its characters and matches a text if and only if
/// the two are the same, character by character. Backslashes are left out
/// of this claim, since one target takes them for separators, which all
/// match one another.
#[verifier::external_body]
fn pattern_matches(pattern: &str, text: &str) -> (r: Option<bool>)
    ensures
        r == glob_match(pattern@, text@),
        is_plain_pattern(pattern@) && !pattern@.contains('\\') && !text@.contains('\\') ==> r
            == Some(pattern@ == text@),
{
    match glob::Pattern::new(pattern) {
        Ok(compiled) => Some(compiled.matches(text)),
        Err(_) => None,
    }
}

/// Whether the glob `pattern` is well formed and matches all of `text`. A
/// pattern that is not well formed matches nothing.
pub open spec fn glob_accepts(pattern: Seq<char>, text: Seq<char>) -> bool {
    glob_match(pattern, text) == Some(true)
}

/// Whether one of `patterns` matches `path`.
pub open spec fn matches_any(patterns: Seq<Seq<char>>, path: Seq<char>) -> bool {
    exists|i: int| 0 <= i < patterns.len() && glob_accepts(#[trigger] patterns[i], path)
}

/// Whether none of `patterns` holds a wildcard or a backslash.
pub open spec fn all_plain(patterns: Seq<Seq<char>>) -> bool {
    forall|i: int|
        0 <= i < patterns.len() ==> is_plain_pattern(#[trigger] patterns[i]) && !patterns[i].contains(
            '\\',
        )
}

/// Whether `path` is one of those that are never bound on their own: one
/// that a pattern of `skip_patterns` matches as a whole.
///
/// Patterns without wildcards name single paths: such a pattern matches
/// the path that it spells and no other, so nothing that lies below it.
pub fn should_skip_path(path: &str, skip_patterns: &[String]) -> (r: bool)
    ensures
        r == matches_any(views(skip_patterns@), path@),
        all_plain(views(skip_patterns@)) && !path@.contains('\\') ==> r == views(
            skip_patterns@,
        ).contains(path@),
{
    let ghost patterns = views(skip_patterns@);
    let ghost plain = all_plain(patterns) && !path@.contains('\\');
    let mut i: usize = 0;
    while i < skip_patterns.len()
        invariant
            i <= skip_patterns.len(),
            patterns == views(skip_patterns@),
            plain == (all_plain(patterns) && !path@.contains('\\')),
            forall|j: int| 0 <= j < i ==> !glob_accepts(#[trigger] patterns[j], path@),
            plain ==> forall|j: int| 0 <= j < i ==> #[trigger] patterns[j] != path@,
        decreases skip_patterns.len() - i,
    {
        let answer = pattern_matches(skip_patterns[i].as_str(), path);
        proof {
            assert(patterns[i as int] == skip_patterns@[i as int]@);
            if plain {
                assert(is_plain_pattern(patterns[i as int]) && !patterns[i as int].contains('\\'));
            }
        }
        let matched = match answer {
            Some(m) => m,
            None => false,
        };
        if matched {
            proof {
                assert(glob_accepts(patterns[i as int], path@));
            }
            return true;
        }
        i += 1;
    }
    false
}

/// Index of the first mount of `existing` under whose host path `host`
/// lies; `existing.len()` where there is none.
pub open spec fn covering_index(existing: Seq<ResolvedMountView>, host: Seq<char>) -> int
    decreases existing.len(),
{
    if existing.len() == 0 {
        0
    } else if lies_under(host, existing[0].host) {
        0
    } else {
        1 + covering_index(existing.drop_first(), host)
    }
}

/// Whether a mount of `existing` covers `host`: `host` is its host path or
/// lies below it.
pub open spec fn is_covered(existing: Seq<ResolvedMountView>, host: Seq<char>) -> bool {
    covering_index(existing, host) < existing.len()
}

/// `covering_index` is the least index of a mount that covers `host`.
pub proof fn lemma_covering_index(existing: Seq<ResolvedMountView>, host: Seq<char>)
    ensures
        0 <= covering_index(existing, host) <= existing.len(),
        forall|j: int| 0 <= j < covering_index(existing, host) ==> !lies_under(host, existing[j].host),
        is_covered(existing, host) ==> lies_under(
            host,
            existing[covering_index(existing, host)].host,
        ),
        is_covered(existing, host) <==> exists|j: int|
            0 <= j < existing.len() && lies_under(host, existing[j].host),
    decreases existing.len(),
{
    if existing.len() == 0 {
    } else if lies_under(host, existing[0].host) {
    } else {
        let rest = existing.drop_first();
        lemma_covering_index(rest, host);
        let p = covering_index(existing, host);
        assert forall|j: int| 0 <= j < p implies !lies_under(host, existing[j].host) by {
            if j > 0 {
                assert(existing[j] == rest[j - 1]);
            }
        }
        if is_covered(rest, host) {
            assert(existing[p] == rest[p - 1]);
        } else {
            assert forall|j: int| 0 <= j < existing.len() implies !lies_under(
                host,
                existing[j].host,
            ) by {
                if j > 0 {
                    assert(existing[j] == rest[j - 1]);
                }
            }
        }
    }
}

/// An index whose mount covers `host`, with none before it that does, is
/// `covering_index`.
pub proof fn lemma_covering_index_is(existing: Seq<ResolvedMountView>, host: Seq<char>, i: int)
    requires
        0 <= i <= existing.len(),
        forall|j: int| 0 <= j < i ==> !lies_under(host, existing[j].host),
        i < existing.len() ==> lies_under(host, existing[i].host),
    ensures
        covering_index(existing, host) == i,
{
    lemma_covering_index(existing, host);
    let p = covering_index(existing, host);
    if p < i {
        assert(!lies_under(host, existing[p].host));
    } else if p > i {
        assert(lies_under(host, existing[i].host));
    }
}

/// The first mount of `existing_mounts` that covers `host_path`: one whose
/// host path is `host_path` or a directory above it.
pub fn find_covering_mount<'a>(host_path: &str, existing_mounts: &'a [ResolvedMount]) -> (r: Option<
    &'a ResolvedMount,
>)
    ensures
        match r {
            Some(m) => is_covered(views(existing_mounts@), host_path@) && m@ == views(
                existing_mounts@,
            )[covering_index(views(existing_mounts@), host_path@)],
            None => !is_covered(views(existing_mounts@), host_path@),
        },
{
    let mut i: usize = 0;
    while i < existing_mounts.len()
        invariant
            i <= existing_mounts.len(),
            forall|j: int| 0 <= j < i ==> !lies_under(host_path@, views(existing_mounts@)[j].host),
        decreases existing_mounts.len() - i,
    {
        if is_under(host_path, existing_mounts[i].host.as_str()) {
            proof {
                lemma_covering_index_is(views(existing_mounts@), host_path@, i as int);
            }
            return Some(&existing_mounts[i]);
        }
        i += 1;
    }
    proof {
        lemma_covering_index_is(views(existing_mounts@), host_path@, i as int);
    }
    None
}

/// The mount that a bind string stands for: host path, container path and
/// mode are its first three parts between `:`. A mode that is no mode flag
/// counts as read-write. `None` where the string has fewer than three parts.
pub open spec fn parse_bind(bind: Seq<char>) -> Option<ResolvedMountView> {
    let i = first_pos(bind, ':');
    if i >= bind.len() {
        None
    } else {
        let rest = bind.skip(i + 1);
        let j = first_pos(rest, ':');
        if j >= rest.len() {
            None
        } else {
            let tail = rest.skip(j + 1);
            let flag = tail.take(first_pos(tail, ':'));
            Some(
                ResolvedMountView {
                    host: bind.take(i),
                    container: rest.take(j),
                    mode: match flag_mode(flag) {
                        Some(mode) => mode,
                        None => MountMode::Rw,
                    },
                },
            )
        }
    }
}

/// The mounts that the bind strings `binds` stand for, in order; a string
/// that stands for none is passed over.
pub open spec fn seeds_of(binds: Seq<Seq<char>>) -> Seq<ResolvedMountView>
    decreases binds.len(),
{
    if binds.len() == 0 {
        Seq::empty()
    } else {
        match parse_bind(binds.last()) {
            Some(m) => seeds_of(binds.drop_last()).push(m),
            None => seeds_of(binds.drop_last()),
        }
    }
}

/// Reads a bind string back into the mount it stands for.
pub fn read_bind(bind: &str) -> (r: Option<ResolvedMount>)
    ensures
        crate::text::opt_view(r) == parse_bind(bind@),
{
    proof {
        lemma_first_pos(bind@, ':');
    }
    let i = find_char(bind, ':');
    if i >= char_len(bind) {
        return None;
    }
    let rest = skip_chars(bind, i + 1);
    proof {
        lemma_first_pos(rest@, ':');
    }
    let j = find_char(rest.as_str(), ':');
    if j >= char_len(rest.as_str()) {
        return None;
    }
    let tail = skip_chars(rest.as_str(), j + 1);
    proof {
        lemma_first_pos(tail@, ':');
    }
    let k = find_char(tail.as_str(), ':');
    let flag = take_chars(tail.as_str(), k);
    let mode = match MountMode::from_str(flag.as_str()) {
        Some(mode) => mode,
        None => MountMode::Rw,
    };
    Some(ResolvedMount { host: take_chars(bind, i), container: take_chars(rest.as_str(), j), mode })
}

/// Every bind that the mounts of `mounts` need, in their order. The first
/// mount that cannot be resolved decides.
pub open spec fn resolve_all(
    mounts: Seq<MountView>,
    host_home: Seq<char>,
    container_home: Seq<char>,
    fs: Seq<PathFactsView>,
) -> Result<Seq<ResolvedMountView>, MountErrorView>
    decreases mounts.len(),
{
    if mounts.len() == 0 {
        Ok(Seq::empty())
    } else {
        match resolve_all(mounts.drop_last(), host_home, container_home, fs) {
            Err(e) => Err(e),
            Ok(before) => match resolved_mounts_spec(mounts.last(), host_home, container_home, fs) {
                Err(e) => Err(e),
                Ok(more) => Ok(before + more),
            },
        }
    }
}

/// Where resolving the first `n` mounts fails, resolving all of them fails
/// in the same way.
pub proof fn lemma_resolve_all_fails_on(
    mounts: Seq<MountView>,
    host_home: Seq<char>,
    container_home: Seq<char>,
    fs: Seq<PathFactsView>,
    n: int,
)
    requires
        0 <= n <= mounts.len(),
        resolve_all(mounts.take(n), host_home, container_home, fs) is Err,
    ensures
        resolve_all(mounts, host_home, container_home, fs) == resolve_all(
            mounts.take(n),
            host_home,
            container_home,
            fs,
        ),
    decreases mounts.len() - n,
{
    if n == mounts.len() {
        assert(mounts.take(n) =~= mounts);
    } else {
        assert(mounts.take(n + 1).drop_last() =~= mounts.take(n));
        lemma_resolve_all_fails_on(mounts, host_home, container_home, fs, n + 1);
    }
}

/// For each mount of `sorted`, whether one of `patterns` matches its host path.
pub open spec fn skip_flags(sorted: Seq<ResolvedMountView>, patterns: Seq<Seq<char>>) -> Seq<bool> {
    Seq::new(sorted.len(), |i: int| matches_any(patterns, sorted[i].host))
}

/// Whether the mount at index `i` is marked in `skipped`; a mount without
/// a mark is not.
pub open spec fn is_skipped(skipped: Seq<bool>, i: int) -> bool {
    0 <= i < skipped.len() && skipped[i]
}

/// What is bound once the mounts of `sorted` have been looked at in turn,
/// starting from `seeds`. `skipped` marks the mounts whose host path is
/// never bound on its own.
///
/// A marked mount is dropped, whatever else holds. A mount that none of
/// the mounts bound so far covers is bound. A covered mount is dropped if
/// `skip_covered` is set and bound if it is not; but where `strict_modes`
/// is set, a read-write mount whose first covering mount is read-only
/// ends planning with an error.
pub open spec fn select_mounts(
    sorted: Seq<ResolvedMountView>,
    skipped: Seq<bool>,
    seeds: Seq<ResolvedMountView>,
    skip_covered: bool,
    strict_modes: bool,
) -> Result<Seq<ResolvedMountView>, MountErrorView>
    decreases sorted.len(),
{
    if sorted.len() == 0 {
        Ok(seeds)
    } else {
        match select_mounts(sorted.drop_last(), skipped, seeds, skip_covered, strict_modes) {
            Err(e) => Err(e),
            Ok(bound) => {
                let m = sorted.last();
                if is_skipped(skipped, sorted.len() - 1) {
                    Ok(bound)
                } else if is_covered(bound, m.host) {
                    let cover = bound[covering_index(bound, m.host)];
                    if strict_modes && cover.mode == MountMode::Ro && m.mode == MountMode::Rw {
                        Err(MountErrorView::ModeConflict { path: m.host, covered_by: cover.host })
                    } else if skip_covered {
                        Ok(bound)
                    } else {
                        Ok(bound.push(m))
                    }
                } else {
                    Ok(bound.push(m))
                }
            },
        }
    }
}

/// Where looking at the first `n` mounts fails, looking at all fails in
/// the same way.
pub proof fn lemma_select_fails_on(
    sorted: Seq<ResolvedMountView>,
    skipped: Seq<bool>,
    seeds: Seq<ResolvedMountView>,
    skip_covered: bool,
    strict_modes: bool,
    n: int,
)
    requires
        0 <= n <= sorted.len(),
        select_mounts(sorted.take(n), skipped, seeds, skip_covered, strict_modes) is Err,
    ensures
        select_mounts(sorted, skipped, seeds, skip_covered, strict_modes) == select_mounts(
            sorted.take(n),
            skipped,
            seeds,
            skip_covered,
            strict_modes,
        ),
    decreases sorted.len() - n,
{
    if n == sorted.len() {
        assert(sorted.take(n) =~= sorted);
    } else {
        assert(sorted.take(n + 1).drop_last() =~= sorted.take(n));
        lemma_select_fails_on(sorted, skipped, seeds, skip_covered, strict_modes, n + 1);
    }
}

/// The bind strings of `mounts`, in order.
pub open spec fn bind_strings(mounts: Seq<ResolvedMountView>) -> Seq<Seq<char>> {
    Seq::new(mounts.len(), |i: int| bind_string(mounts[i]))
}

/// The bind strings that planning adds to `binds` for the requested
/// `mounts`: every mount is resolved with its symlink chain, the outcome
/// is put into planning order, and each resolved mount is bound or not as
/// `select_mounts` says, against the mounts that `binds` stands for and
/// those bound before it.
pub open spec fn planned_binds(
    mounts: Seq<MountView>,
    binds: Seq<Seq<char>>,
    skip_covered: bool,
    strict_modes: bool,
    patterns: Seq<Seq<char>>,
    host_home: Seq<char>,
    container_home: Seq<char>,
    fs: Seq<PathFactsView>,
) -> Result<Seq<Seq<char>>, MountErrorView> {
    match resolve_all(mounts, host_home, container_home, fs) {
        Err(e) => Err(e),
        Ok(all) => match select_mounts(
            sort_spec(all),
            skip_flags(sort_spec(all), patterns),
            seeds_of(binds),
            skip_covered,
            strict_modes,
        ) {
            Err(e) => Err(e),
            Ok(bound) => Ok(bind_strings(bound.skip(seeds_of(binds).len() as int))),
        },
    }
}

/// `select_mounts` only ever adds behind the seeds.
pub proof fn lemma_select_keeps_seeds(
    sorted: Seq<ResolvedMountView>,
    skipped: Seq<bool>,
    seeds: Seq<ResolvedMountView>,
    skip_covered: bool,
    strict_modes: bool,
)
    ensures
        match select_mounts(sorted, skipped, seeds, skip_covered, strict_modes) {
            Ok(bound) => seeds.len() <= bound.len() && bound.take(seeds.len() as int) == seeds,
            Err(_) => true,
        },
    decreases sorted.len(),
{
    if sorted.len() == 0 {
        assert(seeds.take(seeds.len() as int) =~= seeds);
    } else {
        lemma_select_keeps_seeds(sorted.drop_last(), skipped, seeds, skip_covered, strict_modes);
        match select_mounts(sorted.drop_last(), skipped, seeds, skip_covered, strict_modes) {
            Ok(bound) => {
                assert(bound.push(sorted.last()).take(seeds.len() as int) =~= bound.take(
                    seeds.len() as int,
                ));
            },
            Err(_) => {},
        }
    }
}

/// The mounts that the bind strings of `binds` stand for.
pub fn read_binds(binds: &Vec<String>) -> (r: Vec<ResolvedMount>)
    ensures
        views(r@) == seeds_of(views(binds@)),
{
    let mut out: Vec<ResolvedMount> = Vec::new();
    let ghost all = views(binds@);
    let mut i: usize = 0;
    proof {
        assert(all.take(0) =~= Seq::<Seq<char>>::empty());
        assert(views(out@) =~= Seq::<ResolvedMountView>::empty());
    }
    while i < binds.len()
        invariant
            i <= binds.len(),
            all == views(binds@),
            views(out@) == seeds_of(all.take(i as int)),
        decreases binds.len() - i,
    {
        proof {
            assert(all.take(i + 1).drop_last() =~= all.take(i as int));
            assert(all.take(i + 1).last() == binds@[i as int]@);
        }
        match read_bind(binds[i].as_str()) {
            Some(m) => {
                let ghost before = out@;
                out.push(m);
                proof {
                    assert(views(out@) =~= views(before).push(m@));
                }
            },
            None => {},
        }
        i += 1;
    }
    proof {
        assert(all.take(binds.len() as int) =~= all);
    }
    out
}

/// Resolves every mount of `mounts` with its symlink chain.
pub fn resolve_mounts(mounts: &[Mount], host_home: &str, container_home: &str, fs: &FsSnapshot) -> (r:
    Result<Vec<ResolvedMount>, MountError>)
    ensures
        crate::resolve::mounts_result_view(r) == resolve_all(
            views(mounts@),
            host_home@,
            container_home@,
            fs@,
        ),
{
    let mut out: Vec<ResolvedMount> = Vec::new();
    let ghost all = views(mounts@);
    let mut i: usize = 0;
    proof {
        assert(all.take(0) =~= Seq::<MountView>::empty());
        assert(views(out@) =~= Seq::<ResolvedMountView>::empty());
    }
    while i < mounts.len()
        invariant
            i <= mounts.len(),
            all == views(mounts@),
            resolve_all(all.take(i as int), host_home@, container_home@, fs@) == Ok::<
                Seq<ResolvedMountView>,
                MountErrorView,
            >(views(out@)),
        decreases mounts.len() - i,
    {
        proof {
            assert(all.take(i + 1).drop_last() =~= all.take(i as int));
            assert(all.take(i + 1).last() == mounts@[i as int]@);
        }
        match mounts[i].to_resolved_mounts_with_homes(host_home, container_home, fs) {
            Ok(mut more) => {
                let ghost before = views(out@);
                let ghost added = views(more@);
                out.append(&mut more);
                proof {
                    assert(views(out@) =~= before + added);
                }
            },
            Err(e) => {
                proof {
                    assert(resolve_all(all.take(i + 1), host_home@, container_home@, fs@) == Err::<
                        Seq<ResolvedMountView>,
                        MountErrorView,
                    >(e@));
                    lemma_resolve_all_fails_on(all, host_home@, container_home@, fs@, i + 1);
                }
                return Err(e);
            },
        }
        i += 1;
    }
    proof {
        assert(all.take(mounts.len() as int) =~= all);
    }
    Ok(out)
}

/// Marks each mount of `sorted` whose host path one of `skip_patterns` matches.
pub fn mark_skipped(sorted: &[ResolvedMount], skip_patterns: &[String]) -> (r: Vec<bool>)
    ensures
        r@ == skip_flags(views(sorted@), views(skip_patterns@)),
{
    let mut flags: Vec<bool> = Vec::new();
    let mut i: usize = 0;
    while i < sorted.len()
        invariant
            i <= sorted.len(),
            flags@.len() == i,
            forall|j: int|
                0 <= j < i ==> flags@[j] == matches_any(
                    views(skip_patterns@),
                    views(sorted@)[j].host,
                ),
        decreases sorted.len() - i,
    {
        flags.push(should_skip_path(sorted[i].host.as_str(), skip_patterns));
        i += 1;
    }
    proof {
        assert(flags@ =~= skip_flags(views(sorted@), views(skip_patterns@)));
    }
    flags
}

/// The view of a result that holds resolved mounts or a mount error.
pub open spec fn bound_result_view(r: Result<Vec<ResolvedMount>, MountError>) -> Result<
    Seq<ResolvedMountView>,
    MountErrorView,
> {
    match r {
        Ok(v) => Ok(views(v@)),
        Err(e) => Err(e@),
    }
}

/// Looks at the mounts of `sorted` in turn and says what is bound in the
/// end, `seeds` first and behind them each mount that was taken. `skipped`
/// marks the mounts that are never bound on their own.
///
/// A mount is taken if it is not marked and none of the mounts bound
/// before it covers it; a covered mount is taken too where `should_skip`
/// is not set. With `strict_modes`, a read-write mount whose first
/// covering mount is read-only is an error, and the only one there is.
pub fn select_from(
    sorted: &[ResolvedMount],
    skipped: &[bool],
    seeds: Vec<ResolvedMount>,
    should_skip: bool,
    strict_modes: bool,
) -> (r: Result<Vec<ResolvedMount>, MountError>)
    ensures
        bound_result_view(r) == select_mounts(
            views(sorted@),
            skipped@,
            views(seeds@),
            should_skip,
            strict_modes,
        ),
{
    let mut bound = seeds;
    let ghost order = views(sorted@);
    let ghost start = views(seeds@);
    let mut i: usize = 0;
    proof {
        assert(order.take(0) =~= Seq::<ResolvedMountView>::empty());
    }
    while i < sorted.len()
        invariant
            i <= sorted.len(),
            order == views(sorted@),
            start == views(seeds@),
            select_mounts(order.take(i as int), skipped@, start, should_skip, strict_modes) == Ok::<
                Seq<ResolvedMountView>,
                MountErrorView,
            >(views(bound@)),
        decreases sorted.len() - i,
    {
        proof {
            assert(order.take(i + 1).drop_last() =~= order.take(i as int));
            assert(order.take(i + 1).last() == sorted@[i as int]@);
        }
        let m = &sorted[i];
        let mut accept = false;
        if i < skipped.len() && skipped[i] {
        } else {
            match find_covering_mount(m.host.as_str(), bound.as_slice()) {
                Some(cover) => {
                    if strict_modes && cover.mode == MountMode::Ro && m.mode == MountMode::Rw {
                        let e = MountError::ModeConflict {
                            path: m.host.clone(),
                            covered_by: cover.host.clone(),
                        };
                        proof {
                            assert(select_mounts(
                                order.take(i + 1),
                                skipped@,
                                start,
                                should_skip,
                                strict_modes,
                            ) == Err::<Seq<ResolvedMountView>, MountErrorView>(e@));
                            lemma_select_fails_on(
                                order,
                                skipped@,
                                start,
                                should_skip,
                                strict_modes,
                                i + 1,
                            );
                        }
                        return Err(e);
                    }
                    accept = !should_skip;
                },
                None => {
                    accept = true;
                },
            }
        }
        if accept {
            let ghost before = views(bound@);
            bound.push(m.duplicate());
            proof {
                assert(views(bound@) =~= before.push(m@));
            }
        }
        i += 1;
    }
    proof {
        assert(order.take(sorted.len() as int) =~= order);
    }
    Ok(bound)
}

/// Plans the requested `mounts` and appends the bind string of each mount
/// that is to be bound to `binds`.
///
/// `binds` holds what is bound already; a mount that one of these covers
/// counts as covered. `should_skip` says whether a covered mount is left
/// out; a path that one of `skip_patterns` matches is left out in any
/// case. With `strict_modes`, a read-write mount inside a read-only one is
/// an error instead.
///
/// On any error `binds` is left as it was.
pub fn add_mounts(
    mounts: &[Mount],
    binds: &mut Vec<String>,
    should_skip: bool,
    strict_modes: bool,
    skip_patterns: &[String],
    host_home: &str,
    container_home: &str,
    fs: &FsSnapshot,
) -> (r: Result<(), MountError>)
    ensures
        match planned_binds(
            views(mounts@),
            views(old(binds)@),
            should_skip,
            strict_modes,
            views(skip_patterns@),
            host_home@,
            container_home@,
            fs@,
        ) {
            Ok(added) => r is Ok && views(final(binds)@) == views(old(binds)@) + added,
            Err(e) => r is Err && r->Err_0@ == e && views(final(binds)@) == views(old(binds)@),
        },
{
    let seeds = read_binds(binds);
    let seed_count: usize = seeds.len();
    let ghost start = views(seeds@);
    let all = match resolve_mounts(mounts, host_home, container_home, fs) {
        Ok(all) => all,
        Err(e) => {
            return Err(e);
        },
    };
    let sorted = sort_by_host(all);
    let skipped = mark_skipped(sorted.as_slice(), skip_patterns);
    let bound = match select_from(
        sorted.as_slice(),
        skipped.as_slice(),
        seeds,
        should_skip,
        strict_modes,
    ) {
        Ok(bound) => bound,
        Err(e) => {
            return Err(e);
        },
    };
    proof {
        lemma_select_keeps_seeds(views(sorted@), skipped@, start, should_skip, strict_modes);
    }
    let ghost taken = views(bound@).skip(seed_count as int);
    let mut i: usize = seed_count;
    proof {
        assert(bind_strings(taken.take(0)) =~= Seq::<Seq<char>>::empty());
        assert(views(binds@) =~= views(old(binds)@) + bind_strings(taken.take(0)));
    }
    while i < bound.len()
        invariant
            seed_count <= i <= bound.len(),
            taken == views(bound@).skip(seed_count as int),
            views(binds@) == views(old(binds)@) + bind_strings(taken.take(i - seed_count)),
        decreases bound.len() - i,
    {
        let ghost before = binds@;
        binds.push(bound[i].to_bind_string());
        proof {
            let k = i - seed_count;
            assert(taken[k] == bound@[i as int]@);
            assert(bind_strings(taken.take(k + 1)) =~= bind_strings(taken.take(k)).push(
                bind_string(taken[k]),
            ));
            assert(views(binds@) =~= views(before).push(bind_string(taken[k])));
        }
        i += 1;
    }
    proof {
        assert(taken.take(bound.len() - seed_count) =~= taken);
    }
    Ok(())
}

} // verus!
