//! What holds of every resolution of profiles.

use vstd::prelude::*;
use crate::config::{has_profile, lemma_position_of, mounts_of, profile_of, ConfigView};
use crate::config::ProfileEntryView;
use crate::profile::{lemma_path_grows, merged, own_entries, path_known, profiles_to_apply};
use crate::profile::{base_entries, resolve_each, resolve_one, resolve_profiles_spec};
use crate::profile::{empty_profile, lemma_merged_laws, ProfileErrorView, ResolvedProfileView};

verus! {

/// Whether the profile `child` exists and names `parent` among those it
/// extends.
pub open spec fn extends_directly(
    entries: Seq<ProfileEntryView>,
    child: Seq<char>,
    parent: Seq<char>,
) -> bool {
    match profile_of(entries, child) {
        Some(p) => p.extends.contains(parent),
        None => false,
    }
}

/// Whether `walk` is a line of inheritance: each of its profiles names
/// the next among those it extends.
pub open spec fn is_line(entries: Seq<ProfileEntryView>, walk: Seq<Seq<char>>) -> bool {
    forall|i: int| 0 <= i < walk.len() - 1 ==> extends_directly(entries, #[trigger] walk[i], walk[i + 1])
}

/// Whether inheritance leads from `from` to `to`, in any number of steps.
pub open spec fn reaches(entries: Seq<ProfileEntryView>, from: Seq<char>, to: Seq<char>) -> bool {
    exists|walk: Seq<Seq<char>>|
        walk.len() >= 1 && walk[0] == from && walk.last() == to && is_line(entries, walk)
}

/// Whether inheritance leads from `name` back to `name`, in one step or more.
pub open spec fn on_cycle(entries: Seq<ProfileEntryView>, name: Seq<char>) -> bool {
    exists|walk: Seq<Seq<char>>|
        walk.len() >= 2 && walk[0] == name && walk.last() == name && is_line(entries, walk)
}

/// Whether inheritance leads from `start` to a profile on a cycle.
pub open spec fn reaches_cycle(entries: Seq<ProfileEntryView>, start: Seq<char>) -> bool {
    exists|name: Seq<char>| reaches(entries, start, name) && on_cycle(entries, name)
}

/// Whether every profile that a profile extends exists.
pub open spec fn references_exist(entries: Seq<ProfileEntryView>) -> bool {
    forall|i: int, j: int|
        0 <= i < entries.len() && 0 <= j < entries[i].profile.extends.len() ==> has_profile(
            entries,
            #[trigger] entries[i].profile.extends[j],
        )
}

/// Where a list of profiles resolves, each of them resolves.
pub proof fn lemma_each_ok(
    entries: Seq<ProfileEntryView>,
    names: Seq<Seq<char>>,
    path: Seq<Seq<char>>,
    i: int,
)
    requires
        path_known(entries, path),
        resolve_each(entries, names, path) is Ok,
        0 <= i < names.len(),
    ensures
        resolve_one(entries, names[i], path) is Ok,
    decreases names.len(),
{
    if i < names.len() - 1 {
        lemma_each_ok(entries, names.drop_last(), path, i);
    }
}

/// Where a profile resolves below `path`, it is not on `path`, it exists,
/// and each profile it extends resolves below it.
pub proof fn lemma_ok_parents(
    entries: Seq<ProfileEntryView>,
    name: Seq<char>,
    path: Seq<Seq<char>>,
    parent: Seq<char>,
)
    requires
        path_known(entries, path),
        resolve_one(entries, name, path) is Ok,
        extends_directly(entries, name, parent),
    ensures
        !path.contains(name),
        has_profile(entries, name),
        path_known(entries, path.push(name)),
        resolve_one(entries, parent, path.push(name)) is Ok,
{
    lemma_position_of(entries, name);
    lemma_path_grows(entries, path, name);
    let p = profile_of(entries, name).unwrap();
    let i = choose|i: int| 0 <= i < p.extends.len() && p.extends[i] == parent;
    lemma_each_ok(entries, p.extends, path.push(name), i);
}

/// Where the first profile of a line of inheritance resolves, each
/// profile on the line resolves below those before it.
pub proof fn lemma_ok_along(
    entries: Seq<ProfileEntryView>,
    walk: Seq<Seq<char>>,
    path: Seq<Seq<char>>,
    k: int,
)
    requires
        path_known(entries, path),
        is_line(entries, walk),
        0 <= k < walk.len(),
        resolve_one(entries, walk[0], path) is Ok,
    ensures
        path_known(entries, path + walk.take(k)),
        resolve_one(entries, walk[k], path + walk.take(k)) is Ok,
    decreases k,
{
    if k == 0 {
        assert(path + walk.take(0) =~= path);
    } else {
        lemma_ok_along(entries, walk, path, k - 1);
        let before = path + walk.take(k - 1);
        assert(extends_directly(entries, walk[k - 1], walk[k]));
        lemma_ok_parents(entries, walk[k - 1], before, walk[k]);
        assert(before.push(walk[k - 1]) =~= path + walk.take(k));
    }
}

/// A profile from which inheritance leads into a cycle does not resolve.
pub proof fn lemma_cycle_fails(entries: Seq<ProfileEntryView>, start: Seq<char>)
    requires
        reaches_cycle(entries, start),
    ensures
        resolve_one(entries, start, Seq::empty()) is Err,
{
    let name = choose|name: Seq<char>| reaches(entries, start, name) && on_cycle(entries, name);
    let to = choose|walk: Seq<Seq<char>>|
        walk.len() >= 1 && walk[0] == start && walk.last() == name && is_line(entries, walk);
    let round = choose|walk: Seq<Seq<char>>|
        walk.len() >= 2 && walk[0] == name && walk.last() == name && is_line(entries, walk);
    let whole = to + round.drop_first();
    let joint = to.len() - 1;
    assert forall|i: int| 0 <= i < whole.len() - 1 implies extends_directly(
        entries,
        #[trigger] whole[i],
        whole[i + 1],
    ) by {
        if i < joint {
            assert(whole[i] == to[i] && whole[i + 1] == to[i + 1]);
        } else {
            assert(whole[i] == round[i - joint]);
            assert(whole[i + 1] == round[i - joint + 1]);
        }
    }
    let k = whole.len() - 1;
    let none = Seq::<Seq<char>>::empty();
    assert(path_known(entries, none));
    if resolve_one(entries, start, none) is Ok {
        lemma_ok_along(entries, whole, none, k);
        let before = none + whole.take(k);
        assert(whole[k] == name);
        assert(before[joint] == name);
        assert(before.contains(name));
        // A profile that resolves is not among those above it.
        assert(resolve_one(entries, name, before) is Err);
    }
}

/// What a failed resolution names when the failure is a cycle: a profile
/// that is on a cycle. This holds below any line of inheritance that
/// leads to the profile.
pub proof fn lemma_circular_one(
    entries: Seq<ProfileEntryView>,
    name: Seq<char>,
    path: Seq<Seq<char>>,
)
    requires
        path_known(entries, path),
        is_line(entries, path.push(name)),
        resolve_one(entries, name, path) is Err,
        resolve_one(entries, name, path)->Err_0 is CircularDependency,
    ensures
        on_cycle(entries, resolve_one(entries, name, path)->Err_0->CircularDependency_name),
    decreases entries.len() - path.len(), 0int, 0int,
{
    if path.contains(name) {
        let at = choose|i: int| 0 <= i < path.len() && path[i] == name;
        let walk = path.skip(at).push(name);
        let line = path.push(name);
        assert forall|i: int| 0 <= i < walk.len() - 1 implies extends_directly(
            entries,
            #[trigger] walk[i],
            walk[i + 1],
        ) by {
            assert(walk[i] == line[at + i]);
            assert(walk[i + 1] == line[at + i + 1]);
        }
        assert(walk[0] == name && walk.last() == name && walk.len() >= 2);
    } else {
        lemma_position_of(entries, name);
        let p = profile_of(entries, name).unwrap();
        lemma_path_grows(entries, path, name);
        let deeper = path.push(name);
        assert forall|i: int| 0 <= i < p.extends.len() implies is_line(
            entries,
            deeper.push(#[trigger] p.extends[i]),
        ) by {
            lemma_line_grows(entries, deeper, p.extends[i]);
        }
        lemma_circular_each(entries, p.extends, deeper);
    }
}

/// A line of inheritance with one more profile that its last one extends
/// is a line of inheritance.
pub proof fn lemma_line_grows(
    entries: Seq<ProfileEntryView>,
    line: Seq<Seq<char>>,
    parent: Seq<char>,
)
    requires
        is_line(entries, line),
        line.len() >= 1,
        extends_directly(entries, line.last(), parent),
    ensures
        is_line(entries, line.push(parent)),
{
    let longer = line.push(parent);
    assert forall|i: int| 0 <= i < longer.len() - 1 implies extends_directly(
        entries,
        #[trigger] longer[i],
        longer[i + 1],
    ) by {
        if i < line.len() - 1 {
            assert(longer[i] == line[i] && longer[i + 1] == line[i + 1]);
        }
    }
}

/// As `lemma_circular_one`, for a list of profiles that are resolved
/// below the same line.
pub proof fn lemma_circular_each(
    entries: Seq<ProfileEntryView>,
    names: Seq<Seq<char>>,
    path: Seq<Seq<char>>,
)
    requires
        path_known(entries, path),
        forall|i: int| 0 <= i < names.len() ==> is_line(entries, path.push(#[trigger] names[i])),
        resolve_each(entries, names, path) is Err,
        resolve_each(entries, names, path)->Err_0 is CircularDependency,
    ensures
        on_cycle(entries, resolve_each(entries, names, path)->Err_0->CircularDependency_name),
    decreases entries.len() - path.len(), 1int, names.len(),
{
    if names.len() > 0 {
        let before = names.drop_last();
        if resolve_each(entries, before, path) is Err {
            assert forall|i: int| 0 <= i < before.len() implies is_line(
                entries,
                path.push(#[trigger] before[i]),
            ) by {
                assert(before[i] == names[i]);
            }
            lemma_circular_each(entries, before, path);
        } else {
            assert(is_line(entries, path.push(names[names.len() - 1])));
            lemma_circular_one(entries, names.last(), path);
        }
    }
}

/// Where every reference exists, resolving a profile that exists never
/// fails for want of a profile.
pub proof fn lemma_known_one(entries: Seq<ProfileEntryView>, name: Seq<char>, path: Seq<Seq<char>>)
    requires
        references_exist(entries),
        has_profile(entries, name),
        path_known(entries, path),
    ensures
        resolve_one(entries, name, path) is Err ==> resolve_one(
            entries,
            name,
            path,
        )->Err_0 is CircularDependency,
    decreases entries.len() - path.len(), 0int, 0int,
{
    if !path.contains(name) {
        lemma_position_of(entries, name);
        lemma_path_grows(entries, path, name);
        let at = crate::config::position_of(entries, name);
        let p = profile_of(entries, name).unwrap();
        assert forall|j: int| 0 <= j < p.extends.len() implies has_profile(
            entries,
            #[trigger] p.extends[j],
        ) by {
            assert(has_profile(entries, entries[at].profile.extends[j]));
        }
        lemma_known_each(entries, p.extends, path.push(name));
    }
}

/// As `lemma_known_one`, for a list of profiles that all exist.
pub proof fn lemma_known_each(
    entries: Seq<ProfileEntryView>,
    names: Seq<Seq<char>>,
    path: Seq<Seq<char>>,
)
    requires
        references_exist(entries),
        forall|i: int| 0 <= i < names.len() ==> has_profile(entries, #[trigger] names[i]),
        path_known(entries, path),
    ensures
        resolve_each(entries, names, path) is Err ==> resolve_each(
            entries,
            names,
            path,
        )->Err_0 is CircularDependency,
    decreases entries.len() - path.len(), 1int, names.len(),
{
    if names.len() > 0 {
        let before = names.drop_last();
        assert forall|i: int| 0 <= i < before.len() implies has_profile(
            entries,
            #[trigger] before[i],
        ) by {
            assert(before[i] == names[i]);
        }
        lemma_known_each(entries, before, path);
        assert(has_profile(entries, names[names.len() - 1]));
        lemma_known_one(entries, names.last(), path);
    }
}

/// Whether every profile that inheritance leads to from `start` exists,
/// `start` itself too.
pub open spec fn closed_from(entries: Seq<ProfileEntryView>, start: Seq<char>) -> bool {
    forall|walk: Seq<Seq<char>>|
        walk.len() >= 1 && walk[0] == start && #[trigger] is_line(entries, walk) ==> has_profile(
            entries,
            walk.last(),
        )
}

/// What is closed from a profile is closed from each profile it extends.
pub proof fn lemma_closed_from_parent(
    entries: Seq<ProfileEntryView>,
    name: Seq<char>,
    parent: Seq<char>,
)
    requires
        closed_from(entries, name),
        extends_directly(entries, name, parent),
    ensures
        has_profile(entries, name),
        closed_from(entries, parent),
{
    let alone = seq![name];
    assert(is_line(entries, alone));
    assert(alone.last() == name);
    assert forall|walk: Seq<Seq<char>>|
        walk.len() >= 1 && walk[0] == parent && #[trigger] is_line(entries, walk) implies has_profile(
        entries,
        walk.last(),
    ) by {
        let longer = seq![name] + walk;
        assert forall|i: int| 0 <= i < longer.len() - 1 implies extends_directly(
            entries,
            #[trigger] longer[i],
            longer[i + 1],
        ) by {
            if i > 0 {
                assert(longer[i] == walk[i - 1] && longer[i + 1] == walk[i]);
            }
        }
        assert(is_line(entries, longer));
        assert(longer.last() == walk.last());
    }
}

/// Where every profile that is reached from `name` exists, resolving
/// `name` never fails for want of a profile.
pub proof fn lemma_reached_one(entries: Seq<ProfileEntryView>, name: Seq<char>, path: Seq<Seq<char>>)
    requires
        closed_from(entries, name),
        path_known(entries, path),
    ensures
        resolve_one(entries, name, path) is Err ==> resolve_one(
            entries,
            name,
            path,
        )->Err_0 is CircularDependency,
    decreases entries.len() - path.len(), 0int, 0int,
{
    let alone = seq![name];
    assert(is_line(entries, alone));
    assert(alone.last() == name);
    if !path.contains(name) {
        lemma_position_of(entries, name);
        lemma_path_grows(entries, path, name);
        let p = profile_of(entries, name).unwrap();
        assert forall|j: int| 0 <= j < p.extends.len() implies closed_from(
            entries,
            #[trigger] p.extends[j],
        ) by {
            lemma_closed_from_parent(entries, name, p.extends[j]);
        }
        lemma_reached_each(entries, p.extends, path.push(name));
    }
}

/// As `lemma_reached_one`, for a list of profiles.
pub proof fn lemma_reached_each(
    entries: Seq<ProfileEntryView>,
    names: Seq<Seq<char>>,
    path: Seq<Seq<char>>,
)
    requires
        forall|i: int| 0 <= i < names.len() ==> closed_from(entries, #[trigger] names[i]),
        path_known(entries, path),
    ensures
        resolve_each(entries, names, path) is Err ==> resolve_each(
            entries,
            names,
            path,
        )->Err_0 is CircularDependency,
    decreases entries.len() - path.len(), 1int, names.len(),
{
    if names.len() > 0 {
        let before = names.drop_last();
        assert forall|i: int| 0 <= i < before.len() implies closed_from(
            entries,
            #[trigger] before[i],
        ) by {
            assert(before[i] == names[i]);
        }
        lemma_reached_each(entries, before, path);
        assert(closed_from(entries, names[names.len() - 1]));
        lemma_reached_one(entries, names.last(), path);
    }
}

/// Cycle rejection. A request fails whenever inheritance leads from one of
/// the profiles it applies into a cycle. Where the failure is a cycle, the
/// profile it names is on a cycle; and the failure is a cycle wherever
/// every profile that inheritance leads to from an applied profile exists,
/// and so wherever all applied profiles and all profiles that any profile
/// extends exist.
pub proof fn lemma_cycle_rejected(c: ConfigView, asked: Seq<Seq<char>>, k: int)
    requires
        0 <= k < profiles_to_apply(c.default_profile, asked).len(),
        reaches_cycle(c.profiles, profiles_to_apply(c.default_profile, asked)[k]),
    ensures
        resolve_profiles_spec(c, asked) is Err,
        resolve_profiles_spec(c, asked)->Err_0 is CircularDependency ==> on_cycle(
            c.profiles,
            resolve_profiles_spec(c, asked)->Err_0->CircularDependency_name,
        ),
        references_exist(c.profiles) && (forall|i: int|
            0 <= i < profiles_to_apply(c.default_profile, asked).len() ==> has_profile(
                c.profiles,
                #[trigger] profiles_to_apply(c.default_profile, asked)[i],
            )) ==> resolve_profiles_spec(c, asked)->Err_0 is CircularDependency,
        (forall|i: int|
            0 <= i < profiles_to_apply(c.default_profile, asked).len() ==> closed_from(
                c.profiles,
                #[trigger] profiles_to_apply(c.default_profile, asked)[i],
            )) ==> resolve_profiles_spec(c, asked)->Err_0 is CircularDependency,
{
    let applied = profiles_to_apply(c.default_profile, asked);
    let none = Seq::<Seq<char>>::empty();
    assert(path_known(c.profiles, none));
    lemma_cycle_fails(c.profiles, applied[k]);
    if resolve_each(c.profiles, applied, none) is Ok {
        lemma_each_ok(c.profiles, applied, none, k);
    }
    let failure = resolve_each(c.profiles, applied, none)->Err_0;
    assert(resolve_profiles_spec(c, asked) == Err::<ResolvedProfileView, ProfileErrorView>(failure));
    if failure is CircularDependency {
        assert forall|i: int| 0 <= i < applied.len() implies is_line(
            c.profiles,
            none.push(#[trigger] applied[i]),
        ) by {
        }
        lemma_circular_each(c.profiles, applied, none);
    }
    if references_exist(c.profiles) && (forall|i: int|
        0 <= i < applied.len() ==> has_profile(c.profiles, #[trigger] applied[i])) {
        lemma_known_each(c.profiles, applied, none);
    }
    if forall|i: int| 0 <= i < applied.len() ==> closed_from(c.profiles, #[trigger] applied[i]) {
        lemma_reached_each(c.profiles, applied, none);
    }
}

/// The own entries of the profiles `asked`, one profile after another.
pub open spec fn entries_in_order(entries: Seq<ProfileEntryView>, asked: Seq<Seq<char>>) -> ResolvedProfileView
    decreases asked.len(),
{
    if asked.len() == 0 {
        empty_profile()
    } else {
        merged(
            entries_in_order(entries, asked.drop_last()),
            match profile_of(entries, asked.last()) {
                Some(p) => own_entries(p),
                None => empty_profile(),
            },
        )
    }
}

/// A profile that exists and extends nothing resolves to its own
/// entries, below any line of inheritance that it is not on.
pub proof fn lemma_flat_profile_below(
    entries: Seq<ProfileEntryView>,
    name: Seq<char>,
    path: Seq<Seq<char>>,
)
    requires
        path_known(entries, path),
        !path.contains(name),
        has_profile(entries, name),
        profile_of(entries, name).unwrap().extends.len() == 0,
    ensures
        resolve_one(entries, name, path) == Ok::<ResolvedProfileView, ProfileErrorView>(
            own_entries(profile_of(entries, name).unwrap()),
        ),
{
    lemma_position_of(entries, name);
    lemma_path_grows(entries, path, name);
    let p = profile_of(entries, name).unwrap();
    assert(resolve_each(entries, p.extends, path.push(name)) == Ok::<
        ResolvedProfileView,
        ProfileErrorView,
    >(empty_profile()));
    lemma_merged_laws(own_entries(p), empty_profile(), empty_profile());
}

/// A profile that exists and extends nothing resolves to its own entries.
pub proof fn lemma_flat_profile(entries: Seq<ProfileEntryView>, name: Seq<char>)
    requires
        has_profile(entries, name),
        profile_of(entries, name).unwrap().extends.len() == 0,
    ensures
        resolve_one(entries, name, Seq::empty()) == Ok::<ResolvedProfileView, ProfileErrorView>(
            own_entries(profile_of(entries, name).unwrap()),
        ),
{
    let none = Seq::<Seq<char>>::empty();
    assert(path_known(entries, none));
    lemma_flat_profile_below(entries, name, none);
}

/// Profiles that exist and extend nothing resolve, one after another, to
/// their own entries in the same order.
pub proof fn lemma_flat_profiles(entries: Seq<ProfileEntryView>, asked: Seq<Seq<char>>)
    requires
        forall|i: int|
            0 <= i < asked.len() ==> has_profile(entries, #[trigger] asked[i]) && profile_of(
                entries,
                asked[i],
            ).unwrap().extends.len() == 0,
    ensures
        resolve_each(entries, asked, Seq::empty()) == Ok::<ResolvedProfileView, ProfileErrorView>(
            entries_in_order(entries, asked),
        ),
    decreases asked.len(),
{
    let none = Seq::<Seq<char>>::empty();
    assert(path_known(entries, none));
    if asked.len() > 0 {
        let before = asked.drop_last();
        assert forall|i: int| 0 <= i < before.len() implies has_profile(
            entries,
            #[trigger] before[i],
        ) && profile_of(entries, before[i]).unwrap().extends.len() == 0 by {
            assert(before[i] == asked[i]);
        }
        lemma_flat_profiles(entries, before);
        assert(has_profile(entries, asked[asked.len() - 1]));
        lemma_flat_profile(entries, asked.last());
    }
}

/// Order preservation: a request for profiles that extend nothing, with
/// no default profile, gives the base runtime entries followed by the
/// entries of each profile asked for, in the order asked.
pub proof fn lemma_order_preserved(c: ConfigView, asked: Seq<Seq<char>>)
    requires
        c.default_profile is None,
        forall|i: int|
            0 <= i < asked.len() ==> has_profile(c.profiles, #[trigger] asked[i]) && profile_of(
                c.profiles,
                asked[i],
            ).unwrap().extends.len() == 0,
    ensures
        resolve_profiles_spec(c, asked) == Ok::<ResolvedProfileView, ProfileErrorView>(
            merged(base_entries(c), entries_in_order(c.profiles, asked)),
        ),
{
    lemma_flat_profiles(c.profiles, asked);
}

/// The case of two profiles: the environment is that of the runtime, then
/// that of the first profile, then that of the second.
pub proof fn lemma_two_profiles_in_order(c: ConfigView, first: Seq<char>, second: Seq<char>)
    requires
        c.default_profile is None,
        has_profile(c.profiles, first),
        has_profile(c.profiles, second),
        profile_of(c.profiles, first).unwrap().extends.len() == 0,
        profile_of(c.profiles, second).unwrap().extends.len() == 0,
    ensures
        resolve_profiles_spec(c, seq![first, second]) is Ok,
        resolve_profiles_spec(c, seq![first, second])->Ok_0.env == c.runtime.env + profile_of(
            c.profiles,
            first,
        ).unwrap().env + profile_of(c.profiles, second).unwrap().env,
{
    let asked = seq![first, second];
    assert forall|i: int| 0 <= i < asked.len() implies has_profile(c.profiles, #[trigger] asked[i])
        && profile_of(c.profiles, asked[i]).unwrap().extends.len() == 0 by {
    }
    lemma_order_preserved(c, asked);
    let one = asked.drop_last();
    assert(one =~= seq![first]);
    assert(one.drop_last() =~= Seq::<Seq<char>>::empty());
    assert(entries_in_order(c.profiles, one.drop_last()) == empty_profile());
    assert(one.last() == first && asked.last() == second);
    let pf = profile_of(c.profiles, first).unwrap();
    let ps = profile_of(c.profiles, second).unwrap();
    assert(entries_in_order(c.profiles, one) == merged(empty_profile(), own_entries(pf)));
    assert(entries_in_order(c.profiles, asked) == merged(
        entries_in_order(c.profiles, one),
        own_entries(ps),
    ));
    let got = resolve_profiles_spec(c, asked)->Ok_0;
    assert(got.env =~= c.runtime.env + profile_of(c.profiles, first).unwrap().env + profile_of(
        c.profiles,
        second,
    ).unwrap().env);
}

/// Two profiles are resolved one after the other, and the first that
/// fails decides.
pub proof fn lemma_resolve_two(
    entries: Seq<ProfileEntryView>,
    first: Seq<char>,
    second: Seq<char>,
    path: Seq<Seq<char>>,
)
    requires
        path_known(entries, path),
    ensures
        resolve_each(entries, seq![first], path) == resolve_one(entries, first, path),
        resolve_each(entries, seq![first, second], path) == match resolve_one(
            entries,
            first,
            path,
        ) {
            Err(e) => Err(e),
            Ok(a) => match resolve_one(entries, second, path) {
                Err(e) => Err(e),
                Ok(b) => Ok(merged(a, b)),
            },
        },
{
    let none = Seq::<Seq<char>>::empty();
    let one = seq![first];
    let two = seq![first, second];
    assert(one.drop_last() =~= none);
    assert(two.drop_last() =~= one);
    assert(resolve_each(entries, none, path) == Ok::<ResolvedProfileView, ProfileErrorView>(
        empty_profile(),
    ));
    match resolve_one(entries, first, path) {
        Ok(a) => {
            lemma_merged_laws(a, empty_profile(), empty_profile());
        },
        Err(_) => {},
    }
}

/// Diamond concatenation. Where `dev` extends `git` and `jj`, both of
/// which extend `base`, which extends nothing, resolving `dev` gives the
/// entries of `base`, `git`, `base` again, `jj` and `dev`, in this order:
/// what is reached twice is given twice.
pub proof fn lemma_diamond_concatenates(
    entries: Seq<ProfileEntryView>,
    base: Seq<char>,
    git: Seq<char>,
    jj: Seq<char>,
    dev: Seq<char>,
)
    requires
        has_profile(entries, base),
        has_profile(entries, git),
        has_profile(entries, jj),
        has_profile(entries, dev),
        base != git && base != jj && base != dev && git != jj && git != dev && jj != dev,
        profile_of(entries, base).unwrap().extends.len() == 0,
        profile_of(entries, git).unwrap().extends == seq![base],
        profile_of(entries, jj).unwrap().extends == seq![base],
        profile_of(entries, dev).unwrap().extends == seq![git, jj],
    ensures
        resolve_one(entries, dev, Seq::empty()) is Ok,
        resolve_one(entries, dev, Seq::empty())->Ok_0.env == profile_of(entries, base).unwrap().env
            + profile_of(entries, git).unwrap().env + profile_of(entries, base).unwrap().env
            + profile_of(entries, jj).unwrap().env + profile_of(entries, dev).unwrap().env,
        resolve_one(entries, dev, Seq::empty())->Ok_0.mounts == mounts_of(
            profile_of(entries, base).unwrap().mounts,
        ) + mounts_of(profile_of(entries, git).unwrap().mounts) + mounts_of(
            profile_of(entries, base).unwrap().mounts,
        ) + mounts_of(profile_of(entries, jj).unwrap().mounts) + mounts_of(
            profile_of(entries, dev).unwrap().mounts,
        ),
{
    let none = Seq::<Seq<char>>::empty();
    let pb = own_entries(profile_of(entries, base).unwrap());
    let pg = own_entries(profile_of(entries, git).unwrap());
    let pj = own_entries(profile_of(entries, jj).unwrap());
    let pd = own_entries(profile_of(entries, dev).unwrap());
    assert(path_known(entries, none));
    lemma_position_of(entries, dev);
    lemma_path_grows(entries, none, dev);
    let below_dev = none.push(dev);
    assert(!below_dev.contains(git)) by {
        assert forall|i: int| 0 <= i < below_dev.len() implies below_dev[i] != git by {
        }
    }
    assert(!below_dev.contains(jj)) by {
        assert forall|i: int| 0 <= i < below_dev.len() implies below_dev[i] != jj by {
        }
    }
    lemma_path_grows(entries, below_dev, git);
    lemma_path_grows(entries, below_dev, jj);
    let below_git = below_dev.push(git);
    let below_jj = below_dev.push(jj);
    assert(!below_git.contains(base)) by {
        assert forall|i: int| 0 <= i < below_git.len() implies below_git[i] != base by {
        }
    }
    assert(!below_jj.contains(base)) by {
        assert forall|i: int| 0 <= i < below_jj.len() implies below_jj[i] != base by {
        }
    }
    lemma_flat_profile_below(entries, base, below_git);
    lemma_flat_profile_below(entries, base, below_jj);
    lemma_resolve_two(entries, base, base, below_git);
    lemma_resolve_two(entries, base, base, below_jj);
    assert(resolve_one(entries, git, below_dev) == Ok::<ResolvedProfileView, ProfileErrorView>(
        merged(pb, pg),
    ));
    assert(resolve_one(entries, jj, below_dev) == Ok::<ResolvedProfileView, ProfileErrorView>(
        merged(pb, pj),
    ));
    lemma_resolve_two(entries, git, jj, below_dev);
    let got = merged(merged(merged(pb, pg), merged(pb, pj)), pd);
    assert(resolve_one(entries, dev, none) == Ok::<ResolvedProfileView, ProfileErrorView>(got));
    assert(got.env =~= pb.env + pg.env + pb.env + pj.env + pd.env);
    assert(got.mounts =~= pb.mounts + pg.mounts + pb.mounts + pj.mounts + pd.mounts);
}

/// `parts` merged one after another, the first first.
pub open spec fn merged_all(parts: Seq<ResolvedProfileView>) -> ResolvedProfileView
    decreases parts.len(),
{
    if parts.len() == 0 {
        empty_profile()
    } else {
        merged(merged_all(parts.drop_last()), parts.last())
    }
}

/// What each of the profiles `names` resolves to below `path`, in order.
pub open spec fn results_of(
    entries: Seq<ProfileEntryView>,
    names: Seq<Seq<char>>,
    path: Seq<Seq<char>>,
) -> Seq<ResolvedProfileView> {
    Seq::new(names.len(), |i: int| resolve_one(entries, names[i], path)->Ok_0)
}

/// Profiles that each resolve give, together, what each gives, one
/// after another in their order.
pub proof fn lemma_each_concatenates(
    entries: Seq<ProfileEntryView>,
    names: Seq<Seq<char>>,
    path: Seq<Seq<char>>,
)
    requires
        path_known(entries, path),
        forall|i: int| 0 <= i < names.len() ==> resolve_one(entries, #[trigger] names[i], path) is Ok,
    ensures
        resolve_each(entries, names, path) == Ok::<ResolvedProfileView, ProfileErrorView>(
            merged_all(results_of(entries, names, path)),
        ),
    decreases names.len(),
{
    if names.len() > 0 {
        let before = names.drop_last();
        assert forall|i: int| 0 <= i < before.len() implies resolve_one(
            entries,
            #[trigger] before[i],
            path,
        ) is Ok by {
            assert(before[i] == names[i]);
        }
        lemma_each_concatenates(entries, before, path);
        assert(resolve_one(entries, names[names.len() - 1], path) is Ok);
        assert(results_of(entries, names, path).drop_last() =~= results_of(entries, before, path));
    } else {
        assert(results_of(entries, names, path) =~= Seq::<ResolvedProfileView>::empty());
    }
}

/// Concatenation. A profile whose parents all resolve gives what its
/// parents give, in the order in which it names them, and then its own
/// entries. Nothing is dropped and nothing is given once where it is
/// reached twice: a parent of two of the profiles gives its entries with
/// each of them.
pub proof fn lemma_profile_concatenates(
    entries: Seq<ProfileEntryView>,
    name: Seq<char>,
    path: Seq<Seq<char>>,
)
    requires
        path_known(entries, path),
        !path.contains(name),
        has_profile(entries, name),
        forall|i: int|
            0 <= i < profile_of(entries, name).unwrap().extends.len() ==> resolve_one(
                entries,
                #[trigger] profile_of(entries, name).unwrap().extends[i],
                path.push(name),
            ) is Ok,
    ensures
        resolve_one(entries, name, path) == Ok::<ResolvedProfileView, ProfileErrorView>(
            merged(
                merged_all(
                    results_of(entries, profile_of(entries, name).unwrap().extends, path.push(name)),
                ),
                own_entries(profile_of(entries, name).unwrap()),
            ),
        ),
{
    lemma_position_of(entries, name);
    lemma_path_grows(entries, path, name);
    lemma_each_concatenates(entries, profile_of(entries, name).unwrap().extends, path.push(name));
}

} // verus!
