//! What validation promises: nothing it finds hides another finding, and
//! a configuration without errors resolves.

use vstd::prelude::*;
use crate::config::{has_profile, lemma_position_of, position_of, profile_of, ConfigView};
use crate::config::{names_of, ProfileEntryView};
use crate::text::join_spec;
use crate::profile::{lemma_path_grows, path_known, profiles_to_apply, resolve_each, resolve_one};
use crate::profile::resolve_profiles_spec;
use crate::profile_laws::references_exist;
use crate::validate::{cycle_among, cycle_errors, cycle_from, default_errors, errors_of};
use crate::validate::{profile_errors, self_reference_errors, unknown_parent_errors};
use crate::validate::{validation_spec, IssueView};

verus! {

/// The errors of the first `n` profiles are among the errors of all.
pub proof fn lemma_errors_of_contains(
    entries: Seq<ProfileEntryView>,
    some: Seq<ProfileEntryView>,
    i: int,
    x: IssueView,
)
    requires
        0 <= i < some.len(),
        profile_errors(entries, some[i]).contains(x),
    ensures
        errors_of(entries, some).contains(x),
    decreases some.len(),
{
    let before = errors_of(entries, some.drop_last());
    let last = profile_errors(entries, some.last());
    if i == some.len() - 1 {
        let k = choose|k: int| 0 <= k < last.len() && last[k] == x;
        assert((before + last)[before.len() + k] == x);
    } else {
        lemma_errors_of_contains(entries, some.drop_last(), i, x);
        let k = choose|k: int| 0 <= k < before.len() && before[k] == x;
        assert((before + last)[k] == x);
    }
}

/// Validation completeness. Every error that the default profile or any
/// single profile gives is among the errors of the configuration,
/// whatever other errors there are.
pub proof fn lemma_validation_complete(c: ConfigView, i: int, x: IssueView)
    ensures
        default_errors(c).contains(x) ==> validation_spec(c).errors.contains(x),
        0 <= i < c.profiles.len() && profile_errors(c.profiles, c.profiles[i]).contains(x)
            ==> validation_spec(c).errors.contains(x),
        validation_spec(c).errors.len() >= default_errors(c).len(),
{
    let first = default_errors(c);
    let rest = errors_of(c.profiles, c.profiles);
    if first.contains(x) {
        let k = choose|k: int| 0 <= k < first.len() && first[k] == x;
        assert((first + rest)[k] == x);
    }
    if 0 <= i < c.profiles.len() && profile_errors(c.profiles, c.profiles[i]).contains(x) {
        lemma_errors_of_contains(c.profiles, c.profiles, i, x);
        let k = choose|k: int| 0 <= k < rest.len() && rest[k] == x;
        assert((first + rest)[first.len() + k] == x);
    }
}

/// The error for the default profile `d` that does not exist.
pub open spec fn default_issue(c: ConfigView, d: Seq<char>) -> IssueView {
    IssueView {
        profile_name: None,
        message: "default_profile '"@ + d + "' is not defined. Available profiles: "@
            + join_spec(names_of(c.profiles), ", "@),
    }
}

/// The error for the profile `name` that extends `parent`, which does
/// not exist.
pub open spec fn unknown_parent_issue(
    entries: Seq<ProfileEntryView>,
    name: Seq<char>,
    parent: Seq<char>,
) -> IssueView {
    IssueView {
        profile_name: Some(name),
        message: "extends unknown profile '"@ + parent + "'. Available profiles: "@ + join_spec(
            names_of(entries),
            ", "@,
        ),
    }
}

/// The error for the profile `name` that extends itself.
pub open spec fn self_reference_issue(name: Seq<char>) -> IssueView {
    IssueView { profile_name: Some(name), message: "extends itself (self-reference)"@ }
}

/// The three faults of one configuration give three errors, each with a
/// text of its own: a default profile that does not exist, a profile that
/// extends one that does not exist, and a profile that extends itself.
pub proof fn lemma_three_faults_three_errors(c: ConfigView, i: int, j: int, k: int)
    requires
        c.default_profile is Some,
        !has_profile(c.profiles, c.default_profile->Some_0),
        0 <= i < c.profiles.len(),
        0 <= k < c.profiles[i].profile.extends.len(),
        !has_profile(c.profiles, c.profiles[i].profile.extends[k]),
        0 <= j < c.profiles.len(),
        c.profiles[j].profile.extends.contains(c.profiles[j].name),
    ensures
        validation_spec(c).errors.contains(default_issue(c, c.default_profile->Some_0)),
        validation_spec(c).errors.contains(
            unknown_parent_issue(
                c.profiles,
                c.profiles[i].name,
                c.profiles[i].profile.extends[k],
            ),
        ),
        validation_spec(c).errors.contains(self_reference_issue(c.profiles[j].name)),
        default_issue(c, c.default_profile->Some_0) != unknown_parent_issue(
            c.profiles,
            c.profiles[i].name,
            c.profiles[i].profile.extends[k],
        ),
        default_issue(c, c.default_profile->Some_0) != self_reference_issue(c.profiles[j].name),
        unknown_parent_issue(c.profiles, c.profiles[i].name, c.profiles[i].profile.extends[k])
            != self_reference_issue(c.profiles[j].name),
{
    let entries = c.profiles;
    let first = default_issue(c, c.default_profile->Some_0);
    let second = unknown_parent_issue(entries, entries[i].name, entries[i].profile.extends[k]);
    let third = self_reference_issue(entries[j].name);
    assert(default_errors(c)[0] == first);
    lemma_validation_complete(c, 0, first);
    lemma_unknown_parent_reported(entries, entries[i].name, entries[i].profile.extends, k);
    let mine = profile_errors(entries, entries[i]);
    let unknown = unknown_parent_errors(entries, entries[i].name, entries[i].profile.extends);
    let at = choose|at: int| 0 <= at < unknown.len() && unknown[at] == second;
    assert(mine[self_reference_errors(entries[i]).len() + at] == second);
    lemma_validation_complete(c, i, second);
    assert(self_reference_errors(entries[j])[0] == third);
    assert(profile_errors(entries, entries[j])[0] == third);
    lemma_validation_complete(c, j, third);
    assert(second.message != third.message) by {
        reveal_strlit("extends unknown profile '");
        reveal_strlit("extends itself (self-reference)");
        assert(second.message[8] == 'u');
        assert(third.message[8] == 'i');
    }
}

/// A parent that does not exist gives the error that names it.
pub proof fn lemma_unknown_parent_reported(
    entries: Seq<ProfileEntryView>,
    name: Seq<char>,
    parents: Seq<Seq<char>>,
    k: int,
)
    requires
        0 <= k < parents.len(),
        !has_profile(entries, parents[k]),
    ensures
        unknown_parent_errors(entries, name, parents).contains(
            unknown_parent_issue(entries, name, parents[k]),
        ),
    decreases parents.len(),
{
    let all = unknown_parent_errors(entries, name, parents);
    let before = unknown_parent_errors(entries, name, parents.drop_last());
    if k < parents.len() - 1 {
        lemma_unknown_parent_reported(entries, name, parents.drop_last(), k);
        let at = choose|at: int|
            0 <= at < before.len() && before[at] == unknown_parent_issue(entries, name, parents[k]);
        assert(all[at] == before[at]);
    } else {
        assert(all[before.len() as int] == unknown_parent_issue(entries, name, parents[k]));
    }
}

/// Where the profiles `some` give no error, none of them does.
pub proof fn lemma_no_errors_each(
    entries: Seq<ProfileEntryView>,
    some: Seq<ProfileEntryView>,
    i: int,
)
    requires
        errors_of(entries, some).len() == 0,
        0 <= i < some.len(),
    ensures
        profile_errors(entries, some[i]).len() == 0,
    decreases some.len(),
{
    if i < some.len() - 1 {
        lemma_no_errors_each(entries, some.drop_last(), i);
    }
}

/// Where no parent is reported as unknown, every parent exists.
pub proof fn lemma_parents_exist(
    entries: Seq<ProfileEntryView>,
    name: Seq<char>,
    parents: Seq<Seq<char>>,
    k: int,
)
    requires
        unknown_parent_errors(entries, name, parents).len() == 0,
        0 <= k < parents.len(),
    ensures
        has_profile(entries, parents[k]),
    decreases parents.len(),
{
    if k < parents.len() - 1 {
        lemma_parents_exist(entries, name, parents.drop_last(), k);
    }
}

/// Where none of `parents` leads into a circle, no single one does.
pub proof fn lemma_no_cycle_among(
    entries: Seq<ProfileEntryView>,
    parents: Seq<Seq<char>>,
    path: Seq<Seq<char>>,
    k: int,
)
    requires
        path_known(entries, path),
        cycle_among(entries, parents, path) is None,
        0 <= k < parents.len(),
    ensures
        cycle_from(entries, parents[k], path) is None,
    decreases parents.len(),
{
    if k < parents.len() - 1 {
        lemma_no_cycle_among(entries, parents.drop_last(), path, k);
    }
}

/// A profile that exists, with all references in place and no circle of
/// inheritance from it, resolves.
pub proof fn lemma_sound_one(entries: Seq<ProfileEntryView>, name: Seq<char>, path: Seq<Seq<char>>)
    requires
        references_exist(entries),
        has_profile(entries, name),
        path_known(entries, path),
        cycle_from(entries, name, path) is None,
    ensures
        resolve_one(entries, name, path) is Ok,
    decreases entries.len() - path.len(), 0int, 0int,
{
    lemma_position_of(entries, name);
    lemma_path_grows(entries, path, name);
    let at = position_of(entries, name);
    let p = profile_of(entries, name).unwrap();
    let deeper = path.push(name);
    assert forall|k: int| 0 <= k < p.extends.len() implies has_profile(
        entries,
        #[trigger] p.extends[k],
    ) && cycle_from(entries, p.extends[k], deeper) is None by {
        assert(has_profile(entries, entries[at].profile.extends[k]));
        lemma_no_cycle_among(entries, p.extends, deeper, k);
    }
    lemma_sound_each(entries, p.extends, deeper);
}

/// As `lemma_sound_one`, for a list of profiles.
pub proof fn lemma_sound_each(
    entries: Seq<ProfileEntryView>,
    names: Seq<Seq<char>>,
    path: Seq<Seq<char>>,
)
    requires
        references_exist(entries),
        path_known(entries, path),
        forall|k: int|
            0 <= k < names.len() ==> has_profile(entries, #[trigger] names[k]) && cycle_from(
                entries,
                names[k],
                path,
            ) is None,
    ensures
        resolve_each(entries, names, path) is Ok,
    decreases entries.len() - path.len(), 1int, names.len(),
{
    if names.len() > 0 {
        let before = names.drop_last();
        assert forall|k: int| 0 <= k < before.len() implies has_profile(
            entries,
            #[trigger] before[k],
        ) && cycle_from(entries, before[k], path) is None by {
            assert(before[k] == names[k]);
        }
        lemma_sound_each(entries, before, path);
        assert(has_profile(entries, names[names.len() - 1]));
        lemma_sound_one(entries, names.last(), path);
    }
}

/// What the absence of errors means: the default profile exists, every
/// reference exists, and from no profile does inheritance lead in a circle.
pub proof fn lemma_valid_means_sound(c: ConfigView)
    requires
        validation_spec(c).errors.len() == 0,
    ensures
        c.default_profile is Some ==> has_profile(c.profiles, c.default_profile->Some_0),
        references_exist(c.profiles),
        forall|name: Seq<char>| #[trigger]
            has_profile(c.profiles, name) ==> cycle_from(c.profiles, name, Seq::empty()) is None,
{
    let entries = c.profiles;
    assert(default_errors(c).len() == 0);
    assert(errors_of(entries, entries).len() == 0);
    assert forall|i: int, j: int|
        0 <= i < entries.len() && 0 <= j < entries[i].profile.extends.len() implies has_profile(
        entries,
        #[trigger] entries[i].profile.extends[j],
    ) by {
        lemma_no_errors_each(entries, entries, i);
        lemma_parents_exist(entries, entries[i].name, entries[i].profile.extends, j);
    }
    assert forall|name: Seq<char>| #[trigger] has_profile(entries, name) implies cycle_from(
        entries,
        name,
        Seq::empty(),
    ) is None by {
        lemma_position_of(entries, name);
        let at = position_of(entries, name);
        lemma_no_errors_each(entries, entries, at);
        assert(self_reference_errors(entries[at]).len() == 0);
        assert(cycle_errors(entries, entries[at]).len() == 0);
    }
}

/// Validation is sound: a configuration without errors resolves every
/// request for profiles that exist.
pub proof fn lemma_valid_config_resolves(c: ConfigView, asked: Seq<Seq<char>>)
    requires
        validation_spec(c).errors.len() == 0,
        forall|i: int| 0 <= i < asked.len() ==> has_profile(c.profiles, #[trigger] asked[i]),
    ensures
        resolve_profiles_spec(c, asked) is Ok,
{
    lemma_valid_means_sound(c);
    let applied = profiles_to_apply(c.default_profile, asked);
    let none = Seq::<Seq<char>>::empty();
    assert(path_known(c.profiles, none));
    assert forall|k: int| 0 <= k < applied.len() implies has_profile(
        c.profiles,
        #[trigger] applied[k],
    ) && cycle_from(c.profiles, applied[k], none) is None by {
        match c.default_profile {
            Some(d) => {
                if k > 0 {
                    assert(applied[k] == asked[k - 1]);
                }
            },
            None => {},
        }
    }
    lemma_sound_each(c.profiles, applied, none);
}

} // verus!
