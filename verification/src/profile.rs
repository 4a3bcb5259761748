//! Profile resolution: a profile and all it inherits from, flattened into
//! ordered lists of mounts and environment variables.

use vstd::prelude::*;
use crate::config::{has_profile, lemma_position_of, mounts_of, names_of, profile_of};
use crate::config::{Config, ConfigView, ProfileConfigView, ProfileEntryView};
use crate::mount::{Mount, MountMode, MountView};
use crate::text::{clone_strings, concat, concat3, contains_str, extend_strings, join, join_spec};
use crate::text::views;

verus! {

/// What a `ResolvedProfile` holds, as plain sequences.
pub struct ResolvedProfileView {
    pub mounts: Seq<MountView>,
    pub env: Seq<Seq<char>>,
    pub ports: Seq<Seq<char>>,
    pub hosts: Seq<Seq<char>>,
}

/// What resolution gives: every list in the order in which its entries
/// came in, nothing overwritten and nothing dropped.
#[derive(Debug, Clone, PartialEq)]
pub struct ResolvedProfile {
    pub mounts: Vec<Mount>,
    /// Environment variables as `KEY=VALUE`; of two for one key the later
    /// one counts in the container.
    pub env: Vec<String>,
    /// Port mappings.
    pub ports: Vec<String>,
    /// Entries for the container's hosts file.
    pub hosts: Vec<String>,
}

impl View for ResolvedProfile {
    type V = ResolvedProfileView;

    open spec fn view(&self) -> ResolvedProfileView {
        ResolvedProfileView {
            mounts: views(self.mounts@),
            env: views(self.env@),
            ports: views(self.ports@),
            hosts: views(self.hosts@),
        }
    }
}

/// The resolved profile without any entry.
pub open spec fn empty_profile() -> ResolvedProfileView {
    ResolvedProfileView {
        mounts: Seq::empty(),
        env: Seq::empty(),
        ports: Seq::empty(),
        hosts: Seq::empty(),
    }
}

/// `a` with the entries of `b` behind its own, list by list.
pub open spec fn merged(a: ResolvedProfileView, b: ResolvedProfileView) -> ResolvedProfileView {
    ResolvedProfileView {
        mounts: a.mounts + b.mounts,
        env: a.env + b.env,
        ports: a.ports + b.ports,
        hosts: a.hosts + b.hosts,
    }
}

/// What a profile brings by itself, apart from what it inherits.
pub open spec fn own_entries(p: ProfileConfigView) -> ResolvedProfileView {
    ResolvedProfileView {
        mounts: mounts_of(p.mounts),
        env: p.env,
        ports: Seq::empty(),
        hosts: Seq::empty(),
    }
}

/// What the base runtime settings bring: the seed of every resolution.
pub open spec fn base_entries(c: ConfigView) -> ResolvedProfileView {
    ResolvedProfileView {
        mounts: mounts_of(c.runtime.mounts),
        env: c.runtime.env,
        ports: Seq::empty(),
        hosts: Seq::empty(),
    }
}

/// Merging is associative, and the empty profile is neutral on both sides.
pub proof fn lemma_merged_laws(
    a: ResolvedProfileView,
    b: ResolvedProfileView,
    c: ResolvedProfileView,
)
    ensures
        merged(merged(a, b), c) == merged(a, merged(b, c)),
        merged(a, empty_profile()) == a,
        merged(empty_profile(), a) == a,
{
    assert(merged(merged(a, b), c).mounts =~= merged(a, merged(b, c)).mounts);
    assert(merged(merged(a, b), c).env =~= merged(a, merged(b, c)).env);
    assert(merged(merged(a, b), c).ports =~= merged(a, merged(b, c)).ports);
    assert(merged(merged(a, b), c).hosts =~= merged(a, merged(b, c)).hosts);
    assert(merged(a, empty_profile()).mounts =~= a.mounts);
    assert(merged(a, empty_profile()).env =~= a.env);
    assert(merged(a, empty_profile()).ports =~= a.ports);
    assert(merged(a, empty_profile()).hosts =~= a.hosts);
    assert(merged(empty_profile(), a).mounts =~= a.mounts);
    assert(merged(empty_profile(), a).env =~= a.env);
    assert(merged(empty_profile(), a).ports =~= a.ports);
    assert(merged(empty_profile(), a).hosts =~= a.hosts);
}

/// Why a profile could not be resolved.
#[derive(Debug, Clone, PartialEq, Eq)]
pub enum ProfileError {
    /// No profile stands under `name`; `available` lists those that exist.
    UnknownProfile { name: String, available: Vec<String> },
    /// `name` inherits from itself: it came up again below itself. `chain`
    /// is the line of profiles from the one asked for down to where `name`
    /// came up again.
    CircularDependency { name: String, chain: Vec<String> },
}

/// What a `ProfileError` holds, as plain sequences.
pub enum ProfileErrorView {
    UnknownProfile { name: Seq<char>, available: Seq<Seq<char>> },
    CircularDependency { name: Seq<char>, chain: Seq<Seq<char>> },
}

impl View for ProfileError {
    type V = ProfileErrorView;

    open spec fn view(&self) -> ProfileErrorView {
        match self {
            ProfileError::UnknownProfile { name, available } => ProfileErrorView::UnknownProfile {
                name: name@,
                available: views(available@),
            },
            ProfileError::CircularDependency {
                name,
                chain,
            } => ProfileErrorView::CircularDependency { name: name@, chain: views(chain@) },
        }
    }
}

/// The sentence that reports `e`.
pub open spec fn profile_error_text(e: ProfileErrorView) -> Seq<char> {
    match e {
        ProfileErrorView::UnknownProfile { name, available } => "Unknown profile '"@ + name
            + "'. Available profiles: "@ + join_spec(available, ", "@),
        ProfileErrorView::CircularDependency {
            name,
            chain,
        } => "Circular profile dependency detected: '"@ + name
            + "' was already visited in chain: "@ + join_spec(chain, " -> "@),
    }
}

impl ProfileError {
    /// The sentence that reports this error, with the profile it names.
    pub fn message(&self) -> (r: String)
        ensures
            r@ == profile_error_text(self@),
    {
        match self {
            ProfileError::UnknownProfile { name, available } => {
                let list = join(available, ", ");
                let head = concat3("Unknown profile '", name.as_str(), "'. Available profiles: ");
                concat(head.as_str(), list.as_str())
            },
            ProfileError::CircularDependency { name, chain } => {
                let list = join(chain, " -> ");
                let head = concat3(
                    "Circular profile dependency detected: '",
                    name.as_str(),
                    "' was already visited in chain: ",
                );
                concat(head.as_str(), list.as_str())
            },
        }
    }
}

/// Whether `path` can be a line of inheritance: no name twice, and every
/// name that of a profile.
pub open spec fn path_known(entries: Seq<ProfileEntryView>, path: Seq<Seq<char>>) -> bool {
    path.no_duplicates() && forall|i: int| 0 <= i < path.len() ==> has_profile(entries, path[i])
}

/// A line of inheritance is no longer than there are profiles, and one more
/// profile that is not on it still fits.
pub proof fn lemma_path_grows(
    entries: Seq<ProfileEntryView>,
    path: Seq<Seq<char>>,
    name: Seq<char>,
)
    requires
        path_known(entries, path),
        !path.contains(name),
        has_profile(entries, name),
    ensures
        path_known(entries, path.push(name)),
        path.len() < entries.len(),
{
    let longer = path.push(name);
    assert forall|i: int, j: int| 0 <= i < longer.len() && 0 <= j < longer.len() && i != j implies longer[i]
        != longer[j] by {
        if i < path.len() && j < path.len() {
            assert(path[i] != path[j]);
        } else if i < path.len() {
            assert(path.contains(path[i]));
        } else {
            assert(path.contains(path[j]));
        }
    }
    let names = names_of(entries);
    assert forall|x: Seq<char>| longer.to_set().contains(x) implies names.to_set().contains(x) by {
        let i = choose|i: int| 0 <= i < longer.len() && longer[i] == x;
        lemma_position_of(entries, x);
    }
    longer.unique_seq_to_set();
    names.lemma_cardinality_of_set();
    vstd::set_lib::lemma_len_subset(longer.to_set(), names.to_set());
}

/// The flattened entries of the profile `name`, met below the profiles of
/// `path`. A name that is on `path` already is a cycle; a name that no
/// profile has is unknown. Otherwise the profiles it extends are resolved
/// in their order, each below `name`, and the profile's own entries follow.
pub open spec fn resolve_one(
    entries: Seq<ProfileEntryView>,
    name: Seq<char>,
    path: Seq<Seq<char>>,
) -> Result<ResolvedProfileView, ProfileErrorView>
    decreases entries.len() - path.len(), 0int, 0int,
    when path_known(entries, path)
    via resolve_one_terminates
{
    if path.contains(name) {
        Err(ProfileErrorView::CircularDependency { name, chain: path })
    } else {
        match profile_of(entries, name) {
            None => Err(ProfileErrorView::UnknownProfile { name, available: names_of(entries) }),
            Some(p) => match resolve_each(entries, p.extends, path.push(name)) {
                Err(e) => Err(e),
                Ok(inherited) => Ok(merged(inherited, own_entries(p))),
            },
        }
    }
}

/// The entries of the profiles `names`, one after another, each resolved
/// below `path`. The first that fails decides.
pub open spec fn resolve_each(
    entries: Seq<ProfileEntryView>,
    names: Seq<Seq<char>>,
    path: Seq<Seq<char>>,
) -> Result<ResolvedProfileView, ProfileErrorView>
    decreases entries.len() - path.len(), 1int, names.len(),
    when path_known(entries, path)
{
    if names.len() == 0 {
        Ok(empty_profile())
    } else {
        match resolve_each(entries, names.drop_last(), path) {
            Err(e) => Err(e),
            Ok(before) => match resolve_one(entries, names.last(), path) {
                Err(e) => Err(e),
                Ok(last) => Ok(merged(before, last)),
            },
        }
    }
}

#[via_fn]
proof fn resolve_one_terminates(
    entries: Seq<ProfileEntryView>,
    name: Seq<char>,
    path: Seq<Seq<char>>,
) {
    if path_known(entries, path) && !path.contains(name) && profile_of(entries, name) is Some {
        lemma_path_grows(entries, path, name);
    }
}

/// The profiles that a request applies: the default profile, if there is
/// one, and then those asked for, in the order given.
pub open spec fn profiles_to_apply(default_profile: Option<Seq<char>>, asked: Seq<Seq<char>>) -> Seq<
    Seq<char>,
> {
    match default_profile {
        Some(d) => seq![d] + asked,
        None => asked,
    }
}

/// The outcome of a request for the profiles `asked`: the base runtime
/// entries, then each applied profile resolved from the top.
pub open spec fn resolve_profiles_spec(c: ConfigView, asked: Seq<Seq<char>>) -> Result<
    ResolvedProfileView,
    ProfileErrorView,
> {
    match resolve_each(c.profiles, profiles_to_apply(c.default_profile, asked), Seq::empty()) {
        Err(e) => Err(e),
        Ok(applied) => Ok(merged(base_entries(c), applied)),
    }
}

/// The view of a result that holds a resolved profile or a profile error.
pub open spec fn profile_result_view(r: Result<ResolvedProfile, ProfileError>) -> Result<
    ResolvedProfileView,
    ProfileErrorView,
> {
    match r {
        Ok(p) => Ok(p@),
        Err(e) => Err(e@),
    }
}

/// Appends a copy of every mount of `more` to `target`.
pub fn extend_mounts(target: &mut Vec<Mount>, more: &Vec<Mount>)
    ensures
        views(final(target)@) == views(old(target)@) + views(more@),
{
    let mut i: usize = 0;
    while i < more.len()
        invariant
            i <= more.len(),
            views(target@) == views(old(target)@) + views(more@).take(i as int),
        decreases more.len() - i,
    {
        proof {
            assert(views(more@).take(i + 1) =~= views(more@).take(i as int).push(more@[i as int]@));
        }
        let ghost before = target@;
        target.push(more[i].duplicate());
        proof {
            assert(views(target@) =~= views(before).push(more@[i as int]@));
        }
        i += 1;
    }
    proof {
        assert(views(more@).take(more.len() as int) =~= views(more@));
    }
}

impl Default for ResolvedProfile {
    fn default() -> (r: ResolvedProfile)
        ensures
            r@ == empty_profile(),
    {
        let r = ResolvedProfile {
            mounts: Vec::new(),
            env: Vec::new(),
            ports: Vec::new(),
            hosts: Vec::new(),
        };
        proof {
            assert(r@.mounts =~= empty_profile().mounts);
            assert(r@.env =~= empty_profile().env);
            assert(r@.ports =~= empty_profile().ports);
            assert(r@.hosts =~= empty_profile().hosts);
        }
        r
    }
}

impl ResolvedProfile {
    /// Appends the entries of `other` to those of `self`, list by list.
    pub fn merge(&mut self, other: &ResolvedProfile)
        ensures
            final(self)@ == merged(old(self)@, other@),
    {
        extend_mounts(&mut self.mounts, &other.mounts);
        extend_strings(&mut self.env, &other.env);
        extend_strings(&mut self.ports, &other.ports);
        extend_strings(&mut self.hosts, &other.hosts);
    }

    /// The specs of the mounts that have the given mode and form, in order.
    pub fn get_mount_specs(&self, mode: MountMode, home_relative: bool) -> (r: Vec<String>)
        ensures
            views(r@) == specs_with(self@.mounts, mode, home_relative),
    {
        let mut out: Vec<String> = Vec::new();
        let mut i: usize = 0;
        proof {
            assert(self@.mounts.take(0) =~= Seq::<MountView>::empty());
            assert(views(out@) =~= Seq::<Seq<char>>::empty());
        }
        while i < self.mounts.len()
            invariant
                i <= self.mounts.len(),
                views(out@) == specs_with(self@.mounts.take(i as int), mode, home_relative),
            decreases self.mounts.len() - i,
        {
            proof {
                assert(self@.mounts.take(i + 1).drop_last() =~= self@.mounts.take(i as int));
                assert(self@.mounts.take(i + 1).last() == self.mounts@[i as int]@);
            }
            let m = &self.mounts[i];
            if m.mode == mode && m.home_relative == home_relative {
                let ghost before = out@;
                out.push(m.spec.clone());
                proof {
                    assert(views(out@) =~= views(before).push(m.spec@));
                }
            }
            i += 1;
        }
        proof {
            assert(self@.mounts.take(self.mounts.len() as int) =~= self@.mounts);
        }
        out
    }
}

/// The specs of those mounts of `mounts` that have the given mode and form.
pub open spec fn specs_with(mounts: Seq<MountView>, mode: MountMode, home_relative: bool) -> Seq<
    Seq<char>,
>
    decreases mounts.len(),
{
    if mounts.len() == 0 {
        Seq::empty()
    } else {
        let before = specs_with(mounts.drop_last(), mode, home_relative);
        if mounts.last().mode == mode && mounts.last().home_relative == home_relative {
            before.push(mounts.last().spec)
        } else {
            before
        }
    }
}

/// The names of the profiles that a request applies, in the order in which
/// they are applied: the default profile first, where one is set.
pub fn collect_profiles_to_apply(config: &Config, profile_names: &[String]) -> (r: Vec<String>)
    ensures
        views(r@) == profiles_to_apply(config@.default_profile, views(profile_names@)),
{
    let mut out: Vec<String> = Vec::new();
    if let Some(default) = &config.default_profile {
        out.push(default.clone());
    }
    let ghost head = views(out@);
    let mut i: usize = 0;
    while i < profile_names.len()
        invariant
            i <= profile_names.len(),
            views(out@) == head + views(profile_names@).take(i as int),
        decreases profile_names.len() - i,
    {
        let ghost before = out@;
        out.push(profile_names[i].clone());
        proof {
            let all = views(profile_names@);
            assert(all.take(i + 1) =~= all.take(i as int).push(all[i as int]));
            assert(views(out@) =~= views(before).push(all[i as int]));
        }
        i += 1;
    }
    proof {
        let all = views(profile_names@);
        assert(all.take(profile_names.len() as int) =~= all);
        match config@.default_profile {
            Some(d) => {
                assert(head =~= seq![d]);
            },
            None => {
                assert(head =~= Seq::<Seq<char>>::empty());
                assert(head + all =~= all);
            },
        }
    }
    out
}

/// Resolves the profile `profile_name`, met below the profiles of
/// `visited`, with all that it inherits.
///
/// `visited` is the line of profiles that led here; it is the same after
/// the call as before it.
pub fn resolve_single_profile(config: &Config, profile_name: &str, visited: &mut Vec<String>) -> (r:
    Result<ResolvedProfile, ProfileError>)
    requires
        path_known(config@.profiles, views(old(visited)@)),
    ensures
        views(final(visited)@) == views(old(visited)@),
        profile_result_view(r) == resolve_one(
            config@.profiles,
            profile_name@,
            views(old(visited)@),
        ),
    decreases config@.profiles.len() - old(visited)@.len(),
{
    let ghost entries = config@.profiles;
    let ghost path = views(visited@);
    if contains_str(visited, profile_name) {
        return Err(
            ProfileError::CircularDependency {
                name: profile_name.to_owned(),
                chain: clone_strings(visited),
            },
        );
    }
    let profile = match config.profiles.get(profile_name) {
        Some(p) => p,
        None => {
            return Err(
                ProfileError::UnknownProfile {
                    name: profile_name.to_owned(),
                    available: config.profiles.names(),
                },
            );
        },
    };
    proof {
        lemma_path_grows(entries, path, profile_name@);
    }
    visited.push(profile_name.to_owned());
    let ghost deeper = path.push(profile_name@);
    proof {
        assert(views(visited@) =~= deeper);
    }
    let mut resolved = ResolvedProfile::default();
    let mut failure: Option<ProfileError> = None;
    let mut i: usize = 0;
    while i < profile.extends.len() && failure.is_none()
        invariant
            i <= profile.extends.len(),
            entries == config@.profiles,
            views(visited@) == deeper,
            path_known(entries, deeper),
            deeper.len() == path.len() + 1,
            path.len() == old(visited)@.len(),
            path.len() < entries.len(),
            visited@.len() == deeper.len(),
            match failure {
                None => resolve_each(entries, profile@.extends.take(i as int), deeper) == Ok::<
                    ResolvedProfileView,
                    ProfileErrorView,
                >(resolved@),
                Some(e) => resolve_each(entries, profile@.extends, deeper) == Err::<
                    ResolvedProfileView,
                    ProfileErrorView,
                >(e@),
            },
        decreases profile.extends.len() - i,
    {
        let ghost upto = profile@.extends.take(i + 1);
        proof {
            assert(upto.drop_last() =~= profile@.extends.take(i as int));
            assert(upto.last() == profile.extends@[i as int]@);
        }
        match resolve_single_profile(config, profile.extends[i].as_str(), visited) {
            Ok(parent) => {
                resolved.merge(&parent);
            },
            Err(e) => {
                proof {
                    assert(resolve_each(entries, upto, deeper) == Err::<
                        ResolvedProfileView,
                        ProfileErrorView,
                    >(e@));
                    lemma_resolve_each_fails_on(entries, profile@.extends, deeper, i + 1);
                }
                failure = Some(e);
            },
        }
        i += 1;
    }
    let ghost full = visited@;
    visited.pop();
    proof {
        assert(visited@ == full.drop_last());
        assert forall|j: int| 0 <= j < path.len() implies views(visited@)[j] == path[j] by {
            assert(views(full)[j] == deeper[j]);
        }
        assert(views(visited@) =~= path);
    }
    match failure {
        Some(e) => Err(e),
        None => {
            proof {
                assert(profile@.extends.take(i as int) =~= profile@.extends);
            }
            let own = ResolvedProfile {
                mounts: profile.mounts.to_mounts(),
                env: clone_strings(&profile.env),
                ports: Vec::new(),
                hosts: Vec::new(),
            };
            proof {
                assert(own@.ports =~= own_entries(profile@).ports);
                assert(own@.hosts =~= own_entries(profile@).hosts);
            }
            resolved.merge(&own);
            Ok(resolved)
        },
    }
}

/// Where resolving the first `n` names fails, resolving all of them fails
/// in the same way.
pub proof fn lemma_resolve_each_fails_on(
    entries: Seq<ProfileEntryView>,
    names: Seq<Seq<char>>,
    path: Seq<Seq<char>>,
    n: int,
)
    requires
        path_known(entries, path),
        0 <= n <= names.len(),
        resolve_each(entries, names.take(n), path) is Err,
    ensures
        resolve_each(entries, names, path) == resolve_each(entries, names.take(n), path),
    decreases names.len() - n,
{
    if n == names.len() {
        assert(names.take(n) =~= names);
    } else {
        assert(names.take(n + 1).drop_last() =~= names.take(n));
        lemma_resolve_each_fails_on(entries, names, path, n + 1);
    }
}

/// Resolves a request for the profiles `profile_names`: the base runtime
/// entries first, then the default profile, if one is set, then each
/// profile asked for, in the order given; each with what it inherits
/// before its own entries. Nothing is dropped: a profile that is reached
/// twice gives its entries twice.
///
/// Fails with the first profile, in that order, that names itself among
/// those it inherits from, or that does not exist.
pub fn resolve_profiles(config: &Config, profile_names: &[String]) -> (r: Result<
    ResolvedProfile,
    ProfileError,
>)
    ensures
        profile_result_view(r) == resolve_profiles_spec(config@, views(profile_names@)),
{
    let mut resolved = ResolvedProfile {
        mounts: config.runtime.mounts.to_mounts(),
        env: clone_strings(&config.runtime.env),
        ports: Vec::new(),
        hosts: Vec::new(),
    };
    proof {
        assert(resolved@.ports =~= base_entries(config@).ports);
        assert(resolved@.hosts =~= base_entries(config@).hosts);
    }
    let to_apply = collect_profiles_to_apply(config, profile_names);
    let ghost names = views(to_apply@);
    let ghost entries = config@.profiles;
    let ghost top = Seq::<Seq<char>>::empty();
    let mut visited: Vec<String> = Vec::new();
    proof {
        assert(views(visited@) =~= top);
        lemma_merged_laws(base_entries(config@), empty_profile(), empty_profile());
    }
    let mut i: usize = 0;
    while i < to_apply.len()
        invariant
            i <= to_apply.len(),
            names == views(to_apply@),
            names == profiles_to_apply(config@.default_profile, views(profile_names@)),
            entries == config@.profiles,
            top == Seq::<Seq<char>>::empty(),
            views(visited@) == top,
            path_known(entries, top),
            exists|applied: ResolvedProfileView|
                resolve_each(entries, names.take(i as int), top) == Ok::<
                    ResolvedProfileView,
                    ProfileErrorView,
                >(applied) && resolved@ == merged(base_entries(config@), applied),
        decreases to_apply.len() - i,
    {
        let ghost applied = choose|applied: ResolvedProfileView|
            resolve_each(entries, names.take(i as int), top) == Ok::<
                ResolvedProfileView,
                ProfileErrorView,
            >(applied) && resolved@ == merged(base_entries(config@), applied);
        proof {
            assert(names.take(i + 1).drop_last() =~= names.take(i as int));
            assert(names.take(i + 1).last() == to_apply@[i as int]@);
        }
        match resolve_single_profile(config, to_apply[i].as_str(), &mut visited) {
            Ok(one) => {
                resolved.merge(&one);
                proof {
                    lemma_merged_laws(base_entries(config@), applied, one@);
                    assert(resolve_each(entries, names.take(i + 1), top) == Ok::<
                        ResolvedProfileView,
                        ProfileErrorView,
                    >(merged(applied, one@)));
                }
            },
            Err(e) => {
                proof {
                    assert(resolve_each(entries, names.take(i + 1), top) == Err::<
                        ResolvedProfileView,
                        ProfileErrorView,
                    >(e@));
                    lemma_resolve_each_fails_on(entries, names, top, i + 1);
                }
                return Err(e);
            },
        }
        i += 1;
    }
    proof {
        assert(names.take(to_apply.len() as int) =~= names);
    }
    Ok(resolved)
}

} // verus!
