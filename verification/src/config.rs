//! The configuration as it stands after loading: the base runtime settings
//! and the named profiles.

use vstd::prelude::*;
use crate::mount::{Mount, MountMode, MountView};
use crate::text::{clone_strings, opt_view, str_eq, views};

verus! {

/// What a `MountPaths` holds, as plain sequences.
pub struct MountPathsView {
    pub absolute: Seq<Seq<char>>,
    pub home_relative: Seq<Seq<char>>,
}

/// The mount specs of one mode, in the two forms a spec can have.
#[derive(Debug, Clone, PartialEq, Eq)]
pub struct MountPaths {
    /// Specs whose single path is the same on host and container.
    pub absolute: Vec<String>,
    /// Specs whose single path moves under the container's home.
    pub home_relative: Vec<String>,
}

impl View for MountPaths {
    type V = MountPathsView;

    open spec fn view(&self) -> MountPathsView {
        MountPathsView {
            absolute: views(self.absolute@),
            home_relative: views(self.home_relative@),
        }
    }
}

impl Default for MountPaths {
    fn default() -> (r: MountPaths)
        ensures
            r@.absolute.len() == 0,
            r@.home_relative.len() == 0,
    {
        MountPaths { absolute: Vec::new(), home_relative: Vec::new() }
    }
}

/// What a `MountsConfig` holds, as plain sequences.
pub struct MountsConfigView {
    pub ro: MountPathsView,
    pub rw: MountPathsView,
    pub o: MountPathsView,
}

/// The configured mounts, by mode.
#[derive(Debug, Clone, PartialEq, Eq)]
pub struct MountsConfig {
    pub ro: MountPaths,
    pub rw: MountPaths,
    pub o: MountPaths,
}

impl View for MountsConfig {
    type V = MountsConfigView;

    open spec fn view(&self) -> MountsConfigView {
        MountsConfigView { ro: self.ro@, rw: self.rw@, o: self.o@ }
    }
}

impl Default for MountsConfig {
    fn default() -> (r: MountsConfig)
        ensures
            mounts_of(r@).len() == 0,
            no_mounts(r@),
    {
        MountsConfig {
            ro: MountPaths::default(),
            rw: MountPaths::default(),
            o: MountPaths::default(),
        }
    }
}

/// Whether a mounts table names no path at all.
pub open spec fn no_mounts(c: MountsConfigView) -> bool {
    &&& c.ro.absolute.len() == 0
    &&& c.ro.home_relative.len() == 0
    &&& c.rw.absolute.len() == 0
    &&& c.rw.home_relative.len() == 0
    &&& c.o.absolute.len() == 0
    &&& c.o.home_relative.len() == 0
}

/// One mount for each spec of `specs`, all with the same form and mode.
pub open spec fn tagged(specs: Seq<Seq<char>>, home_relative: bool, mode: MountMode) -> Seq<
    MountView,
> {
    Seq::new(specs.len(), |i: int| MountView { spec: specs[i], home_relative, mode })
}

/// The mounts of a table as one list: read-only, read-write, overlay, and
/// within each mode the absolute specs before the home-relative ones.
pub open spec fn mounts_of(c: MountsConfigView) -> Seq<MountView> {
    tagged(c.ro.absolute, false, MountMode::Ro) + tagged(c.ro.home_relative, true, MountMode::Ro)
        + tagged(c.rw.absolute, false, MountMode::Rw) + tagged(
        c.rw.home_relative,
        true,
        MountMode::Rw,
    ) + tagged(c.o.absolute, false, MountMode::Overlay) + tagged(
        c.o.home_relative,
        true,
        MountMode::Overlay,
    )
}

/// Appends one mount for each spec of `specs` to `out`.
fn push_tagged(out: &mut Vec<Mount>, specs: &Vec<String>, home_relative: bool, mode: MountMode)
    ensures
        views(final(out)@) == views(old(out)@) + tagged(views(specs@), home_relative, mode),
{
    let mut i: usize = 0;
    while i < specs.len()
        invariant
            i <= specs.len(),
            views(out@) == views(old(out)@) + tagged(views(specs@), home_relative, mode).take(
                i as int,
            ),
        decreases specs.len() - i,
    {
        let ghost before = out@;
        out.push(Mount { spec: specs[i].clone(), home_relative, mode });
        proof {
            let all = tagged(views(specs@), home_relative, mode);
            assert(all.take(i + 1) =~= all.take(i as int).push(all[i as int]));
            assert(views(out@) =~= views(before).push(all[i as int]));
        }
        i += 1;
    }
    proof {
        let all = tagged(views(specs@), home_relative, mode);
        assert(all.take(specs.len() as int) =~= all);
    }
}

impl MountsConfig {
    /// The mounts of this table as one list, in the order of `mounts_of`.
    pub fn to_mounts(&self) -> (r: Vec<Mount>)
        ensures
            views(r@) == mounts_of(self@),
    {
        let mut out: Vec<Mount> = Vec::new();
        proof {
            assert(views(out@) =~= Seq::<MountView>::empty());
        }
        push_tagged(&mut out, &self.ro.absolute, false, MountMode::Ro);
        push_tagged(&mut out, &self.ro.home_relative, true, MountMode::Ro);
        push_tagged(&mut out, &self.rw.absolute, false, MountMode::Rw);
        push_tagged(&mut out, &self.rw.home_relative, true, MountMode::Rw);
        push_tagged(&mut out, &self.o.absolute, false, MountMode::Overlay);
        push_tagged(&mut out, &self.o.home_relative, true, MountMode::Overlay);
        proof {
            assert(views(out@) =~= mounts_of(self@));
        }
        out
    }

    /// Whether this table names no path at all.
    pub fn is_empty(&self) -> (r: bool)
        ensures
            r == no_mounts(self@),
    {
        self.ro.absolute.len() == 0 && self.ro.home_relative.len() == 0 && self.rw.absolute.len()
            == 0 && self.rw.home_relative.len() == 0 && self.o.absolute.len() == 0
            && self.o.home_relative.len() == 0
    }
}

/// What a `ProfileConfig` holds, as plain sequences.
pub struct ProfileConfigView {
    pub extends: Seq<Seq<char>>,
    pub mounts: MountsConfigView,
    pub env: Seq<Seq<char>>,
}

/// A named bundle of mounts and environment variables, which may inherit
/// from other profiles.
#[derive(Debug, Clone, PartialEq, Eq)]
pub struct ProfileConfig {
    /// The profiles this one inherits from, applied in this order before
    /// the profile's own entries.
    pub extends: Vec<String>,
    pub mounts: MountsConfig,
    /// Environment variables as `KEY=VALUE`.
    pub env: Vec<String>,
}

impl View for ProfileConfig {
    type V = ProfileConfigView;

    open spec fn view(&self) -> ProfileConfigView {
        ProfileConfigView {
            extends: views(self.extends@),
            mounts: self.mounts@,
            env: views(self.env@),
        }
    }
}

impl Default for ProfileConfig {
    fn default() -> (r: ProfileConfig)
        ensures
            r@.extends.len() == 0,
            r@.env.len() == 0,
            no_mounts(r@.mounts),
    {
        ProfileConfig { extends: Vec::new(), mounts: MountsConfig::default(), env: Vec::new() }
    }
}

/// What a `ProfileEntry` holds, as plain sequences.
pub struct ProfileEntryView {
    pub name: Seq<char>,
    pub profile: ProfileConfigView,
}

/// A profile under its name.
#[derive(Debug, Clone, PartialEq, Eq)]
pub struct ProfileEntry {
    pub name: String,
    pub profile: ProfileConfig,
}

impl View for ProfileEntry {
    type V = ProfileEntryView;

    open spec fn view(&self) -> ProfileEntryView {
        ProfileEntryView { name: self.name@, profile: self.profile@ }
    }
}

/// Index of the first entry of `entries` named `name`; `entries.len()`
/// where none is.
pub open spec fn position_of(entries: Seq<ProfileEntryView>, name: Seq<char>) -> int
    decreases entries.len(),
{
    if entries.len() == 0 {
        0
    } else if entries[0].name == name {
        0
    } else {
        1 + position_of(entries.drop_first(), name)
    }
}

/// The profile that `entries` holds under `name`.
pub open spec fn profile_of(entries: Seq<ProfileEntryView>, name: Seq<char>) -> Option<
    ProfileConfigView,
> {
    if position_of(entries, name) < entries.len() {
        Some(entries[position_of(entries, name)].profile)
    } else {
        None
    }
}

/// The names of `entries`, in order.
pub open spec fn names_of(entries: Seq<ProfileEntryView>) -> Seq<Seq<char>> {
    Seq::new(entries.len(), |i: int| entries[i].name)
}

/// Whether `entries` holds a profile named `name`.
pub open spec fn has_profile(entries: Seq<ProfileEntryView>, name: Seq<char>) -> bool {
    position_of(entries, name) < entries.len()
}

/// `position_of` is the least index whose entry is named `name`.
pub proof fn lemma_position_of(entries: Seq<ProfileEntryView>, name: Seq<char>)
    ensures
        0 <= position_of(entries, name) <= entries.len(),
        forall|j: int| 0 <= j < position_of(entries, name) ==> entries[j].name != name,
        position_of(entries, name) < entries.len() ==> entries[position_of(entries, name)].name
            == name,
        has_profile(entries, name) <==> names_of(entries).contains(name),
    decreases entries.len(),
{
    if entries.len() == 0 {
    } else if entries[0].name == name {
        assert(names_of(entries)[0] == name);
    } else {
        let rest = entries.drop_first();
        lemma_position_of(rest, name);
        let p = position_of(entries, name);
        assert forall|j: int| 0 <= j < p implies entries[j].name != name by {
            if j > 0 {
                assert(entries[j] == rest[j - 1]);
            }
        }
        if position_of(rest, name) < rest.len() {
            assert(entries[p] == rest[p - 1]);
            assert(names_of(entries)[p] == name);
        } else {
            assert forall|j: int| 0 <= j < entries.len() implies names_of(entries)[j] != name by {
                if j > 0 {
                    assert(entries[j] == rest[j - 1]);
                }
            }
        }
    }
}

/// An index whose entry is named `name`, with none so named before it, is
/// `position_of`.
pub proof fn lemma_position_is(entries: Seq<ProfileEntryView>, name: Seq<char>, i: int)
    requires
        0 <= i <= entries.len(),
        forall|j: int| 0 <= j < i ==> entries[j].name != name,
        i < entries.len() ==> entries[i].name == name,
    ensures
        position_of(entries, name) == i,
{
    lemma_position_of(entries, name);
    let p = position_of(entries, name);
    if p < i {
        assert(entries[p].name != name);
    } else if p > i {
        assert(entries[i].name != name);
    }
}

/// The profiles of a configuration, each under a name of its own, in the
/// order in which the names first came in.
#[derive(Debug, Clone, PartialEq, Eq)]
pub struct ProfileMap {
    pub entries: Vec<ProfileEntry>,
}

impl View for ProfileMap {
    type V = Seq<ProfileEntryView>;

    open spec fn view(&self) -> Seq<ProfileEntryView> {
        views(self.entries@)
    }
}

impl Default for ProfileMap {
    fn default() -> (r: ProfileMap)
        ensures
            r@.len() == 0,
    {
        ProfileMap::new()
    }
}

impl ProfileMap {
    /// A map that holds no profile.
    pub fn new() -> (r: ProfileMap)
        ensures
            r@.len() == 0,
    {
        ProfileMap { entries: Vec::new() }
    }

    /// Number of entries.
    pub fn len(&self) -> (n: usize)
        ensures
            n == self@.len(),
    {
        self.entries.len()
    }

    /// Whether the map holds no profile.
    pub fn is_empty(&self) -> (r: bool)
        ensures
            r == (self@.len() == 0),
    {
        self.entries.len() == 0
    }

    /// Index of the first entry named `name`, or the number of entries.
    pub fn position(&self, name: &str) -> (i: usize)
        ensures
            i == position_of(self@, name@),
            i <= self@.len(),
    {
        let mut i: usize = 0;
        while i < self.entries.len()
            invariant
                i <= self.entries.len(),
                forall|j: int| 0 <= j < i ==> self@[j].name != name@,
            decreases self.entries.len() - i,
        {
            if str_eq(self.entries[i].name.as_str(), name) {
                proof {
                    lemma_position_is(self@, name@, i as int);
                }
                return i;
            }
            i += 1;
        }
        proof {
            lemma_position_is(self@, name@, i as int);
        }
        i
    }

    /// The profile under `name`.
    pub fn get(&self, name: &str) -> (r: Option<&ProfileConfig>)
        ensures
            opt_view(r) == profile_of(self@, name@),
    {
        let i = self.position(name);
        if i < self.entries.len() {
            Some(&self.entries[i].profile)
        } else {
            None
        }
    }

    /// Whether a profile stands under `name`.
    pub fn contains_key(&self, name: &str) -> (r: bool)
        ensures
            r == has_profile(self@, name@),
    {
        self.position(name) < self.entries.len()
    }

    /// Puts `profile` under `name`. A profile that stood under that name is
    /// replaced, in its place, and handed back; a new name goes to the end.
    pub fn insert(&mut self, name: String, profile: ProfileConfig) -> (r: Option<ProfileConfig>)
        ensures
            opt_view(r) == profile_of(old(self)@, name@),
            final(self)@ == if has_profile(old(self)@, name@) {
                old(self)@.update(
                    position_of(old(self)@, name@),
                    ProfileEntryView { name: name@, profile: profile@ },
                )
            } else {
                old(self)@.push(ProfileEntryView { name: name@, profile: profile@ })
            },
            profile_of(final(self)@, name@) == Some(profile@),
    {
        let i = self.position(name.as_str());
        if i < self.entries.len() {
            let mut entry = ProfileEntry { name, profile };
            let ghost added = entry@;
            std::mem::swap(&mut self.entries[i], &mut entry);
            proof {
                assert(self@ =~= old(self)@.update(i as int, added));
                lemma_position_of(old(self)@, name@);
                assert forall|j: int| 0 <= j < i implies self@[j].name != name@ by {
                    assert(self@[j] == old(self)@[j]);
                }
                lemma_position_is(self@, name@, i as int);
            }
            Some(entry.profile)
        } else {
            let entry = ProfileEntry { name, profile };
            self.entries.push(entry);
            proof {
                assert(self@ =~= old(self)@.push(entry@));
                lemma_position_of(old(self)@, name@);
                assert forall|j: int| 0 <= j < i implies self@[j].name != name@ by {
                    assert(self@[j] == old(self)@[j]);
                }
                lemma_position_is(self@, name@, i as int);
            }
            None
        }
    }

    /// The names of all profiles, in order.
    pub fn names(&self) -> (r: Vec<String>)
        ensures
            views(r@) == names_of(self@),
    {
        let mut out: Vec<String> = Vec::new();
        let mut i: usize = 0;
        while i < self.entries.len()
            invariant
                i <= self.entries.len(),
                out@.len() == i,
                forall|j: int| 0 <= j < i ==> out@[j]@ == self@[j].name,
            decreases self.entries.len() - i,
        {
            out.push(self.entries[i].name.clone());
            i += 1;
        }
        proof {
            assert(views(out@) =~= names_of(self@));
        }
        out
    }
}

/// What a `RuntimeConfig` holds, as plain sequences.
pub struct RuntimeConfigView {
    pub backend: Seq<char>,
    pub image: Seq<char>,
    pub entrypoint: Option<Seq<Seq<char>>>,
    pub mounts: MountsConfigView,
    pub env: Seq<Seq<char>>,
    pub skip_mounts: Seq<Seq<char>>,
}

/// The base settings, applied before any profile.
#[derive(Debug, Clone, PartialEq, Eq)]
pub struct RuntimeConfig {
    /// Name of the container engine: `podman`, or anything else for docker.
    pub backend: String,
    pub image: String,
    /// The entrypoint as an argument vector.
    pub entrypoint: Option<Vec<String>>,
    pub mounts: MountsConfig,
    /// Environment variables as `KEY=VALUE`.
    pub env: Vec<String>,
    /// Glob patterns of host paths that are never bound on their own.
    pub skip_mounts: Vec<String>,
}

/// The view of an optional list of strings.
pub open spec fn opt_strings(o: Option<Vec<String>>) -> Option<Seq<Seq<char>>> {
    match o {
        Some(v) => Some(views(v@)),
        None => None,
    }
}

impl View for RuntimeConfig {
    type V = RuntimeConfigView;

    open spec fn view(&self) -> RuntimeConfigView {
        RuntimeConfigView {
            backend: self.backend@,
            image: self.image@,
            entrypoint: opt_strings(self.entrypoint),
            mounts: self.mounts@,
            env: views(self.env@),
            skip_mounts: views(self.skip_mounts@),
        }
    }
}

/// The backend that a configuration has where it names none.
pub fn default_backend() -> (r: String)
    ensures
        r@ == "docker"@,
{
    "docker".to_owned()
}

impl Default for RuntimeConfig {
    fn default() -> (r: RuntimeConfig)
        ensures
            r@.backend == "docker"@,
            r@.image.len() == 0,
            r@.entrypoint.is_none(),
            no_mounts(r@.mounts),
            r@.env.len() == 0,
            r@.skip_mounts.len() == 0,
    {
        RuntimeConfig {
            backend: default_backend(),
            image: String::new(),
            entrypoint: None,
            mounts: MountsConfig::default(),
            env: Vec::new(),
            skip_mounts: Vec::new(),
        }
    }
}

/// What a `Config` holds, as plain sequences.
pub struct ConfigView {
    pub workspace_dir: Seq<char>,
    pub base_repo_dir: Seq<char>,
    pub git_dir: Seq<char>,
    pub jj_dir: Seq<char>,
    pub default_profile: Option<Seq<char>>,
    pub profiles: Seq<ProfileEntryView>,
    pub runtime: RuntimeConfigView,
}

/// The whole configuration.
#[derive(Debug, Clone, PartialEq, Eq)]
pub struct Config {
    /// Where working copies are created.
    pub workspace_dir: String,
    /// Where the source repositories are checked out.
    pub base_repo_dir: String,
    /// Where bare git repositories are kept.
    pub git_dir: String,
    /// Where jj repositories are kept.
    pub jj_dir: String,
    /// A profile that is applied before any that is asked for.
    pub default_profile: Option<String>,
    pub profiles: ProfileMap,
    pub runtime: RuntimeConfig,
}

impl View for Config {
    type V = ConfigView;

    open spec fn view(&self) -> ConfigView {
        ConfigView {
            workspace_dir: self.workspace_dir@,
            base_repo_dir: self.base_repo_dir@,
            git_dir: self.git_dir@,
            jj_dir: self.jj_dir@,
            default_profile: opt_view(self.default_profile),
            profiles: self.profiles@,
            runtime: self.runtime@,
        }
    }
}

/// A copy of an optional list of strings.
pub fn clone_opt_strings(o: &Option<Vec<String>>) -> (r: Option<Vec<String>>)
    ensures
        opt_strings(r) == opt_strings(*o),
{
    match o {
        Some(v) => Some(clone_strings(v)),
        None => None,
    }
}

} // verus!
