//! The launch description of a container, assembled from the plan.

use vstd::prelude::*;
use crate::config::{clone_opt_strings, opt_strings, Config, ConfigView};
use crate::mount::{bind_string, Mount, MountError, MountErrorView, MountMode, MountView};
use crate::mount::{ResolvedMount, ResolvedMountView};
use crate::paths::{join, join_path};
use crate::planner::{add_mounts, planned_binds};
use crate::profile::{extend_mounts, ResolvedProfile, ResolvedProfileView};
use crate::snapshot::{lookup, FsSnapshot, PathFactsView};
use crate::text::{concat, concat3, contains_str, extend_strings, opt_view, str_eq};
use crate::text::views;

verus! {

/// What a `ContainerConfig` holds, as plain sequences.
pub struct ContainerConfigView {
    pub image: Seq<char>,
    pub entrypoint: Option<Seq<Seq<char>>>,
    pub command: Option<Seq<Seq<char>>>,
    pub user: Seq<char>,
    pub working_dir: Seq<char>,
    pub mounts: Seq<Seq<char>>,
    pub env: Seq<Seq<char>>,
    pub ports: Seq<Seq<char>>,
    pub hosts: Seq<Seq<char>>,
    pub network: Option<Seq<char>>,
}

/// All that a container engine needs to run one container, in no engine's
/// own terms.
#[derive(Debug, Clone, PartialEq, Eq)]
pub struct ContainerConfig {
    pub image: String,
    pub entrypoint: Option<Vec<String>>,
    /// Arguments handed to the entrypoint.
    pub command: Option<Vec<String>>,
    /// `uid:gid` of the user the container runs as.
    pub user: String,
    pub working_dir: String,
    /// Bind strings, `host:container:mode`.
    pub mounts: Vec<String>,
    /// Environment variables as `KEY=VALUE`.
    pub env: Vec<String>,
    pub ports: Vec<String>,
    pub hosts: Vec<String>,
    pub network: Option<String>,
}

impl View for ContainerConfig {
    type V = ContainerConfigView;

    open spec fn view(&self) -> ContainerConfigView {
        ContainerConfigView {
            image: self.image@,
            entrypoint: opt_strings(self.entrypoint),
            command: opt_strings(self.command),
            user: self.user@,
            working_dir: self.working_dir@,
            mounts: views(self.mounts@),
            env: views(self.env@),
            ports: views(self.ports@),
            hosts: views(self.hosts@),
            network: opt_view(self.network),
        }
    }
}

/// What an `EnvVar` holds, as plain sequences.
pub struct EnvVarView {
    pub name: Seq<char>,
    pub value: Option<Seq<char>>,
}

/// A variable of the host's environment that is to be handed on to the
/// container, with the value it has on the host, if it has one.
#[derive(Debug, Clone, PartialEq, Eq)]
pub struct EnvVar {
    pub name: String,
    pub value: Option<String>,
}

impl View for EnvVar {
    type V = EnvVarView;

    open spec fn view(&self) -> EnvVarView {
        EnvVarView { name: self.name@, value: opt_view(self.value) }
    }
}

/// What a `HostFacts` holds, as plain values.
pub struct HostFactsView {
    pub uid: u32,
    pub gid: u32,
    pub username: Seq<char>,
    pub home: Seq<char>,
    pub passthrough: Seq<EnvVarView>,
    pub fs: Seq<PathFactsView>,
}

/// What was found out about the host before planning: who runs the
/// program, the variables to hand on, and the state of the paths that
/// planning asks about.
#[derive(Debug, Clone, PartialEq, Eq)]
pub struct HostFacts {
    pub uid: u32,
    pub gid: u32,
    /// Name of the invoking user; the container's user has the same name.
    pub username: String,
    /// Home directory of the invoking user on the host.
    pub home: String,
    /// The variables to hand on, in the order in which they were named.
    pub passthrough: Vec<EnvVar>,
    pub fs: FsSnapshot,
}

impl View for HostFacts {
    type V = HostFactsView;

    open spec fn view(&self) -> HostFactsView {
        HostFactsView {
            uid: self.uid,
            gid: self.gid,
            username: self.username@,
            home: self.home@,
            passthrough: views(self.passthrough@),
            fs: self.fs@,
        }
    }
}

/// The text of a single decimal digit.
pub open spec fn digit_text(d: nat) -> Seq<char> {
    if d == 0 {
        "0"@
    } else if d == 1 {
        "1"@
    } else if d == 2 {
        "2"@
    } else if d == 3 {
        "3"@
    } else if d == 4 {
        "4"@
    } else if d == 5 {
        "5"@
    } else if d == 6 {
        "6"@
    } else if d == 7 {
        "7"@
    } else if d == 8 {
        "8"@
    } else {
        "9"@
    }
}

/// `n` written in decimal, without leading zeros.
pub open spec fn decimal(n: nat) -> Seq<char>
    decreases n,
{
    if n < 10 {
        digit_text(n)
    } else {
        decimal(n / 10) + digit_text(n % 10)
    }
}

/// The text of the decimal digit `d`.
fn digit_str(d: u32) -> (r: &'static str)
    requires
        d < 10,
    ensures
        r@ == digit_text(d as nat),
{
    if d == 0 {
        "0"
    } else if d == 1 {
        "1"
    } else if d == 2 {
        "2"
    } else if d == 3 {
        "3"
    } else if d == 4 {
        "4"
    } else if d == 5 {
        "5"
    } else if d == 6 {
        "6"
    } else if d == 7 {
        "7"
    } else if d == 8 {
        "8"
    } else {
        "9"
    }
}

/// `n` written in decimal.
pub fn to_decimal(n: u32) -> (r: String)
    ensures
        r@ == decimal(n as nat),
    decreases n,
{
    if n < 10 {
        digit_str(n).to_owned()
    } else {
        let mut s = to_decimal(n / 10);
        s.append(digit_str(n % 10));
        s
    }
}

/// `items` without repeats: of equal strings only the first stays.
pub open spec fn first_occurrences(items: Seq<Seq<char>>) -> Seq<Seq<char>>
    decreases items.len(),
{
    if items.len() == 0 {
        Seq::empty()
    } else {
        let before = first_occurrences(items.drop_last());
        if before.contains(items.last()) {
            before
        } else {
            before.push(items.last())
        }
    }
}

/// The strings of `first` and then those of `second`, each string only
/// where it occurs first.
pub fn merge_unique(first: &[String], second: &[String]) -> (r: Vec<String>)
    ensures
        views(r@) == first_occurrences(views(first@) + views(second@)),
{
    let ghost all = views(first@) + views(second@);
    let mut out: Vec<String> = Vec::new();
    proof {
        assert(all.take(0) =~= Seq::<Seq<char>>::empty());
        assert(views(out@) =~= Seq::<Seq<char>>::empty());
    }
    let mut i: usize = 0;
    while i < first.len()
        invariant
            i <= first.len(),
            all == views(first@) + views(second@),
            views(out@) == first_occurrences(all.take(i as int)),
        decreases first.len() - i,
    {
        proof {
            assert(all.take(i + 1).drop_last() =~= all.take(i as int));
            assert(all.take(i + 1).last() == first@[i as int]@);
        }
        if !contains_str(&out, first[i].as_str()) {
            let ghost before = out@;
            out.push(first[i].clone());
            proof {
                assert(views(out@) =~= views(before).push(first@[i as int]@));
            }
        }
        i += 1;
    }
    let mut k: usize = 0;
    while k < second.len()
        invariant
            k <= second.len(),
            all == views(first@) + views(second@),
            views(out@) == first_occurrences(all.take(first.len() + k)),
        decreases second.len() - k,
    {
        proof {
            let n = first.len() + k;
            assert(all.take(n + 1).drop_last() =~= all.take(n as int));
            assert(all.take(n + 1).last() == second@[k as int]@);
        }
        if !contains_str(&out, second[k].as_str()) {
            let ghost before = out@;
            out.push(second[k].clone());
            proof {
                assert(views(out@) =~= views(before).push(second@[k as int]@));
            }
        }
        k += 1;
    }
    proof {
        assert(all.take(first.len() + second.len()) =~= all);
    }
    out
}

/// `NAME=VALUE` for each variable of `vars` that has a value, in order.
pub open spec fn passed_env(vars: Seq<EnvVarView>) -> Seq<Seq<char>>
    decreases vars.len(),
{
    if vars.len() == 0 {
        Seq::empty()
    } else {
        let before = passed_env(vars.drop_last());
        match vars.last().value {
            Some(value) => before.push(vars.last().name + "="@ + value),
            None => before,
        }
    }
}

/// The names of those variables of `vars` that have no value, in order.
pub open spec fn missing_env(vars: Seq<EnvVarView>) -> Seq<Seq<char>>
    decreases vars.len(),
{
    if vars.len() == 0 {
        Seq::empty()
    } else {
        let before = missing_env(vars.drop_last());
        match vars.last().value {
            Some(_) => before,
            None => before.push(vars.last().name),
        }
    }
}

/// Appends `NAME=VALUE` to `env` for each variable that has a value.
fn push_passed_env(env: &mut Vec<String>, vars: &Vec<EnvVar>)
    ensures
        views(final(env)@) == views(old(env)@) + passed_env(views(vars@)),
{
    let ghost all = views(vars@);
    let mut i: usize = 0;
    proof {
        assert(all.take(0) =~= Seq::<EnvVarView>::empty());
        assert(views(env@) =~= views(old(env)@) + passed_env(all.take(0)));
    }
    while i < vars.len()
        invariant
            i <= vars.len(),
            all == views(vars@),
            views(env@) == views(old(env)@) + passed_env(all.take(i as int)),
        decreases vars.len() - i,
    {
        proof {
            assert(all.take(i + 1).drop_last() =~= all.take(i as int));
            assert(all.take(i + 1).last() == vars@[i as int]@);
        }
        if let Some(value) = &vars[i].value {
            let ghost before = env@;
            let entry = concat3(vars[i].name.as_str(), "=", value.as_str());
            env.push(entry);
            proof {
                assert(views(env@) =~= views(before).push(entry@));
            }
        }
        i += 1;
    }
    proof {
        assert(all.take(vars.len() as int) =~= all);
    }
}

/// The names of the variables that were to be handed on and have no value
/// on the host: each is worth a warning and no more.
pub fn missing_passthrough(vars: &Vec<EnvVar>) -> (r: Vec<String>)
    ensures
        views(r@) == missing_env(views(vars@)),
{
    let ghost all = views(vars@);
    let mut out: Vec<String> = Vec::new();
    let mut i: usize = 0;
    proof {
        assert(all.take(0) =~= Seq::<EnvVarView>::empty());
        assert(views(out@) =~= Seq::<Seq<char>>::empty());
    }
    while i < vars.len()
        invariant
            i <= vars.len(),
            all == views(vars@),
            views(out@) == missing_env(all.take(i as int)),
        decreases vars.len() - i,
    {
        proof {
            assert(all.take(i + 1).drop_last() =~= all.take(i as int));
            assert(all.take(i + 1).last() == vars@[i as int]@);
        }
        if vars[i].value.is_none() {
            let ghost before = out@;
            out.push(vars[i].name.clone());
            proof {
                assert(views(out@) =~= views(before).push(vars@[i as int]@.name));
            }
        }
        i += 1;
    }
    proof {
        assert(all.take(vars.len() as int) =~= all);
    }
    out
}

/// Whether one of `mounts` asks for overlay mode.
pub open spec fn asks_overlay(mounts: Seq<MountView>) -> bool {
    exists|i: int| 0 <= i < mounts.len() && (#[trigger] mounts[i]).mode == MountMode::Overlay
}

/// Whether the backend named `backend` has overlay mounts: only podman has.
pub open spec fn backend_has_overlay(backend: Seq<char>) -> bool {
    backend == "podman"@
}

/// Whether one of `mounts` asks for overlay mode.
pub fn has_overlay(mounts: &Vec<Mount>) -> (r: bool)
    ensures
        r == asks_overlay(views(mounts@)),
{
    let mut i: usize = 0;
    while i < mounts.len()
        invariant
            i <= mounts.len(),
            forall|j: int| 0 <= j < i ==> (#[trigger] views(mounts@)[j]).mode != MountMode::Overlay,
        decreases mounts.len() - i,
    {
        if mounts[i].mode.is_overlay() {
            proof {
                assert(views(mounts@)[i as int].mode == MountMode::Overlay);
            }
            return true;
        }
        i += 1;
    }
    false
}

/// The home directory of the user `username` inside the container.
pub open spec fn container_home_of(username: Seq<char>) -> Seq<char> {
    "/home/"@ + username
}

/// The bind of `path` to the same path in the container.
pub open spec fn same_path_bind(path: Seq<char>, mode: MountMode) -> Seq<char> {
    bind_string(ResolvedMountView { host: path, container: path, mode })
}

/// The bind of the version-control directory `name` of the source
/// checkout: one read-write bind where the directory exists, none where it
/// does not, and an error where the snapshot does not know.
pub open spec fn metadata_bind(fs: Seq<PathFactsView>, source: Seq<char>, name: Seq<char>) -> Result<
    Seq<Seq<char>>,
    MountErrorView,
> {
    let path = join_path(source, name);
    match lookup(fs, path) {
        None => Err(MountErrorView::Unprobed { path }),
        Some(facts) => if facts.canonical.is_some() {
            Ok(seq![same_path_bind(path, MountMode::Rw)])
        } else {
            Ok(Seq::empty())
        },
    }
}

/// The binds that stand before any planned mount: the workspace, bound to
/// itself, and, unless workspace and source are the same directory, the
/// `.git` and `.jj` directories of the source checkout that exist.
pub open spec fn seed_binds(
    fs: Seq<PathFactsView>,
    workspace: Seq<char>,
    source: Seq<char>,
    local: bool,
    read_only: bool,
) -> Result<Seq<Seq<char>>, MountErrorView> {
    let first = seq![
        same_path_bind(
            workspace,
            if read_only {
                MountMode::Ro
            } else {
                MountMode::Rw
            },
        ),
    ];
    if local {
        Ok(first)
    } else {
        match metadata_bind(fs, source, ".git"@) {
            Err(e) => Err(e),
            Ok(git) => match metadata_bind(fs, source, ".jj"@) {
                Err(e) => Err(e),
                Ok(jj) => Ok(first + git + jj),
            },
        }
    }
}

/// The working directory of the container: the canonical form of the
/// workspace path.
pub open spec fn working_dir_of(fs: Seq<PathFactsView>, workspace: Seq<char>) -> Result<
    Seq<char>,
    MountErrorView,
> {
    match lookup(fs, workspace) {
        None => Err(MountErrorView::Unprobed { path: workspace }),
        Some(facts) => match facts.canonical {
            None => Err(MountErrorView::NotCanonical { path: workspace }),
            Some(canonical) => Ok(canonical),
        },
    }
}

/// The launch description that the inputs determine, or why there is none.
///
/// An overlay mount with a backend that has none is found first.
pub open spec fn container_config_spec(
    config: ConfigView,
    workspace: Seq<char>,
    source: Seq<char>,
    local: bool,
    read_only: bool,
    entrypoint_override: Option<Seq<char>>,
    profile: ResolvedProfileView,
    cli_mounts: Seq<MountView>,
    cli_ports: Seq<Seq<char>>,
    cli_hosts: Seq<Seq<char>>,
    command: Option<Seq<Seq<char>>>,
    skip_covered: bool,
    strict_modes: bool,
    network: Option<Seq<char>>,
    host: HostFactsView,
) -> Result<ContainerConfigView, MountErrorView> {
    let mounts = profile.mounts + cli_mounts;
    if asks_overlay(mounts) && !backend_has_overlay(config.runtime.backend) {
        Err(MountErrorView::OverlayUnsupported { backend: config.runtime.backend })
    } else {
        match working_dir_of(host.fs, workspace) {
            Err(e) => Err(e),
            Ok(working_dir) => match seed_binds(host.fs, workspace, source, local, read_only) {
                Err(e) => Err(e),
                Ok(seeds) => match planned_binds(
                    mounts,
                    seeds,
                    skip_covered,
                    strict_modes,
                    config.runtime.skip_mounts,
                    host.home,
                    container_home_of(host.username),
                    host.fs,
                ) {
                    Err(e) => Err(e),
                    Ok(added) => Ok(
                        ContainerConfigView {
                            image: config.runtime.image,
                            entrypoint: match entrypoint_override {
                                Some(program) => Some(seq![program]),
                                None => config.runtime.entrypoint,
                            },
                            command,
                            user: decimal(host.uid as nat) + ":"@ + decimal(host.gid as nat),
                            working_dir,
                            mounts: seeds + added,
                            env: seq![
                                "USER="@ + host.username,
                                "HOME="@ + container_home_of(host.username),
                            ] + profile.env + passed_env(host.passthrough),
                            ports: first_occurrences(profile.ports + cli_ports),
                            hosts: first_occurrences(profile.hosts + cli_hosts),
                            network,
                        },
                    ),
                },
            },
        }
    }
}

/// The view of a result that holds a launch description or a mount error.
pub open spec fn config_result_view(r: Result<ContainerConfig, MountError>) -> Result<
    ContainerConfigView,
    MountErrorView,
> {
    match r {
        Ok(c) => Ok(c@),
        Err(e) => Err(e@),
    }
}

/// The bind of `path` to itself.
fn bind_same_path(path: &str, mode: MountMode) -> (r: String)
    ensures
        r@ == same_path_bind(path@, mode),
{
    let m = ResolvedMount { host: path.to_owned(), container: path.to_owned(), mode };
    m.to_bind_string()
}

/// Appends the bind of the source checkout's directory `name`, if it exists.
fn push_metadata_bind(binds: &mut Vec<String>, fs: &FsSnapshot, source: &str, name: &str) -> (r:
    Result<(), MountError>)
    ensures
        match metadata_bind(fs@, source@, name@) {
            Ok(more) => r is Ok && views(final(binds)@) == views(old(binds)@) + more,
            Err(e) => r is Err && r->Err_0@ == e && views(final(binds)@) == views(old(binds)@),
        },
{
    let path = join(source, name);
    match fs.find(path.as_str()) {
        None => Err(MountError::Unprobed { path }),
        Some(facts) => {
            if facts.canonical.is_some() {
                let bind = bind_same_path(path.as_str(), MountMode::Rw);
                binds.push(bind);
                proof {
                    assert(views(binds@) =~= views(old(binds)@) + seq![
                        same_path_bind(path@, MountMode::Rw),
                    ]);
                }
            } else {
                proof {
                    assert(views(binds@) =~= views(old(binds)@) + Seq::<Seq<char>>::empty());
                }
            }
            Ok(())
        },
    }
}

/// Assembles the launch description of a container.
///
/// The workspace is bound to itself, read-only if `ro` is set; unless
/// `local` says that workspace and source are one directory, the `.git`
/// and `.jj` directories of the source that exist are bound read-write.
/// The mounts of the resolved profile and then those of the command line
/// are planned against these binds. The environment is `USER`, `HOME`,
/// the profile's variables, and the host's variables that are handed on.
/// Ports and hosts are those of the profile and then those of the command
/// line, each only where it occurs first.
///
/// Fails with `OverlayUnsupported`, before anything else is looked at, if
/// and only if a mount asks for overlay mode and the configured backend is
/// not podman; else with the first error of resolving the paths, and with
/// `Unprobed` where `host.fs` lacks a path that the plan depends on.
pub fn build_container_config(
    config: &Config,
    workspace_path: &str,
    source_path: &str,
    local: bool,
    ro: bool,
    entrypoint_override: Option<&str>,
    resolved_profile: &ResolvedProfile,
    cli_mounts: &Vec<Mount>,
    cli_ports: &[String],
    cli_hosts: &[String],
    command: Option<Vec<String>>,
    should_skip: bool,
    strict_modes: bool,
    network: Option<String>,
    host: &HostFacts,
) -> (r: Result<ContainerConfig, MountError>)
    ensures
        config_result_view(r) == container_config_spec(
            config@,
            workspace_path@,
            source_path@,
            local,
            ro,
            opt_view(entrypoint_override),
            resolved_profile@,
            views(cli_mounts@),
            views(cli_ports@),
            views(cli_hosts@),
            opt_strings(command),
            should_skip,
            strict_modes,
            opt_view(network),
            host@,
        ),
        r matches Err(MountError::OverlayUnsupported { .. }) <==> asks_overlay(
            resolved_profile@.mounts + views(cli_mounts@),
        ) && !backend_has_overlay(config@.runtime.backend),
{
    let mut all_mounts: Vec<Mount> = Vec::new();
    extend_mounts(&mut all_mounts, &resolved_profile.mounts);
    extend_mounts(&mut all_mounts, cli_mounts);
    proof {
        assert(views(all_mounts@) =~= resolved_profile@.mounts + views(cli_mounts@));
        lemma_no_overlay_error_later(
            resolved_profile@.mounts + views(cli_mounts@),
            config@,
            workspace_path@,
            source_path@,
            local,
            ro,
            should_skip,
            strict_modes,
            host@,
        );
    }
    if has_overlay(&all_mounts) && !str_eq(config.runtime.backend.as_str(), "podman") {
        return Err(MountError::OverlayUnsupported { backend: config.runtime.backend.clone() });
    }
    let working_dir = match host.fs.find(workspace_path) {
        None => {
            return Err(MountError::Unprobed { path: workspace_path.to_owned() });
        },
        Some(facts) => match &facts.canonical {
            None => {
                return Err(MountError::NotCanonical { path: workspace_path.to_owned() });
            },
            Some(canonical) => canonical.clone(),
        },
    };
    let workspace_mode = if ro {
        MountMode::Ro
    } else {
        MountMode::Rw
    };
    let mut binds: Vec<String> = Vec::new();
    binds.push(bind_same_path(workspace_path, workspace_mode));
    proof {
        assert(views(binds@) =~= seq![same_path_bind(workspace_path@, workspace_mode)]);
    }
    if !local {
        match push_metadata_bind(&mut binds, &host.fs, source_path, ".git") {
            Ok(()) => {},
            Err(e) => {
                return Err(e);
            },
        }
        match push_metadata_bind(&mut binds, &host.fs, source_path, ".jj") {
            Ok(()) => {},
            Err(e) => {
                return Err(e);
            },
        }
    }
    let ghost seeds = views(binds@);
    let container_home = concat("/home/", host.username.as_str());
    match add_mounts(
        all_mounts.as_slice(),
        &mut binds,
        should_skip,
        strict_modes,
        config.runtime.skip_mounts.as_slice(),
        host.home.as_str(),
        container_home.as_str(),
        &host.fs,
    ) {
        Ok(()) => {},
        Err(e) => {
            return Err(e);
        },
    }
    let entrypoint = match entrypoint_override {
        Some(program) => {
            let mut argv: Vec<String> = Vec::new();
            argv.push(program.to_owned());
            proof {
                assert(views(argv@) =~= seq![program@]);
            }
            Some(argv)
        },
        None => clone_opt_strings(&config.runtime.entrypoint),
    };
    let mut env: Vec<String> = Vec::new();
    env.push(concat("USER=", host.username.as_str()));
    env.push(concat("HOME=", container_home.as_str()));
    proof {
        assert(views(env@) =~= seq![
            "USER="@ + host@.username,
            "HOME="@ + container_home_of(host@.username),
        ]);
    }
    extend_strings(&mut env, &resolved_profile.env);
    push_passed_env(&mut env, &host.passthrough);
    let ports = merge_unique(resolved_profile.ports.as_slice(), cli_ports);
    let hosts = merge_unique(resolved_profile.hosts.as_slice(), cli_hosts);
    let uid = to_decimal(host.uid);
    let gid = to_decimal(host.gid);
    let user = concat3(uid.as_str(), ":", gid.as_str());
    Ok(
        ContainerConfig {
            image: config.runtime.image.clone(),
            entrypoint,
            command,
            user,
            working_dir,
            mounts: binds,
            env,
            ports,
            hosts,
            network,
        },
    )
}

/// Planning itself never reports a missing overlay backend: that error
/// is raised before planning begins, or not at all.
pub proof fn lemma_no_overlay_error_later(
    mounts: Seq<MountView>,
    config: ConfigView,
    workspace: Seq<char>,
    source: Seq<char>,
    local: bool,
    read_only: bool,
    skip_covered: bool,
    strict_modes: bool,
    host: HostFactsView,
)
    ensures
        !(working_dir_of(host.fs, workspace) matches Err(
            MountErrorView::OverlayUnsupported { .. },
        )),
        !(seed_binds(host.fs, workspace, source, local, read_only) matches Err(
            MountErrorView::OverlayUnsupported { .. },
        )),
        forall|seeds: Seq<Seq<char>>|
            !(#[trigger] planned_binds(
                mounts,
                seeds,
                skip_covered,
                strict_modes,
                config.runtime.skip_mounts,
                host.home,
                container_home_of(host.username),
                host.fs,
            ) matches Err(MountErrorView::OverlayUnsupported { .. })),
{
    assert forall|seeds: Seq<Seq<char>>|
        !(#[trigger] planned_binds(
            mounts,
            seeds,
            skip_covered,
            strict_modes,
            config.runtime.skip_mounts,
            host.home,
            container_home_of(host.username),
            host.fs,
        ) matches Err(MountErrorView::OverlayUnsupported { .. })) by {
        crate::planner_laws::lemma_planning_errors(
            mounts,
            seeds,
            skip_covered,
            strict_modes,
            config.runtime.skip_mounts,
            host.home,
            container_home_of(host.username),
            host.fs,
        );
    }
}

/// Overlay and backend. An overlay mount with a backend that has none is an
/// error, whatever else holds; and with that out of the way the launch
/// description exists whenever the workspace and the source directories
/// are known, every mount resolves, and conflicts of modes are not
/// refused.
pub proof fn lemma_overlay_needs_backend(
    config: ConfigView,
    workspace: Seq<char>,
    source: Seq<char>,
    local: bool,
    read_only: bool,
    entrypoint_override: Option<Seq<char>>,
    profile: ResolvedProfileView,
    cli_mounts: Seq<MountView>,
    cli_ports: Seq<Seq<char>>,
    cli_hosts: Seq<Seq<char>>,
    command: Option<Seq<Seq<char>>>,
    skip_covered: bool,
    network: Option<Seq<char>>,
    host: HostFactsView,
)
    ensures
        asks_overlay(profile.mounts + cli_mounts) && !backend_has_overlay(config.runtime.backend)
            ==> container_config_spec(
            config,
            workspace,
            source,
            local,
            read_only,
            entrypoint_override,
            profile,
            cli_mounts,
            cli_ports,
            cli_hosts,
            command,
            skip_covered,
            false,
            network,
            host,
        ) == Err::<ContainerConfigView, MountErrorView>(
            MountErrorView::OverlayUnsupported { backend: config.runtime.backend },
        ),
        !(asks_overlay(profile.mounts + cli_mounts) && !backend_has_overlay(config.runtime.backend))
            && working_dir_of(host.fs, workspace) is Ok && seed_binds(
            host.fs,
            workspace,
            source,
            local,
            read_only,
        ) is Ok && crate::planner::resolve_all(
            profile.mounts + cli_mounts,
            host.home,
            container_home_of(host.username),
            host.fs,
        ) is Ok ==> container_config_spec(
            config,
            workspace,
            source,
            local,
            read_only,
            entrypoint_override,
            profile,
            cli_mounts,
            cli_ports,
            cli_hosts,
            command,
            skip_covered,
            false,
            network,
            host,
        ) is Ok,
{
    let mounts = profile.mounts + cli_mounts;
    match seed_binds(host.fs, workspace, source, local, read_only) {
        Ok(seeds) => {
            match crate::planner::resolve_all(
                mounts,
                host.home,
                container_home_of(host.username),
                host.fs,
            ) {
                Ok(all) => {
                    let sorted = crate::order::sort_spec(all);
                    crate::planner_laws::lemma_select_errors(
                        sorted,
                        crate::planner::skip_flags(sorted, config.runtime.skip_mounts),
                        crate::planner::seeds_of(seeds),
                        skip_covered,
                        false,
                    );
                },
                Err(_) => {},
            }
        },
        Err(_) => {},
    }
}

/// What a launch description binds: the binds that stand before planning,
/// and behind them the binds that planning adds for the mounts of the
/// profile and of the command line. With `lemma_plan_binds_uncovered` this
/// says which mounts appear: each that is neither skipped nor covered,
/// an overlay mount with the flag `O`.
pub proof fn lemma_config_binds(
    config: ConfigView,
    workspace: Seq<char>,
    source: Seq<char>,
    local: bool,
    read_only: bool,
    entrypoint_override: Option<Seq<char>>,
    profile: ResolvedProfileView,
    cli_mounts: Seq<MountView>,
    cli_ports: Seq<Seq<char>>,
    cli_hosts: Seq<Seq<char>>,
    command: Option<Seq<Seq<char>>>,
    skip_covered: bool,
    strict_modes: bool,
    network: Option<Seq<char>>,
    host: HostFactsView,
)
    requires
        container_config_spec(
            config,
            workspace,
            source,
            local,
            read_only,
            entrypoint_override,
            profile,
            cli_mounts,
            cli_ports,
            cli_hosts,
            command,
            skip_covered,
            strict_modes,
            network,
            host,
        ) is Ok,
    ensures
        !asks_overlay(profile.mounts + cli_mounts) || backend_has_overlay(config.runtime.backend),
        seed_binds(host.fs, workspace, source, local, read_only) is Ok,
        planned_binds(
            profile.mounts + cli_mounts,
            seed_binds(host.fs, workspace, source, local, read_only)->Ok_0,
            skip_covered,
            strict_modes,
            config.runtime.skip_mounts,
            host.home,
            container_home_of(host.username),
            host.fs,
        ) is Ok,
        container_config_spec(
            config,
            workspace,
            source,
            local,
            read_only,
            entrypoint_override,
            profile,
            cli_mounts,
            cli_ports,
            cli_hosts,
            command,
            skip_covered,
            strict_modes,
            network,
            host,
        )->Ok_0.mounts == seed_binds(host.fs, workspace, source, local, read_only)->Ok_0
            + planned_binds(
            profile.mounts + cli_mounts,
            seed_binds(host.fs, workspace, source, local, read_only)->Ok_0,
            skip_covered,
            strict_modes,
            config.runtime.skip_mounts,
            host.home,
            container_home_of(host.username),
            host.fs,
        )->Ok_0,
{
}

} // verus!
