//! The container engines, and the command line that runs a container on each.

use vstd::prelude::*;
use crate::config::{Config, ConfigView};
use crate::container::{ContainerConfig, ContainerConfigView};
use crate::text::{join, join_spec, str_eq, views};

verus! {

/// The docker engine.
#[derive(Debug, Clone, Copy, PartialEq, Eq, Structural)]
pub struct DockerRuntime;

/// The podman engine.
#[derive(Debug, Clone, Copy, PartialEq, Eq, Structural)]
pub struct PodmanRuntime;

/// A container engine.
#[derive(Debug, Clone, Copy, PartialEq, Eq, Structural)]
pub enum Runtime {
    Docker(DockerRuntime),
    Podman(PodmanRuntime),
}

/// The engine that a configuration asks for: podman where it names
/// podman, docker for any other name.
pub open spec fn runtime_of(c: ConfigView) -> Runtime {
    if c.runtime.backend == "podman"@ {
        Runtime::Podman(PodmanRuntime)
    } else {
        Runtime::Docker(DockerRuntime)
    }
}

/// The engine that `config` asks for.
pub fn create_runtime(config: &Config) -> (r: Runtime)
    ensures
        r == runtime_of(config@),
{
    if str_eq(config.runtime.backend.as_str(), "podman") {
        Runtime::Podman(PodmanRuntime::new())
    } else {
        Runtime::Docker(DockerRuntime::new())
    }
}

/// `flag` and a value, for each of `values` in order.
pub open spec fn flagged(flag: Seq<char>, values: Seq<Seq<char>>) -> Seq<Seq<char>>
    decreases values.len(),
{
    if values.len() == 0 {
        Seq::empty()
    } else {
        flagged(flag, values.drop_last()) + seq![flag, values.last()]
    }
}

/// The arguments that name the entrypoint: its words joined by blanks.
pub open spec fn entrypoint_args(entrypoint: Option<Seq<Seq<char>>>) -> Seq<Seq<char>> {
    match entrypoint {
        Some(words) => seq!["--entrypoint"@, join_spec(words, " "@)],
        None => Seq::empty(),
    }
}

/// The arguments that name the network mode.
pub open spec fn network_args(network: Option<Seq<char>>) -> Seq<Seq<char>> {
    match network {
        Some(mode) => seq!["--network"@, mode],
        None => Seq::empty(),
    }
}

/// The words of the command, or none.
pub open spec fn command_args(command: Option<Seq<Seq<char>>>) -> Seq<Seq<char>> {
    match command {
        Some(words) => words,
        None => Seq::empty(),
    }
}

/// The arguments of `docker` that run the container `c` in the foreground.
pub open spec fn docker_args(c: ContainerConfigView) -> Seq<Seq<char>> {
    seq!["run"@, "--rm"@, "-it"@, "--user"@, c.user, "--workdir"@, c.working_dir] + network_args(
        c.network,
    ) + flagged("-v"@, c.mounts) + flagged("-e"@, c.env) + flagged("-p"@, c.ports) + flagged(
        "--add-host"@,
        c.hosts,
    ) + entrypoint_args(c.entrypoint) + seq![c.image] + command_args(c.command)
}

/// The arguments of `podman` that run the container `c` in the
/// foreground, with the invoking user's id kept inside.
pub open spec fn podman_args(c: ContainerConfigView) -> Seq<Seq<char>> {
    seq![
        "run"@,
        "--rm"@,
        "-it"@,
        "--userns"@,
        "keep-id"@,
        "--user"@,
        c.user,
        "--workdir"@,
        c.working_dir,
    ] + flagged("-v"@, c.mounts) + flagged("-e"@, c.env) + entrypoint_args(c.entrypoint) + seq![
        c.image,
    ] + command_args(c.command)
}

/// Appends `flag` and a value to `args` for each of `values`.
fn push_flagged(args: &mut Vec<String>, flag: &str, values: &Vec<String>)
    ensures
        views(final(args)@) == views(old(args)@) + flagged(flag@, views(values@)),
{
    let ghost all = views(values@);
    let ghost start = views(args@);
    let mut i: usize = 0;
    proof {
        assert(all.take(0) =~= Seq::<Seq<char>>::empty());
        assert(views(args@) =~= start + flagged(flag@, all.take(0)));
    }
    while i < values.len()
        invariant
            i <= values.len(),
            all == views(values@),
            views(args@) == start + flagged(flag@, all.take(i as int)),
        decreases values.len() - i,
    {
        proof {
            assert(all.take(i + 1).drop_last() =~= all.take(i as int));
            assert(all.take(i + 1).last() == values@[i as int]@);
        }
        let ghost before = args@;
        args.push(flag.to_owned());
        args.push(values[i].clone());
        proof {
            assert(views(args@) =~= views(before) + seq![flag@, values@[i as int]@]);
        }
        i += 1;
    }
    proof {
        assert(all.take(values.len() as int) =~= all);
    }
}

/// Appends the arguments that name the entrypoint, the image, and the
/// words of the command.
fn push_tail(args: &mut Vec<String>, config: &ContainerConfig)
    ensures
        views(final(args)@) == views(old(args)@) + entrypoint_args(config@.entrypoint) + seq![
            config@.image,
        ] + command_args(config@.command),
{
    let ghost start = views(args@);
    if let Some(words) = &config.entrypoint {
        args.push("--entrypoint".to_owned());
        args.push(join(words, " "));
    }
    proof {
        assert(views(args@) =~= start + entrypoint_args(config@.entrypoint));
    }
    let ghost mid = views(args@);
    args.push(config.image.clone());
    proof {
        assert(views(args@) =~= mid + seq![config@.image]);
    }
    if let Some(words) = &config.command {
        crate::text::extend_strings(args, words);
    } else {
        proof {
            assert(views(args@) =~= views(args@) + Seq::<Seq<char>>::empty());
        }
    }
}

impl DockerRuntime {
    /// The docker engine.
    pub fn new() -> (r: DockerRuntime)
        ensures
            r == DockerRuntime,
    {
        DockerRuntime
    }

    /// The arguments with which `docker` runs the container `config`.
    pub fn run_args(&self, config: &ContainerConfig) -> (r: Vec<String>)
        ensures
            views(r@) == docker_args(config@),
    {
        let mut args: Vec<String> = Vec::new();
        args.push("run".to_owned());
        args.push("--rm".to_owned());
        args.push("-it".to_owned());
        args.push("--user".to_owned());
        args.push(config.user.clone());
        args.push("--workdir".to_owned());
        args.push(config.working_dir.clone());
        proof {
            assert(views(args@) =~= seq![
                "run"@,
                "--rm"@,
                "-it"@,
                "--user"@,
                config@.user,
                "--workdir"@,
                config@.working_dir,
            ]);
        }
        let ghost head = views(args@);
        if let Some(mode) = &config.network {
            args.push("--network".to_owned());
            args.push(mode.clone());
        }
        proof {
            assert(views(args@) =~= head + network_args(config@.network));
        }
        push_flagged(&mut args, "-v", &config.mounts);
        push_flagged(&mut args, "-e", &config.env);
        push_flagged(&mut args, "-p", &config.ports);
        push_flagged(&mut args, "--add-host", &config.hosts);
        push_tail(&mut args, config);
        args
    }
}

impl PodmanRuntime {
    /// The podman engine.
    pub fn new() -> (r: PodmanRuntime)
        ensures
            r == PodmanRuntime,
    {
        PodmanRuntime
    }

    /// The arguments with which `podman` runs the container `config`.
    pub fn run_args(&self, config: &ContainerConfig) -> (r: Vec<String>)
        ensures
            views(r@) == podman_args(config@),
    {
        let mut args: Vec<String> = Vec::new();
        args.push("run".to_owned());
        args.push("--rm".to_owned());
        args.push("-it".to_owned());
        args.push("--userns".to_owned());
        args.push("keep-id".to_owned());
        args.push("--user".to_owned());
        args.push(config.user.clone());
        args.push("--workdir".to_owned());
        args.push(config.working_dir.clone());
        proof {
            assert(views(args@) =~= seq![
                "run"@,
                "--rm"@,
                "-it"@,
                "--userns"@,
                "keep-id"@,
                "--user"@,
                config@.user,
                "--workdir"@,
                config@.working_dir,
            ]);
        }
        push_flagged(&mut args, "-v", &config.mounts);
        push_flagged(&mut args, "-e", &config.env);
        push_tail(&mut args, config);
        args
    }
}

impl Runtime {
    /// The name of the engine's program.
    pub fn program(&self) -> (r: &'static str)
        ensures
            r@ == match self {
                Runtime::Docker(_) => "docker"@,
                Runtime::Podman(_) => "podman"@,
            },
    {
        match self {
            Runtime::Docker(_) => "docker",
            Runtime::Podman(_) => "podman",
        }
    }

    /// Whether the engine has overlay mounts.
    pub fn supports_overlay(&self) -> (r: bool)
        ensures
            r == (*self is Podman),
    {
        match self {
            Runtime::Docker(_) => false,
            Runtime::Podman(_) => true,
        }
    }

    /// The arguments with which the engine's program runs the container
    /// `config`.
    pub fn run_args(&self, config: &ContainerConfig) -> (r: Vec<String>)
        ensures
            views(r@) == match self {
                Runtime::Docker(_) => docker_args(config@),
                Runtime::Podman(_) => podman_args(config@),
            },
    {
        match self {
            Runtime::Docker(rt) => rt.run_args(config),
            Runtime::Podman(rt) => rt.run_args(config),
        }
    }
}

} // verus!
