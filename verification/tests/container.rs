use agent_box::config::{Config, MountsConfig, ProfileMap, RuntimeConfig};
use agent_box::container::{
    build_container_config, merge_unique, missing_passthrough, to_decimal, ContainerConfig, EnvVar,
    HostFacts,
};
use agent_box::mount::{Mount, MountError, MountMode};
use agent_box::profile::ResolvedProfile;
use agent_box::snapshot::{FsSnapshot, PathFacts};

fn config_with_backend(backend: &str) -> Config {
    Config {
        workspace_dir: "/workspaces".to_string(),
        base_repo_dir: "/repos".to_string(),
        git_dir: "/git".to_string(),
        jj_dir: "/jj".to_string(),
        default_profile: None,
        profiles: ProfileMap::new(),
        runtime: RuntimeConfig {
            backend: backend.to_string(),
            image: "test:latest".to_string(),
            entrypoint: Some(vec!["/bin/sh".to_string(), "-c".to_string()]),
            mounts: MountsConfig::default(),
            env: vec![],
            skip_mounts: vec!["/nix/store/*".to_string()],
        },
    }
}

fn plain(path: &str) -> PathFacts {
    PathFacts {
        path: path.to_string(),
        canonical: Some(path.to_string()),
        link_target: None,
    }
}

fn missing(path: &str) -> PathFacts {
    PathFacts {
        path: path.to_string(),
        canonical: None,
        link_target: None,
    }
}

fn host(entries: Vec<PathFacts>) -> HostFacts {
    let mut fs = FsSnapshot::new();
    for e in entries {
        fs.record(e);
    }
    HostFacts {
        uid: 1000,
        gid: 100,
        username: "alice".to_string(),
        home: "/home/alice".to_string(),
        passthrough: vec![
            EnvVar { name: "TERM".to_string(), value: Some("xterm".to_string()) },
            EnvVar { name: "SSH_AUTH_SOCK".to_string(), value: None },
            EnvVar { name: "LANG".to_string(), value: Some("C".to_string()) },
        ],
        fs,
    }
}

fn profile(mounts: Vec<Mount>) -> ResolvedProfile {
    ResolvedProfile {
        mounts,
        env: vec!["BASE=1".to_string(), "GIT=1".to_string()],
        ports: vec!["8080:80".to_string(), "443:443".to_string()],
        hosts: vec!["db:10.0.0.2".to_string()],
    }
}

fn mount(spec: &str, home_relative: bool, mode: MountMode) -> Mount {
    Mount { spec: spec.to_string(), home_relative, mode }
}

fn build(
    config: &Config,
    local: bool,
    ro: bool,
    entrypoint: Option<&str>,
    profile: &ResolvedProfile,
    cli_mounts: &Vec<Mount>,
    host: &HostFacts,
) -> Result<ContainerConfig, MountError> {
    build_container_config(
        config,
        "/workspaces/jj/proj/s1",
        "/repos/proj",
        local,
        ro,
        entrypoint,
        profile,
        cli_mounts,
        &["443:443".to_string(), "9000:9000".to_string()],
        &["db:10.0.0.2".to_string(), "cache:10.0.0.3".to_string()],
        Some(vec!["--flag".to_string()]),
        true,
        false,
        Some("host".to_string()),
        host,
    )
}

#[test]
fn launch_description_is_assembled_in_order() {
    let config = config_with_backend("docker");
    let h = host(vec![
        PathFacts {
            path: "/workspaces/jj/proj/s1".to_string(),
            canonical: Some("/data/workspaces/jj/proj/s1".to_string()),
            link_target: None,
        },
        plain("/repos/proj/.git"),
        missing("/repos/proj/.jj"),
        plain("/home/alice/.config/git"),
        plain("/nix/store/abc"),
        plain("/etc/hosts"),
    ]);
    let p = profile(vec![
        mount("~/.config/git", true, MountMode::Ro),
        mount("/nix/store/abc", false, MountMode::Ro),
    ]);
    let cli = vec![mount("/etc/hosts", false, MountMode::Ro)];

    let c = build(&config, false, false, None, &p, &cli, &h).unwrap();

    assert_eq!(c.image, "test:latest");
    assert_eq!(c.entrypoint, Some(vec!["/bin/sh".to_string(), "-c".to_string()]));
    assert_eq!(c.command, Some(vec!["--flag".to_string()]));
    assert_eq!(c.user, "1000:100");
    assert_eq!(c.working_dir, "/data/workspaces/jj/proj/s1");
    assert_eq!(
        c.mounts,
        vec![
            "/workspaces/jj/proj/s1:/workspaces/jj/proj/s1:rw",
            "/repos/proj/.git:/repos/proj/.git:rw",
            "/etc/hosts:/etc/hosts:ro",
            "/home/alice/.config/git:/home/alice/.config/git:ro",
        ]
    );
    assert_eq!(
        c.env,
        vec!["USER=alice", "HOME=/home/alice", "BASE=1", "GIT=1", "TERM=xterm", "LANG=C"]
    );
    assert_eq!(c.ports, vec!["8080:80", "443:443", "9000:9000"]);
    assert_eq!(c.hosts, vec!["db:10.0.0.2", "cache:10.0.0.3"]);
    assert_eq!(c.network, Some("host".to_string()));
    assert_eq!(missing_passthrough(&h.passthrough), vec!["SSH_AUTH_SOCK"]);
}

#[test]
fn local_workspace_binds_no_source_metadata() {
    let config = config_with_backend("docker");
    // Nothing is known of the source checkout, and nothing is asked about it.
    let h = host(vec![plain("/workspaces/jj/proj/s1")]);
    let c = build(&config, true, true, Some("/bin/bash"), &profile(vec![]), &vec![], &h).unwrap();
    assert_eq!(c.mounts, vec!["/workspaces/jj/proj/s1:/workspaces/jj/proj/s1:ro"]);
    assert_eq!(c.entrypoint, Some(vec!["/bin/bash".to_string()]));
}

#[test]
fn mount_inside_the_workspace_is_covered() {
    let config = config_with_backend("docker");
    let h = host(vec![
        plain("/workspaces/jj/proj/s1"),
        plain("/workspaces/jj/proj/s1/target"),
    ]);
    let p = profile(vec![mount("/workspaces/jj/proj/s1/target", false, MountMode::Rw)]);
    let c = build(&config, true, false, None, &p, &vec![], &h).unwrap();
    assert_eq!(c.mounts.len(), 1);
}

#[test]
fn overlay_needs_podman() {
    let h = host(vec![plain("/workspaces/jj/proj/s1"), plain("/opt/cache")]);
    let p = profile(vec![]);
    let cli = vec![mount("/opt/cache", false, MountMode::Overlay)];

    for backend in ["docker", "Podman", "", "nerdctl"] {
        let r = build(&config_with_backend(backend), true, false, None, &p, &cli, &h);
        assert_eq!(r, Err(MountError::OverlayUnsupported { backend: backend.to_string() }));
    }
    let err = build(&config_with_backend("docker"), true, false, None, &p, &cli, &h).unwrap_err();
    assert_eq!(
        err.message(),
        "Overlay mounts are only supported with Podman backend, but 'docker' is configured"
    );

    let c = build(&config_with_backend("podman"), true, false, None, &p, &cli, &h).unwrap();
    assert_eq!(
        c.mounts,
        vec!["/workspaces/jj/proj/s1:/workspaces/jj/proj/s1:rw", "/opt/cache:/opt/cache:O"]
    );

    // Without an overlay mount every backend will do.
    let plain_cli = vec![mount("/opt/cache", false, MountMode::Rw)];
    assert!(build(&config_with_backend("docker"), true, false, None, &p, &plain_cli, &h).is_ok());
}

#[test]
fn overlay_in_the_profile_counts_too_and_comes_before_any_lookup() {
    let p = profile(vec![mount("/not/probed", false, MountMode::Overlay)]);
    let h = host(vec![]);
    let r = build(&config_with_backend("docker"), false, false, None, &p, &vec![], &h);
    assert_eq!(r, Err(MountError::OverlayUnsupported { backend: "docker".to_string() }));
}

#[test]
fn unknown_paths_are_asked_for_one_by_one() {
    let config = config_with_backend("docker");
    let p = profile(vec![mount("/opt/x", false, MountMode::Ro)]);
    let r = build(&config, false, false, None, &p, &vec![], &host(vec![]));
    assert_eq!(r, Err(MountError::Unprobed { path: "/workspaces/jj/proj/s1".to_string() }));
    let r = build(&config, false, false, None, &p, &vec![], &host(vec![plain("/workspaces/jj/proj/s1")]));
    assert_eq!(r, Err(MountError::Unprobed { path: "/repos/proj/.git".to_string() }));
    let r = build(
        &config,
        false,
        false,
        None,
        &p,
        &vec![],
        &host(vec![plain("/workspaces/jj/proj/s1"), missing("/repos/proj/.git")]),
    );
    assert_eq!(r, Err(MountError::Unprobed { path: "/repos/proj/.jj".to_string() }));
    let r = build(
        &config,
        false,
        false,
        None,
        &p,
        &vec![],
        &host(vec![
            plain("/workspaces/jj/proj/s1"),
            missing("/repos/proj/.git"),
            missing("/repos/proj/.jj"),
        ]),
    );
    assert_eq!(r, Err(MountError::Unprobed { path: "/opt/x".to_string() }));
}

#[test]
fn workspace_that_does_not_exist_is_an_error() {
    let config = config_with_backend("docker");
    let h = host(vec![missing("/workspaces/jj/proj/s1")]);
    let r = build(&config, true, false, None, &profile(vec![]), &vec![], &h);
    assert_eq!(r, Err(MountError::NotCanonical { path: "/workspaces/jj/proj/s1".to_string() }));
}

#[test]
fn decimal_text_of_numbers() {
    assert_eq!(to_decimal(0), "0");
    assert_eq!(to_decimal(7), "7");
    assert_eq!(to_decimal(10), "10");
    assert_eq!(to_decimal(1000), "1000");
    assert_eq!(to_decimal(65534), "65534");
    assert_eq!(to_decimal(u32::MAX), "4294967295");
}

#[test]
fn first_occurrence_wins() {
    let a = vec!["1".to_string(), "2".to_string(), "1".to_string()];
    let b = vec!["3".to_string(), "2".to_string(), "4".to_string(), "3".to_string()];
    assert_eq!(merge_unique(&a, &b), vec!["1", "2", "3", "4"]);
    assert_eq!(merge_unique(&[], &[]), Vec::<String>::new());
}
