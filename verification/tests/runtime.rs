use agent_box::config::{default_backend, Config, MountsConfig, ProfileMap, RuntimeConfig};
use agent_box::container::ContainerConfig;
use agent_box::runtime::{create_runtime, DockerRuntime, PodmanRuntime, Runtime};

fn launch() -> ContainerConfig {
    ContainerConfig {
        image: "img:1".to_string(),
        entrypoint: Some(vec!["/bin/sh".to_string(), "-c".to_string()]),
        command: Some(vec!["make".to_string(), "test".to_string()]),
        user: "1000:100".to_string(),
        working_dir: "/w".to_string(),
        mounts: vec!["/w:/w:rw".to_string(), "/etc/hosts:/etc/hosts:ro".to_string()],
        env: vec!["USER=alice".to_string()],
        ports: vec!["8080:80".to_string()],
        hosts: vec!["db:10.0.0.2".to_string()],
        network: Some("host".to_string()),
    }
}

fn config_for(backend: &str) -> Config {
    Config {
        workspace_dir: String::new(),
        base_repo_dir: String::new(),
        git_dir: String::new(),
        jj_dir: String::new(),
        default_profile: None,
        profiles: ProfileMap::new(),
        runtime: RuntimeConfig {
            backend: backend.to_string(),
            image: String::new(),
            entrypoint: None,
            mounts: MountsConfig::default(),
            env: vec![],
            skip_mounts: vec![],
        },
    }
}

#[test]
fn docker_arguments() {
    let args = DockerRuntime::new().run_args(&launch());
    assert_eq!(
        args,
        vec![
            "run", "--rm", "-it", "--user", "1000:100", "--workdir", "/w", "--network", "host",
            "-v", "/w:/w:rw", "-v", "/etc/hosts:/etc/hosts:ro", "-e", "USER=alice", "-p",
            "8080:80", "--add-host", "db:10.0.0.2", "--entrypoint", "/bin/sh -c", "img:1", "make",
            "test",
        ]
    );
}

#[test]
fn podman_arguments() {
    let args = PodmanRuntime::new().run_args(&launch());
    assert_eq!(
        args,
        vec![
            "run", "--rm", "-it", "--userns", "keep-id", "--user", "1000:100", "--workdir", "/w",
            "-v", "/w:/w:rw", "-v", "/etc/hosts:/etc/hosts:ro", "-e", "USER=alice",
            "--entrypoint", "/bin/sh -c", "img:1", "make", "test",
        ]
    );
}

#[test]
fn arguments_without_the_optional_parts() {
    let mut c = launch();
    c.entrypoint = None;
    c.command = None;
    c.network = None;
    c.mounts = vec![];
    c.env = vec![];
    c.ports = vec![];
    c.hosts = vec![];
    let args = Runtime::Docker(DockerRuntime::new()).run_args(&c);
    assert_eq!(args, vec!["run", "--rm", "-it", "--user", "1000:100", "--workdir", "/w", "img:1"]);
}

#[test]
fn podman_only_where_it_is_named() {
    assert_eq!(create_runtime(&config_for("podman")), Runtime::Podman(PodmanRuntime));
    assert_eq!(create_runtime(&config_for("docker")), Runtime::Docker(DockerRuntime));
    assert_eq!(create_runtime(&config_for("anything")), Runtime::Docker(DockerRuntime));
    assert_eq!(create_runtime(&config_for("")), Runtime::Docker(DockerRuntime));
    assert_eq!(create_runtime(&config_for("podman")).program(), "podman");
    assert_eq!(create_runtime(&config_for("docker")).program(), "docker");
    assert!(create_runtime(&config_for("podman")).supports_overlay());
    assert!(!create_runtime(&config_for("docker")).supports_overlay());
}

#[test]
fn test_default_backend() {
    assert_eq!(default_backend(), "docker");
    assert_eq!(RuntimeConfig::default().backend, "docker");
}

#[test]
fn test_empty_arrays_by_default() {
    let runtime = RuntimeConfig::default();
    assert!(runtime.mounts.ro.absolute.is_empty());
    assert!(runtime.mounts.ro.home_relative.is_empty());
    assert!(runtime.mounts.rw.absolute.is_empty());
    assert!(runtime.mounts.rw.home_relative.is_empty());
    assert!(runtime.mounts.o.absolute.is_empty());
    assert!(runtime.mounts.o.home_relative.is_empty());
    assert!(runtime.env.is_empty());
    assert!(runtime.entrypoint.is_none());
}
