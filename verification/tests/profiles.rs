use agent_box::config::{Config, MountPaths, MountsConfig, ProfileConfig, ProfileMap, RuntimeConfig};
use agent_box::mount::MountMode;
use agent_box::profile::resolve_profiles;
use agent_box::snapshot::FsSnapshot;

fn make_test_config() -> Config {
    Config {
        workspace_dir: "/workspaces".to_string(),
        base_repo_dir: "/repos".to_string(),
        git_dir: String::new(),
        jj_dir: String::new(),
        default_profile: None,
        profiles: ProfileMap::new(),
        runtime: RuntimeConfig {
            backend: "docker".to_string(),
            image: "test:latest".to_string(),
            entrypoint: None,
            mounts: MountsConfig::default(),
            env: vec!["BASE=1".to_string()],
            skip_mounts: vec![],
        },
    }
}

#[test]
fn test_resolve_profiles_no_profiles() {
    let config = make_test_config();
    let resolved = resolve_profiles(&config, &[]).unwrap();

    // Should just have runtime.env
    assert_eq!(resolved.env, vec!["BASE=1"]);
    assert!(resolved.mounts.is_empty());
}

#[test]
fn test_resolve_profiles_single_profile() {
    let mut config = make_test_config();
    config.profiles.insert(
        "git".to_string(),
        ProfileConfig {
            extends: vec![],
            mounts: MountsConfig {
                ro: MountPaths {
                    absolute: vec![],
                    home_relative: vec!["~/.gitconfig".to_string()],
                },
                ..Default::default()
            },
            env: vec!["GIT=1".to_string()],
        },
    );

    let resolved = resolve_profiles(&config, &["git".to_string()]).unwrap();

    assert_eq!(resolved.env, vec!["BASE=1", "GIT=1"]);
    assert_eq!(
        resolved.get_mount_specs(MountMode::Ro, true),
        vec!["~/.gitconfig"]
    );
}

#[test]
fn test_resolve_profiles_with_extends() {
    let mut config = make_test_config();

    // base profile
    config.profiles.insert(
        "base".to_string(),
        ProfileConfig {
            extends: vec![],
            mounts: MountsConfig {
                ro: MountPaths {
                    absolute: vec!["/nix/store".to_string()],
                    home_relative: vec![],
                },
                ..Default::default()
            },
            env: vec!["PROFILE_BASE=1".to_string()],
        },
    );

    // git extends base
    config.profiles.insert(
        "git".to_string(),
        ProfileConfig {
            extends: vec!["base".to_string()],
            mounts: MountsConfig {
                ro: MountPaths {
                    absolute: vec![],
                    home_relative: vec!["~/.gitconfig".to_string()],
                },
                ..Default::default()
            },
            env: vec!["GIT=1".to_string()],
        },
    );

    let resolved = resolve_profiles(&config, &["git".to_string()]).unwrap();

    // Should have: runtime.env + base env + git env
    assert_eq!(resolved.env, vec!["BASE=1", "PROFILE_BASE=1", "GIT=1"]);
    // Mounts from base and git
    assert_eq!(
        resolved.get_mount_specs(MountMode::Ro, false),
        vec!["/nix/store"]
    );
    assert_eq!(
        resolved.get_mount_specs(MountMode::Ro, true),
        vec!["~/.gitconfig"]
    );
}

#[test]
fn test_resolve_profiles_with_default_profile() {
    let mut config = make_test_config();
    config.default_profile = Some("base".to_string());

    config.profiles.insert(
        "base".to_string(),
        ProfileConfig {
            extends: vec![],
            mounts: MountsConfig::default(),
            env: vec!["DEFAULT=1".to_string()],
        },
    );

    config.profiles.insert(
        "extra".to_string(),
        ProfileConfig {
            extends: vec![],
            mounts: MountsConfig::default(),
            env: vec!["EXTRA=1".to_string()],
        },
    );

    // Request extra, but default should also be applied first
    let resolved = resolve_profiles(&config, &["extra".to_string()]).unwrap();

    assert_eq!(resolved.env, vec!["BASE=1", "DEFAULT=1", "EXTRA=1"]);
}

#[test]
fn test_resolve_profiles_multiple_cli_profiles() {
    let mut config = make_test_config();

    config.profiles.insert(
        "git".to_string(),
        ProfileConfig {
            extends: vec![],
            mounts: MountsConfig::default(),
            env: vec!["GIT=1".to_string()],
        },
    );

    config.profiles.insert(
        "rust".to_string(),
        ProfileConfig {
            extends: vec![],
            mounts: MountsConfig::default(),
            env: vec!["RUST=1".to_string()],
        },
    );

    let resolved = resolve_profiles(&config, &["git".to_string(), "rust".to_string()]).unwrap();

    assert_eq!(resolved.env, vec!["BASE=1", "GIT=1", "RUST=1"]);
}

#[test]
fn test_resolve_profiles_diamond_inheritance() {
    let mut config = make_test_config();

    // Diamond: git and jj both extend base, dev extends both
    config.profiles.insert(
        "base".to_string(),
        ProfileConfig {
            extends: vec![],
            mounts: MountsConfig::default(),
            env: vec!["BASE_PROFILE=1".to_string()],
        },
    );

    config.profiles.insert(
        "git".to_string(),
        ProfileConfig {
            extends: vec!["base".to_string()],
            mounts: MountsConfig::default(),
            env: vec!["GIT=1".to_string()],
        },
    );

    config.profiles.insert(
        "jj".to_string(),
        ProfileConfig {
            extends: vec!["base".to_string()],
            mounts: MountsConfig::default(),
            env: vec!["JJ=1".to_string()],
        },
    );

    config.profiles.insert(
        "dev".to_string(),
        ProfileConfig {
            extends: vec!["git".to_string(), "jj".to_string()],
            mounts: MountsConfig::default(),
            env: vec!["DEV=1".to_string()],
        },
    );

    let resolved = resolve_profiles(&config, &["dev".to_string()]).unwrap();

    // base is resolved twice (once via git, once via jj) - this is expected
    // Order: runtime.env, then git chain (base, git), then jj chain (base, jj), then dev
    assert_eq!(
        resolved.env,
        vec![
            "BASE=1",
            "BASE_PROFILE=1",
            "GIT=1",
            "BASE_PROFILE=1",
            "JJ=1",
            "DEV=1"
        ]
    );
}

#[test]
fn test_resolve_profiles_circular_dependency_detected() {
    let mut config = make_test_config();

    // a extends b, b extends a
    config.profiles.insert(
        "a".to_string(),
        ProfileConfig {
            extends: vec!["b".to_string()],
            mounts: MountsConfig::default(),
            env: vec![],
        },
    );

    config.profiles.insert(
        "b".to_string(),
        ProfileConfig {
            extends: vec!["a".to_string()],
            mounts: MountsConfig::default(),
            env: vec![],
        },
    );

    let result = resolve_profiles(&config, &["a".to_string()]);
    assert!(result.is_err());
    let err = result.unwrap_err().message();
    assert!(err.contains("Circular"));
}

#[test]
fn test_resolve_profiles_self_reference_detected() {
    let mut config = make_test_config();

    config.profiles.insert(
        "self".to_string(),
        ProfileConfig {
            extends: vec!["self".to_string()],
            mounts: MountsConfig::default(),
            env: vec![],
        },
    );

    let result = resolve_profiles(&config, &["self".to_string()]);
    assert!(result.is_err());
    assert!(result.unwrap_err().message().contains("Circular"));
}

#[test]
fn test_resolve_profiles_unknown_profile_error() {
    let config = make_test_config();

    let result = resolve_profiles(&config, &["nonexistent".to_string()]);
    assert!(result.is_err());
    let err = result.unwrap_err().message();
    assert!(err.contains("Unknown profile"));
    assert!(err.contains("nonexistent"));
}

#[test]
fn test_resolve_profiles_unknown_extends_error() {
    let mut config = make_test_config();

    config.profiles.insert(
        "broken".to_string(),
        ProfileConfig {
            extends: vec!["nonexistent".to_string()],
            mounts: MountsConfig::default(),
            env: vec![],
        },
    );

    let result = resolve_profiles(&config, &["broken".to_string()]);
    assert!(result.is_err());
    assert!(result.unwrap_err().message().contains("Unknown profile"));
}

#[test]
fn test_resolve_profiles_mounts_merge_correctly() {
    let mut config = make_test_config();
    config.runtime.mounts.ro.absolute = vec!["/runtime".to_string()];

    config.profiles.insert(
        "base".to_string(),
        ProfileConfig {
            extends: vec![],
            mounts: MountsConfig {
                ro: MountPaths {
                    absolute: vec!["/base".to_string()],
                    home_relative: vec!["~/.base".to_string()],
                },
                rw: MountPaths {
                    absolute: vec![],
                    home_relative: vec!["~/.base-rw".to_string()],
                },
                o: MountPaths::default(),
            },
            env: vec![],
        },
    );

    config.profiles.insert(
        "extra".to_string(),
        ProfileConfig {
            extends: vec!["base".to_string()],
            mounts: MountsConfig {
                ro: MountPaths {
                    absolute: vec!["/extra".to_string()],
                    home_relative: vec![],
                },
                rw: MountPaths::default(),
                o: MountPaths {
                    absolute: vec![],
                    home_relative: vec!["~/.extra-o".to_string()],
                },
            },
            env: vec![],
        },
    );

    let resolved = resolve_profiles(&config, &["extra".to_string()]).unwrap();

    // ro: runtime + base + extra
    assert_eq!(
        resolved.get_mount_specs(MountMode::Ro, false),
        vec!["/runtime", "/base", "/extra"]
    );
    assert_eq!(
        resolved.get_mount_specs(MountMode::Ro, true),
        vec!["~/.base"]
    );

    // rw: base only
    assert_eq!(
        resolved.get_mount_specs(MountMode::Rw, true),
        vec!["~/.base-rw"]
    );

    // o: extra only
    assert_eq!(
        resolved.get_mount_specs(MountMode::Overlay, true),
        vec!["~/.extra-o"]
    );
}

#[test]
fn test_resolve_profiles_mounts_deduplicated() {
    // Test that identical mount strings are deduplicated when profiles are merged
    let mut config = make_test_config();
    config.runtime.mounts.ro.absolute = vec!["/nix/store".to_string()];

    // base profile also has /nix/store
    config.profiles.insert(
        "base".to_string(),
        ProfileConfig {
            extends: vec![],
            mounts: MountsConfig {
                ro: MountPaths {
                    absolute: vec!["/nix/store".to_string(), "/base-only".to_string()],
                    home_relative: vec!["~/.config".to_string()],
                },
                ..Default::default()
            },
            env: vec![],
        },
    );

    // extra profile has same mounts as base (diamond pattern)
    config.profiles.insert(
        "extra".to_string(),
        ProfileConfig {
            extends: vec![],
            mounts: MountsConfig {
                ro: MountPaths {
                    absolute: vec!["/nix/store".to_string(), "/extra-only".to_string()],
                    home_relative: vec!["~/.config".to_string()],
                },
                ..Default::default()
            },
            env: vec![],
        },
    );

    let mut resolved =
        resolve_profiles(&config, &["base".to_string(), "extra".to_string()]).unwrap();
    resolved.dedup_mounts("/home/user", "/home/user", &FsSnapshot::new());

    // /nix/store and ~/.config should NOT be duplicated
    assert_eq!(
        resolved.get_mount_specs(MountMode::Ro, false),
        vec!["/nix/store", "/base-only", "/extra-only"]
    );
    assert_eq!(
        resolved.get_mount_specs(MountMode::Ro, true),
        vec!["~/.config"]
    );
}

#[test]
fn test_resolve_profiles_diamond_mounts_deduplicated() {
    // Diamond inheritance: git and jj both extend base, dev extends both
    // Mounts from base should only appear once
    let mut config = make_test_config();

    config.profiles.insert(
        "base".to_string(),
        ProfileConfig {
            extends: vec![],
            mounts: MountsConfig {
                ro: MountPaths {
                    absolute: vec!["/nix/store".to_string()],
                    home_relative: vec!["~/.config".to_string()],
                },
                ..Default::default()
            },
            env: vec![],
        },
    );

    config.profiles.insert(
        "git".to_string(),
        ProfileConfig {
            extends: vec!["base".to_string()],
            mounts: MountsConfig {
                ro: MountPaths {
                    absolute: vec![],
                    home_relative: vec!["~/.gitconfig".to_string()],
                },
                ..Default::default()
            },
            env: vec![],
        },
    );

    config.profiles.insert(
        "jj".to_string(),
        ProfileConfig {
            extends: vec!["base".to_string()],
            mounts: MountsConfig {
                ro: MountPaths {
                    absolute: vec![],
                    home_relative: vec!["~/.jjconfig.toml".to_string()],
                },
                ..Default::default()
            },
            env: vec![],
        },
    );

    config.profiles.insert(
        "dev".to_string(),
        ProfileConfig {
            extends: vec!["git".to_string(), "jj".to_string()],
            mounts: MountsConfig::default(),
            env: vec![],
        },
    );

    let mut resolved = resolve_profiles(&config, &["dev".to_string()]).unwrap();
    resolved.dedup_mounts("/home/user", "/home/user", &FsSnapshot::new());

    // base's mounts should only appear once despite diamond inheritance
    assert_eq!(
        resolved.get_mount_specs(MountMode::Ro, false),
        vec!["/nix/store"]
    );
    // Order: base (via git), git, base (skipped - already present), jj
    assert_eq!(
        resolved.get_mount_specs(MountMode::Ro, true),
        vec!["~/.config", "~/.gitconfig", "~/.jjconfig.toml"]
    );
}
