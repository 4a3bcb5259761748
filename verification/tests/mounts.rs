use agent_box::mount::{Mount, MountMode, ResolvedMount};
use agent_box::planner::{find_covering_mount, should_skip_path};

#[test]
fn test_resolved_mount_to_bind_string() {
    let resolved = ResolvedMount {
        host: "/host/path".to_string(),
        container: "/container/path".to_string(),
        mode: MountMode::Ro,
    };
    assert_eq!(resolved.to_bind_string(), "/host/path:/container/path:ro");
}

#[test]
fn test_resolved_mount_overlay() {
    let resolved = ResolvedMount {
        host: "/host".to_string(),
        container: "/container".to_string(),
        mode: MountMode::Overlay,
    };
    assert_eq!(resolved.to_bind_string(), "/host:/container:O");
}

#[test]
fn test_find_covering_mount_exact_match() {
    let mounts = vec![ResolvedMount {
        host: "/host/path".to_string(),
        container: "/container/path".to_string(),
        mode: MountMode::Ro,
    }];
    let result = find_covering_mount("/host/path", &mounts).map(|m| m.mode);
    assert_eq!(result, Some(MountMode::Ro));
}

#[test]
fn test_find_covering_mount_subpath() {
    let mounts = vec![ResolvedMount {
        host: "/nix/store".to_string(),
        container: "/nix/store".to_string(),
        mode: MountMode::Ro,
    }];
    let result =
        find_covering_mount("/nix/store/abc123-package", &mounts).map(|m| m.mode);
    assert_eq!(result, Some(MountMode::Ro));
}

#[test]
fn test_find_covering_mount_not_covered() {
    let mounts = vec![ResolvedMount {
        host: "/nix/store".to_string(),
        container: "/nix/store".to_string(),
        mode: MountMode::Ro,
    }];
    let result = find_covering_mount("/home/user", &mounts);
    assert_eq!(result, None);
}

const HOST_HOME: &str = "/home/hostuser";
const CONTAINER_HOME: &str = "/home/containeruser";

/// Helper to create a Mount and resolve with test homes (without canonicalization)
fn resolve_test(spec: &str, home_relative: bool) -> (String, String) {
    let mount = Mount {
        spec: spec.to_string(),
        home_relative,
        mode: MountMode::Rw,
    };
    // Use resolve_paths directly to avoid canonicalization in tests
    mount.resolve_paths(HOST_HOME, CONTAINER_HOME).unwrap()
}

#[test]
fn test_resolve_absolute_single_path() {
    // absolute (home_relative=false): same path on both sides
    let (host, container) = resolve_test("/nix/store", false);
    assert_eq!(host, "/nix/store");
    assert_eq!(container, "/nix/store");
}

#[test]
fn test_resolve_absolute_single_path_with_tilde() {
    // absolute with ~: expands to host home, container gets same absolute path
    let (host, container) = resolve_test("~/.config", false);
    assert_eq!(host, "/home/hostuser/.config");
    assert_eq!(container, "/home/hostuser/.config"); // same path, not rehomed
}

#[test]
fn test_resolve_home_relative_single_path() {
    // home_relative=true: host home prefix replaced with container home
    let (host, container) = resolve_test("~/.config", true);
    assert_eq!(host, "/home/hostuser/.config");
    assert_eq!(container, "/home/containeruser/.config"); // rehomed
}

#[test]
fn test_resolve_home_relative_path_not_under_home() {
    // home_relative=true but path not under home: use as-is
    let (host, container) = resolve_test("/nix/store", true);
    assert_eq!(host, "/nix/store");
    assert_eq!(container, "/nix/store");
}

#[test]
fn test_resolve_explicit_mapping_absolute() {
    // Explicit source:dest mapping
    let (host, container) = resolve_test("/host/path:/container/path", false);
    assert_eq!(host, "/host/path");
    assert_eq!(container, "/container/path");
}

#[test]
fn test_resolve_explicit_mapping_with_tilde() {
    // Explicit mapping with ~ on dest side expands to container home
    let (host, container) = resolve_test("/run/user/1000/gnupg:~/.gnupg", true);
    assert_eq!(host, "/run/user/1000/gnupg");
    assert_eq!(container, "/home/containeruser/.gnupg");
}

#[test]
fn test_resolve_explicit_mapping_tilde_both_sides() {
    // ~ on both sides: host ~ -> host home, container ~ -> container home
    let (host, container) = resolve_test("~/.foo:~/.bar", false);
    assert_eq!(host, "/home/hostuser/.foo");
    assert_eq!(container, "/home/containeruser/.bar");
}

#[test]
fn test_mount_equality_same_spec() {
    let m1 = Mount {
        spec: "~/.config".to_string(),
        home_relative: true,
        mode: MountMode::Ro,
    };
    let m2 = Mount {
        spec: "~/.config".to_string(),
        home_relative: true,
        mode: MountMode::Ro,
    };
    assert_eq!(m1, m2);
}

#[test]
fn test_mount_equality_different_mode() {
    let m1 = Mount {
        spec: "~/.config".to_string(),
        home_relative: true,
        mode: MountMode::Ro,
    };
    let m2 = Mount {
        spec: "~/.config".to_string(),
        home_relative: true,
        mode: MountMode::Rw,
    };
    assert_ne!(m1, m2);
}

#[test]
fn test_mount_equality_equivalent_paths() {
    // These resolve to the same paths, so should be equal
    let m1 = Mount {
        spec: "/nix/store".to_string(),
        home_relative: false,
        mode: MountMode::Ro,
    };
    let m2 = Mount {
        spec: "/nix/store".to_string(),
        home_relative: true, // different flag, but resolves same
        mode: MountMode::Ro,
    };
    assert_eq!(m1, m2);
}

#[test]
fn test_mount_mode_as_str() {
    assert_eq!(MountMode::Ro.as_str(), "ro");
    assert_eq!(MountMode::Rw.as_str(), "rw");
    assert_eq!(MountMode::Overlay.as_str(), "O");
}

#[test]
fn test_should_skip_path() {
    // Test exact string matching (no wildcards) - glob crate matches exact strings
    let skip_paths = vec!["/nix/store".to_string(), "/nix/var/nix".to_string()];

    assert!(should_skip_path("/nix/store", &skip_paths));
    // With glob crate, exact string patterns don't do prefix matching
    assert!(!should_skip_path(
        "/nix/store/package",
        &skip_paths
    ));
    assert!(should_skip_path("/nix/var/nix", &skip_paths));
    assert!(!should_skip_path("/home/user", &skip_paths));
    assert!(!should_skip_path("/nix", &skip_paths));
    assert!(!should_skip_path("/tmp", &skip_paths));
}

#[test]
fn test_glob_pattern_matching() {
    // Test glob patterns using glob crate
    let skip_patterns = vec![
        "/nix/store/glibc*".to_string(),
        "/tmp/test-*.txt".to_string(),
    ];

    // Exact paths don't match
    assert!(!should_skip_path("/nix/store", &skip_patterns));

    // Matches glob patterns
    assert!(should_skip_path(
        "/nix/store/glibc-2.39",
        &skip_patterns
    ));
    assert!(should_skip_path(
        "/nix/store/glibc-2.39-123",
        &skip_patterns
    ));
    assert!(should_skip_path(
        "/tmp/test-file.txt",
        &skip_patterns
    ));
    assert!(should_skip_path(
        "/tmp/test-123.txt",
        &skip_patterns
    ));

    // Non-matching paths
    assert!(!should_skip_path(
        "/nix/store/rustc-1.70",
        &skip_patterns
    ));
    assert!(!should_skip_path(
        "/tmp/test-file",
        &skip_patterns
    ));
    assert!(!should_skip_path(
        "/tmp/other.txt",
        &skip_patterns
    ));
}

#[test]
fn sibling_of_the_home_is_not_rehomed() {
    // The path begins with the text of the home but is another directory.
    let (host, container) = resolve_test("/home/hostuser2/x", true);
    assert_eq!(host, "/home/hostuser2/x");
    assert_eq!(container, "/home/hostuser2/x");

    let (host, container) = resolve_test("~2/x", true);
    assert_eq!(host, "/home/hostuser2/x");
    assert_eq!(container, "/home/hostuser2/x");

    // The home itself and what lies in it are.
    let (_, container) = resolve_test("/home/hostuser", true);
    assert_eq!(container, "/home/containeruser");
    let (_, container) = resolve_test("/home/hostuser/x", true);
    assert_eq!(container, "/home/containeruser/x");

    let m = Mount {
        spec: "/home/hostuser2".to_string(),
        home_relative: true,
        mode: MountMode::Rw,
    };
    assert_eq!(
        m.derive_container_path("/home/hostuser2/y", HOST_HOME, CONTAINER_HOME),
        "/home/hostuser2/y"
    );
    assert_eq!(
        m.derive_container_path("/home/hostuser/y", HOST_HOME, CONTAINER_HOME),
        "/home/containeruser/y"
    );
}

#[test]
fn pattern_without_wildcard_names_one_path() {
    let patterns = vec!["/nix/store".to_string(), "/opt/my tools".to_string()];
    assert!(should_skip_path("/nix/store", &patterns));
    assert!(should_skip_path("/opt/my tools", &patterns));
    assert!(!should_skip_path("/nix/store/", &patterns));
    assert!(!should_skip_path("/nix/store/pkg", &patterns));
    assert!(!should_skip_path("/nix", &patterns));
    assert!(!should_skip_path("/NIX/STORE", &patterns));
    // A pattern that is not well formed matches nothing, not even its own text.
    assert!(!should_skip_path("/a[", &["/a[".to_string()]));
    assert!(!should_skip_path("/a***", &["/a***".to_string()]));
    assert!(!should_skip_path("/x", &[]));
}
