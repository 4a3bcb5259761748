use agent_box::mount::{Mount, MountError, MountMode, ResolvedMount};
use agent_box::order::{path_no_later, sort_by_host};
use agent_box::planner::{add_mounts, mark_skipped, read_bind, select_from};
use agent_box::snapshot::{FsSnapshot, PathFacts};

const HOME: &str = "/home/hostuser";
const CONTAINER_HOME: &str = "/home/containeruser";

fn plain(path: &str) -> PathFacts {
    PathFacts {
        path: path.to_string(),
        canonical: Some(path.to_string()),
        link_target: None,
    }
}

fn link(path: &str, target: &str, canonical: &str) -> PathFacts {
    PathFacts {
        path: path.to_string(),
        canonical: Some(canonical.to_string()),
        link_target: Some(target.to_string()),
    }
}

fn missing(path: &str) -> PathFacts {
    PathFacts {
        path: path.to_string(),
        canonical: None,
        link_target: None,
    }
}

fn snapshot(entries: Vec<PathFacts>) -> FsSnapshot {
    let mut fs = FsSnapshot::new();
    for e in entries {
        fs.record(e);
    }
    fs
}

fn mount(spec: &str, mode: MountMode) -> Mount {
    Mount {
        spec: spec.to_string(),
        home_relative: false,
        mode,
    }
}

fn plan(
    mounts: &[Mount],
    binds: &mut Vec<String>,
    should_skip: bool,
    skip_patterns: &[String],
    fs: &FsSnapshot,
) -> Result<(), MountError> {
    add_mounts(
        mounts,
        binds,
        should_skip,
        false,
        skip_patterns,
        HOME,
        CONTAINER_HOME,
        fs,
    )
}

/// Parent directory bound with `parent_mode`, child asked for with `child_mode`.
fn child_under_parent(parent_mode: &str, child_mode: MountMode, should_skip: bool) -> Vec<String> {
    let fs = snapshot(vec![plain("/tmp/ab"), plain("/tmp/ab/subdir")]);
    let mut binds = vec![format!("/tmp/ab:/tmp/ab:{}", parent_mode)];
    plan(
        &[mount("/tmp/ab/subdir", child_mode)],
        &mut binds,
        should_skip,
        &[],
        &fs,
    )
    .unwrap();
    binds
}

#[test]
fn test_add_mounts_skips_covered_paths() {
    let mut binds = vec!["/nix/store:/nix/store:ro".to_string()];
    let fs = snapshot(vec![
        link("/tmp/ab_covered/mylink", "/nix/store", "/nix/store"),
        plain("/nix/store"),
    ]);
    let m = mount("/tmp/ab_covered/mylink", MountMode::Ro);

    plan(&[m], &mut binds, true, &[], &fs).unwrap();

    // Should have 2 mounts: the /nix/store that was there and the symlink itself
    // The symlink target (/nix/store) should NOT be added again
    assert_eq!(binds.len(), 2);
    assert!(binds[0].starts_with("/nix/store:"));
    assert!(binds[1].contains("mylink"));
    assert_eq!(binds[1], "/tmp/ab_covered/mylink:/tmp/ab_covered/mylink:ro");
}

#[test]
fn test_add_mounts_ro_under_rw_allowed() {
    assert_eq!(child_under_parent("rw", MountMode::Ro, true).len(), 1);
}

#[test]
fn test_add_mounts_rw_under_ro_skipped() {
    assert_eq!(child_under_parent("ro", MountMode::Rw, true).len(), 1);
}

#[test]
fn test_add_mounts_overlay_under_ro_skipped() {
    assert_eq!(child_under_parent("ro", MountMode::Overlay, true).len(), 1);
}

#[test]
fn test_add_mounts_ro_under_ro_skipped() {
    assert_eq!(child_under_parent("ro", MountMode::Ro, true).len(), 1);
}

#[test]
fn test_add_mounts_rw_under_rw_skipped() {
    assert_eq!(child_under_parent("rw", MountMode::Rw, true).len(), 1);
}

#[test]
fn test_add_mounts_overlay_under_rw_skipped() {
    assert_eq!(child_under_parent("rw", MountMode::Overlay, true).len(), 1);
}

#[test]
fn test_add_mounts_ro_under_overlay_skipped() {
    assert_eq!(child_under_parent("O", MountMode::Ro, true).len(), 1);
}

#[test]
fn test_add_mounts_rw_under_overlay_skipped() {
    assert_eq!(child_under_parent("O", MountMode::Rw, true).len(), 1);
}

#[test]
fn test_add_mounts_overlay_under_overlay_skipped() {
    assert_eq!(child_under_parent("O", MountMode::Overlay, true).len(), 1);
}

#[test]
fn test_add_mounts_rw_under_rw_with_no_skip() {
    assert_eq!(child_under_parent("rw", MountMode::Rw, false).len(), 2);
}

#[test]
fn test_add_mounts_ro_under_rw_with_no_skip() {
    assert_eq!(child_under_parent("rw", MountMode::Ro, false).len(), 2);
}

#[test]
fn test_add_mounts_rw_under_ro_with_no_skip() {
    let binds = child_under_parent("ro", MountMode::Rw, false);
    assert_eq!(binds.len(), 2);
    assert_eq!(binds[1], "/tmp/ab/subdir:/tmp/ab/subdir:rw");
}

#[test]
fn test_add_mounts_skips_special_paths() {
    let fs = snapshot(vec![link("/tmp/ab_skip/nix-link", "/nix", "/nix"), plain("/nix")]);
    let mut binds = vec![];
    let m = mount("/tmp/ab_skip/nix-link", MountMode::Ro);

    plan(&[m], &mut binds, true, &["/nix".to_string()], &fs).unwrap();

    // The symlink itself is bound, the path that the pattern names is not.
    assert_eq!(binds, vec!["/tmp/ab_skip/nix-link:/tmp/ab_skip/nix-link:ro"]);
}

#[test]
fn test_add_mounts_skip_paths_always_respected() {
    let fs = snapshot(vec![plain("/tmp/ab_skip_always/nix")]);
    let mut binds = vec![];
    let m = mount("/tmp/ab_skip_always/nix", MountMode::Ro);

    plan(
        &[m],
        &mut binds,
        false,
        &["/tmp/ab_skip_always/nix".to_string()],
        &fs,
    )
    .unwrap();

    assert_eq!(binds.len(), 0);
}

#[test]
fn test_mount_to_bind_strings_follows_symlink_chain() {
    let fs = snapshot(vec![
        link("/tmp/chain/symlink_a", "/tmp/chain/symlink_b", "/tmp/chain/real"),
        link("/tmp/chain/symlink_b", "/tmp/chain/real", "/tmp/chain/real"),
        plain("/tmp/chain/real"),
    ]);
    let m = mount("/tmp/chain/symlink_a", MountMode::Ro);

    let resolved_mounts = m.to_resolved_mounts_with_homes(HOME, CONTAINER_HOME, &fs).unwrap();
    let bind_strings: Vec<String> = resolved_mounts.iter().map(|rm| rm.to_bind_string()).collect();

    assert_eq!(resolved_mounts.len(), 3);
    let all_binds = bind_strings.join(" ");
    assert!(all_binds.contains("symlink_a"), "should contain symlink_a");
    assert!(all_binds.contains("symlink_b"), "should contain symlink_b");
    assert!(all_binds.contains("real"), "should contain real");
}

#[test]
fn test_mount_to_bind_strings_no_symlink() {
    let fs = snapshot(vec![plain("/tmp/ab_no_symlink")]);
    let m = mount("/tmp/ab_no_symlink", MountMode::Rw);

    let resolved_mounts = m.to_resolved_mounts_with_homes(HOME, CONTAINER_HOME, &fs).unwrap();

    assert_eq!(resolved_mounts.len(), 1);
    assert_eq!(
        resolved_mounts[0].to_bind_string(),
        "/tmp/ab_no_symlink:/tmp/ab_no_symlink:rw"
    );
}

#[test]
fn two_links_and_a_target_give_three_binds() {
    let fs = snapshot(vec![
        link("/data", "/data2", "/real"),
        link("/data2", "/real", "/real"),
        plain("/real"),
    ]);
    for mode in [MountMode::Ro, MountMode::Rw, MountMode::Overlay] {
        let resolved = mount("/data", mode)
            .to_resolved_mounts_with_homes(HOME, CONTAINER_HOME, &fs)
            .unwrap();
        let flag = mode.as_str();
        let binds: Vec<String> = resolved.iter().map(|rm| rm.to_bind_string()).collect();
        assert_eq!(
            binds,
            vec![
                format!("/data:/data:{}", flag),
                format!("/data2:/data2:{}", flag),
                format!("/real:/real:{}", flag),
            ]
        );
    }
}

#[test]
fn relative_link_target_is_taken_from_the_links_directory() {
    let fs = snapshot(vec![
        link("/opt/tools/current", "v2/bin", "/opt/tools/v2/bin"),
        plain("/opt/tools/v2/bin"),
    ]);
    let resolved = mount("/opt/tools/current", MountMode::Ro)
        .to_resolved_mounts_with_homes(HOME, CONTAINER_HOME, &fs)
        .unwrap();
    let hosts: Vec<&str> = resolved.iter().map(|rm| rm.host.as_str()).collect();
    assert_eq!(hosts, vec!["/opt/tools/current", "/opt/tools/v2/bin"]);
}

#[test]
fn home_relative_chain_is_rehomed_link_by_link() {
    let fs = snapshot(vec![
        link("/home/hostuser/toolchain", "/nix/store/xyz-toolchain", "/nix/store/xyz-toolchain"),
        plain("/nix/store/xyz-toolchain"),
    ]);
    let m = Mount {
        spec: "~/toolchain".to_string(),
        home_relative: true,
        mode: MountMode::Ro,
    };
    let binds: Vec<String> = m
        .to_resolved_mounts_with_homes(HOME, CONTAINER_HOME, &fs)
        .unwrap()
        .iter()
        .map(|rm| rm.to_bind_string())
        .collect();
    assert_eq!(
        binds,
        vec![
            "/home/hostuser/toolchain:/home/containeruser/toolchain:ro",
            "/nix/store/xyz-toolchain:/nix/store/xyz-toolchain:ro",
        ]
    );
}

#[test]
fn missing_host_path_fails_and_names_the_path() {
    let fs = snapshot(vec![missing("/does/not/exist")]);
    let err = mount("/does/not/exist", MountMode::Ro)
        .to_resolved_mounts_with_homes(HOME, CONTAINER_HOME, &fs)
        .unwrap_err();
    assert_eq!(err, MountError::NotFound { path: "/does/not/exist".to_string() });
    assert_eq!(err.message(), "Mount path does not exist: /does/not/exist");

    let mut binds = vec!["/w:/w:rw".to_string()];
    let r = plan(&[mount("/does/not/exist", MountMode::Ro)], &mut binds, true, &[], &fs);
    assert_eq!(r, Err(MountError::NotFound { path: "/does/not/exist".to_string() }));
    assert_eq!(binds, vec!["/w:/w:rw"]);
}

#[test]
fn unknown_path_asks_for_a_probe() {
    let fs = snapshot(vec![link("/a", "/b", "/b")]);
    let first = mount("/x", MountMode::Ro).to_resolved_mounts_with_homes(HOME, CONTAINER_HOME, &fs);
    assert_eq!(first, Err(MountError::Unprobed { path: "/x".to_string() }));
    let second = mount("/a", MountMode::Ro).to_resolved_mounts_with_homes(HOME, CONTAINER_HOME, &fs);
    assert_eq!(second, Err(MountError::Unprobed { path: "/b".to_string() }));
}

#[test]
fn dangling_target_on_the_chain_is_not_canonical() {
    let fs = snapshot(vec![link("/a", "/b", "/b"), missing("/b")]);
    let r = mount("/a", MountMode::Ro).to_resolved_mounts_with_homes(HOME, CONTAINER_HOME, &fs);
    assert_eq!(r, Err(MountError::NotCanonical { path: "/b".to_string() }));
}

#[test]
fn links_in_a_circle_end_in_an_error() {
    let fs = snapshot(vec![link("/a", "/b", "/a"), link("/b", "/a", "/a")]);
    let r = mount("/a", MountMode::Ro).to_resolved_mounts_with_homes(HOME, CONTAINER_HOME, &fs);
    assert!(matches!(r, Err(MountError::NotCanonical { .. })));
}

#[test]
fn invalid_spec_fails_before_the_filesystem_is_asked() {
    let fs = FsSnapshot::new();
    let r = mount("relative/path", MountMode::Ro).to_resolved_mounts_with_homes(HOME, CONTAINER_HOME, &fs);
    assert_eq!(r, Err(MountError::InvalidHostPath { spec: "relative/path".to_string() }));
    let r = mount("/a:b", MountMode::Ro).resolve_with_homes(HOME, CONTAINER_HOME, &fs);
    assert_eq!(r, Err(MountError::InvalidContainerPath { spec: "/a:b".to_string() }));
}

#[test]
fn resolve_with_homes_uses_the_canonical_host_path() {
    let fs = snapshot(vec![
        link("/home/hostuser/dev", "/srv/dev", "/srv/dev"),
        link("/home/hostuser/.cfg", "/home/hostuser/dotfiles/cfg", "/home/hostuser/dotfiles/cfg"),
    ]);
    let absolute = mount("~/dev", MountMode::Rw);
    assert_eq!(
        absolute.resolve_with_homes(HOME, CONTAINER_HOME, &fs).unwrap(),
        ("/srv/dev".to_string(), "/srv/dev".to_string())
    );
    let rehomed = Mount { spec: "~/.cfg".to_string(), home_relative: true, mode: MountMode::Ro };
    assert_eq!(
        rehomed.resolve_with_homes(HOME, CONTAINER_HOME, &fs).unwrap(),
        (
            "/home/hostuser/dotfiles/cfg".to_string(),
            "/home/containeruser/dotfiles/cfg".to_string()
        )
    );
    let mapped = mount("~/dev:/work", MountMode::Rw);
    assert_eq!(
        mapped.resolve_with_homes(HOME, CONTAINER_HOME, &fs).unwrap(),
        ("/srv/dev".to_string(), "/work".to_string())
    );
    let unknown = mount("/nowhere", MountMode::Rw);
    assert_eq!(
        unknown.resolve_with_homes(HOME, CONTAINER_HOME, &fs),
        Err(MountError::Unprobed { path: "/nowhere".to_string() })
    );
}

#[test]
fn parent_then_child_gives_one_bind() {
    let fs = snapshot(vec![plain("/a"), plain("/a/b")]);
    for child_mode in [MountMode::Ro, MountMode::Rw, MountMode::Overlay] {
        let mut binds = vec![];
        plan(
            &[mount("/a", MountMode::Rw), mount("/a/b", child_mode)],
            &mut binds,
            true,
            &[],
            &fs,
        )
        .unwrap();
        assert_eq!(binds, vec!["/a:/a:rw"]);

        // The order of the requests does not matter: the shorter path is planned first.
        let mut binds = vec![];
        plan(
            &[mount("/a/b", child_mode), mount("/a", MountMode::Rw)],
            &mut binds,
            true,
            &[],
            &fs,
        )
        .unwrap();
        assert_eq!(binds, vec!["/a:/a:rw"]);
    }
}

#[test]
fn sibling_with_a_common_prefix_is_not_covered() {
    let fs = snapshot(vec![plain("/a"), plain("/ab"), plain("/a/b")]);
    let mut binds = vec![];
    plan(
        &[mount("/ab", MountMode::Ro), mount("/a", MountMode::Ro), mount("/a/b", MountMode::Ro)],
        &mut binds,
        true,
        &[],
        &fs,
    )
    .unwrap();
    assert_eq!(binds, vec!["/a:/a:ro", "/ab:/ab:ro"]);
}

#[test]
fn strict_modes_refuse_read_write_inside_read_only() {
    let fs = snapshot(vec![plain("/tmp/ab"), plain("/tmp/ab/subdir")]);
    let mut binds = vec!["/tmp/ab:/tmp/ab:ro".to_string()];
    let r = add_mounts(
        &[mount("/tmp/ab/subdir", MountMode::Rw)],
        &mut binds,
        true,
        true,
        &[],
        HOME,
        CONTAINER_HOME,
        &fs,
    );
    assert_eq!(
        r,
        Err(MountError::ModeConflict {
            path: "/tmp/ab/subdir".to_string(),
            covered_by: "/tmp/ab".to_string(),
        })
    );
    assert_eq!(binds.len(), 1);

    // Read-only inside read-only is no conflict, nor is anything inside read-write.
    let r = add_mounts(
        &[mount("/tmp/ab/subdir", MountMode::Ro)],
        &mut binds,
        true,
        true,
        &[],
        HOME,
        CONTAINER_HOME,
        &fs,
    );
    assert_eq!(r, Ok(()));
    assert_eq!(binds.len(), 1);
}

#[test]
fn planning_order_is_by_length_then_by_text() {
    let mounts = vec![
        ResolvedMount { host: "/bb".into(), container: "/1".into(), mode: MountMode::Ro },
        ResolvedMount { host: "/a/long".into(), container: "/2".into(), mode: MountMode::Ro },
        ResolvedMount { host: "/ab".into(), container: "/3".into(), mode: MountMode::Ro },
        ResolvedMount { host: "/z".into(), container: "/4".into(), mode: MountMode::Ro },
        ResolvedMount { host: "/ab".into(), container: "/5".into(), mode: MountMode::Rw },
    ];
    let sorted = sort_by_host(mounts);
    let order: Vec<(&str, &str)> =
        sorted.iter().map(|m| (m.host.as_str(), m.container.as_str())).collect();
    assert_eq!(
        order,
        vec![("/z", "/4"), ("/ab", "/3"), ("/ab", "/5"), ("/bb", "/1"), ("/a/long", "/2")]
    );
    assert!(path_no_later("/z", "/ab"));
    assert!(!path_no_later("/ab", "/z"));
    assert!(path_no_later("/ab", "/ab"));
    assert!(path_no_later("/ab", "/ac"));
    assert!(!path_no_later("/ac", "/ab"));
}

#[test]
fn paths_of_one_length_go_by_their_components() {
    // As texts `/a-b` comes before `/a/b`; as paths the component `a` comes before `a-b`.
    assert!(path_no_later("/a/b", "/a-b"));
    assert!(!path_no_later("/a-b", "/a/b"));
    let mounts = vec![
        ResolvedMount { host: "/a-b".into(), container: "/1".into(), mode: MountMode::Ro },
        ResolvedMount { host: "/a/b".into(), container: "/2".into(), mode: MountMode::Ro },
    ];
    let hosts: Vec<String> = sort_by_host(mounts).into_iter().map(|m| m.host).collect();
    assert_eq!(hosts, vec!["/a/b", "/a-b"]);

    let fs = snapshot(vec![plain("/a-b"), plain("/a/b")]);
    let mut binds = vec![];
    plan(
        &[mount("/a-b", MountMode::Ro), mount("/a/b", MountMode::Ro)],
        &mut binds,
        true,
        &[],
        &fs,
    )
    .unwrap();
    assert_eq!(binds, vec!["/a/b:/a/b:ro", "/a-b:/a-b:ro"]);
}

#[test]
fn length_is_counted_in_bytes() {
    // Three characters of six bytes come behind five characters of five bytes.
    assert!(path_no_later("/\u{e9}", "/abc"));
    assert!(path_no_later("/abcd", "/\u{20ac}\u{e9}"));
    assert!(!path_no_later("/\u{20ac}\u{e9}", "/abcd"));
}

#[test]
fn bind_strings_are_read_back() {
    assert_eq!(
        read_bind("/nix/store:/nix/store:ro"),
        Some(ResolvedMount {
            host: "/nix/store".into(),
            container: "/nix/store".into(),
            mode: MountMode::Ro
        })
    );
    assert_eq!(read_bind("/a:/b:O").unwrap().mode, MountMode::Overlay);
    assert_eq!(read_bind("/a:/b:bogus").unwrap().mode, MountMode::Rw);
    assert_eq!(read_bind("/a:/b:ro:z").unwrap().mode, MountMode::Ro);
    assert_eq!(read_bind("/a:/b"), None);
    assert_eq!(read_bind("/a"), None);
}

#[test]
fn select_from_takes_marks_as_given() {
    let sorted = vec![
        ResolvedMount { host: "/a".into(), container: "/a".into(), mode: MountMode::Ro },
        ResolvedMount { host: "/b".into(), container: "/b".into(), mode: MountMode::Ro },
        ResolvedMount { host: "/a/x".into(), container: "/a/x".into(), mode: MountMode::Ro },
    ];
    let bound = select_from(&sorted, &[false, true, false], vec![], true, false).unwrap();
    let hosts: Vec<&str> = bound.iter().map(|m| m.host.as_str()).collect();
    assert_eq!(hosts, vec!["/a"]);
    let bound = select_from(&sorted, &[true, false, false], vec![], true, false).unwrap();
    let hosts: Vec<&str> = bound.iter().map(|m| m.host.as_str()).collect();
    assert_eq!(hosts, vec!["/b", "/a/x"]);
    // A missing mark counts as no mark.
    let bound = select_from(&sorted, &[], vec![], false, false).unwrap();
    assert_eq!(bound.len(), 3);
}

#[test]
fn marks_come_from_the_glob_patterns() {
    let sorted = vec![
        ResolvedMount { host: "/nix/store".into(), container: "/x".into(), mode: MountMode::Ro },
        ResolvedMount { host: "/nix/store/glibc-2.39".into(), container: "/x".into(), mode: MountMode::Ro },
        ResolvedMount { host: "/tmp/test-1.txt".into(), container: "/x".into(), mode: MountMode::Ro },
    ];
    let patterns = vec!["/nix/store/glibc*".to_string(), "/tmp/test-?.txt".to_string()];
    assert_eq!(mark_skipped(&sorted, &patterns), vec![false, true, true]);
    // A pattern that does not compile matches nothing.
    assert_eq!(mark_skipped(&sorted, &["/nix/[".to_string()]), vec![false, false, false]);
}

#[test]
fn canonical_sibling_of_the_home_is_not_rehomed() {
    let fs = snapshot(vec![
        link("/home/hostuser/data", "/home/hostuser2/data", "/home/hostuser2/data"),
        plain("/home/hostuser2/data"),
        link("/mnt/inside", "/home/hostuser/inside", "/home/hostuser/inside"),
        plain("/home/hostuser/inside"),
    ]);
    let m = Mount { spec: "~/data".to_string(), home_relative: true, mode: MountMode::Ro };
    assert_eq!(
        m.resolve_with_homes(HOME, CONTAINER_HOME, &fs).unwrap(),
        ("/home/hostuser2/data".to_string(), "/home/hostuser2/data".to_string())
    );
    let binds: Vec<String> = m
        .to_resolved_mounts_with_homes(HOME, CONTAINER_HOME, &fs)
        .unwrap()
        .iter()
        .map(|rm| rm.to_bind_string())
        .collect();
    assert_eq!(
        binds,
        vec![
            "/home/hostuser/data:/home/containeruser/data:ro",
            "/home/hostuser2/data:/home/hostuser2/data:ro",
        ]
    );

    // A path outside the home whose canonical form lies in it is moved with it.
    let m = Mount { spec: "/mnt/inside".to_string(), home_relative: true, mode: MountMode::Ro };
    assert_eq!(
        m.resolve_with_homes(HOME, CONTAINER_HOME, &fs).unwrap(),
        ("/home/hostuser/inside".to_string(), "/home/containeruser/inside".to_string())
    );
    let m = Mount { spec: "/mnt/inside".to_string(), home_relative: false, mode: MountMode::Ro };
    assert_eq!(
        m.resolve_with_homes(HOME, CONTAINER_HOME, &fs).unwrap(),
        ("/home/hostuser/inside".to_string(), "/home/hostuser/inside".to_string())
    );
}

#[test]
fn named_destination_stays_as_named() {
    let fs = snapshot(vec![link("/l", "/r", "/r"), plain("/r")]);
    for home_relative in [false, true] {
        let m = Mount { spec: "/l:/l".to_string(), home_relative, mode: MountMode::Rw };
        assert_eq!(
            m.resolve_with_homes(HOME, CONTAINER_HOME, &fs).unwrap(),
            ("/r".to_string(), "/l".to_string())
        );
    }
    let m = Mount { spec: "/l".to_string(), home_relative: false, mode: MountMode::Rw };
    assert_eq!(
        m.resolve_with_homes(HOME, CONTAINER_HOME, &fs).unwrap(),
        ("/r".to_string(), "/r".to_string())
    );
}
