use agent_box::cli::{parse_cli_mounts, parse_mode_prefix, parse_single_cli_mount};
use agent_box::mount::MountMode;

#[test]
fn test_parse_cli_mount_no_mode_defaults_to_rw() {
    let m = parse_single_cli_mount("~/data", true).unwrap();
    assert_eq!(m.mode, MountMode::Rw);
    assert_eq!(m.spec, "~/data");
    assert!(m.home_relative);
}

#[test]
fn test_parse_cli_mount_absolute_no_mode() {
    let m = parse_single_cli_mount("/nix/store", false).unwrap();
    assert_eq!(m.mode, MountMode::Rw);
    assert_eq!(m.spec, "/nix/store");
    assert!(!m.home_relative);
}

#[test]
fn test_parse_cli_mount_ro_mode() {
    let m = parse_single_cli_mount("ro:~/.config/git", true).unwrap();
    assert_eq!(m.mode, MountMode::Ro);
    assert_eq!(m.spec, "~/.config/git");
    assert!(m.home_relative);
}

#[test]
fn test_parse_cli_mount_rw_mode() {
    let m = parse_single_cli_mount("rw:~/data", true).unwrap();
    assert_eq!(m.mode, MountMode::Rw);
    assert_eq!(m.spec, "~/data");
}

#[test]
fn test_parse_cli_mount_overlay_mode() {
    let m = parse_single_cli_mount("o:~/.gnupg", true).unwrap();
    assert_eq!(m.mode, MountMode::Overlay);
    assert_eq!(m.spec, "~/.gnupg");
}

#[test]
fn test_parse_cli_mount_with_src_dst() {
    let m = parse_single_cli_mount("ro:~/src:/app", true).unwrap();
    assert_eq!(m.mode, MountMode::Ro);
    assert_eq!(m.spec, "~/src:/app");
}

#[test]
fn test_parse_cli_mount_absolute_with_mode() {
    let m = parse_single_cli_mount("ro:/etc/hosts", false).unwrap();
    assert_eq!(m.mode, MountMode::Ro);
    assert_eq!(m.spec, "/etc/hosts");
    assert!(!m.home_relative);
}

#[test]
fn test_parse_cli_mount_empty_after_mode_fails() {
    assert!(parse_single_cli_mount("ro:", true).is_err());
}

#[test]
fn test_parse_cli_mount_relative_path_fails() {
    assert!(parse_single_cli_mount("data/stuff", true).is_err());
    assert!(parse_single_cli_mount("ro:data/stuff", true).is_err());
}

#[test]
fn test_parse_cli_mounts_mixed() {
    let home_rel = vec!["~/data".to_string(), "ro:~/.config".to_string()];
    let absolute = vec!["/nix/store".to_string(), "o:/tmp/overlay".to_string()];

    let mounts = parse_cli_mounts(&home_rel, &absolute).unwrap();

    assert_eq!(mounts.len(), 4);

    assert_eq!(mounts[0].spec, "~/data");
    assert_eq!(mounts[0].mode, MountMode::Rw);
    assert!(mounts[0].home_relative);

    assert_eq!(mounts[1].spec, "~/.config");
    assert_eq!(mounts[1].mode, MountMode::Ro);
    assert!(mounts[1].home_relative);

    assert_eq!(mounts[2].spec, "/nix/store");
    assert_eq!(mounts[2].mode, MountMode::Rw);
    assert!(!mounts[2].home_relative);

    assert_eq!(mounts[3].spec, "/tmp/overlay");
    assert_eq!(mounts[3].mode, MountMode::Overlay);
    assert!(!mounts[3].home_relative);
}

#[test]
fn test_parse_cli_mounts_empty() {
    let mounts = parse_cli_mounts(&[], &[]).unwrap();
    assert!(mounts.is_empty());
}

#[test]
fn test_parse_cli_mount_tilde_src_absolute_dst() {
    // ~/src:/app - tilde on source, absolute on dest
    let m = parse_single_cli_mount("rw:~/src:/app", true).unwrap();
    assert_eq!(m.mode, MountMode::Rw);
    assert_eq!(m.spec, "~/src:/app");
}

#[test]
fn test_parse_cli_mount_absolute_src_tilde_dst() {
    // /host/path:~/data - absolute source, tilde dest
    let m = parse_single_cli_mount("/run/user/1000/socket:~/.gnupg/socket", true).unwrap();
    assert_eq!(m.mode, MountMode::Rw);
    assert_eq!(m.spec, "/run/user/1000/socket:~/.gnupg/socket");
}

#[test]
fn test_parse_mode_prefix() {
    assert_eq!(
        parse_mode_prefix("ro:~/data"),
        Some((MountMode::Ro, "~/data"))
    );
    assert_eq!(
        parse_mode_prefix("rw:/path"),
        Some((MountMode::Rw, "/path"))
    );
    assert_eq!(
        parse_mode_prefix("o:~/.gnupg"),
        Some((MountMode::Overlay, "~/.gnupg"))
    );
    assert_eq!(parse_mode_prefix("~/data"), None);
    assert_eq!(parse_mode_prefix("/nix/store"), None);
}
