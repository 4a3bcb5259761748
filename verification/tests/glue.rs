use agent_box::expand::{expand_path, ExpandError};
use agent_box::listing::{
    absolute_entry, directory_entries, list_paths_in_listing, path_exists_in_listing, trim_slashes,
};
use agent_box::mount::{Mount, MountMode};
use agent_box::session::{get_session_name, SessionNameError};
use agent_box::snapshot::{FsSnapshot, PathFacts};
use agent_box::text::{chars_of, join, string_of};
use agent_box::config::{Config, MountsConfig, ProfileMap, RuntimeConfig};
use agent_box::vcs::{
    contains_text, directories_of, shared_repository_lines, visit_dir, worktree_add_args, Visit,
};
use agent_box::workspace::RepoIdentifier;

const LISTING: &str = "drwxr-xr-x 0/0               0 2024-01-01 00:00 ./\n\
drwxr-xr-x 0/0               0 2024-01-01 00:00 bin/\n\
-rwxr-xr-x 0/0          123456 2024-01-01 00:00 bin/sh\n\
drwxr-xr-x 0/0               0 2024-01-01 00:00 nix/\n\
drwxr-xr-x 0/0               0 2024-01-01 00:00 nix/store/\r\n\
lrwxrwxrwx 0/0               0 2024-01-01 00:00 nix/link -> store\n\
drwxr-xr-x 0/0               0 2024-01-01 00:00 nix/store/abc-pkg/\n\
drwxr-xr-x 0/0               0 2024-01-01 00:00 nix/storefront/\n";

#[test]
fn directories_of_a_listing() {
    assert_eq!(
        directory_entries(LISTING),
        vec!["./", "bin/", "nix/", "nix/store/", "nix/store/abc-pkg/", "nix/storefront/"]
    );
    assert!(directory_entries("").is_empty());
    assert!(directory_entries("d").len() == 1);
    assert!(directory_entries("   \n-rw- file\n").is_empty());
    assert_eq!(directory_entries("drwx  last"), vec!["last"]);
}

#[test]
fn directory_is_found_whatever_the_slashes() {
    assert!(path_exists_in_listing(LISTING, "/nix/store"));
    assert!(path_exists_in_listing(LISTING, "nix/store/"));
    assert!(path_exists_in_listing(LISTING, "//nix/store//"));
    assert!(path_exists_in_listing(LISTING, "/bin"));
    assert!(!path_exists_in_listing(LISTING, "/bin/sh"));
    assert!(!path_exists_in_listing(LISTING, "/nix/sto"));
    assert!(!path_exists_in_listing(LISTING, "/nix/link"));
    assert!(!path_exists_in_listing("", "/nix"));
}

#[test]
fn listed_paths_are_absolute_and_filtered_by_root() {
    assert_eq!(
        list_paths_in_listing(LISTING, None),
        vec!["/", "/bin", "/nix", "/nix/store", "/nix/store/abc-pkg", "/nix/storefront"]
    );
    assert_eq!(
        list_paths_in_listing(LISTING, Some("/nix/store/")),
        vec!["/nix/store", "/nix/store/abc-pkg"]
    );
    assert_eq!(list_paths_in_listing(LISTING, Some("/")).len(), 6);
    assert_eq!(list_paths_in_listing(LISTING, Some("")).len(), 6);
    assert!(list_paths_in_listing(LISTING, Some("/opt")).is_empty());
    assert_eq!(absolute_entry("."), "/");
    assert_eq!(absolute_entry("///"), "/");
    assert_eq!(absolute_entry("/abs/"), "/abs");
    assert_eq!(absolute_entry("rel"), "/rel");
    assert_eq!(trim_slashes("//a/b//", true), "a/b");
    assert_eq!(trim_slashes("//a/b//", false), "//a/b");
}

#[test]
fn session_names_are_trimmed_and_checked() {
    assert_eq!(get_session_name("  feature-x \n"), Ok("feature-x".to_string()));
    assert_eq!(get_session_name("s1"), Ok("s1".to_string()));
    assert_eq!(
        get_session_name(" two words "),
        Err(SessionNameError::Whitespace { name: " two words ".to_string() })
    );
    assert_eq!(get_session_name("a\u{a0}b").is_err(), true);
    assert_eq!(get_session_name(""), Err(SessionNameError::Empty));
    assert_eq!(get_session_name(" \t "), Err(SessionNameError::Empty));
    assert_eq!(SessionNameError::Empty.message(), "Session name cannot be empty");
    assert_eq!(
        SessionNameError::Whitespace { name: "a b".to_string() }.message(),
        "Session name cannot contain whitespace: 'a b'"
    );
}

#[test]
fn characters_go_to_a_string_and_back() {
    let chars = chars_of("héllo/wörld");
    assert_eq!(chars.len(), 11);
    assert_eq!(string_of(&chars, 0, 11), "héllo/wörld");
    assert_eq!(string_of(&chars, 1, 5), "éllo");
    assert_eq!(string_of(&chars, 3, 3), "");
    assert_eq!(join(&vec!["a".to_string(), "b".to_string(), "c".to_string()], ", "), "a, b, c");
    assert_eq!(join(&vec![], ", "), "");
    assert_eq!(join(&vec!["only".to_string()], ", "), "only");
}

#[test]
fn configured_directories_are_expanded() {
    let mut fs = FsSnapshot::new();
    fs.record(PathFacts {
        path: "/home/alice/work".to_string(),
        canonical: Some("/data/work".to_string()),
        link_target: Some("/data/work".to_string()),
    });
    fs.record(PathFacts { path: "/home/alice/new".to_string(), canonical: None, link_target: None });
    fs.record(PathFacts { path: "rel/dir".to_string(), canonical: None, link_target: None });
    fs.record(PathFacts { path: "~user".to_string(), canonical: None, link_target: None });

    let home = Some("/home/alice");
    assert_eq!(expand_path("~/work", home, "/cwd", &fs), Ok("/data/work".to_string()));
    assert_eq!(expand_path("~/new", home, "/cwd", &fs), Ok("/home/alice/new".to_string()));
    assert_eq!(expand_path("rel/dir", home, "/cwd", &fs), Ok("/cwd/rel/dir".to_string()));
    assert_eq!(expand_path("~user", None, "/cwd", &fs), Ok("/cwd/~user".to_string()));
    assert_eq!(expand_path("~/work", None, "/cwd", &fs), Err(ExpandError::HomeNotSet));
    assert_eq!(expand_path("~", None, "/cwd", &fs), Err(ExpandError::HomeNotSet));
    assert_eq!(
        expand_path("/unknown", home, "/cwd", &fs),
        Err(ExpandError::Unprobed { path: "/unknown".to_string() })
    );
    assert_eq!(
        ExpandError::Unprobed { path: "/unknown".to_string() }.message(),
        "Nothing is known about path: /unknown"
    );
}

#[test]
fn mounts_are_shown_with_mode_and_form() {
    let m = Mount { spec: "~/.config".to_string(), home_relative: true, mode: MountMode::Ro };
    assert_eq!(m.to_text(), "ro: ~/.config (home-relative)");
    let m = Mount { spec: "/nix:/nix".to_string(), home_relative: false, mode: MountMode::Overlay };
    assert_eq!(m.to_text(), "O: /nix:/nix");
}

#[test]
fn worktree_is_added_for_an_old_or_a_new_branch() {
    assert_eq!(
        worktree_add_args("/git/p", "/ws/git/p/s1", "s1", true),
        vec!["--git-dir", "/git/p", "worktree", "add", "/ws/git/p/s1", "s1"]
    );
    assert_eq!(
        worktree_add_args("/git/p", "/ws/git/p/s1", "s1", false),
        vec!["--git-dir", "/git/p", "worktree", "add", "-b", "s1", "/ws/git/p/s1"]
    );
}

#[test]
fn search_for_a_bare_repository_stops_at_repositories() {
    assert_eq!(visit_dir(true, Some("agent-box"), "agent-box"), Visit::Take);
    assert_eq!(visit_dir(true, Some("other"), "agent-box"), Visit::Pass);
    assert_eq!(visit_dir(true, None, "agent-box"), Visit::Pass);
    assert_eq!(visit_dir(false, Some("agent-box"), "agent-box"), Visit::Descend);
    assert_eq!(visit_dir(false, None, "agent-box"), Visit::Descend);
}

#[test]
fn shared_setting_is_added_once() {
    assert_eq!(
        shared_repository_lines("[core]\n\tbare = true\n"),
        Some("[core]\n\tsharedRepository = group\n".to_string())
    );
    assert_eq!(shared_repository_lines("[core]\n\tsharedRepository = group\n"), None);
    assert_eq!(shared_repository_lines("# sharedRepository"), None);
    assert!(contains_text("abcabd", "abd"));
    assert!(contains_text("abc", ""));
    assert!(contains_text("", ""));
    assert!(!contains_text("abcab", "abd"));
    assert!(!contains_text("ab", "abc"));
}

#[test]
fn directories_that_belong_to_a_repository() {
    let config = Config {
        workspace_dir: "/mnt/workspace".to_string(),
        base_repo_dir: "/home/user/repos".to_string(),
        git_dir: "/mnt/git".to_string(),
        jj_dir: "/mnt/jj".to_string(),
        default_profile: None,
        profiles: ProfileMap::new(),
        runtime: RuntimeConfig {
            backend: "docker".to_string(),
            image: String::new(),
            entrypoint: None,
            mounts: MountsConfig::default(),
            env: vec![],
            skip_mounts: vec![],
        },
    };
    let id = RepoIdentifier { relative_path: "work/project".to_string() };
    let dirs: Vec<(String, String)> =
        directories_of(&config, &id).into_iter().map(|d| (d.label, d.path)).collect();
    assert_eq!(
        dirs,
        vec![
            ("Git bare repo".to_string(), "/mnt/git/work/project".to_string()),
            ("JJ workspace".to_string(), "/mnt/jj/work/project".to_string()),
            ("Git worktrees".to_string(), "/mnt/workspace/git/work/project".to_string()),
            ("JJ workspaces".to_string(), "/mnt/workspace/jj/work/project".to_string()),
        ]
    );
}
