use agent_box::config::{Config, MountsConfig, ProfileMap, RuntimeConfig};
use agent_box::workspace::{calculate_relative_path, RepoIdentifier, Workspace, WorkspaceType};

fn make_path_config() -> Config {
    Config {
        base_repo_dir: "/home/user/repos".to_string(),
        git_dir: "/mnt/git".to_string(),
        jj_dir: "/mnt/jj".to_string(),
        workspace_dir: "/mnt/workspace".to_string(),
        default_profile: None,
        profiles: ProfileMap::new(),
        runtime: RuntimeConfig {
            backend: "docker".to_string(),
            image: "test:latest".to_string(),
            entrypoint: None,
            mounts: MountsConfig::default(),
            env: vec![],
            skip_mounts: vec![],
        },
    }
}

#[test]
fn test_repo_identifier_from_repo_path() {
    let config = make_path_config();
    let full_path = "/home/user/repos/myproject".to_string();

    let id = RepoIdentifier::from_repo_path(&config, &full_path).unwrap();
    assert_eq!(id.relative_path(), "myproject");
}

#[test]
fn test_repo_identifier_path_builders() {
    let config = make_path_config();
    let id = RepoIdentifier {
        relative_path: "work/project".to_string(),
    };

    assert_eq!(id.git_path(&config), "/mnt/git/work/project".to_string());
    assert_eq!(id.jj_path(&config), "/mnt/jj/work/project".to_string());
    assert_eq!(
        id.git_workspace_path(&config, "session1"),
        "/mnt/workspace/git/work/project/session1".to_string()
    );
    assert_eq!(
        id.jj_workspace_path(&config, "session2"),
        "/mnt/workspace/jj/work/project/session2".to_string()
    );
}

#[test]
fn test_locate_exact_match() {
    let found = vec!["other".to_string(), "fr/agent-box".to_string()];
    let result = RepoIdentifier::locate(&found, "fr/agent-box");
    assert!(result.is_some());
    let id = result.unwrap();
    assert_eq!(id.relative_path(), "fr/agent-box");
}

#[test]
fn test_locate_partial_match() {
    let found = vec!["fr/agent-box".to_string()];
    let result = RepoIdentifier::locate(&found, "agent-box");
    assert!(result.is_some());
    let id = result.unwrap();
    assert_eq!(id.relative_path(), "fr/agent-box");
}

#[test]
fn test_locate_no_match() {
    let found = vec!["fr/agent-box".to_string()];
    let result = RepoIdentifier::locate(&found, "nonexistent");
    assert!(result.is_none());
}

#[test]
fn test_locate_git_dir_not_exists() {
    let result = RepoIdentifier::locate(&[], "anything");
    assert!(result.is_none());
}

#[test]
fn locate_takes_whole_components_only() {
    let found = vec!["fr/my-agent-box".to_string(), "fr/agent-box".to_string()];
    let id = RepoIdentifier::locate(&found, "agent-box").unwrap();
    assert_eq!(id.relative_path(), "fr/agent-box");
    assert!(!RepoIdentifier { relative_path: "fr/my-agent-box".to_string() }.matches("agent-box"));
    assert!(!RepoIdentifier { relative_path: "box".to_string() }.matches("agent-box"));
}

#[test]
fn relative_path_of_the_base_itself_is_empty() {
    assert_eq!(calculate_relative_path("/repos", "/repos").unwrap(), "");
    assert_eq!(calculate_relative_path("/", "/repos/a").unwrap(), "repos/a");
}

#[test]
fn relative_path_fails_outside_the_base() {
    let err = calculate_relative_path("/home/user/repos", "/home/user/repository").unwrap_err();
    assert_eq!(err.path, "/home/user/repository");
    assert_eq!(err.base, "/home/user/repos");
    assert_eq!(
        err.message(),
        "Path /home/user/repository is not under base directory /home/user/repos"
    );
    assert!(calculate_relative_path("/a/b", "/a").is_err());
}

#[test]
fn source_path_lies_under_the_base_repo_dir() {
    let config = make_path_config();
    let id = RepoIdentifier { relative_path: "work/project".to_string() };
    assert_eq!(id.source_path(&config), "/home/user/repos/work/project");
    assert_eq!(
        id.workspace_path(&config, WorkspaceType::Jj, "s"),
        "/mnt/workspace/jj/work/project/s"
    );
    assert_eq!(
        id.workspace_path(&config, WorkspaceType::Git, "s"),
        "/mnt/workspace/git/work/project/s"
    );
}

#[test]
fn workspace_from_relative_splits_repo_and_session() {
    let ws = Workspace::from_relative("work/project/session1", WorkspaceType::Git).unwrap();
    assert_eq!(ws.repo_id.relative_path, "work/project");
    assert_eq!(ws.session, "session1");
    assert_eq!(ws.workspace_type, WorkspaceType::Git);
    assert!(Workspace::from_relative("session-only", WorkspaceType::Jj).is_none());
    assert!(Workspace::from_relative("", WorkspaceType::Jj).is_none());
    assert!(Workspace::from_relative("/session", WorkspaceType::Jj).is_none());
    assert!(Workspace::from_relative("repo/", WorkspaceType::Jj).is_none());
}
