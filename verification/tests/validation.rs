use agent_box::config::{Config, MountsConfig, ProfileConfig, ProfileMap, RuntimeConfig};
use agent_box::validate::{validate_config, validate_config_or_err};

fn make_test_config() -> Config {
    Config {
        workspace_dir: "/workspaces".to_string(),
        base_repo_dir: "/repos".to_string(),
        git_dir: String::new(),
        jj_dir: String::new(),
        default_profile: None,
        profiles: ProfileMap::new(),
        runtime: RuntimeConfig {
            backend: "docker".to_string(),
            image: "test:latest".to_string(),
            entrypoint: None,
            mounts: MountsConfig::default(),
            env: vec!["BASE=1".to_string()],
            skip_mounts: vec![],
        },
    }
}

#[test]
fn test_validate_config_valid() {
    let mut config = make_test_config();
    config.default_profile = Some("base".to_string());
    config.profiles.insert(
        "base".to_string(),
        ProfileConfig {
            extends: vec![],
            mounts: MountsConfig::default(),
            env: vec!["A=1".to_string()],
        },
    );

    let result = validate_config(&config);
    assert!(result.is_ok());
    assert!(result.errors.is_empty());
}

#[test]
fn test_validate_config_invalid_default_profile() {
    let mut config = make_test_config();
    config.default_profile = Some("nonexistent".to_string());

    let result = validate_config(&config);
    assert!(!result.is_ok());
    assert_eq!(result.errors.len(), 1);
    assert!(result.errors[0].message.contains("default_profile"));
    assert!(result.errors[0].message.contains("nonexistent"));
}

#[test]
fn test_validate_config_invalid_extends() {
    let mut config = make_test_config();
    config.profiles.insert(
        "broken".to_string(),
        ProfileConfig {
            extends: vec!["nonexistent".to_string()],
            mounts: MountsConfig::default(),
            env: vec![],
        },
    );

    let result = validate_config(&config);
    assert!(!result.is_ok());
    assert_eq!(result.errors.len(), 1);
    assert!(result.errors[0].message.contains("nonexistent"));
    assert_eq!(result.errors[0].profile_name, Some("broken".to_string()));
}

#[test]
fn test_validate_config_self_reference() {
    let mut config = make_test_config();
    config.profiles.insert(
        "self_ref".to_string(),
        ProfileConfig {
            extends: vec!["self_ref".to_string()],
            mounts: MountsConfig::default(),
            env: vec![],
        },
    );

    let result = validate_config(&config);
    assert!(!result.is_ok());
    // Should have self-reference error
    assert!(
        result
            .errors
            .iter()
            .any(|e| e.message.contains("self-reference"))
    );
}

#[test]
fn test_validate_config_circular_dependency() {
    let mut config = make_test_config();
    config.profiles.insert(
        "a".to_string(),
        ProfileConfig {
            extends: vec!["b".to_string()],
            mounts: MountsConfig::default(),
            env: vec![],
        },
    );
    config.profiles.insert(
        "b".to_string(),
        ProfileConfig {
            extends: vec!["c".to_string()],
            mounts: MountsConfig::default(),
            env: vec![],
        },
    );
    config.profiles.insert(
        "c".to_string(),
        ProfileConfig {
            extends: vec!["a".to_string()],
            mounts: MountsConfig::default(),
            env: vec![],
        },
    );

    let result = validate_config(&config);
    assert!(!result.is_ok());
    // Should detect cycle
    assert!(result.errors.iter().any(|e| e.message.contains("circular")));
}

#[test]
fn test_validate_config_empty_profile_warning() {
    let mut config = make_test_config();
    config.profiles.insert(
        "empty".to_string(),
        ProfileConfig {
            extends: vec![],
            mounts: MountsConfig::default(),
            env: vec![],
        },
    );

    let result = validate_config(&config);
    assert!(result.is_ok()); // warnings don't make it invalid
    assert!(result.has_warnings());
    assert!(result.warnings[0].message.contains("empty"));
}

#[test]
fn test_validate_config_multiple_errors() {
    let mut config = make_test_config();
    config.default_profile = Some("nonexistent".to_string());
    config.profiles.insert(
        "broken1".to_string(),
        ProfileConfig {
            extends: vec!["also_nonexistent".to_string()],
            mounts: MountsConfig::default(),
            env: vec![],
        },
    );
    config.profiles.insert(
        "broken2".to_string(),
        ProfileConfig {
            extends: vec!["broken2".to_string()], // self-reference
            mounts: MountsConfig::default(),
            env: vec![],
        },
    );

    let result = validate_config(&config);
    assert!(!result.is_ok());
    // Should have multiple errors: default_profile, extends unknown, self-reference
    assert!(result.errors.len() >= 3);
}

#[test]
fn test_validate_config_or_err_success() {
    let mut config = make_test_config();
    config.profiles.insert(
        "valid".to_string(),
        ProfileConfig {
            extends: vec![],
            mounts: MountsConfig::default(),
            env: vec!["A=1".to_string()],
        },
    );

    let result = validate_config_or_err(&config);
    assert!(result.is_ok());
}

#[test]
fn test_validate_config_or_err_failure() {
    let mut config = make_test_config();
    config.default_profile = Some("nonexistent".to_string());

    let result = validate_config_or_err(&config);
    assert!(result.is_err());
    let err = result.unwrap_err().message();
    assert!(err.contains("validation failed"));
    assert!(err.contains("nonexistent"));
}

#[test]
fn test_validate_config_no_profiles_is_valid() {
    let config = make_test_config();

    let result = validate_config(&config);
    assert!(result.is_ok());
    assert!(!result.has_warnings());
}

#[test]
fn test_validate_config_deep_valid_chain() {
    let mut config = make_test_config();
    config.profiles.insert(
        "a".to_string(),
        ProfileConfig {
            extends: vec![],
            mounts: MountsConfig::default(),
            env: vec!["A=1".to_string()],
        },
    );
    config.profiles.insert(
        "b".to_string(),
        ProfileConfig {
            extends: vec!["a".to_string()],
            mounts: MountsConfig::default(),
            env: vec!["B=1".to_string()],
        },
    );
    config.profiles.insert(
        "c".to_string(),
        ProfileConfig {
            extends: vec!["b".to_string()],
            mounts: MountsConfig::default(),
            env: vec!["C=1".to_string()],
        },
    );
    config.profiles.insert(
        "d".to_string(),
        ProfileConfig {
            extends: vec!["c".to_string()],
            mounts: MountsConfig::default(),
            env: vec!["D=1".to_string()],
        },
    );
    config.default_profile = Some("d".to_string());

    let result = validate_config(&config);
    assert!(result.is_ok());
}
