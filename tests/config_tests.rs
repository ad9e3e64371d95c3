use std::path::PathBuf;

use thn::config::{parse_vault_path, validate_vault_path, ConfigError};

#[test]
fn test_config_error_display() {
    let err = ConfigError::NotFound;
    assert_eq!(
        err.message(),
        "not configured. run 'thn --init [<PATH>]' first"
    );
}

#[test]
fn test_io_error_not_found_converts_to_config_not_found() {
    let io_err = std::io::Error::new(std::io::ErrorKind::NotFound, "file not found");
    let config_err = ConfigError::from_io(io_err);
    assert!(matches!(config_err, ConfigError::NotFound));
}

#[test]
fn test_io_error_other_converts_to_config_io() {
    let io_err = std::io::Error::new(std::io::ErrorKind::PermissionDenied, "permission denied");
    let config_err = ConfigError::from_io(io_err);
    assert!(matches!(config_err, ConfigError::Io(_)));
}

#[test]
fn test_vault_not_found_error_display() {
    let err = ConfigError::VaultNotFound("/nonexistent/path".to_string());
    assert_eq!(err.message(), "vault not found: /nonexistent/path");
}

#[test]
fn test_not_obsidian_vault_error_display() {
    let err = ConfigError::NotObsidianVault("/some/directory".to_string());
    assert_eq!(err.message(), "not an obsidian vault: /some/directory");
}

#[test]
fn test_validate_vault_path_not_found() {
    let result = validate_vault_path("/nonexistent/vault/path/12345");
    assert!(matches!(result, Err(ConfigError::VaultNotFound(_))));
}

#[test]
fn test_validate_vault_path_not_obsidian_vault() {
    let temp_dir = tempfile::tempdir().unwrap();
    let result = validate_vault_path(temp_dir.path().to_str().unwrap());
    assert!(matches!(result, Err(ConfigError::NotObsidianVault(_))));
}

#[test]
fn test_validate_vault_path_success() {
    let temp_dir = tempfile::tempdir().unwrap();
    let obsidian_dir = tempfile::Builder::new()
        .prefix(".obsidian")
        .rand_bytes(0)
        .tempdir_in(temp_dir.path())
        .unwrap();
    assert!(obsidian_dir.path().ends_with(".obsidian"));

    let result = validate_vault_path(temp_dir.path().to_str().unwrap());
    assert!(result.is_ok());
}

#[test]
fn test_validate_vault_path_error_carries_path() {
    let result = validate_vault_path("/nonexistent/vault/path/12345");
    match result {
        Err(ConfigError::VaultNotFound(p)) => assert_eq!(p, "/nonexistent/vault/path/12345"),
        _ => panic!("expected VaultNotFound"),
    }
}

#[test]
fn test_parse_vault_path_home_only() {
    let home = dirs::home_dir().unwrap();
    let result = parse_vault_path("~").unwrap();
    assert_eq!(PathBuf::from(result), home);
}

#[test]
fn test_parse_vault_path_with_tilde() {
    let home = dirs::home_dir().unwrap();
    let result = parse_vault_path("~/dev/note").unwrap();
    assert_eq!(PathBuf::from(result), home.join("dev/note"));
}

#[test]
fn test_parse_vault_path_absolute_unchanged() {
    let result = parse_vault_path("/absolute/path").unwrap();
    assert_eq!(PathBuf::from(result), PathBuf::from("/absolute/path"));
}

#[test]
fn test_parse_vault_path_relative_unchanged() {
    let result = parse_vault_path("relative/path").unwrap();
    assert_eq!(PathBuf::from(result), PathBuf::from("relative/path"));
}

#[test]
fn test_parse_vault_path_empty_error() {
    let result = parse_vault_path("");
    assert!(result.is_err());
}

#[test]
fn test_parse_vault_path_whitespace_only_error() {
    let result = parse_vault_path("   ");
    assert!(result.is_err());
}

#[test]
fn test_parse_vault_path_trims_input() {
    let result = parse_vault_path("  /vault/notes \n").unwrap();
    assert_eq!(result, "/vault/notes");
}
