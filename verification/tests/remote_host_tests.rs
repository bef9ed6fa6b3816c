use systemd_pilot::remote_host::{AuthType, RemoteHost};

#[test]
fn test_remote_host_creation() {
    let host = RemoteHost::new(
        "test-server".to_string(),
        "example.com".to_string(),
        "user".to_string(),
        AuthType::Password,
    );

    assert_eq!(host.name, "test-server");
    assert_eq!(host.hostname, "example.com");
    assert_eq!(host.username, "user");
    assert!(host.is_password_auth());
    assert!(!host.is_key_auth());
}

#[test]
fn test_connection_string() {
    let host = RemoteHost::new(
        "test-server".to_string(),
        "example.com".to_string(),
        "user".to_string(),
        AuthType::Password,
    );

    assert_eq!(host.connection_string(), "user@example.com");
}

#[test]
fn test_key_auth() {
    let key_path = String::from("/home/user/.ssh/id_rsa");
    let host = RemoteHost::new(
        "test-server".to_string(),
        "example.com".to_string(),
        "user".to_string(),
        AuthType::Key { path: Some(key_path.clone()) },
    );

    assert!(host.is_key_auth());
    assert!(!host.is_password_auth());
    assert_eq!(host.key_path(), Some(&key_path));
}

#[test]
fn test_key_auth_default_path() {
    let host = RemoteHost::new(
        "backup".to_string(),
        "10.0.0.2".to_string(),
        "root".to_string(),
        AuthType::Key { path: None },
    );

    assert!(host.is_key_auth());
    assert_eq!(host.key_path(), None);
    assert_eq!(host.auth_type.label(), "SSH Key (default)");
}

#[test]
fn test_display_name() {
    let host = RemoteHost::new(
        "test-server".to_string(),
        "example.com".to_string(),
        "user".to_string(),
        AuthType::Password,
    );

    assert_eq!(host.display_name(), "test-server (user@example.com)");
}

#[test]
fn test_auth_labels() {
    assert_eq!(AuthType::Password.label(), "Password");
    assert_eq!(
        AuthType::Key { path: Some("/tmp/id".to_string()) }.label(),
        "SSH Key (/tmp/id)"
    );
}
