use mcp_sync::ssh::{SshConnection, SshError};

#[test]
fn test_parse_simple_host_path() {
    let conn = SshConnection::parse("myserver:/path/to/config.json").unwrap();
    assert_eq!(conn.host, "myserver");
    assert_eq!(conn.path, "/path/to/config.json");
    assert!(conn.user.is_none());
    assert!(conn.port.is_none());
}

#[test]
fn test_parse_user_host_path() {
    let conn = SshConnection::parse("user@example.com:/home/user/.config/app.json").unwrap();
    assert_eq!(conn.user, Some("user".to_string()));
    assert_eq!(conn.host, "example.com");
    assert_eq!(conn.path, "/home/user/.config/app.json");
    assert!(conn.port.is_none());
}

#[test]
fn test_parse_user_host_port_path() {
    let conn = SshConnection::parse("admin@192.168.1.100:2222:/etc/config.json").unwrap();
    assert_eq!(conn.user, Some("admin".to_string()));
    assert_eq!(conn.host, "192.168.1.100");
    assert_eq!(conn.port, Some(2222));
    assert_eq!(conn.path, "/etc/config.json");
}

#[test]
fn test_parse_ipv6() {
    let conn = SshConnection::parse("[::1]:/path/to/file").unwrap();
    assert_eq!(conn.host, "::1");
    assert_eq!(conn.path, "/path/to/file");
    assert!(conn.user.is_none());
    assert!(conn.port.is_none());
}

#[test]
fn test_parse_ipv6_with_port() {
    let conn = SshConnection::parse("user@[2001:db8::1]:22:/path/file").unwrap();
    assert_eq!(conn.user, Some("user".to_string()));
    assert_eq!(conn.host, "2001:db8::1");
    assert_eq!(conn.port, Some(22));
    assert_eq!(conn.path, "/path/file");
}

#[test]
fn test_parse_ssh_config_alias() {
    let conn = SshConnection::parse("myalias:/remote/path").unwrap();
    assert_eq!(conn.host, "myalias");
    assert_eq!(conn.path, "/remote/path");
    assert!(conn.user.is_none());
    assert!(conn.port.is_none());
}

#[test]
fn test_parse_empty_path_error() {
    let result = SshConnection::parse("host:");
    assert!(result.is_err());
}

#[test]
fn test_parse_no_colon_error() {
    let result = SshConnection::parse("host/path");
    assert!(result.is_err());
}

#[test]
fn test_parse_empty_user_error() {
    let result = SshConnection::parse("@host:/path");
    assert!(result.is_err());
}

#[test]
fn test_parse_empty_host_error() {
    let result = SshConnection::parse("user@:/path");
    assert!(result.is_err());
}

#[test]
fn test_ssh_target() {
    let conn = SshConnection::parse("user@host:/path").unwrap();
    assert_eq!(conn.ssh_target(), "user@host");

    let conn2 = SshConnection::parse("host:/path").unwrap();
    assert_eq!(conn2.ssh_target(), "host");
}

#[test]
fn test_ssh_args_with_port() {
    let conn = SshConnection::parse("user@host:2222:/path").unwrap();
    let args = conn.ssh_args();
    assert!(args.contains(&"-p".to_string()));
    assert!(args.contains(&"2222".to_string()));
}

#[test]
fn test_display() {
    let conn = SshConnection::parse("user@host:2222:/path/to/file").unwrap();
    assert_eq!(conn.to_string(), "user@host:2222:/path/to/file");
}

#[test]
fn test_ssh_error_retryable() {
    assert!(SshError::ConnectionFailed("test".into()).is_retryable());
    assert!(SshError::Timeout(10).is_retryable());
    assert!(!SshError::AuthenticationFailed("test".into()).is_retryable());
    assert!(!SshError::FileNotFound("test".into()).is_retryable());
}

#[test]
fn test_parse_ssh_error_classification() {
    let auth = mcp_sync::ssh::parse_ssh_error("Permission denied (publickey).");
    assert!(matches!(auth, SshError::AuthenticationFailed(_)));
    let nf = mcp_sync::ssh::parse_ssh_error("cat: /x: No such file or directory");
    assert!(matches!(nf, SshError::FileNotFound(_)));
    let conn = mcp_sync::ssh::parse_ssh_error("ssh: connect to host x: Connection refused");
    assert!(matches!(conn, SshError::ConnectionFailed(_)));
    let to = mcp_sync::ssh::parse_ssh_error("operation timed out");
    assert!(matches!(to, SshError::Timeout(10)));
    let other = mcp_sync::ssh::parse_ssh_error("something odd happened");
    assert!(matches!(other, SshError::CommandFailed(_)));
}

#[test]
fn test_shell_escape_quotes() {
    assert_eq!(mcp_sync::ssh::shell_escape("/plain/path"), "'/plain/path'");
    assert_eq!(mcp_sync::ssh::shell_escape("it's"), "'it'\"'\"'s'");
}

#[test]
fn test_remote_commands() {
    assert_eq!(mcp_sync::ssh::remote_read_command("/a b"), "cat '/a b'");
    assert_eq!(
        mcp_sync::ssh::remote_exists_command("/f"),
        "test -f '/f' && echo 'exists' || echo 'not_exists'"
    );
    assert_eq!(
        mcp_sync::ssh::remote_backup_command("/f", "/f.bak"),
        "cp '/f' '/f.bak'"
    );
}

#[test]
fn test_builder_methods() {
    let conn = SshConnection::new("host".to_string(), "/p".to_string())
        .with_user("me".to_string())
        .with_port(2200);
    assert_eq!(conn.user, Some("me".to_string()));
    assert_eq!(conn.host, "host");
    assert_eq!(conn.port, Some(2200));
    assert_eq!(conn.path, "/p");
}

#[test]
fn test_interpret_remote_outputs() {
    assert!(mcp_sync::ssh::interpret_exists_output("exists\n"));
    assert!(!mcp_sync::ssh::interpret_exists_output("not_exists\n"));
    assert!(matches!(
        mcp_sync::ssh::interpret_probe_output("ok\n"),
        mcp_sync::ssh::SshStatus::Connected
    ));
    assert!(matches!(
        mcp_sync::ssh::interpret_probe_output("garbled"),
        mcp_sync::ssh::SshStatus::Error(_)
    ));
}
