use mcp_sync::merge::{compute_merge_result, get_sync_status, servers_equal};
use mcp_sync::types::{McpServer, McpSyncStatus};

fn plain_server(name: &str, command: &str) -> McpServer {
    McpServer {
        name: name.to_string(),
        command: command.to_string(),
        args: None,
        env: None,
        disabled: None,
        url: None,
        target: None,
        extra: None,
    }
}

#[test]
fn test_compute_merge_result_no_conflicts() {
    let source = vec![plain_server("server1", "cmd1")];
    let target = vec![];

    let result = compute_merge_result(&source, &target, "test");
    assert_eq!(result.added.len(), 1);
    assert_eq!(result.kept.len(), 0);
    assert_eq!(result.conflicts.len(), 0);
}

#[test]
fn test_compute_merge_result_with_conflict() {
    let source = vec![plain_server("server1", "cmd1")];
    let target = vec![plain_server("server1", "cmd2")];

    let result = compute_merge_result(&source, &target, "test");
    assert_eq!(result.added.len(), 0);
    assert_eq!(result.kept.len(), 0);
    assert_eq!(result.conflicts.len(), 1);
}

#[test]
fn test_compute_merge_result_keep_target_only() {
    let source = vec![];
    let target = vec![plain_server("server1", "cmd1")];

    let result = compute_merge_result(&source, &target, "test");
    assert_eq!(result.added.len(), 0);
    assert_eq!(result.kept.len(), 1);
    assert_eq!(result.conflicts.len(), 0);
}

#[test]
fn test_servers_equal() {
    let a = McpServer {
        args: Some(vec!["arg".to_string()]),
        ..plain_server("test", "cmd")
    };
    let b = McpServer {
        args: Some(vec!["arg".to_string()]),
        ..plain_server("test", "cmd")
    };
    assert!(servers_equal(&a, &b));

    let c = plain_server("test", "different");
    assert!(!servers_equal(&a, &c));
}

#[test]
fn test_merge_conflict_scenario() {
    let source = vec![plain_server("a", "x")];
    let target = vec![plain_server("a", "y")];

    let result = compute_merge_result(&source, &target, "tool");
    assert_eq!(result.conflicts.len(), 1);
    assert_eq!(result.added.len(), 0);
    assert_eq!(result.kept.len(), 0);
    assert_eq!(result.conflicts[0].server_name, "a");
    assert_eq!(result.conflicts[0].source_server.command, "x");
    assert_eq!(result.conflicts[0].target_server.command, "y");
}

#[test]
fn test_merge_env_order_insensitive() {
    let a = McpServer {
        env: Some(vec![
            ("A".to_string(), "1".to_string()),
            ("B".to_string(), "2".to_string()),
        ]),
        ..plain_server("s", "cmd")
    };
    let b = McpServer {
        env: Some(vec![
            ("B".to_string(), "2".to_string()),
            ("A".to_string(), "1".to_string()),
        ]),
        ..plain_server("s", "cmd")
    };
    assert!(servers_equal(&a, &b));

    let c = McpServer {
        env: Some(vec![("A".to_string(), "other".to_string())]),
        ..plain_server("s", "cmd")
    };
    assert!(!servers_equal(&a, &c));
}

#[test]
fn test_merge_args_order_sensitive() {
    let a = McpServer {
        args: Some(vec!["x".to_string(), "y".to_string()]),
        ..plain_server("s", "cmd")
    };
    let b = McpServer {
        args: Some(vec!["y".to_string(), "x".to_string()]),
        ..plain_server("s", "cmd")
    };
    assert!(!servers_equal(&a, &b));
}

#[test]
fn test_merge_disjoint_complete() {
    let source = vec![plain_server("a", "x"), plain_server("b", "y")];
    let target = vec![plain_server("c", "z")];
    let result = compute_merge_result(&source, &target, "tool");
    assert_eq!(result.added.len(), 2);
    assert_eq!(result.kept.len(), 1);
    assert_eq!(result.conflicts.len(), 0);
    assert_eq!(
        result.added.len() + result.kept.len() + result.conflicts.len(),
        3
    );
}

#[test]
fn test_sync_status_values() {
    let source = vec![plain_server("a", "x")];
    assert_eq!(
        get_sync_status(&source, &vec![plain_server("a", "y")], "t"),
        McpSyncStatus::Conflicts
    );
    assert_eq!(
        get_sync_status(&source, &vec![], "t"),
        McpSyncStatus::OutOfSync
    );
    assert_eq!(
        get_sync_status(&source, &vec![plain_server("a", "x")], "t"),
        McpSyncStatus::Synced
    );
}

#[test]
fn test_merge_disabled_not_compared() {
    let a = McpServer {
        disabled: Some(true),
        ..plain_server("s", "cmd")
    };
    let b = McpServer {
        disabled: None,
        ..plain_server("s", "cmd")
    };
    assert!(servers_equal(&a, &b));
}
