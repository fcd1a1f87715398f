use std::collections::HashMap;

use mcp_sync::backup::{
    backup_path_of, backup_rotation_ops, list_backup_paths, numbered_backup_path,
    path_with_extension, restore_ops, temp_path_of, write_file_ops, BackupSettings, FsOp,
};
use mcp_sync::config::{
    add_mcp_server, choose_source_servers, remove_mcp_server, set_tool_mcp_enabled,
    update_mcp_server,
};
use mcp_sync::json::Json;
use mcp_sync::jsonpath::{get_json_value, json_object_with_prefix, json_replace_prefix, set_json_value};
use mcp_sync::jsontext::parse_json_document;
use mcp_sync::merge::compute_merge_result;
use mcp_sync::platform::expand_path;
use mcp_sync::sync::{plan_sync, read_tool_mcp_servers, update_tool_config, McpSyncPlan};
use mcp_sync::text::{dec_string, parse_u16};
use mcp_sync::types::{
    get_mcp_tool_definitions, get_mcp_tool_info, McpConfig, McpError, McpServer, McpSourceMode,
};
use mcp_sync::versions::{sanitize_filename, version_file_name};

fn plain_server(name: &str, command: &str) -> McpServer {
    McpServer {
        name: name.to_string(),
        command: command.to_string(),
        args: None,
        env: None,
        disabled: None,
        url: None,
        target: None,
        extra: None,
    }
}

/// Replays a plan against an in-memory store with the plan's own
/// semantics: copies and renames of absent sources do nothing.
fn apply_plan(store: &mut HashMap<String, String>, ops: &[FsOp]) {
    for op in ops {
        match op {
            FsOp::CopyFile(src, dst) => {
                if let Some(v) = store.get(src).cloned() {
                    store.insert(dst.clone(), v);
                }
            }
            FsOp::RenameFile(src, dst) => {
                if let Some(v) = store.remove(src) {
                    store.insert(dst.clone(), v);
                }
            }
            FsOp::WriteFile(p, c) => {
                store.insert(p.clone(), c.clone());
            }
        }
    }
}

#[test]
fn test_backup_names() {
    assert_eq!(backup_path_of("cfg.json"), "cfg.bak");
    assert_eq!(temp_path_of("cfg.json"), "cfg.tmp");
    assert_eq!(numbered_backup_path("cfg.json", 3), "cfg.json.bak.3");
    assert_eq!(path_with_extension("dir/.bashrc", "bak"), "dir/.bashrc.bak");
    assert_eq!(path_with_extension("a/b.c/file", "bak"), "a/b.c/file.bak");
}

#[test]
fn test_single_backup_keeps_previous_content() {
    let mut store: HashMap<String, String> = HashMap::new();
    store.insert("cfg.json".to_string(), "old".to_string());
    let settings = BackupSettings { enabled: true, max_backups: 1 };
    let ops = write_file_ops("cfg.json", "new", &settings, true);
    apply_plan(&mut store, &ops);
    assert_eq!(store.get("cfg.json"), Some(&"new".to_string()));
    assert_eq!(store.get("cfg.bak"), Some(&"old".to_string()));
    assert!(store.get("cfg.tmp").is_none());
}

#[test]
fn test_three_backups_after_four_writes() {
    let mut store: HashMap<String, String> = HashMap::new();
    let settings = BackupSettings { enabled: true, max_backups: 3 };
    for content in ["one", "two", "three", "four"] {
        let exists = store.contains_key("cfg.json");
        let ops = write_file_ops("cfg.json", content, &settings, exists);
        apply_plan(&mut store, &ops);
    }
    assert_eq!(store.get("cfg.json"), Some(&"four".to_string()));
    assert_eq!(store.get("cfg.bak"), Some(&"three".to_string()));
    assert_eq!(store.get("cfg.json.bak.1"), Some(&"two".to_string()));
    assert_eq!(store.get("cfg.json.bak.2"), Some(&"one".to_string()));
    assert!(store.get("cfg.json.bak.3").is_none());
    let backups = store.keys().filter(|k| k.contains("bak")).count();
    assert_eq!(backups, 3);
}

#[test]
fn test_backup_disabled_writes_no_backup() {
    let mut store: HashMap<String, String> = HashMap::new();
    store.insert("cfg.json".to_string(), "old".to_string());
    let settings = BackupSettings { enabled: false, max_backups: 3 };
    let ops = write_file_ops("cfg.json", "new", &settings, true);
    apply_plan(&mut store, &ops);
    assert_eq!(store.get("cfg.json"), Some(&"new".to_string()));
    assert!(store.get("cfg.bak").is_none());
}

#[test]
fn test_rotation_clamps_slots() {
    // a policy above the cap still rotates at most twenty numbered slots
    let ops = backup_rotation_ops("cfg.json", 25);
    assert_eq!(ops.len(), 21);
    let ops3 = backup_rotation_ops("cfg.json", 3);
    assert_eq!(ops3.len(), 4);
    let ops1 = backup_rotation_ops("cfg.json", 1);
    assert_eq!(ops1.len(), 1);
}

#[test]
fn test_restore_reads_before_backup() {
    let mut store: HashMap<String, String> = HashMap::new();
    store.insert("cfg.json".to_string(), "current".to_string());
    store.insert("cfg.bak".to_string(), "saved".to_string());
    // restoring cfg.json from cfg.bak, with a pre-restore backup that
    // overwrites the very backup being restored from
    let ops = restore_ops("cfg.json", "saved", true, true);
    apply_plan(&mut store, &ops);
    assert_eq!(store.get("cfg.json"), Some(&"saved".to_string()));
    assert_eq!(store.get("cfg.bak"), Some(&"current".to_string()));
}

#[test]
fn test_list_backup_paths_stops_at_gap() {
    let mut present = vec![false; 21];
    present[0] = true;
    present[1] = true;
    present[2] = true;
    present[4] = true;
    let listed = list_backup_paths("cfg.json", &present);
    assert_eq!(
        listed,
        vec![
            "cfg.bak".to_string(),
            "cfg.json.bak.1".to_string(),
            "cfg.json.bak.2".to_string(),
        ]
    );
}

#[test]
fn test_plan_sync_conflicts_pending() {
    let source = vec![plain_server("a", "x")];
    let target = vec![plain_server("a", "y")];
    let merge = compute_merge_result(&source, &target, "tool");
    match plan_sync("tool", &merge, None) {
        McpSyncPlan::ConflictsPending(res) => {
            assert!(!res.success);
            assert_eq!(res.servers_written, 0);
            assert_eq!(
                res.message,
                "Conflicts detected: a. Please resolve conflicts first."
            );
        }
        McpSyncPlan::Write(_, _) => panic!("expected a pending plan"),
    }
}

#[test]
fn test_plan_sync_writes_with_resolutions() {
    let source = vec![plain_server("a", "x"), plain_server("b", "n")];
    let target = vec![plain_server("a", "y"), plain_server("c", "z")];
    let merge = compute_merge_result(&source, &target, "tool");
    let resolved = vec![plain_server("a", "x")];
    match plan_sync("tool", &merge, Some(resolved)) {
        McpSyncPlan::Write(final_servers, res) => {
            // kept: c (target only); added: b; the conflict over a resolved
            let names: Vec<&str> = final_servers.iter().map(|s| s.name.as_str()).collect();
            assert_eq!(names, vec!["c", "b", "a"]);
            let a = final_servers.iter().find(|s| s.name == "a").unwrap();
            assert_eq!(a.command, "x");
            assert!(res.success);
            assert_eq!(res.servers_written, 3);
            assert_eq!(res.message, "Synced 3 servers (1 added, 1 kept)");
        }
        McpSyncPlan::ConflictsPending(_) => panic!("expected a write plan"),
    }
}

#[test]
fn test_read_tool_literal_dotted_key() {
    let tool = get_mcp_tool_info("amp").unwrap();
    let root = parse_json_document(
        r#"{"amp.mcpServers": {"s": {"command": "c"}}}"#,
    )
    .unwrap();
    let servers = read_tool_mcp_servers(&root, &tool).unwrap();
    assert_eq!(servers.len(), 1);
    assert_eq!(servers[0].name, "s");
}

#[test]
fn test_update_tool_keeps_unrelated_keys() {
    let tool = get_mcp_tool_info("agent-cli").unwrap();
    let root = parse_json_document(
        r#"{"theme": "dark", "mcpServers": {"old": {"command": "o"}}}"#,
    )
    .unwrap();
    let updated = update_tool_config(&root, &tool, &vec![plain_server("new", "n")]).unwrap();
    assert!(get_json_value(&updated, "theme").is_some());
    let servers = get_json_value(&updated, "mcpServers").unwrap();
    assert!(get_json_value(servers, "new").is_some());
    assert!(get_json_value(servers, "old").is_none());
}

#[test]
fn test_update_tool_dotted_sibling_stays_literal() {
    let tool = get_mcp_tool_info("amp").unwrap();
    let root = parse_json_document(r#"{"amp.colors": {}}"#).unwrap();
    let updated = update_tool_config(&root, &tool, &vec![plain_server("s", "c")]).unwrap();
    // the sibling "amp.colors" marks dotted keys as this document's
    // convention, so the servers land under the literal dotted key
    assert!(get_json_value(&updated, "amp.mcpServers").is_some());
    let nested = match get_json_value(&updated, "amp") {
        Some(_) => true,
        None => false,
    };
    assert!(!nested);
}

#[test]
fn test_update_tool_nested_path_created() {
    let tool = get_mcp_tool_info("amp").unwrap();
    let root = parse_json_document(r#"{}"#).unwrap();
    let updated = update_tool_config(&root, &tool, &vec![plain_server("s", "c")]).unwrap();
    // with no sibling hint the dotted path is created as nesting
    let amp = get_json_value(&updated, "amp").unwrap();
    assert!(get_json_value(amp, "mcpServers").is_some());
}

#[test]
fn test_set_json_value_literal_key_first() {
    let root = parse_json_document(r#"{"a.b": 1, "a": {"b": 2}}"#).unwrap();
    let updated = set_json_value(&root, "a.b", Json::Bool(true)).unwrap();
    assert_eq!(get_json_value(&updated, "a.b"), Some(&Json::Bool(true)));
}

#[test]
fn test_add_update_remove_server() {
    let config = McpConfig {
        source_mode: McpSourceMode::AppManaged,
        servers: vec![],
        enabled_tools: vec![],
    };
    let config = add_mcp_server(config, plain_server("a", "x")).unwrap();
    let dup = add_mcp_server(
        McpConfig {
            source_mode: config.source_mode,
            servers: config.servers.iter().map(|s| plain_server(&s.name, &s.command)).collect(),
            enabled_tools: vec![],
        },
        plain_server("a", "y"),
    );
    assert!(matches!(dup, Err(McpError::InvalidFormat(_))));

    let config = update_mcp_server(config, "a", plain_server("a", "z")).unwrap();
    assert_eq!(config.servers[0].command, "z");

    let missing = remove_mcp_server(
        McpConfig {
            source_mode: McpSourceMode::AppManaged,
            servers: vec![],
            enabled_tools: vec![],
        },
        "ghost",
    );
    assert!(matches!(missing, Err(McpError::NotFound(_))));

    let config = remove_mcp_server(config, "a").unwrap();
    assert!(config.servers.is_empty());
}

#[test]
fn test_set_tool_enabled_idempotent() {
    let config = McpConfig {
        source_mode: McpSourceMode::Assistant,
        servers: vec![],
        enabled_tools: vec![],
    };
    let config = set_tool_mcp_enabled(config, "amp", true);
    let config = set_tool_mcp_enabled(config, "amp", true);
    assert_eq!(config.enabled_tools, vec!["amp".to_string()]);
    let config = set_tool_mcp_enabled(config, "amp", false);
    assert!(config.enabled_tools.is_empty());
}

#[test]
fn test_choose_source_servers() {
    let managed = McpConfig {
        source_mode: McpSourceMode::AppManaged,
        servers: vec![plain_server("m", "c")],
        enabled_tools: vec![],
    };
    let picked = choose_source_servers(managed, vec![plain_server("outside", "c")]);
    assert_eq!(picked[0].name, "m");
}

#[test]
fn test_tool_definitions_catalog() {
    let defs = get_mcp_tool_definitions();
    assert_eq!(defs.len(), 7);
    let amp = get_mcp_tool_info("amp").unwrap();
    assert_eq!(amp.json_path, "amp.mcpServers");
    assert!(get_mcp_tool_info("unknown-tool").is_none());
}

#[test]
fn test_expand_path_tokens() {
    let home = "/home/u".to_string();
    let config = "/home/u/.config".to_string();
    assert_eq!(
        expand_path("~/.agent.json", Some(&home), Some(&config)),
        Some("/home/u/.agent.json".to_string())
    );
    assert_eq!(
        expand_path("%APPDATA%\\app\\cfg", Some(&home), Some(&config)),
        Some("/home/u/.config/app\\cfg".to_string())
    );
    assert_eq!(expand_path("~/x", None, None), None);
    assert_eq!(
        expand_path("/absolute", None, None),
        Some("/absolute".to_string())
    );
}

#[test]
fn test_text_helpers() {
    assert_eq!(dec_string(0), "0");
    assert_eq!(dec_string(65535), "65535");
    assert_eq!(parse_u16("2222"), Some(2222));
    assert_eq!(parse_u16("65536"), None);
    assert_eq!(parse_u16(""), None);
    assert_eq!(parse_u16("12a"), None);
}

#[test]
fn test_versions_helpers() {
    assert_eq!(sanitize_filename("a/b c.json"), "a_b_c_json");
    assert_eq!(sanitize_filename("ok-id_9"), "ok-id_9");
    assert_eq!(version_file_name("v1"), "v1.json");
}

#[test]
fn test_json_error_variant() {
    let err = parse_json_document("{oops").unwrap_err();
    assert!(matches!(err, McpError::Json(_)));
}

#[test]
fn test_invalid_format_error_variant() {
    let root = parse_json_document(r#"{"mcpServers": 5}"#).unwrap();
    let err = mcp_sync::adapters::parse_standard_mcp_servers(&root, "mcpServers").unwrap_err();
    assert!(matches!(err, McpError::InvalidFormat(_)));
}

#[test]
fn test_number_text_preserved() {
    // numbers ride through the JSON boundary as their rendered text
    let root = parse_json_document(r#"{"n": 30.5}"#).unwrap();
    match get_json_value(&root, "n").unwrap() {
        Json::Num(t) => assert_eq!(t, "30.5"),
        other => panic!("unexpected node: {:?}", other),
    }
}

#[test]
fn test_json_prefix_operations() {
    let root = parse_json_document(
        r#"{"amp.one": 1, "amp.two": 2, "other": 3}"#,
    )
    .unwrap();
    let picked = json_object_with_prefix(&root, "amp.");
    match &picked {
        Json::Obj(entries) => {
            assert_eq!(entries.len(), 2);
            assert!(entries.iter().all(|(k, _)| k.starts_with("amp.")));
        }
        _ => panic!("expected an object"),
    }

    let replacement = parse_json_document(r#"{"amp.three": 9}"#).unwrap();
    let replaced = json_replace_prefix(&root, "amp.", &replacement);
    assert!(get_json_value(&replaced, "amp.one").is_none());
    assert!(get_json_value(&replaced, "amp.two").is_none());
    assert!(get_json_value(&replaced, "amp.three").is_some());
    assert!(get_json_value(&replaced, "other").is_some());
}
