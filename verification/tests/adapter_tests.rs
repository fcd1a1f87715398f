use mcp_sync::adapters::{
    parse_copilot_mcp_servers, parse_opencode_mcp_servers, parse_standard_mcp_servers,
    servers_to_copilot_format, servers_to_opencode_format, servers_to_standard_format,
};
use mcp_sync::json::Json;
use mcp_sync::jsonpath::get_json_value;
use mcp_sync::jsontext::parse_json_document;
use mcp_sync::types::McpServer;

fn plain_server(name: &str, command: &str) -> McpServer {
    McpServer {
        name: name.to_string(),
        command: command.to_string(),
        args: None,
        env: None,
        disabled: None,
        url: None,
        target: None,
        extra: None,
    }
}

fn as_str(j: &Json) -> &str {
    match j {
        Json::Str(s) => s.as_str(),
        _ => panic!("expected a string"),
    }
}

#[test]
fn converters_test_parse_copilot_format() {
    let json = parse_json_document(
        r#"{
            "servers": {
                "test-server": {
                    "command": "test-cmd",
                    "args": ["arg1"]
                }
            }
        }"#,
    )
    .unwrap();

    let servers = parse_copilot_mcp_servers(&json).unwrap();
    assert_eq!(servers.len(), 1);
    assert_eq!(servers[0].name, "test-server");
    assert_eq!(servers[0].command, "test-cmd");
}

#[test]
fn converters_test_parse_opencode_format() {
    let json = parse_json_document(
        r#"{
            "mcp": {
                "test-server": {
                    "command": ["test-cmd", "arg1", "arg2"],
                    "environment": {
                        "API_KEY": "secret"
                    },
                    "type": "local",
                    "enabled": true
                }
            }
        }"#,
    )
    .unwrap();

    let servers = parse_opencode_mcp_servers(&json).unwrap();
    assert_eq!(servers.len(), 1);
    assert_eq!(servers[0].name, "test-server");
    assert_eq!(servers[0].command, "test-cmd");
    assert_eq!(
        servers[0].args,
        Some(vec!["arg1".to_string(), "arg2".to_string()])
    );
    assert!(servers[0]
        .env
        .as_ref()
        .unwrap()
        .iter()
        .any(|(k, _)| k == "API_KEY"));
    assert_eq!(servers[0].disabled, Some(false));
}

#[test]
fn test_parse_opencode_disabled_server() {
    let json = parse_json_document(
        r#"{
            "mcp": {
                "disabled-server": {
                    "command": ["cmd"],
                    "enabled": false
                }
            }
        }"#,
    )
    .unwrap();

    let servers = parse_opencode_mcp_servers(&json).unwrap();
    assert_eq!(servers[0].disabled, Some(true));
}

#[test]
fn test_parse_opencode_remote_server() {
    let json = parse_json_document(
        r#"{
            "mcp": {
                "remote-server": {
                    "command": [],
                    "url": "https://api.example.com/mcp",
                    "type": "remote",
                    "enabled": true
                }
            }
        }"#,
    )
    .unwrap();

    let servers = parse_opencode_mcp_servers(&json).unwrap();
    assert_eq!(servers[0].url, Some("https://api.example.com/mcp".to_string()));
}

#[test]
fn test_servers_to_copilot_format() {
    let servers = vec![plain_server("test", "cmd")];

    let result = servers_to_copilot_format(&servers);
    assert!(matches!(result, Json::Obj(_)));
    assert!(get_json_value(&result, "test").is_some());
}

#[test]
fn test_servers_to_opencode_format() {
    let servers = vec![McpServer {
        name: "test".to_string(),
        command: "cmd".to_string(),
        args: Some(vec!["arg1".to_string()]),
        env: Some(vec![("KEY".to_string(), "value".to_string())]),
        disabled: None,
        url: None,
        target: None,
        extra: None,
    }];

    let result = servers_to_opencode_format(&servers);
    let server = get_json_value(&result, "test").unwrap();

    let cmd = match get_json_value(server, "command").unwrap() {
        Json::Arr(items) => items,
        _ => panic!("expected an array"),
    };
    assert_eq!(as_str(&cmd[0]), "cmd");
    assert_eq!(as_str(&cmd[1]), "arg1");

    let env = get_json_value(server, "environment").unwrap();
    assert!(get_json_value(env, "KEY").is_some());
    assert_eq!(as_str(get_json_value(server, "type").unwrap()), "local");
    assert_eq!(
        get_json_value(server, "enabled").unwrap(),
        &Json::Bool(true)
    );
}

#[test]
fn test_servers_to_opencode_format_disabled() {
    let servers = vec![McpServer {
        disabled: Some(true),
        ..plain_server("disabled", "cmd")
    }];

    let result = servers_to_opencode_format(&servers);
    let server = get_json_value(&result, "disabled").unwrap();
    assert_eq!(
        get_json_value(server, "enabled").unwrap(),
        &Json::Bool(false)
    );
}

#[test]
fn test_servers_to_opencode_format_remote() {
    let servers = vec![McpServer {
        url: Some("https://api.example.com/mcp".to_string()),
        ..plain_server("remote", "")
    }];

    let result = servers_to_opencode_format(&servers);
    let server = get_json_value(&result, "remote").unwrap();
    assert_eq!(as_str(get_json_value(server, "type").unwrap()), "remote");
    assert_eq!(
        as_str(get_json_value(server, "url").unwrap()),
        "https://api.example.com/mcp"
    );
}

#[test]
fn test_opencode_roundtrip() {
    let original = vec![McpServer {
        name: "roundtrip-test".to_string(),
        command: "npx".to_string(),
        args: Some(vec![
            "-y".to_string(),
            "@modelcontextprotocol/server".to_string(),
        ]),
        env: Some(vec![("TOKEN".to_string(), "abc123".to_string())]),
        disabled: Some(false),
        url: None,
        target: None,
        extra: None,
    }];

    let serialized = servers_to_opencode_format(&original);
    let wrapped = Json::Obj(vec![("mcp".to_string(), serialized)]);
    let parsed = parse_opencode_mcp_servers(&wrapped).unwrap();

    assert_eq!(parsed.len(), 1);
    assert_eq!(parsed[0].name, "roundtrip-test");
    assert_eq!(parsed[0].command, "npx");
    assert_eq!(
        parsed[0].args,
        Some(vec![
            "-y".to_string(),
            "@modelcontextprotocol/server".to_string()
        ])
    );
    assert!(parsed[0]
        .env
        .as_ref()
        .unwrap()
        .iter()
        .any(|(k, _)| k == "TOKEN"));
}

#[test]
fn test_parse_standard_mcp_servers() {
    let json = parse_json_document(
        r#"{
            "mcpServers": {
                "filesystem": {
                    "command": "npx",
                    "args": ["-y", "@anthropic/mcp-filesystem-server"],
                    "env": {
                        "HOME": "/home/user"
                    }
                },
                "git": {
                    "command": "git-mcp",
                    "disabled": true
                }
            }
        }"#,
    )
    .unwrap();

    let servers = parse_standard_mcp_servers(&json, "mcpServers").unwrap();
    assert_eq!(servers.len(), 2);

    let fs_server = servers.iter().find(|s| s.name == "filesystem").unwrap();
    assert_eq!(fs_server.command, "npx");
    assert_eq!(
        fs_server.args,
        Some(vec![
            "-y".to_string(),
            "@anthropic/mcp-filesystem-server".to_string()
        ])
    );
    assert!(fs_server.env.is_some());

    let git_server = servers.iter().find(|s| s.name == "git").unwrap();
    assert_eq!(git_server.command, "git-mcp");
    assert_eq!(git_server.disabled, Some(true));
}

#[test]
fn test_servers_to_standard_format() {
    let servers = vec![McpServer {
        args: Some(vec!["arg1".to_string()]),
        ..plain_server("test", "test-cmd")
    }];

    let result = servers_to_standard_format(&servers);
    assert!(matches!(result, Json::Obj(_)));

    let test_server = get_json_value(&result, "test").unwrap();
    assert_eq!(as_str(get_json_value(test_server, "command").unwrap()), "test-cmd");
}

#[test]
fn test_parse_empty_mcp_servers() {
    let json = parse_json_document("{}").unwrap();
    let servers = parse_standard_mcp_servers(&json, "mcpServers").unwrap();
    assert!(servers.is_empty());
}

#[test]
fn test_standard_unknown_fields_survive() {
    let json = parse_json_document(
        r#"{
            "mcpServers": {
                "srv": {
                    "command": "cmd",
                    "foo": "bar"
                }
            }
        }"#,
    )
    .unwrap();
    let servers = parse_standard_mcp_servers(&json, "mcpServers").unwrap();
    assert_eq!(servers.len(), 1);
    let written = servers_to_standard_format(&servers);
    let srv = get_json_value(&written, "srv").unwrap();
    assert_eq!(as_str(get_json_value(srv, "foo").unwrap()), "bar");
}

#[test]
fn test_standard_scenario_roundtrip() {
    let json = parse_json_document(
        r#"{"mcpServers":{"fs":{"command":"npx","args":["-y","pkg"]}}}"#,
    )
    .unwrap();
    let servers = parse_standard_mcp_servers(&json, "mcpServers").unwrap();
    assert_eq!(servers.len(), 1);
    assert_eq!(servers[0].name, "fs");
    assert_eq!(servers[0].command, "npx");
    assert_eq!(servers[0].args, Some(vec!["-y".to_string(), "pkg".to_string()]));

    // reading the written form back gives the same servers, and the written
    // object carries exactly the original keys (order aside)
    let written = servers_to_standard_format(&servers);
    let fs_obj = match get_json_value(&written, "fs").unwrap() {
        Json::Obj(entries) => entries,
        _ => panic!("expected an object"),
    };
    assert_eq!(fs_obj.len(), 2);
    assert_eq!(as_str(get_json_value(&written, "fs").and_then(|o| get_json_value(o, "command")).unwrap()), "npx");
    let reparsed = parse_standard_mcp_servers(
        &Json::Obj(vec![("mcpServers".to_string(), written)]),
        "mcpServers",
    )
    .unwrap();
    assert_eq!(reparsed, servers);
}

#[test]
fn test_standard_command_omitted_when_empty() {
    let servers = vec![McpServer {
        url: Some("https://example.com/sse".to_string()),
        ..plain_server("remote", "")
    }];
    let written = servers_to_standard_format(&servers);
    let srv = get_json_value(&written, "remote").unwrap();
    assert!(get_json_value(srv, "command").is_none());
    assert_eq!(as_str(get_json_value(srv, "url").unwrap()), "https://example.com/sse");
}

#[test]
fn test_standard_disabled_written_only_when_true() {
    let off = vec![McpServer {
        disabled: Some(true),
        ..plain_server("a", "x")
    }];
    let srv = servers_to_standard_format(&off);
    let a = get_json_value(&srv, "a").unwrap();
    assert_eq!(get_json_value(a, "disabled").unwrap(), &Json::Bool(true));

    let on = vec![McpServer {
        disabled: Some(false),
        ..plain_server("b", "x")
    }];
    let srv2 = servers_to_standard_format(&on);
    let b = get_json_value(&srv2, "b").unwrap();
    assert!(get_json_value(b, "disabled").is_none());
}

#[test]
fn test_standard_roundtrip_full_server() {
    let original = vec![McpServer {
        name: "rich".to_string(),
        command: "run".to_string(),
        args: Some(vec!["-a".to_string(), "-b".to_string()]),
        env: Some(vec![("K".to_string(), "v".to_string())]),
        disabled: Some(true),
        url: Some("https://example.com".to_string()),
        target: Some("prov".to_string()),
        extra: Some(vec![("custom".to_string(), Json::Num("7".to_string()))]),
    }];

    let written = servers_to_standard_format(&original);
    let root = Json::Obj(vec![("mcpServers".to_string(), written)]);
    let parsed = parse_standard_mcp_servers(&root, "mcpServers").unwrap();
    assert_eq!(parsed, original);
}

#[test]
fn test_copilot_roundtrip() {
    let original = vec![McpServer {
        name: "c".to_string(),
        command: "run".to_string(),
        args: Some(vec!["-x".to_string()]),
        env: Some(vec![("E".to_string(), "1".to_string())]),
        disabled: None,
        url: None,
        target: None,
        extra: None,
    }];

    let written = servers_to_copilot_format(&original);
    let root = Json::Obj(vec![("servers".to_string(), written)]);
    let parsed = parse_copilot_mcp_servers(&root).unwrap();
    assert_eq!(parsed, original);
}
