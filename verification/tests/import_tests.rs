use mcp_sync::detect::{parse_mcp_config_from_content, DetectedFormat};
use mcp_sync::types::McpError;

fn env_value<'a>(env: &'a [(String, String)], key: &str) -> Option<&'a String> {
    env.iter().find(|(k, _)| k == key).map(|(_, v)| v)
}

#[test]
fn test_parse_standard_format() {
    let json = r#"{
        "mcpServers": {
            "filesystem": {
                "command": "npx",
                "args": ["-y", "@anthropic/mcp-filesystem-server"]
            }
        }
    }"#;

    let (servers, format) = parse_mcp_config_from_content(json).unwrap();
    assert_eq!(format, DetectedFormat::Standard);
    assert_eq!(servers.len(), 1);
    assert_eq!(servers[0].name, "filesystem");
    assert_eq!(servers[0].command, "npx");
}

#[test]
fn test_parse_amp_format() {
    let json = r#"{
        "amp.mcpServers": {
            "my-server": {
                "command": "amp-mcp",
                "args": ["--port", "3000"]
            }
        }
    }"#;

    let (servers, format) = parse_mcp_config_from_content(json).unwrap();
    assert_eq!(format, DetectedFormat::Amp);
    assert_eq!(servers.len(), 1);
    assert_eq!(servers[0].name, "my-server");
}

#[test]
fn import_test_parse_copilot_format() {
    let json = r#"{
        "servers": {
            "copilot-server": {
                "command": "copilot-mcp",
                "args": ["serve"]
            }
        }
    }"#;

    let (servers, format) = parse_mcp_config_from_content(json).unwrap();
    assert_eq!(format, DetectedFormat::Copilot);
    assert_eq!(servers.len(), 1);
    assert_eq!(servers[0].name, "copilot-server");
}

#[test]
fn import_test_parse_opencode_format() {
    let json = r#"{
        "mcp": {
            "servers": {
                "opencode-server": {
                    "command": "opencode-mcp"
                }
            }
        }
    }"#;

    let (servers, format) = parse_mcp_config_from_content(json).unwrap();
    assert_eq!(format, DetectedFormat::Opencode);
    assert_eq!(servers.len(), 1);
    assert_eq!(servers[0].name, "opencode-server");
}

#[test]
fn test_parse_invalid_json() {
    let json = "not valid json";
    let result = parse_mcp_config_from_content(json);
    assert!(result.is_err());
}

#[test]
fn test_parse_no_mcp_config() {
    let json = r#"{"someOtherKey": "value"}"#;
    let result = parse_mcp_config_from_content(json);
    assert!(result.is_err());
    match result.unwrap_err() {
        McpError::InvalidFormat(msg) => {
            assert!(msg.contains("No recognized MCP config format found"));
        }
        other => panic!("unexpected error: {:?}", other),
    }
}

#[test]
fn test_parse_empty_servers() {
    let json = r#"{"mcpServers": {}}"#;
    let result = parse_mcp_config_from_content(json);
    assert!(result.is_err());
}

#[test]
fn test_parse_with_env() {
    let json = r#"{
        "mcpServers": {
            "test-server": {
                "command": "test-cmd",
                "env": {
                    "API_KEY": "secret",
                    "DEBUG": "true"
                }
            }
        }
    }"#;

    let (servers, _) = parse_mcp_config_from_content(json).unwrap();
    assert_eq!(servers.len(), 1);
    let env = servers[0].env.as_ref().unwrap();
    assert_eq!(env_value(env, "API_KEY"), Some(&"secret".to_string()));
    assert_eq!(env_value(env, "DEBUG"), Some(&"true".to_string()));
}

#[test]
fn test_parse_env_with_non_string_values() {
    let json = r#"{
        "servers": {
            "test-server": {
                "command": "test-cmd",
                "env": {
                    "PORT": 3000,
                    "DEBUG": true,
                    "TIMEOUT": 30.5,
                    "NAME": "test"
                }
            }
        }
    }"#;

    let (servers, format) = parse_mcp_config_from_content(json).unwrap();
    assert_eq!(format, DetectedFormat::Copilot);
    assert_eq!(servers.len(), 1);
    let env = servers[0].env.as_ref().unwrap();
    assert_eq!(env_value(env, "PORT"), Some(&"3000".to_string()));
    assert_eq!(env_value(env, "DEBUG"), Some(&"true".to_string()));
    assert_eq!(env_value(env, "TIMEOUT"), Some(&"30.5".to_string()));
    assert_eq!(env_value(env, "NAME"), Some(&"test".to_string()));
}

#[test]
fn test_parse_multiple_servers() {
    let json = r#"{
        "mcpServers": {
            "server1": {"command": "cmd1"},
            "server2": {"command": "cmd2"},
            "server3": {"command": "cmd3"}
        }
    }"#;

    let (servers, _) = parse_mcp_config_from_content(json).unwrap();
    assert_eq!(servers.len(), 3);
}

#[test]
fn test_parse_with_url_sse() {
    let json = r#"{
        "servers": {
            "remote-mcp": {
                "url": "http://localhost:3000/sse"
            }
        }
    }"#;

    let (servers, format) = parse_mcp_config_from_content(json).unwrap();
    assert_eq!(format, DetectedFormat::Copilot);
    assert_eq!(servers.len(), 1);
    assert_eq!(servers[0].url, Some("http://localhost:3000/sse".to_string()));
    assert_eq!(servers[0].command, "");
}

#[test]
fn test_parse_opencode_with_url() {
    let json = r#"{
        "mcp": {
            "servers": {
                "sse-server": {
                    "url": "https://api.example.com/mcp"
                }
            }
        }
    }"#;

    let (servers, format) = parse_mcp_config_from_content(json).unwrap();
    assert_eq!(format, DetectedFormat::Opencode);
    assert_eq!(servers.len(), 1);
    assert_eq!(servers[0].url, Some("https://api.example.com/mcp".to_string()));
}

#[test]
fn test_detector_precedence_amp_over_standard() {
    let json = r#"{
        "amp.mcpServers": {"a": {"command": "x"}},
        "mcpServers": {"b": {"command": "y"}}
    }"#;
    let (servers, format) = parse_mcp_config_from_content(json).unwrap();
    assert_eq!(format, DetectedFormat::Amp);
    assert_eq!(servers.len(), 1);
    assert_eq!(servers[0].name, "a");
}
