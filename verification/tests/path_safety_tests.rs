use mcp_sync::path_safety::{
    get_blocked_directories, get_path_safety_level, get_safe_directories, PathSafetyLevel,
    Platform,
};

fn platform_here() -> Platform {
    Platform::Linux
}

fn lists_here() -> Option<(Vec<String>, Vec<String>)> {
    let home = dirs::home_dir()?.to_string_lossy().to_string();
    let config = dirs::config_dir().map(|p| p.to_string_lossy().to_string());
    let data = dirs::data_dir().map(|p| p.to_string_lossy().to_string());
    let platform = platform_here();
    let blocked = get_blocked_directories(platform);
    let safe = get_safe_directories(platform, &home, config.as_ref(), data.as_ref());
    Some((blocked, safe))
}

#[test]
fn test_home_config_is_safe() {
    if let Some(home) = dirs::home_dir() {
        let config_path = home.join(".config/some-tool/config.json");
        let (blocked, safe) = lists_here().unwrap();
        assert_eq!(
            get_path_safety_level(&config_path.to_string_lossy(), &blocked, &safe),
            PathSafetyLevel::Safe
        );
    }
}

#[test]
fn test_known_tool_dir_is_safe() {
    if let Some(home) = dirs::home_dir() {
        let (blocked, safe) = lists_here().unwrap();
        let agent_path = home.join(".agent/config.json");
        assert_eq!(
            get_path_safety_level(&agent_path.to_string_lossy(), &blocked, &safe),
            PathSafetyLevel::Safe
        );

        let amp_path = home.join(".amp/settings.json");
        assert_eq!(
            get_path_safety_level(&amp_path.to_string_lossy(), &blocked, &safe),
            PathSafetyLevel::Safe
        );
    }
}

#[test]
fn test_system_dir_is_blocked() {
    let (blocked, safe) = lists_here().unwrap();
    let level = get_path_safety_level("/etc/some-config", &blocked, &safe);
    assert!(
        level == PathSafetyLevel::Block || level == PathSafetyLevel::Warn,
        "Expected /etc to be Block or Warn, got {:?}",
        level
    );

    let level = get_path_safety_level("/usr/bin/something", &blocked, &safe);
    assert!(
        level == PathSafetyLevel::Block || level == PathSafetyLevel::Warn,
        "Expected /usr/bin to be Block or Warn, got {:?}",
        level
    );
}

#[test]
fn test_unusual_path_warns() {
    let (blocked, safe) = lists_here().unwrap();
    let level = get_path_safety_level("/tmp/some-random-dir/config.json", &blocked, &safe);
    assert!(level == PathSafetyLevel::Warn || level == PathSafetyLevel::Block);
}

#[test]
fn test_is_safe_path() {
    if let Some(home) = dirs::home_dir() {
        let (blocked, safe) = lists_here().unwrap();
        let safe_path = home.join(".config/test.json");
        assert_eq!(
            get_path_safety_level(&safe_path.to_string_lossy(), &blocked, &safe),
            PathSafetyLevel::Safe
        );

        assert_eq!(
            get_path_safety_level("/etc/passwd", &blocked, &safe),
            PathSafetyLevel::Block
        );
    }
}

#[test]
fn test_block_wins_over_safe() {
    let blocked = vec!["/etc".to_string()];
    let safe = vec!["/etc/app".to_string()];
    assert_eq!(
        get_path_safety_level("/etc/app/config.json", &blocked, &safe),
        PathSafetyLevel::Block
    );
}

#[test]
fn test_component_boundary_respected() {
    let blocked = vec!["/etc".to_string()];
    let safe: Vec<String> = vec![];
    assert_eq!(
        get_path_safety_level("/etcetera/file", &blocked, &safe),
        PathSafetyLevel::Warn
    );
    assert_eq!(
        get_path_safety_level("/etc", &blocked, &safe),
        PathSafetyLevel::Block
    );
}
