use ecce::config::{Agent, Config, McpServer, Profile, Task};

#[test]
fn test_config_default() {
    let config = Config::default();
    assert!(config.profiles.is_empty());
    assert!(config.active_profile.is_none());
    assert!(config.default_profile.is_none());
    assert!(config.agents.is_empty());
    assert!(config.tasks.is_empty());
}

#[test]
fn test_add_profile() {
    let mut config = Config::default();

    let profile = Profile {
        name: "test".to_string(),
        url: "https://api.test.com".to_string(),
        key: "test-key".to_string(),
        service: "primary".to_string(),
    };

    config.profiles.push(profile.clone());

    assert_eq!(config.profiles.len(), 1);
    assert_eq!(config.profiles[0].name, "test");
    assert_eq!(config.profiles[0].url, "https://api.test.com");
}

#[test]
fn test_delete_profile() {
    let mut config = Config::default();

    let profile = Profile {
        name: "test".to_string(),
        url: "https://api.test.com".to_string(),
        key: "test-key".to_string(),
        service: "primary".to_string(),
    };

    config.profiles.push(profile);
    assert_eq!(config.profiles.len(), 1);

    config.profiles.retain(|p| p.name != "test");
    assert_eq!(config.profiles.len(), 0);
}

#[test]
fn test_delete_active_profile_clears_active() {
    let mut config = Config::default();

    let profile = Profile {
        name: "test".to_string(),
        url: "https://api.test.com".to_string(),
        key: "test-key".to_string(),
        service: "primary".to_string(),
    };

    config.profiles.push(profile);
    config.active_profile = Some("test".to_string());

    let removed = config.delete_profile("test");
    assert!(removed);
    assert!(config.active_profile.is_none());
}

#[test]
fn test_get_active_profile() {
    let mut config = Config::default();

    let profile = Profile {
        name: "test".to_string(),
        url: "https://api.test.com".to_string(),
        key: "test-key".to_string(),
        service: "primary".to_string(),
    };

    config.profiles.push(profile);
    config.active_profile = Some("test".to_string());

    let active = config.get_active_profile();
    assert!(active.is_some());
    assert_eq!(active.unwrap().name, "test");
}

#[test]
fn test_add_agent() {
    let mut config = Config::default();

    let agent = Agent {
        name: "test-agent".to_string(),
        description: Some("Test agent".to_string()),
        system_prompt: "You are a test agent".to_string(),
        context_files: vec![],
        tools: Some(vec!["tool1".to_string()]),
        model: Some("sonnet".to_string()),
    };

    config.add_agent(agent);

    assert_eq!(config.agents.len(), 1);
    assert!(config.get_agent("test-agent").is_some());
}

#[test]
fn test_delete_agent() {
    let mut config = Config::default();

    let agent = Agent {
        name: "test-agent".to_string(),
        description: None,
        system_prompt: "Test".to_string(),
        context_files: vec![],
        tools: None,
        model: None,
    };

    config.add_agent(agent);
    assert_eq!(config.agents.len(), 1);

    let removed = config.delete_agent("test-agent");
    assert!(removed);
    assert_eq!(config.agents.len(), 0);
}

#[test]
fn test_get_agent() {
    let mut config = Config::default();

    let agent = Agent {
        name: "test-agent".to_string(),
        description: None,
        system_prompt: "Test".to_string(),
        context_files: vec![],
        tools: None,
        model: None,
    };

    config.add_agent(agent);

    let retrieved = config.get_agent("test-agent");
    assert!(retrieved.is_some());
    assert_eq!(retrieved.unwrap().name, "test-agent");
}

#[test]
fn test_add_task() {
    let mut config = Config::default();

    let task = Task { name: "test-task".to_string(), template: "Test template".to_string() };

    config.add_task(task);

    assert_eq!(config.tasks.len(), 1);
    assert!(config.get_task("test-task").is_some());
}

#[test]
fn test_delete_task() {
    let mut config = Config::default();

    let task = Task { name: "test-task".to_string(), template: "Test template".to_string() };

    config.add_task(task);
    assert_eq!(config.tasks.len(), 1);

    let removed = config.delete_task("test-task");
    assert!(removed);
    assert_eq!(config.tasks.len(), 0);
}

#[test]
fn test_get_task() {
    let mut config = Config::default();

    let task = Task { name: "test-task".to_string(), template: "Test template".to_string() };

    config.add_task(task);

    let retrieved = config.get_task("test-task");
    assert!(retrieved.is_some());
    assert_eq!(retrieved.unwrap().name, "test-task");
}

#[test]
fn test_set_default_agent() {
    let mut config = Config::default();

    let agent = Agent {
        name: "test-agent".to_string(),
        description: None,
        system_prompt: "Test".to_string(),
        context_files: vec![],
        tools: None,
        model: None,
    };

    config.add_agent(agent);

    if config.get_agent("test-agent").is_some() {
        config.default_agent = Some("test-agent".to_string());
    }

    assert_eq!(config.default_agent, Some("test-agent".to_string()));
}

#[test]
fn test_get_default_agent() {
    let mut config = Config::default();

    let agent = Agent {
        name: "test-agent".to_string(),
        description: None,
        system_prompt: "Test".to_string(),
        context_files: vec![],
        tools: None,
        model: None,
    };

    config.add_agent(agent);
    config.default_agent = Some("test-agent".to_string());

    let default = config.get_default_agent();
    assert!(default.is_some());
    assert_eq!(default.unwrap().name, "test-agent");
}

#[test]
fn test_get_claude_executable_default() {
    let config = Config::default();
    assert_eq!(config.get_claude_executable(), "agent");
}

#[test]
fn test_get_claude_executable_custom() {
    let mut config = Config::default();
    config.claude_executable = Some("/custom/path/generator".to_string());
    assert_eq!(config.get_claude_executable(), "/custom/path/generator");
}

#[test]
fn test_add_mcp_server() {
    let mut config = Config::default();

    let value: serde_json::Value =
        serde_json::from_str(r#"{"command": "node", "args": ["server.js"]}"#).unwrap();
    let server = McpServer { name: "test-server".to_string(), config: value };

    config.add_mcp_server(server);

    assert_eq!(config.mcp_servers.len(), 1);
    assert!(config.get_mcp_server("test-server").is_some());
}

#[test]
fn test_delete_mcp_server() {
    let mut config = Config::default();

    let value: serde_json::Value = serde_json::from_str(r#"{"command": "node"}"#).unwrap();
    let server = McpServer { name: "test-server".to_string(), config: value };

    config.add_mcp_server(server);
    assert_eq!(config.mcp_servers.len(), 1);

    let removed = config.delete_mcp_server("test-server");
    assert!(removed);
    assert_eq!(config.mcp_servers.len(), 0);
}

#[test]
fn test_get_mcp_server() {
    let mut config = Config::default();

    let value: serde_json::Value = serde_json::from_str(r#"{"command": "node"}"#).unwrap();
    let server = McpServer { name: "test-server".to_string(), config: value };

    config.add_mcp_server(server);

    let retrieved = config.get_mcp_server("test-server");
    assert!(retrieved.is_some());
    assert_eq!(retrieved.unwrap().name, "test-server");
}

#[test]
fn test_add_profile_replaces_same_name() {
    let mut config = Config::default();
    config.add_profile(Profile {
        name: "dup".to_string(),
        url: "https://one.example".to_string(),
        key: "k1".to_string(),
        service: "primary".to_string(),
    });
    config.add_profile(Profile {
        name: "dup".to_string(),
        url: "https://two.example".to_string(),
        key: "k2".to_string(),
        service: "primary".to_string(),
    });
    assert_eq!(config.profiles.len(), 1);
    assert_eq!(config.profiles[0].url, "https://two.example");
}

#[test]
fn test_delete_missing_profile_reports_false() {
    let mut config = Config::default();
    assert!(!config.delete_profile("absent"));
    assert!(!config.delete_agent("absent"));
    assert!(!config.delete_task("absent"));
    assert!(!config.delete_mcp_server("absent"));
}

#[test]
fn test_set_default_profile_requires_existence() {
    let mut config = Config::default();
    assert!(!config.set_default_profile("missing"));
    config.add_profile(Profile {
        name: "here".to_string(),
        url: "https://api.example".to_string(),
        key: "k".to_string(),
        service: "primary".to_string(),
    });
    assert!(config.set_default_profile("here"));
    assert_eq!(config.default_profile, Some("here".to_string()));
    config.clear_default_profile();
    assert!(config.default_profile.is_none());
}

#[test]
fn test_switch_profile() {
    let mut config = Config::default();
    config.add_profile(Profile {
        name: "a".to_string(),
        url: "https://a.example".to_string(),
        key: "ka".to_string(),
        service: "primary".to_string(),
    });
    let switched = config.switch_profile("a");
    assert!(switched.is_some());
    assert_eq!(switched.unwrap().name, "a");
    assert_eq!(config.active_profile, Some("a".to_string()));
    assert!(config.switch_profile("missing").is_none());
}
