use ecce::config::{Agent, Config, McpServer, Profile, Task};
use ecce::pattern::{PatternDetector, PatternType};

#[test]
fn test_pattern_detection_workflow() {
    let detector = PatternDetector::new();

    let text = r#"
# Document Title

Some introduction text.

ecce What is the capital of France? ecce

More content here.

```ecce
Explain quantum computing in simple terms
```

Final paragraph.
"#;

    let patterns = detector.detect_patterns(text);

    assert_eq!(patterns.len(), 2);
    assert_eq!(patterns[0].content, "What is the capital of France?");
    assert_eq!(patterns[0].pattern_type, PatternType::Inline);
    assert_eq!(patterns[1].content, "Explain quantum computing in simple terms");
    assert_eq!(patterns[1].pattern_type, PatternType::CodeBlock);
}

#[test]
fn test_pattern_deduplication() {
    let mut detector = PatternDetector::new();

    let text1 = "ecce What is AI? ecce";
    let text2 = "ecce What is AI? ecce";

    let patterns1 = detector.detect_patterns(text1);
    assert_eq!(patterns1.len(), 1);

    detector.mark_processed(&patterns1[0].content);

    let patterns2 = detector.detect_patterns(text2);
    assert_eq!(patterns2.len(), 0);
}

#[test]
fn test_config_with_multiple_entities() {
    let mut config = Config::default();

    config.profiles.push(Profile {
        name: "profile1".to_string(),
        url: "https://api1.com".to_string(),
        key: "key1".to_string(),
        service: "primary".to_string(),
    });

    config.profiles.push(Profile {
        name: "profile2".to_string(),
        url: "https://api2.com".to_string(),
        key: "key2".to_string(),
        service: "primary".to_string(),
    });

    config.add_agent(Agent {
        name: "agent1".to_string(),
        description: None,
        system_prompt: "Agent 1 prompt".to_string(),
        context_files: vec![],
        tools: None,
        model: None,
    });

    config.add_task(Task { name: "task1".to_string(), template: "Task 1 template".to_string() });

    let value: serde_json::Value = serde_json::from_str(r#"{"command": "node"}"#).unwrap();
    config.add_mcp_server(McpServer { name: "server1".to_string(), config: value });

    assert_eq!(config.profiles.len(), 2);
    assert_eq!(config.agents.len(), 1);
    assert_eq!(config.tasks.len(), 1);
    assert_eq!(config.mcp_servers.len(), 1);

    assert!(config.get_agent("agent1").is_some());
    assert!(config.get_task("task1").is_some());
    assert!(config.get_mcp_server("server1").is_some());
}

#[test]
fn test_profile_switching() {
    let mut config = Config::default();

    config.profiles.push(Profile {
        name: "dev".to_string(),
        url: "https://dev.api.com".to_string(),
        key: "dev-key".to_string(),
        service: "primary".to_string(),
    });

    config.profiles.push(Profile {
        name: "prod".to_string(),
        url: "https://prod.api.com".to_string(),
        key: "prod-key".to_string(),
        service: "primary".to_string(),
    });

    config.active_profile = Some("dev".to_string());
    assert_eq!(config.get_active_profile().unwrap().name, "dev");

    config.active_profile = Some("prod".to_string());
    assert_eq!(config.get_active_profile().unwrap().name, "prod");
}

#[test]
fn test_agent_with_context_files() {
    let agent = Agent {
        name: "context-agent".to_string(),
        description: Some("Agent with context".to_string()),
        system_prompt: "You have context files".to_string(),
        context_files: vec![
            "/path/to/context1.txt".to_string(),
            "/path/to/context2.md".to_string(),
        ],
        tools: Some(vec!["Read".to_string()]),
        model: Some("opus".to_string()),
    };

    assert_eq!(agent.context_files.len(), 2);
    assert!(agent.context_files.contains(&"/path/to/context1.txt".to_string()));
}

#[test]
fn test_pattern_hash_consistency() {
    let mut detector1 = PatternDetector::new();
    let mut detector2 = PatternDetector::new();

    let content = "test pattern content";

    detector1.mark_processed(content);

    detector2.mark_processed(content);

    assert!(detector1.is_processed(content));
    assert!(detector2.is_processed(content));
}

#[test]
fn test_config_default_values() {
    let config = Config::default();

    assert!(config.profiles.is_empty());
    assert!(config.active_profile.is_none());
    assert!(config.default_profile.is_none());
    assert!(config.agents.is_empty());
    assert!(config.tasks.is_empty());
    assert!(config.default_agent.is_none());
    assert!(config.claude_executable.is_none());
    assert!(config.mcp_servers.is_empty());
}

#[test]
fn test_mcp_server_json_config() {
    let value: serde_json::Value = serde_json::from_str(
        r#"{
            "command": "bun",
            "args": ["run", "server.ts"],
            "env": {
                "API_KEY": "secret"
            }
        }"#,
    )
    .unwrap();
    let server = McpServer { name: "test-mcp".to_string(), config: value };

    assert_eq!(server.name, "test-mcp");
    assert_eq!(server.config["command"], "bun");
    assert!(server.config["args"].is_array());
    assert_eq!(server.config["env"]["API_KEY"], "secret");
}
