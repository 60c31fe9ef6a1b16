use ecce::agent_file::{parse_agent_markdown, render_agent_markdown, AgentFileError};
use ecce::config::Agent;

#[test]
fn test_import_agent_from_file() {
    let content = r#"---
name: test-agent
description: A test agent
tools: Read, Write, Grep
model: sonnet
---

You are a helpful test agent."#;

    let agent = parse_agent_markdown(content).unwrap();

    assert_eq!(agent.name, "test-agent");
    assert_eq!(agent.description, Some("A test agent".to_string()));
    assert_eq!(agent.system_prompt, "You are a helpful test agent.");
    assert_eq!(
        agent.tools,
        Some(vec!["Read".to_string(), "Write".to_string(), "Grep".to_string()])
    );
    assert_eq!(agent.model, Some("sonnet".to_string()));
}

#[test]
fn test_import_agent_invalid_format() {
    let content = "This is not a valid agent file";
    let result = parse_agent_markdown(content);
    assert!(result.is_err());
    assert_eq!(result.unwrap_err(), AgentFileError::MissingFrontmatter);
}

#[test]
fn test_import_agent_missing_name() {
    let content = r#"---
description: An agent without a name
---

System prompt here"#;

    let result = parse_agent_markdown(content);
    assert!(result.is_err());
    assert_eq!(result.unwrap_err(), AgentFileError::MissingName);
}

#[test]
fn test_agent_export_import_roundtrip() {
    let agent = Agent {
        name: "test-agent".to_string(),
        description: Some("A test agent for integration testing".to_string()),
        system_prompt: "You are a helpful test agent.\nYou help with testing.".to_string(),
        context_files: vec![],
        tools: Some(vec!["Read".to_string(), "Write".to_string()]),
        model: Some("sonnet".to_string()),
    };

    let content = render_agent_markdown(&agent);

    let imported_agent = parse_agent_markdown(&content).unwrap();

    assert_eq!(imported_agent.name, agent.name);
    assert_eq!(imported_agent.description, agent.description);
    assert_eq!(imported_agent.system_prompt, agent.system_prompt);
    assert_eq!(imported_agent.tools, agent.tools);
    assert_eq!(imported_agent.model, agent.model);
}

#[test]
fn test_render_agent_exact_format() {
    let agent = Agent {
        name: "n".to_string(),
        description: None,
        system_prompt: "prompt body".to_string(),
        context_files: vec![],
        tools: None,
        model: None,
    };
    let content = render_agent_markdown(&agent);
    assert_eq!(content, "---\nname: n\n---\n\nprompt body\n");
}

#[test]
fn test_later_frontmatter_lines_override() {
    let content = "---\nname: first\nname: second\n---\nbody";
    let agent = parse_agent_markdown(content).unwrap();
    assert_eq!(agent.name, "second");
    assert_eq!(agent.system_prompt, "body");
}
