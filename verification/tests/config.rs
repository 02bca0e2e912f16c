//! Configurations and how they are merged.

use tmux_mcp::policy::builtin::builtin_config;
use tmux_mcp::policy::config::{load_merged_config, merge, PolicyConfig, RuleConfig, RuleSource};
use tmux_mcp::policy::Decision;

fn text_of(table: &toml::Table, key: &str) -> Option<String> {
    table.get(key).and_then(|v| v.as_str()).map(|s| s.to_string())
}

fn order_of(table: &toml::Table) -> i32 {
    table.get("order").and_then(|v| v.as_integer()).map(|n| n as i32).unwrap_or(0)
}

fn tables(table: &toml::Table, key: &str) -> Vec<toml::Table> {
    match table.get(key).and_then(|v| v.as_array()) {
        Some(array) => array.iter().filter_map(|v| v.as_table().cloned()).collect(),
        None => Vec::new(),
    }
}

fn parse_config(text: &str) -> Result<PolicyConfig, String> {
    let table: toml::Table = text.parse().map_err(|e: toml::de::Error| e.to_string())?;
    let mut rules = Vec::new();
    for rule in tables(&table, "rules") {
        rules.push(RuleConfig {
            description: text_of(&rule, "description").ok_or("description")?,
            when: text_of(&rule, "when").ok_or("when")?,
            action: text_of(&rule, "action").ok_or("action")?,
            order: order_of(&rule),
            message: text_of(&rule, "message"),
            capture_cwd: text_of(&rule, "capture_cwd"),
        });
    }
    Ok(PolicyConfig {
        default: text_of(&table, "default"),
        rules,
        wrappers: Vec::new(),
        project_dirs: None,
    })
}

#[test]
fn builtin_toml_parses_successfully() {
    let config = builtin_config();
    assert!(!config.rules.is_empty());
    assert_eq!(config.default.as_deref(), Some("ask"));
}

#[test]
fn builtin_has_eval_deny_rule() {
    let config = builtin_config();
    let eval_rule = config.rules.iter().find(|r| r.description == "eval").unwrap();
    assert_eq!(eval_rule.action, "deny");
}

#[test]
fn builtin_has_safe_commands() {
    let config = builtin_config();
    let safe = config.rules.iter().find(|r| r.description == "file readers (in-project)").unwrap();
    assert_eq!(safe.action, "allow");
    assert!(safe.when.contains("cat"));
}

#[test]
fn empty_config_parses() {
    let config = parse_config("").unwrap();
    assert!(config.rules.is_empty());
    assert!(config.default.is_none());
}

#[test]
fn invalid_toml_returns_error() {
    assert!(parse_config("[[invalid").is_err());
}

#[test]
fn user_config_parses() {
    let toml = r#"
        default = "deny"
        [[rules]]
        description = "my tools"
        when = 'command.name == "cargo"'
        action = "allow"
    "#;
    let config = parse_config(toml).unwrap();
    assert_eq!(config.default.as_deref(), Some("deny"));
    assert_eq!(config.rules.len(), 1);
}

#[test]
fn user_config_with_order() {
    let toml = r#"
        [[rules]]
        description = "override eval"
        when = 'command.name == "eval"'
        action = "ask"
        order = -1
    "#;
    let config = parse_config(toml).unwrap();
    assert_eq!(config.rules[0].order, -1);
}

#[test]
fn builtin_default_is_ask() {
    let (default, _, _) = load_merged_config(None, None);
    assert_eq!(default, Decision::Ask);
}

#[test]
fn home_overrides_default() {
    let builtin = builtin_config();
    let home = parse_config("default = \"deny\"").unwrap();
    let (default, _, _) = merge(builtin, Some(home), None);
    assert_eq!(default, Decision::Deny);
}

#[test]
fn project_overrides_home_default() {
    let builtin = builtin_config();
    let home = parse_config("default = \"deny\"").unwrap();
    let project = parse_config("default = \"allow\"").unwrap();
    let (default, _, _) = merge(builtin, Some(home), Some(project));
    assert_eq!(default, Decision::Allow);
}

#[test]
fn negative_order_sorted_first() {
    let builtin = builtin_config();
    let home = parse_config(r#"
        [[rules]]
        description = "early rule"
        when = 'command.name == "test"'
        action = "allow"
        order = -1
    "#).unwrap();
    let (_, rules, _) = merge(builtin, Some(home), None);
    // The early rule should be before any order-0 rules
    let early_pos = rules.iter().position(|r| r.config.description == "early rule").unwrap();
    let first_order0 = rules.iter().position(|r| r.config.order == 0).unwrap();
    assert!(early_pos < first_order0, "order -1 rule should come before order 0 rules");
}

#[test]
fn positive_order_sorted_last() {
    let builtin = builtin_config();
    let home = parse_config(r#"
        [[rules]]
        description = "late rule"
        when = 'command.name == "test"'
        action = "allow"
        order = 1
    "#).unwrap();
    let (_, rules, _) = merge(builtin, Some(home), None);
    assert_eq!(rules.last().unwrap().config.description, "late rule");
}

#[test]
fn builtin_before_home_at_same_order() {
    let builtin = parse_config(r#"
        [[rules]]
        description = "builtin"
        when = 'command.name == "ls"'
        action = "allow"
    "#).unwrap();
    let home = parse_config(r#"
        [[rules]]
        description = "home"
        when = 'command.name == "ls"'
        action = "deny"
    "#).unwrap();
    let (_, rules, _) = merge(builtin, Some(home), None);
    assert_eq!(rules[0].source, RuleSource::Builtin);
    assert_eq!(rules[1].source, RuleSource::Home);
}

#[test]
fn home_before_project_at_same_order() {
    let builtin = parse_config("").unwrap();
    let home = parse_config(r#"
        [[rules]]
        description = "home"
        when = 'true'
        action = "allow"
    "#).unwrap();
    let project = parse_config(r#"
        [[rules]]
        description = "project"
        when = 'true'
        action = "deny"
    "#).unwrap();
    let (_, rules, _) = merge(builtin, Some(home), Some(project));
    assert_eq!(rules[0].config.description, "home");
    assert_eq!(rules[1].config.description, "project");
}

#[test]
fn file_order_preserved_within_source() {
    let builtin = parse_config(r#"
        [[rules]]
        description = "first"
        when = 'true'
        action = "allow"
        [[rules]]
        description = "second"
        when = 'true'
        action = "deny"
    "#).unwrap();
    let (_, rules, _) = merge(builtin, None, None);
    assert_eq!(rules[0].config.description, "first");
    assert_eq!(rules[1].config.description, "second");
}

#[test]
fn no_config_files_uses_builtin_only() {
    let (default, rules, _) = load_merged_config(None, None);
    assert_eq!(default, Decision::Ask);
    assert!(rules.iter().all(|r| r.source == RuleSource::Builtin));
}

#[test]
fn empty_config_file_uses_builtin() {
    let builtin = builtin_config();
    let empty = parse_config("").unwrap();
    let (_, rules, _) = merge(builtin, Some(empty), None);
    assert!(rules.iter().all(|r| r.source == RuleSource::Builtin));
}
