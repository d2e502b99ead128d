use std::collections::HashMap;

use indexmap::IndexMap;
use vault_sync::config::{
    default_max_retries, default_max_threads, expand_template, Config, ConfigError, SecretMapping,
    SelectError,
};

fn secret(id: &str, path: &str) -> SecretMapping {
    SecretMapping { name: String::new(), id: id.to_string(), path: path.to_string() }
}

fn config(entries: &[(&str, &str, &str)]) -> Config {
    let mut secrets = IndexMap::new();
    for (name, id, path) in entries {
        secrets.insert(name.to_string(), secret(id, path));
    }
    Config { max_threads: 3, max_retries: 3, secrets }
}

#[test]
fn expand_template_no_markers_returns_unchanged() {
    let env_vars = HashMap::new();
    let result = expand_template("plain/path/file.env", &env_vars).unwrap();
    assert_eq!(result, "plain/path/file.env");
}

#[test]
fn expand_template_substitutes_env_var() {
    let mut env_vars = HashMap::new();
    env_vars.insert("HOME".to_string(), "/home/user".to_string());
    let result = expand_template("{{ env.HOME }}/projects/.env", &env_vars).unwrap();
    assert_eq!(result, "/home/user/projects/.env");
}

#[test]
fn expand_template_substitutes_multiple_vars() {
    let mut env_vars = HashMap::new();
    env_vars.insert("HOME".to_string(), "/home/user".to_string());
    env_vars.insert("PROJECT".to_string(), "myapp".to_string());
    let result = expand_template("{{ env.HOME }}/{{ env.PROJECT }}/.env", &env_vars).unwrap();
    assert_eq!(result, "/home/user/myapp/.env");
}

#[test]
fn expand_template_missing_var_returns_empty() {
    let env_vars = HashMap::new();
    let result = expand_template("{{ env.MISSING }}/.env", &env_vars).unwrap();
    assert_eq!(result, "/.env");
}

#[test]
fn expand_template_mixed_literal_and_var() {
    let mut env_vars = HashMap::new();
    env_vars.insert("USER".to_string(), "alice".to_string());
    let result = expand_template("/home/{{ env.USER }}/config", &env_vars).unwrap();
    assert_eq!(result, "/home/alice/config");
}

#[test]
fn expand_template_block_syntax_without_markers_is_left_alone() {
    let env_vars = HashMap::new();
    let result = expand_template("{% if true %}x{% endif %}", &env_vars).unwrap();
    assert_eq!(result, "{% if true %}x{% endif %}");
}

#[test]
fn expand_template_syntax_error_fails() {
    let env_vars = HashMap::new();
    assert!(expand_template("{{ env. }}/.env", &env_vars).is_err());
}

#[test]
fn defaults_are_three() {
    assert_eq!(default_max_threads(), 3);
    assert_eq!(default_max_retries(), 3);
}

#[test]
fn load_names_secrets_after_their_keys_and_expands_paths() {
    let mut env_vars = HashMap::new();
    env_vars.insert("HOME".to_string(), "/home/user".to_string());
    let loaded = config(&[
        ("api", "id-1", "{{ env.HOME }}/api/.env"),
        ("web", "id-2", "web/.env"),
    ])
    .load(&env_vars)
    .unwrap();
    assert_eq!(loaded.max_threads, 3);
    assert_eq!(loaded.max_retries, 3);
    let list = loaded.secret_list();
    assert_eq!(list.len(), 2);
    assert_eq!(list[0].name, "api");
    assert_eq!(list[0].id, "id-1");
    assert_eq!(list[0].path, "/home/user/api/.env");
    assert_eq!(list[1].name, "web");
    assert_eq!(list[1].id, "id-2");
    assert_eq!(list[1].path, "web/.env");
}

#[test]
fn load_reports_the_first_secret_whose_template_fails() {
    let env_vars = HashMap::new();
    let result = config(&[
        ("ok", "id-1", "plain/.env"),
        ("bad", "id-2", "{{ env. }}"),
        ("worse", "id-3", "{{ }}"),
    ])
    .load(&env_vars);
    match result {
        Err(ConfigError::Template { name, path, .. }) => {
            assert_eq!(name, "bad");
            assert_eq!(path, "{{ env. }}");
        }
        Ok(_) => panic!("expected a template error"),
    }
}

#[test]
fn select_without_target_takes_all_in_order() {
    let c = config(&[("b", "id-b", "b/.env"), ("a", "id-a", "a/.env")]);
    let picked = c.select_secrets(None).unwrap();
    assert_eq!(picked.len(), 2);
    assert_eq!(picked[0].id, "id-b");
    assert_eq!(picked[1].id, "id-a");
}

#[test]
fn select_with_target_takes_that_secret() {
    let c = config(&[("b", "id-b", "b/.env"), ("a", "id-a", "a/.env")]);
    let picked = c.select_secrets(Some("a")).unwrap();
    assert_eq!(picked.len(), 1);
    assert_eq!(picked[0].id, "id-a");
    assert_eq!(picked[0].path, "a/.env");
}

#[test]
fn select_unknown_target_lists_available_names() {
    let c = config(&[("b", "id-b", "b/.env"), ("a", "id-a", "a/.env")]);
    match c.select_secrets(Some("zzz")) {
        Err(SelectError::SecretNotFound { name, available }) => {
            assert_eq!(name, "zzz");
            assert_eq!(available, vec!["b".to_string(), "a".to_string()]);
        }
        Ok(_) => panic!("expected an error"),
    }
}

#[test]
fn secret_names_in_order() {
    let c = config(&[("x", "1", "p"), ("y", "2", "q")]);
    assert_eq!(c.secret_names(), vec!["x".to_string(), "y".to_string()]);
}

#[test]
fn expand_templates_expands_every_path_in_place() {
    let mut env_vars = HashMap::new();
    env_vars.insert("P".to_string(), "x".to_string());
    let mut c = config(&[("a", "1", "{{ env.P }}/a"), ("b", "2", "b")]);
    c.expand_templates(&env_vars).unwrap();
    let list = c.secret_list();
    assert_eq!(list[0].path, "x/a");
    assert_eq!(list[0].name, "");
    assert_eq!(list[1].path, "b");
}
