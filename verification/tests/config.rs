use forja_core::{
    load_config, load_flow_config, ConfigFile, FlowConfig, ForjaError, LoadOutcome, RawConfig,
    RawFlowConfig, RawGitAliases, RawGitConfig, Strategy, TomlValue, DEFAULT_TEMPLATE,
};

/// A TOML value as the validation reads it.
fn value(v: &toml::Value) -> TomlValue {
    match v {
        toml::Value::String(s) => TomlValue::String(s.clone()),
        toml::Value::Boolean(b) => TomlValue::Boolean(*b),
        toml::Value::Array(items) => TomlValue::Array(items.iter().map(value).collect()),
        _ => TomlValue::Other,
    }
}

fn field(t: &toml::Table, key: &str) -> Option<TomlValue> {
    t.get(key).map(value)
}

fn extra(t: &toml::Table, known: &[&str]) -> Vec<String> {
    t.keys().filter(|k| !known.contains(&k.as_str())).cloned().collect()
}

fn table<'a>(t: &'a toml::Table, key: &str) -> Result<Option<&'a toml::Table>, String> {
    match t.get(key) {
        None => Ok(None),
        Some(toml::Value::Table(inner)) => Ok(Some(inner)),
        Some(_) => Err(format!("invalid type for `{key}`, expected a table")),
    }
}

/// Reads `contents` the way the config file is read: TOML first, then the
/// schema's shape.
fn parse(contents: &str) -> ConfigFile {
    let root: toml::Table = match toml::from_str(contents) {
        Ok(t) => t,
        Err(e) => return ConfigFile::Malformed { message: e.to_string() },
    };
    let git = match table(&root, "git") {
        Err(message) => return ConfigFile::Malformed { message },
        Ok(None) => None,
        Ok(Some(g)) => {
            let aliases = match table(g, "aliases") {
                Err(message) => return ConfigFile::Malformed { message },
                Ok(None) => None,
                Ok(Some(a)) => Some(RawGitAliases {
                    entries: a.iter().map(|(k, v)| (k.clone(), value(v))).collect(),
                }),
            };
            Some(RawGitConfig {
                user_name: field(g, "user_name"),
                user_email: field(g, "user_email"),
                default_branch: field(g, "default_branch"),
                editor: field(g, "editor"),
                pull_rebase: field(g, "pull_rebase"),
                aliases,
                extra: extra(
                    g,
                    &["user_name", "user_email", "default_branch", "editor", "pull_rebase", "aliases"],
                ),
            })
        }
    };
    let flow = match table(&root, "flow") {
        Err(message) => return ConfigFile::Malformed { message },
        Ok(None) => None,
        Ok(Some(f)) => Some(RawFlowConfig {
            base_branch: field(f, "base_branch"),
            strategy: field(f, "strategy"),
            auto_push: field(f, "auto_push"),
            protected_branches: field(f, "protected_branches"),
            extra: extra(f, &["base_branch", "strategy", "auto_push", "protected_branches"]),
        }),
    };
    ConfigFile::Parsed(RawConfig {
        version: field(&root, "version"),
        git,
        flow,
        extra: extra(&root, &["version", "git", "flow"]),
    })
}

fn load(contents: &str) -> Result<LoadOutcome, ForjaError> {
    load_config("forja.toml", parse(contents))
}

#[test]
fn missing_file_is_config_not_found() {
    let err = load_config("/nonexistent/forja.toml", ConfigFile::Missing).unwrap_err();
    assert!(matches!(err, ForjaError::ConfigNotFound { .. }));
    assert_eq!(err.exit_code(), 2);
}

#[test]
fn malformed_toml_is_reported() {
    let err = load("this is not [ valid toml").unwrap_err();
    assert!(matches!(err, ForjaError::TomlParse { .. }));
}

#[test]
fn missing_version_is_a_validation_error() {
    let err = load("[git]\nuser_name = \"a\"\nuser_email = \"a@b.com\"\n").unwrap_err();
    let ForjaError::Validation { errors, .. } = err else {
        panic!("expected a validation error, got {err:?}");
    };
    assert!(errors.0.iter().any(|e| e.field == "version"));
}

#[test]
fn wrong_version_is_a_validation_error() {
    let err = load("version = \"2\"\n").unwrap_err();
    let ForjaError::Validation { errors, .. } = err else {
        panic!("expected a validation error, got {err:?}");
    };
    assert!(errors.0.iter().any(|e| e.field == "version"));
}

#[test]
fn git_without_user_email_reports_missing_field() {
    let err = load("version = \"1\"\n[git]\nuser_name = \"Ada\"\n").unwrap_err();
    let ForjaError::Validation { errors, .. } = err else {
        panic!("expected a validation error, got {err:?}");
    };
    assert!(errors.0.iter().any(|e| e.field == "git.user_email"));
}

#[test]
fn user_email_without_at_sign_is_rejected() {
    let err = load("version = \"1\"\n[git]\nuser_name = \"Ada\"\nuser_email = \"not-an-email\"\n")
        .unwrap_err();
    let ForjaError::Validation { errors, .. } = err else {
        panic!("expected a validation error, got {err:?}");
    };
    assert!(errors.0.iter().any(|e| e.field == "git.user_email"));
}

#[test]
fn all_errors_are_reported_together_not_fail_fast() {
    let err = load("[git]\nuser_name = \"\"\n").unwrap_err();
    let ForjaError::Validation { errors, .. } = err else {
        panic!("expected a validation error, got {err:?}");
    };
    assert_eq!(errors.0.len(), 3);
}

#[test]
fn unknown_root_key_is_a_warning_not_an_error() {
    let outcome = load("version = \"1\"\nfrobnicate = true\n").expect("should load despite unknown key");
    assert!(outcome.warnings.iter().any(|w| w.contains("frobnicate")));
}

#[test]
fn invalid_alias_name_is_rejected() {
    let err = load("version = \"1\"\n[git.aliases]\n\"bad name\" = \"status\"\n").unwrap_err();
    let ForjaError::Validation { errors, .. } = err else {
        panic!("expected a validation error, got {err:?}");
    };
    assert!(errors.0.iter().any(|e| e.field.contains("aliases")));
}

#[test]
fn minimal_config_with_only_version_uses_defaults() {
    let outcome = load("version = \"1\"\n").expect("minimal config should be valid");
    assert_eq!(outcome.config.version, "1");
    assert!(outcome.config.git.is_none());
    assert_eq!(outcome.config.flow, FlowConfig::default());
    assert!(outcome.warnings.is_empty());
}

#[test]
fn full_example_from_prd_loads_cleanly() {
    let toml = r#"
version = "1"

[git]
user_name      = "Fulano de Tal"
user_email     = "fulano@example.com"
default_branch = "main"
editor         = "nvim"
pull_rebase    = true

[git.aliases]
st   = "status -sb"
lg   = "log --oneline --graph --decorate --all"
undo = "reset --soft HEAD~1"

[flow]
strategy            = "rebase"
auto_push           = true
protected_branches  = ["main", "develop"]
"#;
    let outcome = load(toml).expect("PRD example config must be valid");
    assert!(outcome.warnings.is_empty());

    let git = outcome.config.git.expect("git section expected");
    assert_eq!(git.user_name, "Fulano de Tal");
    assert_eq!(git.user_email, "fulano@example.com");
    assert!(git
        .aliases
        .contains(&("st".to_string(), "status -sb".to_string())));

    assert_eq!(outcome.config.flow.strategy, Strategy::Rebase);
    assert_eq!(
        outcome.config.flow.protected_branches,
        vec!["main".to_string(), "develop".to_string()]
    );
}

#[test]
fn template_alone_loads_with_only_version_set() {
    let outcome = load(DEFAULT_TEMPLATE)
        .expect("template must be valid TOML with no required fields missing");
    assert_eq!(outcome.config.version, "1");
    assert!(outcome.config.git.is_none());
    assert!(outcome.warnings.is_empty());
}

#[test]
fn template_with_git_section_uncommented_is_valid() {
    let filled = DEFAULT_TEMPLATE
        .lines()
        .map(|line| {
            if line.starts_with("# [git]") || line.starts_with("# user_name") || line.starts_with("# user_email") {
                line.trim_start_matches("# ").to_string()
            } else {
                line.to_string()
            }
        })
        .collect::<Vec<_>>()
        .join("\n");

    let outcome = load(&filled).expect("filled-in template must be valid");
    let git = outcome.config.git.expect("git section should be present");
    assert_eq!(git.user_name, "Your Name");
    assert_eq!(git.user_email, "you@example.com");
}

// Further cases.

#[test]
fn every_problem_has_its_exact_field_and_message() {
    let err = load(
        "version = 1\n[git]\nuser_name = 3\nuser_email = \"\"\neditor = \"\"\npull_rebase = \"yes\"\n[flow]\nstrategy = \"squash\"\nauto_push = 1\nprotected_branches = [\"main\", \"\", 4]\n",
    )
    .unwrap_err();
    let ForjaError::Validation { path, errors } = err else {
        panic!("expected a validation error");
    };
    assert_eq!(path, "forja.toml");
    let got: Vec<(String, String)> = errors.0.iter().map(|e| (e.field.clone(), e.message.clone())).collect();
    let want: Vec<(&str, &str)> = vec![
        ("version", "must be a string, e.g. \"1\""),
        ("git.user_name", "must be a string"),
        ("git.user_email", "must not be empty"),
        ("git.editor", "must not be empty if present"),
        ("git.pull_rebase", "must be a boolean"),
        ("flow.strategy", "must be \"rebase\" or \"merge\", found \"squash\""),
        ("flow.auto_push", "must be a boolean"),
        ("flow.protected_branches[1]", "must be a non-empty string"),
        ("flow.protected_branches[2]", "must be a non-empty string"),
    ];
    let want: Vec<(String, String)> = want.into_iter().map(|(a, b)| (a.to_string(), b.to_string())).collect();
    assert_eq!(got, want);
}

#[test]
fn version_messages_name_the_expected_value() {
    let err = load("").unwrap_err();
    let ForjaError::Validation { errors, .. } = err else { panic!() };
    assert_eq!(errors.0[0].message, "is required — add `version = \"1\"` at the top of the file");
    let err = load("version = \"2\"\n").unwrap_err();
    let ForjaError::Validation { errors, .. } = err else { panic!() };
    assert_eq!(errors.0[0].message, "must be \"1\", found \"2\"");
}

#[test]
fn unknown_keys_in_every_table_warn_in_order() {
    let outcome = load(
        "version = \"1\"\nzzz = 1\naaa = 2\n[git]\nuser_name = \"A\"\nuser_email = \"a@b\"\ncolor = true\n[flow]\nnope = 1\n[github]\nx = 1\n",
    )
    .unwrap();
    assert_eq!(
        outcome.warnings,
        vec![
            "unknown config key \"aaa\" is ignored (it may belong to a newer forja schema)".to_string(),
            "unknown config key \"github\" is ignored (it may belong to a newer forja schema)".to_string(),
            "unknown config key \"zzz\" is ignored (it may belong to a newer forja schema)".to_string(),
            "unknown config key \"git.color\" is ignored (it may belong to a newer forja schema)".to_string(),
            "unknown config key \"flow.nope\" is ignored (it may belong to a newer forja schema)".to_string(),
        ]
    );
}

#[test]
fn aliases_come_out_sorted_and_bad_ones_are_reported() {
    let raw = RawConfig {
        version: Some(TomlValue::String("1".to_string())),
        git: Some(RawGitConfig {
            user_name: Some(TomlValue::String("Ada".to_string())),
            user_email: Some(TomlValue::String("ada@x".to_string())),
            default_branch: None,
            editor: None,
            pull_rebase: None,
            aliases: Some(RawGitAliases {
                entries: vec![
                    ("st".to_string(), TomlValue::String("status".to_string())),
                    ("co".to_string(), TomlValue::String("checkout".to_string())),
                    ("st".to_string(), TomlValue::String("status -sb".to_string())),
                    ("Z-9_".to_string(), TomlValue::String("log".to_string())),
                ],
            }),
            extra: Vec::new(),
        }),
        flow: None,
        extra: Vec::new(),
    };
    let outcome = load_config("f", ConfigFile::Parsed(raw)).unwrap();
    let git = outcome.config.git.unwrap();
    assert_eq!(git.default_branch, "main");
    assert_eq!(
        git.aliases,
        vec![
            ("Z-9_".to_string(), "log".to_string()),
            ("co".to_string(), "checkout".to_string()),
            ("st".to_string(), "status -sb".to_string()),
        ]
    );

    let err = load("version = \"1\"\n[git.aliases]\n\"x.y\" = \"a\"\nok = \"\"\nnum = 3\n").unwrap_err();
    let ForjaError::Validation { errors, .. } = err else { panic!() };
    let got: Vec<(String, String)> = errors.0.iter().map(|e| (e.field.clone(), e.message.clone())).collect();
    assert_eq!(
        got,
        vec![
            ("git.user_name".to_string(), "is required".to_string()),
            ("git.user_email".to_string(), "is required".to_string()),
            ("git.aliases.num".to_string(), "alias value must be a string".to_string()),
            ("git.aliases.ok".to_string(), "alias value must not be empty".to_string()),
            (
                "git.aliases.x.y".to_string(),
                "alias name \"x.y\" must match ^[a-zA-Z0-9_-]+$".to_string()
            ),
        ]
    );
}

#[test]
fn unicode_alias_name_is_rejected() {
    let err = load("version = \"1\"\n[git.aliases]\n\"é\" = \"status\"\n").unwrap_err();
    assert!(matches!(err, ForjaError::Validation { .. }));
}

#[test]
fn flow_settings_are_read() {
    let outcome = load(
        "version = \"1\"\n[flow]\nbase_branch = \"trunk\"\nstrategy = \"merge\"\nauto_push = false\nprotected_branches = []\n",
    )
    .unwrap();
    let flow = outcome.config.flow;
    assert_eq!(flow.base_branch, Some("trunk".to_string()));
    assert_eq!(flow.strategy, Strategy::Merge);
    assert!(!flow.auto_push);
    assert!(flow.protected_branches.is_empty());
}

#[test]
fn protected_branches_not_an_array_is_reported() {
    let err = load("version = \"1\"\n[flow]\nprotected_branches = \"main\"\n").unwrap_err();
    let ForjaError::Validation { errors, .. } = err else { panic!() };
    assert_eq!(errors.0[0].field, "flow.protected_branches");
    assert_eq!(errors.0[0].message, "must be an array of strings");
}

#[test]
fn flow_config_tolerates_a_missing_file_but_not_a_broken_one() {
    let (flow, warnings) = load_flow_config("forja.toml", ConfigFile::Missing).unwrap();
    assert_eq!(flow, FlowConfig::default());
    assert_eq!(flow.protected_branches, vec!["main".to_string(), "master".to_string()]);
    assert!(warnings.is_empty());

    let err = load_flow_config("forja.toml", parse("[git]\nuser_name = \"\"\n")).unwrap_err();
    assert_eq!(err.exit_code(), 2);

    let err = load_flow_config("p", ConfigFile::Unreadable { message: "denied".to_string() }).unwrap_err();
    assert_eq!(err, ForjaError::Io { path: "p".to_string(), message: "denied".to_string() });

    let (flow, warnings) = load_flow_config("p", parse("version = \"1\"\nx = 1\n[flow]\nauto_push = false\n")).unwrap();
    assert!(!flow.auto_push);
    assert_eq!(warnings.len(), 1);
}

#[test]
fn validation_message_lists_every_problem() {
    let err = load("[git]\nuser_name = \"\"\n").unwrap_err();
    assert_eq!(
        err.message(),
        "config file forja.toml has 3 problem(s) found:\n  - version: is required — add `version = \"1\"` at the top of the file\n  - git.user_name: must not be empty\n  - git.user_email: is required"
    );
}
