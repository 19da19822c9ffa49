use std::cell::RefCell;
use std::collections::HashMap;

use forja_core::{
    apply_plan, compute_plan, CommandOutcome, CommandRequest, CommandRunner, ForjaError, GitConfig,
    GitConfigChange, SetupPlan,
};

struct FakeRunner {
    current: RefCell<HashMap<String, String>>,
    write_failures: HashMap<String, String>,
    writes: RefCell<Vec<(String, String)>>,
}

impl FakeRunner {
    fn new() -> Self {
        Self {
            current: RefCell::new(HashMap::new()),
            write_failures: HashMap::new(),
            writes: RefCell::new(Vec::new()),
        }
    }

    fn with_current(self, key: &str, value: &str) -> Self {
        self.current.borrow_mut().insert(key.to_string(), value.to_string());
        self
    }

    fn failing_write(mut self, key: &str, stderr: &str) -> Self {
        self.write_failures.insert(key.to_string(), stderr.to_string());
        self
    }
}

impl CommandRunner for FakeRunner {
    fn run(&mut self, request: &CommandRequest) -> Result<CommandOutcome, ForjaError> {
        match request.args.first().map(String::as_str) {
            Some("config") if request.args.get(2).map(String::as_str) == Some("--get") => {
                let key = &request.args[3];
                match self.current.borrow().get(key) {
                    Some(value) => Ok(CommandOutcome {
                        status_code: Some(0),
                        stdout: format!("{value}\n"),
                        stderr: String::new(),
                    }),
                    None => Ok(CommandOutcome {
                        status_code: Some(1),
                        stdout: String::new(),
                        stderr: String::new(),
                    }),
                }
            }
            Some("config") => {
                let key = &request.args[2];
                let value = &request.args[3];
                self.writes.borrow_mut().push((key.clone(), value.clone()));
                match self.write_failures.get(key) {
                    Some(stderr) => Ok(CommandOutcome {
                        status_code: Some(1),
                        stdout: String::new(),
                        stderr: stderr.clone(),
                    }),
                    None => {
                        self.current.borrow_mut().insert(key.clone(), value.clone());
                        Ok(CommandOutcome {
                            status_code: Some(0),
                            stdout: String::new(),
                            stderr: String::new(),
                        })
                    }
                }
            }
            _ => panic!("unexpected command in test: {request:?}"),
        }
    }
}

fn sample_git() -> GitConfig {
    GitConfig {
        user_name: "Ada".to_string(),
        user_email: "ada@example.com".to_string(),
        default_branch: "main".to_string(),
        editor: None,
        pull_rebase: None,
        aliases: Vec::new(),
    }
}

#[test]
fn everything_already_conforming_produces_an_empty_plan() {
    let mut runner = FakeRunner::new()
        .with_current("user.name", "Ada")
        .with_current("user.email", "ada@example.com")
        .with_current("init.defaultBranch", "main");

    let plan = compute_plan(&sample_git(), &mut runner).expect("compute_plan should succeed");
    assert!(plan.changes.is_empty());
}

#[test]
fn a_divergent_field_produces_one_change() {
    let mut runner = FakeRunner::new()
        .with_current("user.name", "Old Name")
        .with_current("user.email", "ada@example.com")
        .with_current("init.defaultBranch", "main");

    let plan = compute_plan(&sample_git(), &mut runner).expect("compute_plan should succeed");
    assert_eq!(plan.changes.len(), 1);
    assert_eq!(plan.changes[0].key, "user.name");
    assert_eq!(plan.changes[0].old_value, Some("Old Name".to_string()));
    assert_eq!(plan.changes[0].new_value, "Ada");
}

#[test]
fn absent_optional_fields_never_appear_in_the_plan() {
    let mut git = sample_git();
    git.editor = None;
    git.pull_rebase = None;

    let mut runner = FakeRunner::new()
        .with_current("user.name", "Ada")
        .with_current("user.email", "ada@example.com")
        .with_current("init.defaultBranch", "main");

    let plan = compute_plan(&git, &mut runner).expect("compute_plan should succeed");
    assert!(!plan.changes.iter().any(|c| c.key == "core.editor"));
    assert!(!plan.changes.iter().any(|c| c.key == "pull.rebase"));
}

#[test]
fn apply_stops_at_first_failure_and_reports_what_succeeded() {
    let plan = SetupPlan {
        changes: vec![
            GitConfigChange {
                key: "user.name".to_string(),
                old_value: None,
                new_value: "Ada".to_string(),
            },
            GitConfigChange {
                key: "user.email".to_string(),
                old_value: None,
                new_value: "ada@example.com".to_string(),
            },
            GitConfigChange {
                key: "init.defaultBranch".to_string(),
                old_value: None,
                new_value: "main".to_string(),
            },
        ],
    };
    let mut runner = FakeRunner::new().failing_write("user.email", "permission denied");

    let outcome = apply_plan(&plan, &mut runner);
    assert_eq!(outcome.applied.len(), 1);
    assert_eq!(outcome.applied[0].key, "user.name");
    assert!(matches!(outcome.error, Some(ForjaError::CommandFailed { .. })));
}

#[test]
fn apply_succeeds_when_every_write_succeeds() {
    let plan = SetupPlan {
        changes: vec![GitConfigChange {
            key: "user.name".to_string(),
            old_value: None,
            new_value: "Ada".to_string(),
        }],
    };
    let mut runner = FakeRunner::new();

    let outcome = apply_plan(&plan, &mut runner);
    assert_eq!(outcome.applied.len(), 1);
    assert!(outcome.error.is_none());
}

// Further cases.

#[test]
fn every_declared_key_is_read_in_order_and_set_when_unset() {
    let mut git = sample_git();
    git.editor = Some("nvim".to_string());
    git.pull_rebase = Some(false);
    git.aliases = vec![
        ("lg".to_string(), "log --oneline".to_string()),
        ("st".to_string(), "status -sb".to_string()),
    ];
    let mut runner = FakeRunner::new().with_current("pull.rebase", "true");
    let plan = compute_plan(&git, &mut runner).unwrap();
    let keys: Vec<&str> = plan.changes.iter().map(|c| c.key.as_str()).collect();
    assert_eq!(
        keys,
        vec![
            "user.name",
            "user.email",
            "init.defaultBranch",
            "core.editor",
            "pull.rebase",
            "alias.lg",
            "alias.st"
        ]
    );
    assert_eq!(plan.changes[4].old_value, Some("true".to_string()));
    assert_eq!(plan.changes[4].new_value, "false");
    assert_eq!(plan.changes[0].old_value, None);
}

#[test]
fn setup_twice_reports_zero_changes_the_second_time() {
    let mut git = sample_git();
    git.aliases = vec![("st".to_string(), "status -sb".to_string())];
    let mut runner = FakeRunner::new().with_current("user.name", "Someone Else");
    let first = compute_plan(&git, &mut runner).unwrap();
    assert_eq!(first.changes.len(), 4);
    let applied = apply_plan(&first, &mut runner);
    assert!(applied.error.is_none());
    assert_eq!(applied.applied.len(), 4);
    let second = compute_plan(&git, &mut runner).unwrap();
    assert!(second.changes.is_empty());
}

#[test]
fn failed_write_reports_the_exact_command() {
    let plan = SetupPlan {
        changes: vec![GitConfigChange {
            key: "alias.st".to_string(),
            old_value: None,
            new_value: "status -sb".to_string(),
        }],
    };
    let mut runner = FakeRunner::new().failing_write("alias.st", "denied\n");
    let outcome = apply_plan(&plan, &mut runner);
    assert!(outcome.applied.is_empty());
    match outcome.error {
        Some(ForjaError::CommandFailed { command, stderr, exit_code }) => {
            assert_eq!(command, "git config --global alias.st status -sb");
            assert_eq!(stderr, "denied\n");
            assert_eq!(exit_code, Some(1));
        }
        other => panic!("unexpected {other:?}"),
    }
}

#[test]
fn empty_current_value_counts_as_unset() {
    let mut runner = FakeRunner::new()
        .with_current("user.name", "   ")
        .with_current("user.email", "ada@example.com")
        .with_current("init.defaultBranch", "main");
    let plan = compute_plan(&sample_git(), &mut runner).unwrap();
    assert_eq!(plan.changes.len(), 1);
    assert_eq!(plan.changes[0].old_value, None);
}
