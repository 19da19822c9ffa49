use std::cell::RefCell;
use std::collections::HashMap;

use forja_core::{
    run_checks, CheckStatus, CommandOutcome, CommandRequest, CommandRunner, ForjaError,
};

type FakeResponse = Result<(bool, String, String), ()>;

struct FakeRunner {
    responses: HashMap<(String, Vec<String>), FakeResponse>,
    calls: RefCell<Vec<(String, Vec<String>)>>,
}

impl FakeRunner {
    fn new() -> Self {
        Self {
            responses: HashMap::new(),
            calls: RefCell::new(Vec::new()),
        }
    }

    fn with(mut self, program: &str, args: &[&str], success: bool, stdout: &str, stderr: &str) -> Self {
        self.responses.insert(
            (program.to_string(), args.iter().map(|s| s.to_string()).collect()),
            Ok((success, stdout.to_string(), stderr.to_string())),
        );
        self
    }

    fn missing(mut self, program: &str, args: &[&str]) -> Self {
        self.responses.insert(
            (program.to_string(), args.iter().map(|s| s.to_string()).collect()),
            Err(()),
        );
        self
    }
}

impl CommandRunner for FakeRunner {
    fn run(&mut self, request: &CommandRequest) -> Result<CommandOutcome, ForjaError> {
        self.calls
            .borrow_mut()
            .push((request.program.clone(), request.args.clone()));
        match self
            .responses
            .get(&(request.program.clone(), request.args.clone()))
        {
            Some(Ok((success, stdout, stderr))) => Ok(CommandOutcome {
                status_code: Some(if *success { 0 } else { 1 }),
                stdout: stdout.clone(),
                stderr: stderr.clone(),
            }),
            Some(Err(())) | None => Err(ForjaError::CommandSpawn {
                program: request.program.clone(),
                message: "not found".to_string(),
            }),
        }
    }
}

#[test]
fn recent_git_and_authenticated_gh_are_all_ok() {
    let mut runner = FakeRunner::new()
        .with("git", &["--version"], true, "git version 2.43.0\n", "")
        .with("gh", &["--version"], true, "gh version 2.40.1 (2023-12-13)\n", "")
        .with("gh", &["auth", "status"], true, "Logged in to github.com\n", "");

    let report = run_checks(&mut runner);
    assert!(!report.has_failure());
    assert!(report.checks.iter().all(|c| c.status == CheckStatus::Passed));
}

#[test]
fn missing_git_is_a_failure() {
    let mut runner = FakeRunner::new()
        .missing("git", &["--version"])
        .missing("gh", &["--version"]);

    let report = run_checks(&mut runner);
    assert!(report.has_failure());
    let git_check = report.checks.iter().find(|c| c.name == "git").unwrap();
    assert_eq!(git_check.status, CheckStatus::Failed);
}

#[test]
fn old_git_is_a_failure() {
    let mut runner = FakeRunner::new()
        .with("git", &["--version"], true, "git version 2.10.0\n", "")
        .missing("gh", &["--version"]);

    let report = run_checks(&mut runner);
    assert!(report.has_failure());
}

#[test]
fn missing_gh_is_a_warning_not_a_failure() {
    let mut runner = FakeRunner::new()
        .with("git", &["--version"], true, "git version 2.43.0\n", "")
        .missing("gh", &["--version"]);

    let report = run_checks(&mut runner);
    assert!(!report.has_failure());
    let gh_check = report.checks.iter().find(|c| c.name == "gh").unwrap();
    assert_eq!(gh_check.status, CheckStatus::Warning);
    assert!(!report.checks.iter().any(|c| c.name == "gh auth"));
}

#[test]
fn unauthenticated_gh_is_a_warning_not_a_failure() {
    let mut runner = FakeRunner::new()
        .with("git", &["--version"], true, "git version 2.43.0\n", "")
        .with("gh", &["--version"], true, "gh version 2.40.1\n", "")
        .with("gh", &["auth", "status"], false, "", "not logged in\n");

    let report = run_checks(&mut runner);
    assert!(!report.has_failure());
    let auth_check = report.checks.iter().find(|c| c.name == "gh auth").unwrap();
    assert_eq!(auth_check.status, CheckStatus::Warning);
}

// Further cases.

#[test]
fn details_state_versions_and_what_to_do() {
    let mut runner = FakeRunner::new()
        .with("git", &["--version"], true, "git version 2.43.0.windows.1\n", "")
        .with("gh", &["--version"], true, "  gh version 2.40.1 (2023-12-13)  \nhttps://x\n", "")
        .with("gh", &["auth", "status"], true, "", "");
    let report = run_checks(&mut runner);
    assert_eq!(report.checks.len(), 3);
    assert_eq!(report.checks[0].detail, "2.43.0");
    assert_eq!(report.checks[1].detail, "gh version 2.40.1 (2023-12-13)");
    assert_eq!(report.checks[2].detail, "authenticated");
}

#[test]
fn old_git_detail_names_the_minimum() {
    let mut runner = FakeRunner::new()
        .with("git", &["--version"], true, "git version 2.22.9\n", "")
        .missing("gh", &["--version"]);
    let report = run_checks(&mut runner);
    assert_eq!(report.checks[0].status, CheckStatus::Failed);
    assert_eq!(report.checks[0].detail, "found 2.22.9, need >= 2.23.0 — upgrade git");
}

#[test]
fn minimum_git_version_passes() {
    let mut runner = FakeRunner::new()
        .with("git", &["--version"], true, "git version 2.23.0\n", "")
        .missing("gh", &["--version"]);
    let report = run_checks(&mut runner);
    assert_eq!(report.checks[0].status, CheckStatus::Passed);
}

#[test]
fn unparsable_or_overflowing_versions_fail() {
    let mut runner = FakeRunner::new()
        .with("git", &["--version"], true, "git version unknown\n", "")
        .missing("gh", &["--version"]);
    let report = run_checks(&mut runner);
    assert_eq!(report.checks[0].detail, "could not parse a version from: git version unknown");

    assert_eq!(forja_core::doctor::parse_version("git version 2.43.1"), Some((2, 43, 1)));
    assert_eq!(forja_core::doctor::parse_version("v10.0.99999999999"), None);
    assert_eq!(forja_core::doctor::parse_version("1.2"), None);
    assert_eq!(forja_core::doctor::parse_number("+42"), Some(42));
    assert_eq!(forja_core::doctor::parse_number("4294967295"), Some(4294967295));
    assert_eq!(forja_core::doctor::parse_number("4294967296"), None);
    assert_eq!(forja_core::doctor::parse_number("+"), None);
    assert_eq!(forja_core::doctor::parse_number(""), None);
    assert_eq!(forja_core::doctor::parse_number("1a"), None);
}

#[test]
fn failing_git_version_reports_its_stderr() {
    let mut runner = FakeRunner::new()
        .with("git", &["--version"], false, "", "  boom \n")
        .missing("gh", &["--version"]);
    let report = run_checks(&mut runner);
    assert_eq!(report.checks[0].detail, "`git --version` failed: boom");
    assert_eq!(report.checks[1].status, CheckStatus::Warning);
}

#[test]
fn gh_auth_spawn_failure_is_a_warning() {
    let mut runner = FakeRunner::new()
        .with("git", &["--version"], true, "git version 2.43.0\n", "")
        .with("gh", &["--version"], true, "gh version 2.40.1\n", "")
        .missing("gh", &["auth", "status"]);
    let report = run_checks(&mut runner);
    assert_eq!(report.checks[2].status, CheckStatus::Warning);
    assert_eq!(report.checks[2].detail, "could not determine authentication status");
    assert!(!report.has_failure());
}
