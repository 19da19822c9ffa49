use std::cell::RefCell;
use std::collections::HashMap;

use forja_core::{
    delete_branches, plan_cleanup, CommandOutcome, CommandRequest, CommandRunner, FlowConfig,
    ForjaError,
};

type FakeResponse = (bool, String, String);

#[derive(Default)]
struct FakeRunner {
    responses: HashMap<(String, Vec<String>), FakeResponse>,
    calls: RefCell<Vec<Vec<String>>>,
}

impl FakeRunner {
    fn with(mut self, program: &str, args: &[&str], success: bool, stdout: &str, stderr: &str) -> Self {
        self.responses.insert(
            (program.to_string(), args.iter().map(|s| s.to_string()).collect()),
            (success, stdout.to_string(), stderr.to_string()),
        );
        self
    }
}

impl CommandRunner for FakeRunner {
    fn run(&mut self, request: &CommandRequest) -> Result<CommandOutcome, ForjaError> {
        self.calls.borrow_mut().push(request.args.clone());
        match self
            .responses
            .get(&(request.program.clone(), request.args.clone()))
        {
            Some((success, stdout, stderr)) => Ok(CommandOutcome {
                status_code: Some(if *success { 0 } else { 1 }),
                stdout: stdout.clone(),
                stderr: stderr.clone(),
            }),
            None => Ok(CommandOutcome {
                status_code: Some(1),
                stdout: String::new(),
                stderr: String::new(),
            }),
        }
    }
}

fn base_runner() -> FakeRunner {
    FakeRunner::default()
        .with("git", &["rev-parse", "--is-inside-work-tree"], true, "true\n", "")
        .with("git", &["rev-parse", "--abbrev-ref", "HEAD"], true, "main\n", "")
        .with(
            "git",
            &["symbolic-ref", "--short", "refs/remotes/origin/HEAD"],
            true,
            "origin/main\n",
            "",
        )
        .with("git", &["fetch", "--prune", "origin"], true, "", "")
}

const MERGED: [&str; 4] = ["branch", "--merged", "origin/main", "--format=%(refname:short)"];
const TRACK: [&str; 3] = [
    "for-each-ref",
    "--format=%(refname:short)\t%(upstream:track)",
    "refs/heads",
];

fn default_flow() -> FlowConfig {
    FlowConfig::default()
}

#[test]
fn merged_and_gone_branch_not_protected_is_a_candidate() {
    let mut runner = base_runner()
        .with("git", &MERGED, true, "main\nfeature/done\n", "")
        .with("git", &TRACK, true, "main\t\nfeature/done\t[gone]\n", "");

    let plan = plan_cleanup(&default_flow(), &mut runner).expect("plan_cleanup should succeed");
    assert_eq!(plan.candidates, vec!["feature/done".to_string()]);
}

#[test]
fn merged_but_still_on_remote_is_excluded() {
    let mut runner = base_runner()
        .with("git", &MERGED, true, "main\nfeature/still-remote\n", "")
        .with("git", &TRACK, true, "main\t\nfeature/still-remote\t\n", "");

    let plan = plan_cleanup(&default_flow(), &mut runner).expect("plan_cleanup should succeed");
    assert!(plan.candidates.is_empty());
}

#[test]
fn gone_but_not_merged_is_excluded() {
    let mut runner = base_runner()
        .with("git", &MERGED, true, "main\n", "")
        .with("git", &TRACK, true, "main\t\nfeature/unmerged\t[gone]\n", "");

    let plan = plan_cleanup(&default_flow(), &mut runner).expect("plan_cleanup should succeed");
    assert!(plan.candidates.is_empty());
}

#[test]
fn protected_branch_is_never_a_candidate_even_if_merged_and_gone() {
    let mut flow = default_flow();
    flow.protected_branches = vec!["main".to_string(), "develop".to_string()];

    let mut runner = base_runner()
        .with("git", &MERGED, true, "main\ndevelop\n", "")
        .with("git", &TRACK, true, "main\t\ndevelop\t[gone]\n", "");

    let plan = plan_cleanup(&flow, &mut runner).expect("plan_cleanup should succeed");
    assert!(plan.candidates.is_empty());
}

#[test]
fn current_branch_is_never_a_candidate() {
    let mut runner = base_runner()
        .with("git", &["rev-parse", "--abbrev-ref", "HEAD"], true, "feature/done\n", "")
        .with("git", &MERGED, true, "main\nfeature/done\n", "")
        .with("git", &TRACK, true, "main\t\nfeature/done\t[gone]\n", "");

    let plan = plan_cleanup(&default_flow(), &mut runner).expect("plan_cleanup should succeed");
    assert!(plan.candidates.is_empty());
}

#[test]
fn delete_stops_at_first_failure_and_reports_progress() {
    let mut runner = FakeRunner::default()
        .with("git", &["branch", "-d", "feature/a"], true, "", "")
        .with(
            "git",
            &["branch", "-d", "feature/b"],
            false,
            "",
            "error: the branch is not fully merged\n",
        );

    let outcome = delete_branches(
        &[
            "feature/a".to_string(),
            "feature/b".to_string(),
            "feature/c".to_string(),
        ],
        &mut runner,
    );
    assert_eq!(outcome.deleted, vec!["feature/a".to_string()]);
    assert!(matches!(outcome.error, Some(ForjaError::CommandFailed { .. })));
}

// Further cases.

#[test]
fn several_candidates_keep_git_order_and_explicit_base_is_used() {
    let mut flow = default_flow();
    flow.base_branch = Some("develop".to_string());
    flow.protected_branches = vec!["release".to_string()];
    let mut runner = FakeRunner::default()
        .with("git", &["rev-parse", "--is-inside-work-tree"], true, "true\n", "")
        .with("git", &["rev-parse", "--abbrev-ref", "HEAD"], true, "develop\n", "")
        .with("git", &["fetch", "--prune", "origin"], true, "", "")
        .with(
            "git",
            &["branch", "--merged", "origin/develop", "--format=%(refname:short)"],
            true,
            "develop\n  zeta \nrelease\nalpha\n",
            "",
        )
        .with(
            "git",
            &TRACK,
            true,
            "alpha\t[gone]\ndevelop\t[gone]\nrelease\t[gone]\nzeta\t[gone]\n",
            "",
        );
    let plan = plan_cleanup(&flow, &mut runner).unwrap();
    assert_eq!(plan.candidates, vec!["zeta".to_string(), "alpha".to_string()]);
    assert!(!runner
        .calls
        .borrow()
        .iter()
        .any(|a| a[0] == "symbolic-ref"));
}

#[test]
fn prune_failure_is_a_command_failure() {
    let mut runner = base_runner().with("git", &["fetch", "--prune", "origin"], false, "", "offline\n");
    let err = plan_cleanup(&default_flow(), &mut runner).unwrap_err();
    match err {
        ForjaError::CommandFailed { command, .. } => assert_eq!(command, "git fetch --prune origin"),
        other => panic!("unexpected {other:?}"),
    }
}

#[test]
fn merged_listing_failure_names_the_base_ref() {
    let mut runner = base_runner();
    let err = plan_cleanup(&default_flow(), &mut runner).unwrap_err();
    match err {
        ForjaError::CommandFailed { command, exit_code, .. } => {
            assert_eq!(command, "git branch --merged origin/main");
            assert_eq!(exit_code, Some(1));
        }
        other => panic!("unexpected {other:?}"),
    }
}

#[test]
fn delete_of_every_candidate_uses_safe_delete_only() {
    let mut runner = FakeRunner::default()
        .with("git", &["branch", "-d", "a"], true, "", "")
        .with("git", &["branch", "-d", "b"], true, "", "");
    let outcome = delete_branches(&["a".to_string(), "b".to_string()], &mut runner);
    assert_eq!(outcome.deleted, vec!["a".to_string(), "b".to_string()]);
    assert!(outcome.error.is_none());
    assert!(runner.calls.borrow().iter().all(|a| a[0] == "branch" && a[1] == "-d"));
}

#[test]
fn delete_with_no_candidates_runs_nothing() {
    let mut runner = FakeRunner::default();
    let outcome = delete_branches(&[], &mut runner);
    assert!(outcome.deleted.is_empty());
    assert!(outcome.error.is_none());
    assert!(runner.calls.borrow().is_empty());
}
