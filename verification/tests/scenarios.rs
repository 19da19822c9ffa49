//! End-to-end scenarios of the commands, with the config given as TOML text
//! and git played by a scripted runner that remembers what it was asked.
use std::cell::RefCell;
use std::collections::HashMap;

use forja_core::{
    apply_plan, compute_plan, delete_branches, execute_sync, load_config, load_flow_config,
    plan_cleanup, plan_sync, run_checks, Cli, Command, CommandOutcome, CommandRequest,
    CommandRunner, ConfigFile, ForjaError, RawConfig, RawFlowConfig, RawGitAliases, RawGitConfig,
    TomlValue,
};

fn value(v: &toml::Value) -> TomlValue {
    match v {
        toml::Value::String(s) => TomlValue::String(s.clone()),
        toml::Value::Boolean(b) => TomlValue::Boolean(*b),
        toml::Value::Array(items) => TomlValue::Array(items.iter().map(value).collect()),
        _ => TomlValue::Other,
    }
}

fn get(t: &toml::Table, key: &str) -> Option<TomlValue> {
    t.get(key).map(value)
}

fn unknown(t: &toml::Table, known: &[&str]) -> Vec<String> {
    t.keys().filter(|k| !known.contains(&k.as_str())).cloned().collect()
}

fn sub<'a>(t: &'a toml::Table, key: &str) -> Option<&'a toml::Table> {
    match t.get(key) {
        Some(toml::Value::Table(inner)) => Some(inner),
        _ => None,
    }
}

/// The config file with `contents`, read and parsed.
fn config_file(contents: &str) -> ConfigFile {
    let root: toml::Table = match toml::from_str(contents) {
        Ok(t) => t,
        Err(e) => return ConfigFile::Malformed { message: e.to_string() },
    };
    let mut git = sub(&root, "git").map(|g| RawGitConfig {
        user_name: get(g, "user_name"),
        user_email: get(g, "user_email"),
        default_branch: get(g, "default_branch"),
        editor: get(g, "editor"),
        pull_rebase: get(g, "pull_rebase"),
        aliases: sub(g, "aliases").map(|a| RawGitAliases {
            entries: a.iter().map(|(k, v)| (k.clone(), value(v))).collect(),
        }),
        extra: unknown(
            g,
            &["user_name", "user_email", "default_branch", "editor", "pull_rebase", "aliases"],
        ),
    });
    let flow = sub(&root, "flow").map(|f| RawFlowConfig {
        base_branch: get(f, "base_branch"),
        strategy: get(f, "strategy"),
        auto_push: get(f, "auto_push"),
        protected_branches: get(f, "protected_branches"),
        extra: unknown(f, &["base_branch", "strategy", "auto_push", "protected_branches"]),
    });
    ConfigFile::Parsed(RawConfig {
        version: get(&root, "version"),
        git,
        flow,
        extra: unknown(&root, &["version", "git", "flow"]),
    })
}

/// git as a table of answers; every request is logged, and an unknown one
/// (or one to another program) fails with exit 1.
#[derive(Default)]
struct Git {
    answers: HashMap<Vec<String>, (bool, String, String)>,
    calls: RefCell<Vec<Vec<String>>>,
    command_lines: RefCell<Vec<String>>,
}

impl Git {
    fn answer(mut self, args: &[&str], success: bool, stdout: &str, stderr: &str) -> Self {
        self.answers.insert(
            args.iter().map(|s| s.to_string()).collect(),
            (success, stdout.to_string(), stderr.to_string()),
        );
        self
    }

    fn called(&self, args: &[&str]) -> bool {
        let args: Vec<String> = args.iter().map(|s| s.to_string()).collect();
        self.calls.borrow().iter().any(|a| *a == args)
    }

    fn called_first_word(&self, word: &str) -> bool {
        self.calls.borrow().iter().any(|a| a.first().map(String::as_str) == Some(word))
    }
}

impl CommandRunner for Git {
    fn run(&mut self, request: &CommandRequest) -> Result<CommandOutcome, ForjaError> {
        self.calls.borrow_mut().push(request.args.clone());
        let mut line = request.program.clone();
        for a in &request.args {
            line.push(' ');
            line.push_str(a);
        }
        self.command_lines.borrow_mut().push(line);
        let answer = if request.program == "git" { self.answers.get(&request.args).cloned() } else { None };
        let (success, stdout, stderr) = answer.unwrap_or((false, String::new(), String::new()));
        Ok(CommandOutcome { status_code: Some(if success { 0 } else { 1 }), stdout, stderr })
    }
}

/// A clean repository on `branch` whose remote default branch is `main`.
fn repo_on(branch: &str) -> Git {
    Git::default()
        .answer(&["rev-parse", "--is-inside-work-tree"], true, "true\n", "")
        .answer(&["status", "--porcelain"], true, "", "")
        .answer(&["rev-parse", "--abbrev-ref", "HEAD"], true, &format!("{branch}\n"), "")
        .answer(&["symbolic-ref", "--short", "refs/remotes/origin/HEAD"], true, "origin/main\n", "")
}

#[test]
fn show_prints_valid_config_and_exits_zero() {
    let outcome = load_config(
        "forja.toml",
        config_file("version = \"1\"\n[git]\nuser_name = \"Ada\"\nuser_email = \"ada@example.com\"\n"),
    )
    .expect("config should load");
    let git = outcome.config.git.expect("git section expected");
    assert_eq!(git.user_email, "ada@example.com");
    assert_eq!(git.user_name, "Ada");
}

#[test]
fn show_fails_with_exit_2_when_config_file_is_missing() {
    let err = load_config("/nonexistent/forja.toml", ConfigFile::Missing).unwrap_err();
    assert_eq!(err.exit_code(), 2);
    assert!(err.message().contains("config file not found"));
}

#[test]
fn show_fails_with_exit_2_and_lists_problems_for_invalid_config() {
    let err = load_config("forja.toml", config_file("[git]\nuser_name = \"\"\n")).unwrap_err();
    assert_eq!(err.exit_code(), 2);
    let message = err.message();
    assert!(message.contains("version"));
    assert!(message.contains("git.user_name"));
    assert!(message.contains("git.user_email"));
}

#[test]
fn verbose_and_quiet_together_exit_2() {
    let cli = Cli {
        config: "forja.toml".to_string(),
        dry_run: false,
        yes: false,
        verbose: true,
        quiet: true,
        json: false,
        command: Command::Show,
    };
    let message = cli.validate_flag_combinations().unwrap_err();
    assert!(message.contains("mutually exclusive"));
}

#[test]
fn doctor_reports_git_and_exits_0_or_3() {
    let mut git_present = Git::default().answer(&["--version"], true, "git version 2.43.0\n", "");
    let report = run_checks(&mut git_present);
    assert!(report.checks.iter().any(|c| c.name == "git"));
    assert!(!report.has_failure());

    let mut git_missing = Git::default();
    let report = run_checks(&mut git_missing);
    assert!(report.checks.iter().any(|c| c.name == "git"));
    assert!(report.has_failure());
}

#[test]
fn diagnostics_run_only_version_and_auth_queries() {
    let mut git = Git::default().answer(&["--version"], true, "git version 2.43.0\n", "");
    run_checks(&mut git);
    assert_eq!(*git.command_lines.borrow(), vec!["git --version".to_string(), "gh --version".to_string()]);
}

#[test]
fn happy_path_rebases_and_pushes() {
    let mut git = repo_on("feature/login")
        .answer(&["fetch", "origin"], true, "", "")
        .answer(&["rebase", "origin/main"], true, "", "")
        .answer(&["push", "--force-with-lease", "origin", "feature/login"], true, "", "");
    let (flow, _) = load_flow_config("forja.toml", ConfigFile::Missing).unwrap();

    let plan = plan_sync(&flow, &mut git).expect("plan should succeed");
    let outcome = execute_sync(&plan, &mut git).expect("sync should succeed");
    assert_eq!(outcome.base_branch, "main");
    assert!(outcome.pushed);
    assert!(git.called(&["push", "--force-with-lease", "origin", "feature/login"]));
}

#[test]
fn dirty_tree_aborts_with_exit_4_and_changes_nothing() {
    let mut git = repo_on("feature/x").answer(&["status", "--porcelain"], true, "?? scratch.txt\n", "");
    let (flow, _) = load_flow_config("forja.toml", ConfigFile::Missing).unwrap();

    let err = plan_sync(&flow, &mut git).unwrap_err();
    assert_eq!(err.exit_code(), 4);
    assert!(err.message().contains("dirty"));
    assert!(matches!(&err, ForjaError::DirtyWorkingTree { files } if files == &vec!["?? scratch.txt".to_string()]));
    assert!(!git.called_first_word("fetch"));
}

#[test]
fn protected_branch_aborts_with_exit_4() {
    let mut git = repo_on("main");
    let (flow, _) = load_flow_config("forja.toml", ConfigFile::Missing).unwrap();

    let err = plan_sync(&flow, &mut git).unwrap_err();
    assert_eq!(err.exit_code(), 4);
    assert!(err.message().contains("protected"));
}

#[test]
fn rebase_conflict_aborts_and_leaves_repo_mid_rebase() {
    let mut git = repo_on("feature/conflict")
        .answer(&["fetch", "origin"], true, "", "")
        .answer(
            &["rebase", "origin/main"],
            false,
            "CONFLICT (content): Merge conflict in shared.txt\n",
            "",
        );
    let (flow, _) = load_flow_config("forja.toml", ConfigFile::Missing).unwrap();

    let plan = plan_sync(&flow, &mut git).unwrap();
    let err = execute_sync(&plan, &mut git).unwrap_err();
    assert_eq!(err.exit_code(), 4);
    assert!(err.message().contains("conflict"));
    assert!(!git.called(&["rebase", "--abort"]));
    assert!(!git.called_first_word("push"));
}

#[test]
fn auto_push_false_rebases_locally_but_does_not_push() {
    let mut git = repo_on("feature/local-only")
        .answer(&["fetch", "origin"], true, "", "")
        .answer(&["rebase", "origin/main"], true, "", "");
    let (flow, _) = load_flow_config(
        "forja.toml",
        config_file("version = \"1\"\n[flow]\nauto_push = false\n"),
    )
    .unwrap();

    let plan = plan_sync(&flow, &mut git).unwrap();
    let outcome = execute_sync(&plan, &mut git).unwrap();
    assert!(!outcome.pushed);
    assert!(git.called(&["rebase", "origin/main"]));
    assert!(!git.called_first_word("push"));
}

#[test]
fn dry_run_changes_nothing() {
    let mut git = repo_on("feature/dry");
    let (flow, _) = load_flow_config("forja.toml", ConfigFile::Missing).unwrap();

    let plan = plan_sync(&flow, &mut git).unwrap();
    assert_eq!(plan.current_branch, "feature/dry");
    for word in ["fetch", "rebase", "merge", "push"] {
        assert!(!git.called_first_word(word));
    }
}

const MERGED: [&str; 4] = ["branch", "--merged", "origin/main", "--format=%(refname:short)"];
const TRACK: [&str; 3] =
    ["for-each-ref", "--format=%(refname:short)\t%(upstream:track)", "refs/heads"];

/// A repository on `main` after `git fetch --prune`, with the given listings.
fn pruned_repo(merged: &str, track: &str) -> Git {
    repo_on("main")
        .answer(&["fetch", "--prune", "origin"], true, "", "")
        .answer(&MERGED, true, merged, "")
        .answer(&TRACK, true, track, "")
}

#[test]
fn deletes_merged_branch_whose_remote_was_deleted() {
    let mut git = pruned_repo("main\nfeature/done\n", "main\t\nfeature/done\t[gone]\n")
        .answer(&["branch", "-d", "feature/done"], true, "", "");
    let (flow, _) = load_flow_config("forja.toml", ConfigFile::Missing).unwrap();

    let plan = plan_cleanup(&flow, &mut git).unwrap();
    let outcome = delete_branches(&plan.candidates, &mut git);
    assert_eq!((outcome.deleted.len(), plan.candidates.len()), (1, 1));
    assert!(outcome.error.is_none());
    assert!(git.called(&["branch", "-d", "feature/done"]));
}

#[test]
fn preserves_merged_branch_still_present_on_remote() {
    let mut git = pruned_repo("main\nfeature/keep\n", "main\t\nfeature/keep\t\n");
    let (flow, _) = load_flow_config("forja.toml", ConfigFile::Missing).unwrap();

    let plan = plan_cleanup(&flow, &mut git).unwrap();
    assert!(plan.candidates.is_empty());
}

#[test]
fn protected_branch_is_preserved_even_if_merged_and_gone() {
    let mut git = pruned_repo("main\ndevelop\n", "main\t\ndevelop\t[gone]\n");
    let (flow, _) = load_flow_config(
        "forja.toml",
        config_file("version = \"1\"\n[flow]\nprotected_branches = [\"main\", \"develop\"]\n"),
    )
    .unwrap();

    let plan = plan_cleanup(&flow, &mut git).unwrap();
    assert!(plan.candidates.is_empty());
}

#[test]
fn dry_run_lists_candidates_without_deleting() {
    let mut git = pruned_repo("main\nfeature/done\n", "main\t\nfeature/done\t[gone]\n");
    let (flow, _) = load_flow_config("forja.toml", ConfigFile::Missing).unwrap();

    let plan = plan_cleanup(&flow, &mut git).unwrap();
    assert_eq!(plan.candidates, vec!["feature/done".to_string()]);
    assert!(!git.called(&["branch", "-d", "feature/done"]));
}

/// A global git config held in memory, read and written through
/// `git config --global`.
#[derive(Default)]
struct GlobalConfig {
    values: RefCell<HashMap<String, String>>,
}

impl CommandRunner for GlobalConfig {
    fn run(&mut self, request: &CommandRequest) -> Result<CommandOutcome, ForjaError> {
        let a = &request.args;
        let found = |v: Option<String>| match v {
            Some(v) => CommandOutcome { status_code: Some(0), stdout: format!("{v}\n"), stderr: String::new() },
            None => CommandOutcome { status_code: Some(1), stdout: String::new(), stderr: String::new() },
        };
        if a.len() == 4 && a[0] == "config" && a[1] == "--global" && a[2] == "--get" {
            return Ok(found(self.values.borrow().get(&a[3]).cloned()));
        }
        if a.len() == 4 && a[0] == "config" && a[1] == "--global" {
            self.values.borrow_mut().insert(a[2].clone(), a[3].clone());
            return Ok(CommandOutcome { status_code: Some(0), stdout: String::new(), stderr: String::new() });
        }
        panic!("unexpected command: {a:?}");
    }
}

#[test]
fn setup_applies_git_config_and_is_idempotent() {
    let outcome = load_config(
        "forja.toml",
        config_file(
            "version = \"1\"\n[git]\nuser_name = \"Ada\"\nuser_email = \"ada@example.com\"\n[git.aliases]\nst = \"status -sb\"\n",
        ),
    )
    .unwrap();
    let git = outcome.config.git.expect("git section expected");
    let mut store = GlobalConfig::default();

    let plan = compute_plan(&git, &mut store).unwrap();
    assert!(plan.changes.iter().any(|c| c.key == "user.name"));
    let applied = apply_plan(&plan, &mut store);
    assert!(applied.error.is_none());
    assert_eq!(store.values.borrow().get("user.name").map(String::as_str), Some("Ada"));
    assert_eq!(store.values.borrow().get("user.email").map(String::as_str), Some("ada@example.com"));

    let second = compute_plan(&git, &mut store).unwrap();
    assert!(second.changes.is_empty());
}

#[test]
fn setup_dry_run_does_not_write_anything() {
    let outcome = load_config(
        "forja.toml",
        config_file("version = \"1\"\n[git]\nuser_name = \"Ada\"\nuser_email = \"ada@example.com\"\n"),
    )
    .unwrap();
    let git = outcome.config.git.expect("git section expected");
    let mut store = GlobalConfig::default();

    let plan = compute_plan(&git, &mut store).unwrap();
    assert!(plan.changes.iter().any(|c| c.key == "user.name"));
    assert!(store.values.borrow().is_empty(), "computing the plan must not write");
}

#[test]
fn setup_with_no_git_section_does_nothing() {
    let outcome = load_config("forja.toml", config_file("version = \"1\"\n")).unwrap();
    assert!(outcome.config.git.is_none());
}

#[test]
fn declines_without_yes_when_stdin_says_no() {
    let mut git = pruned_repo("main\nfeature/done\n", "main\t\nfeature/done\t[gone]\n");
    let (flow, _) = load_flow_config("forja.toml", ConfigFile::Missing).unwrap();

    let plan = plan_cleanup(&flow, &mut git).unwrap();
    assert_eq!(plan.candidates, vec!["feature/done".to_string()]);
    assert!(!forja_core::is_confirmation("n\n"));
    assert!(!git.called(&["branch", "-d", "feature/done"]));
}

#[test]
fn confirms_without_yes_when_stdin_says_yes() {
    let mut git = pruned_repo("main\nfeature/done\n", "main\t\nfeature/done\t[gone]\n")
        .answer(&["branch", "-d", "feature/done"], true, "", "");
    let (flow, _) = load_flow_config("forja.toml", ConfigFile::Missing).unwrap();

    let plan = plan_cleanup(&flow, &mut git).unwrap();
    assert!(forja_core::is_confirmation("y\n"));
    let outcome = delete_branches(&plan.candidates, &mut git);
    assert_eq!(outcome.deleted, vec!["feature/done".to_string()]);
}

#[test]
fn init_refuses_to_overwrite_without_force() {
    let err = forja_core::check_init_target("forja.toml", true, false).unwrap_err();
    assert!(err.message().contains("already exists"));
}

#[test]
fn init_overwrites_with_force() {
    assert!(forja_core::check_init_target("forja.toml", true, true).is_ok());
    assert!(forja_core::DEFAULT_TEMPLATE.contains("version = \"1\""));
}
