//! The text that each command prints, checked against the documented output.
use forja_core::{
    cleanup_needs_answer, cleanup_should_delete, setup_action, SetupAction,
    applied_message, check_init_target, deleted_message, is_confirmation, render_cleanup_plan,
    render_report, render_setup_plan, render_show, render_sync_plan, synced_message, CheckResult,
    CheckStatus, CleanupPlan, DoctorReport, FlowConfig, ForjaConfig, ForjaError, GitConfig,
    GitConfigChange, SetupPlan, Strategy, SyncOutcome, SyncPlan,
};

#[test]
fn show_prints_the_documented_layout() {
    let config = ForjaConfig {
        version: "1".to_string(),
        git: Some(GitConfig {
            user_name: "Ada Lovelace".to_string(),
            user_email: "ada@example.com".to_string(),
            default_branch: "main".to_string(),
            editor: None,
            pull_rebase: None,
            aliases: vec![("st".to_string(), "status -sb".to_string())],
        }),
        flow: FlowConfig::default(),
    };
    assert_eq!(
        render_show(&config),
        "version: 1\n\n[git]\n  user_name      = Ada Lovelace\n  user_email     = ada@example.com\n  default_branch = main\n\n  [git.aliases]\n    st = \"status -sb\"\n\n[flow]\n  strategy           = rebase\n  auto_push          = true\n  base_branch        = (detected from remote)\n  protected_branches = [\"main\", \"master\"]\n"
    );
}

#[test]
fn show_prints_optional_fields_and_a_missing_git_section() {
    let config = ForjaConfig {
        version: "1".to_string(),
        git: Some(GitConfig {
            user_name: "A".to_string(),
            user_email: "a@b".to_string(),
            default_branch: "trunk".to_string(),
            editor: Some("nvim".to_string()),
            pull_rebase: Some(false),
            aliases: Vec::new(),
        }),
        flow: FlowConfig {
            base_branch: Some("develop".to_string()),
            strategy: Strategy::Merge,
            auto_push: false,
            protected_branches: Vec::new(),
        },
    };
    assert_eq!(
        render_show(&config),
        "version: 1\n\n[git]\n  user_name      = A\n  user_email     = a@b\n  default_branch = trunk\n  editor         = nvim\n  pull_rebase    = false\n\n[flow]\n  strategy           = merge\n  auto_push          = false\n  base_branch        = develop\n  protected_branches = []\n"
    );
    let bare = ForjaConfig { version: "1".to_string(), git: None, flow: FlowConfig::default() };
    assert!(render_show(&bare).contains("\n[git]  (not set)\n\n[flow]\n"));
}

#[test]
fn sync_plan_prints_the_documented_steps() {
    let plan = SyncPlan {
        current_branch: "feature/login".to_string(),
        base_branch: "main".to_string(),
        strategy: Strategy::Rebase,
        will_push: true,
    };
    assert_eq!(
        render_sync_plan(&plan),
        "Current branch: feature/login\nBase:           origin/main\n\n  ✓ working tree is clean\n  ✓ branch is not protected\n  → git fetch origin\n  → git rebase origin/main\n  → git push --force-with-lease origin feature/login\n"
    );
    let local = SyncPlan { strategy: Strategy::Merge, will_push: false, ..plan };
    assert!(render_sync_plan(&local).ends_with("  → git merge origin/main\n"));
}

#[test]
fn sync_result_says_whether_it_pushed() {
    let pushed = SyncOutcome {
        base_branch: "main".to_string(),
        current_branch: "feature/login".to_string(),
        pushed: true,
    };
    assert_eq!(synced_message(&pushed), "feature/login synced with origin/main and pushed.");
    let local = SyncOutcome { pushed: false, ..pushed };
    assert_eq!(
        synced_message(&local),
        "feature/login synced with origin/main (not pushed — auto_push is disabled)."
    );
}

#[test]
fn cleanup_lists_candidates_and_counts_deletions() {
    let plan = CleanupPlan { candidates: vec!["feature/login".to_string(), "hotfix/typo".to_string()] };
    assert_eq!(
        render_cleanup_plan(&plan),
        "branches to delete (merged and removed on the remote):\n  - feature/login\n  - hotfix/typo\n"
    );
    assert_eq!(deleted_message(2, 2), "deleted 2 of 2 branch(es)");
    assert_eq!(deleted_message(1, 12), "deleted 1 of 12 branch(es)");
}

#[test]
fn only_y_or_yes_confirms() {
    for yes in ["y", "Y", "yes", "YES", "Yes", "yEs", " y\n", "yes\r\n"] {
        assert!(is_confirmation(yes), "{yes:?}");
    }
    for no in ["", "\n", "n", "no", "ye", "yess", "y y", "ja"] {
        assert!(!is_confirmation(no), "{no:?}");
    }
}

#[test]
fn setup_lists_changes_and_counts_writes() {
    let plan = SetupPlan {
        changes: vec![
            GitConfigChange { key: "user.name".to_string(), old_value: None, new_value: "Ada Lovelace".to_string() },
            GitConfigChange {
                key: "alias.st".to_string(),
                old_value: Some("status".to_string()),
                new_value: "status -sb".to_string(),
            },
        ],
    };
    assert_eq!(
        render_setup_plan(&plan),
        "  user.name : (unset) -> Ada Lovelace\n  alias.st : status -> status -sb\n"
    );
    assert_eq!(applied_message(3, 3), "applied 3 of 3 change(s)");
}

#[test]
fn doctor_prints_one_marked_line_per_check() {
    let report = DoctorReport {
        checks: vec![
            CheckResult { name: "git".to_string(), status: CheckStatus::Passed, detail: "2.43.0".to_string() },
            CheckResult { name: "gh".to_string(), status: CheckStatus::Warning, detail: "missing".to_string() },
            CheckResult { name: "x".to_string(), status: CheckStatus::Failed, detail: "bad".to_string() },
        ],
    };
    assert_eq!(render_report(&report), "  ✓ git: 2.43.0\n  ⚠ gh: missing\n  ✗ x: bad\n");
}

#[test]
fn init_refuses_an_existing_file_unless_forced() {
    assert!(check_init_target("forja.toml", false, false).is_ok());
    assert!(check_init_target("forja.toml", true, true).is_ok());
    assert!(check_init_target("forja.toml", false, true).is_ok());
    let err = check_init_target("forja.toml", true, false).unwrap_err();
    assert!(matches!(&err, ForjaError::ConfigAlreadyExists { path } if path == "forja.toml"));
    assert_eq!(err.exit_code(), 2);
}

#[test]
fn setup_decides_from_section_plan_and_dry_run() {
    assert_eq!(setup_action(false, true, false), SetupAction::NothingToApply);
    assert_eq!(setup_action(false, false, true), SetupAction::NothingToApply);
    assert_eq!(setup_action(true, true, false), SetupAction::AlreadyConforms);
    assert_eq!(setup_action(true, false, true), SetupAction::ShowPlanOnly);
    assert_eq!(setup_action(true, false, false), SetupAction::BackupThenApply);
}

#[test]
fn cleanup_deletes_only_when_confirmed_and_not_dry_run() {
    assert!(cleanup_should_delete(2, false, true, None));
    assert!(cleanup_should_delete(2, false, false, Some("y\n")));
    assert!(!cleanup_should_delete(2, false, false, Some("n\n")));
    assert!(!cleanup_should_delete(2, false, false, None));
    assert!(!cleanup_should_delete(2, true, true, Some("yes")));
    assert!(!cleanup_should_delete(0, false, true, None));
    assert!(cleanup_needs_answer(1, false, false));
    assert!(!cleanup_needs_answer(1, false, true));
    assert!(!cleanup_needs_answer(1, true, false));
    assert!(!cleanup_needs_answer(0, false, false));
}

#[test]
fn sync_executes_only_without_dry_run() {
    assert!(forja_core::sync_should_execute(false));
    assert!(!forja_core::sync_should_execute(true));
}

#[test]
fn aliases_are_shown_and_applied_in_name_order() {
    let git = GitConfig {
        user_name: "A".to_string(),
        user_email: "a@b".to_string(),
        default_branch: "main".to_string(),
        editor: None,
        pull_rebase: None,
        aliases: vec![
            ("st".to_string(), "status".to_string()),
            ("co".to_string(), "checkout".to_string()),
            ("st".to_string(), "status -sb".to_string()),
        ],
    };
    let entries = forja_core::setup::git_entries(&git);
    assert_eq!(
        entries[3..].to_vec(),
        vec![
            ("alias.co".to_string(), "checkout".to_string()),
            ("alias.st".to_string(), "status -sb".to_string()),
        ]
    );
    let config = ForjaConfig { version: "1".to_string(), git: Some(git), flow: FlowConfig::default() };
    assert!(render_show(&config).contains("  [git.aliases]\n    co = \"checkout\"\n    st = \"status -sb\"\n\n"));
}

#[test]
fn the_most_negative_number_prints_in_full() {
    assert_eq!(forja_core::text::signed_decimal_string(i64::MIN), "-9223372036854775808");
    assert_eq!(forja_core::text::signed_decimal_string(-42), "-42");
}
