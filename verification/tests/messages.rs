use forja_core::{Cli, Command, ForjaError, ValidationError, ValidationErrors};

#[test]
fn every_error_has_its_exit_code() {
    let cases: Vec<(ForjaError, i32)> = vec![
        (ForjaError::ConfigNotFound { path: "p".into() }, 2),
        (ForjaError::Io { path: "p".into(), message: "m".into() }, 2),
        (ForjaError::TomlParse { path: "p".into(), message: "m".into() }, 2),
        (ForjaError::Validation { path: "p".into(), errors: ValidationErrors(vec![]) }, 2),
        (ForjaError::ConfigAlreadyExists { path: "p".into() }, 2),
        (ForjaError::CommandSpawn { program: "git".into(), message: "m".into() }, 3),
        (ForjaError::CommandFailed { command: "c".into(), stderr: "e".into(), exit_code: Some(1) }, 1),
        (ForjaError::NotAGitRepository, 4),
        (ForjaError::DirtyWorkingTree { files: vec!["a".into()] }, 4),
        (ForjaError::ProtectedBranch { branch: "main".into() }, 4),
        (ForjaError::BaseBranchNotDetected, 4),
        (ForjaError::RebaseConflict { base: "origin/main".into() }, 4),
    ];
    for (err, code) in cases {
        assert_eq!(err.exit_code(), code, "{err:?}");
    }
}

#[test]
fn messages_say_what_failed_and_what_to_do() {
    assert_eq!(
        ForjaError::ConfigNotFound { path: "/x/forja.toml".into() }.message(),
        "config file not found: /x/forja.toml\n\nrun `forja init` to create one, or pass --config <path> to point at an existing file"
    );
    assert_eq!(
        ForjaError::ConfigAlreadyExists { path: "forja.toml".into() }.message(),
        "config file already exists: forja.toml\n\npass --force to overwrite it"
    );
    assert_eq!(
        ForjaError::CommandFailed { command: "git fetch origin".into(), stderr: "boom\n".into(), exit_code: Some(128) }
            .message(),
        "command failed: `git fetch origin` (exit Some(128))\nboom\n"
    );
    assert_eq!(
        ForjaError::CommandFailed { command: "git x".into(), stderr: String::new(), exit_code: Some(-9) }.message(),
        "command failed: `git x` (exit Some(-9))\n"
    );
    assert_eq!(
        ForjaError::CommandFailed { command: "git x".into(), stderr: String::new(), exit_code: None }.message(),
        "command failed: `git x` (exit None)\n"
    );
    assert_eq!(
        ForjaError::CommandSpawn { program: "gh".into(), message: "No such file".into() }.message(),
        "failed to run `gh`: No such file\n\nis it installed and on your PATH?"
    );
    assert!(ForjaError::DirtyWorkingTree { files: vec!["a".into(), "b".into()] }
        .message()
        .starts_with("working tree is dirty (2 file(s) changed)"));
    assert!(ForjaError::ProtectedBranch { branch: "main".into() }.message().contains("protected"));
    assert!(ForjaError::RebaseConflict { base: "origin/main".into() }.message().contains("conflict"));
    assert_eq!(
        ForjaError::TomlParse { path: "f".into(), message: "bad".into() }.message(),
        "config file f is not valid TOML:\nbad"
    );
    assert_eq!(
        ForjaError::Io { path: "f".into(), message: "denied".into() }.message(),
        "could not read config file f: denied"
    );
}

#[test]
fn validation_errors_are_listed_one_per_line() {
    let errors = ValidationErrors(vec![
        ValidationError::new("version".to_string(), "is required".to_string()),
        ValidationError::new("git.user_email".to_string(), "must contain \"@\"".to_string()),
    ]);
    assert_eq!(
        errors.describe(),
        "2 problem(s) found:\n  - version: is required\n  - git.user_email: must contain \"@\""
    );
    assert_eq!(ValidationErrors(vec![]).describe(), "0 problem(s) found:\n");
    assert_eq!(errors.0[0].describe(), "version: is required");
}

fn cli(verbose: bool, quiet: bool) -> Cli {
    Cli {
        config: "forja.toml".to_string(),
        dry_run: false,
        yes: false,
        verbose,
        quiet,
        json: false,
        command: Command::Show,
    }
}

#[test]
fn verbose_and_quiet_are_mutually_exclusive() {
    assert_eq!(
        cli(true, true).validate_flag_combinations(),
        Err("--verbose and --quiet are mutually exclusive".to_string())
    );
    assert_eq!(cli(true, false).validate_flag_combinations(), Ok(()));
    assert_eq!(cli(false, true).validate_flag_combinations(), Ok(()));
    assert_eq!(cli(false, false).validate_flag_combinations(), Ok(()));
}
