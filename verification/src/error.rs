//! Errors reported by the library, and the exit-code contract they map onto.
use vstd::prelude::*;
use crate::text::{decimal, decimal_string, signed_decimal, signed_decimal_string};

verus! {

/// A single field-level validation problem found while checking a config.
///
/// Validation always runs to completion and collects every problem
/// instead of stopping at the first one, so callers can report all of them
/// at once.
#[derive(Debug, Clone, PartialEq, Eq)]
pub struct ValidationError {
    pub field: String,
    pub message: String,
}

/// What a [`ValidationError`] says, as plain text.
pub struct Problem {
    pub field: Seq<char>,
    pub message: Seq<char>,
}

impl View for ValidationError {
    type V = Problem;

    open spec fn view(&self) -> Problem {
        Problem { field: self.field@, message: self.message@ }
    }
}

/// The problem with the given field and message.
pub open spec fn problem(field: Seq<char>, message: Seq<char>) -> Problem {
    Problem { field, message }
}

/// The views of a sequence of validation errors.
pub open spec fn problems_of(v: Seq<ValidationError>) -> Seq<Problem> {
    v.map_values(|e: ValidationError| e@)
}

pub proof fn lemma_problems_push(v: Seq<ValidationError>, e: ValidationError)
    ensures
        problems_of(v.push(e)) == problems_of(v).push(e@),
{
    assert(problems_of(v.push(e)) =~= problems_of(v).push(e@));
}

impl ValidationError {
    pub fn new(field: String, message: String) -> (res: Self)
        ensures
            res.field == field,
            res.message == message,
    {
        ValidationError { field, message }
    }
}

/// Every problem found in one config file.
#[derive(Debug, Clone, PartialEq, Eq)]
pub struct ValidationErrors(pub Vec<ValidationError>);

/// Errors that can occur while locating, reading, parsing, or validating a
/// `forja.toml`, while running an external command, or when a flow refuses
/// to go on because a safety precondition does not hold.
#[derive(Debug, Clone, PartialEq, Eq)]
pub enum ForjaError {
    ConfigNotFound { path: String },
    Io { path: String, message: String },
    TomlParse { path: String, message: String },
    Validation { path: String, errors: ValidationErrors },
    CommandSpawn { program: String, message: String },
    ConfigAlreadyExists { path: String },
    CommandFailed { command: String, stderr: String, exit_code: Option<i32> },
    NotAGitRepository,
    DirtyWorkingTree { files: Vec<String> },
    ProtectedBranch { branch: String },
    BaseBranchNotDetected,
    RebaseConflict { base: String },
}

/// The exit code of each error: 1 for a failed external command, 2 for a
/// config or usage error, 3 for a missing dependency, 4 for a flow that
/// refused to go on because a safety precondition did not hold.
pub open spec fn exit_code_of(e: ForjaError) -> i32 {
    match e {
        ForjaError::ConfigNotFound { .. } => 2,
        ForjaError::Io { .. } => 2,
        ForjaError::TomlParse { .. } => 2,
        ForjaError::Validation { .. } => 2,
        ForjaError::ConfigAlreadyExists { .. } => 2,
        ForjaError::CommandSpawn { .. } => 3,
        ForjaError::CommandFailed { .. } => 1,
        ForjaError::NotAGitRepository => 4,
        ForjaError::DirtyWorkingTree { .. } => 4,
        ForjaError::ProtectedBranch { .. } => 4,
        ForjaError::BaseBranchNotDetected => 4,
        ForjaError::RebaseConflict { .. } => 4,
    }
}

/// What a [`ForjaError`] says, as plain values.
pub enum Failure {
    ConfigNotFound { path: Seq<char> },
    Io { path: Seq<char>, message: Seq<char> },
    TomlParse { path: Seq<char>, message: Seq<char> },
    Validation { path: Seq<char>, problems: Seq<Problem> },
    CommandSpawn { program: Seq<char>, message: Seq<char> },
    ConfigAlreadyExists { path: Seq<char> },
    CommandFailed { command: Seq<char>, stderr: Seq<char>, exit_code: Option<i32> },
    NotAGitRepository,
    DirtyWorkingTree { files: Seq<Seq<char>> },
    ProtectedBranch { branch: Seq<char> },
    BaseBranchNotDetected,
    RebaseConflict { base: Seq<char> },
}

impl View for ForjaError {
    type V = Failure;

    open spec fn view(&self) -> Failure {
        match self {
            ForjaError::ConfigNotFound { path } => Failure::ConfigNotFound { path: path@ },
            ForjaError::Io { path, message } => Failure::Io { path: path@, message: message@ },
            ForjaError::TomlParse { path, message } => Failure::TomlParse {
                path: path@,
                message: message@,
            },
            ForjaError::Validation { path, errors } => Failure::Validation {
                path: path@,
                problems: problems_of(errors.0@),
            },
            ForjaError::CommandSpawn { program, message } => Failure::CommandSpawn {
                program: program@,
                message: message@,
            },
            ForjaError::ConfigAlreadyExists { path } => Failure::ConfigAlreadyExists { path: path@ },
            ForjaError::CommandFailed { command, stderr, exit_code } => Failure::CommandFailed {
                command: command@,
                stderr: stderr@,
                exit_code: *exit_code,
            },
            ForjaError::NotAGitRepository => Failure::NotAGitRepository,
            ForjaError::DirtyWorkingTree { files } => Failure::DirtyWorkingTree {
                files: crate::text::views(files@),
            },
            ForjaError::ProtectedBranch { branch } => Failure::ProtectedBranch { branch: branch@ },
            ForjaError::BaseBranchNotDetected => Failure::BaseBranchNotDetected,
            ForjaError::RebaseConflict { base } => Failure::RebaseConflict { base: base@ },
        }
    }
}

/// A copy of a list of strings.
pub fn copy_strings(v: &Vec<String>) -> (res: Vec<String>)
    ensures
        crate::text::views(res@) == crate::text::views(v@),
{
    let mut res: Vec<String> = Vec::new();
    for i in 0..v.len()
        invariant
            crate::text::views(res@) == crate::text::views(v@).take(i as int),
    {
        let s = v[i].clone();
        proof {
            crate::text::lemma_views_push(res@, s);
            assert(crate::text::views(v@).take(i + 1) =~= crate::text::views(v@).take(i as int).push(
                v@[i as int]@,
            ));
        }
        res.push(s);
    }
    assert(crate::text::views(v@).take(v.len() as int) =~= crate::text::views(v@));
    res
}

/// A copy of a list of validation errors.
pub fn copy_problems(v: &Vec<ValidationError>) -> (res: Vec<ValidationError>)
    ensures
        problems_of(res@) == problems_of(v@),
{
    let mut res: Vec<ValidationError> = Vec::new();
    for i in 0..v.len()
        invariant
            problems_of(res@) == problems_of(v@).take(i as int),
    {
        let e = ValidationError::new(v[i].field.clone(), v[i].message.clone());
        proof {
            lemma_problems_push(res@, e);
            assert(problems_of(v@).take(i + 1) =~= problems_of(v@).take(i as int).push(v@[i as int]@));
        }
        res.push(e);
    }
    assert(problems_of(v@).take(v.len() as int) =~= problems_of(v@));
    res
}

impl ForjaError {
    /// A copy of this error.
    pub fn copy(&self) -> (res: ForjaError)
        ensures
            res@ == self@,
    {
        match self {
            ForjaError::ConfigNotFound { path } => ForjaError::ConfigNotFound { path: path.clone() },
            ForjaError::Io { path, message } => ForjaError::Io {
                path: path.clone(),
                message: message.clone(),
            },
            ForjaError::TomlParse { path, message } => ForjaError::TomlParse {
                path: path.clone(),
                message: message.clone(),
            },
            ForjaError::Validation { path, errors } => ForjaError::Validation {
                path: path.clone(),
                errors: ValidationErrors(copy_problems(&errors.0)),
            },
            ForjaError::CommandSpawn { program, message } => ForjaError::CommandSpawn {
                program: program.clone(),
                message: message.clone(),
            },
            ForjaError::ConfigAlreadyExists { path } => ForjaError::ConfigAlreadyExists {
                path: path.clone(),
            },
            ForjaError::CommandFailed { command, stderr, exit_code } => ForjaError::CommandFailed {
                command: command.clone(),
                stderr: stderr.clone(),
                exit_code: *exit_code,
            },
            ForjaError::NotAGitRepository => ForjaError::NotAGitRepository,
            ForjaError::DirtyWorkingTree { files } => ForjaError::DirtyWorkingTree {
                files: copy_strings(files),
            },
            ForjaError::ProtectedBranch { branch } => ForjaError::ProtectedBranch {
                branch: branch.clone(),
            },
            ForjaError::BaseBranchNotDetected => ForjaError::BaseBranchNotDetected,
            ForjaError::RebaseConflict { base } => ForjaError::RebaseConflict { base: base.clone() },
        }
    }

    /// Maps this error onto the command-line exit-code contract.
    pub fn exit_code(&self) -> (res: i32)
        ensures
            res == exit_code_of(*self),
    {
        match self {
            ForjaError::ConfigNotFound { .. } => 2,
            ForjaError::Io { .. } => 2,
            ForjaError::TomlParse { .. } => 2,
            ForjaError::Validation { .. } => 2,
            ForjaError::ConfigAlreadyExists { .. } => 2,
            ForjaError::CommandSpawn { .. } => 3,
            ForjaError::CommandFailed { .. } => 1,
            ForjaError::NotAGitRepository => 4,
            ForjaError::DirtyWorkingTree { .. } => 4,
            ForjaError::ProtectedBranch { .. } => 4,
            ForjaError::BaseBranchNotDetected => 4,
            ForjaError::RebaseConflict { .. } => 4,
        }
    }
}


/// `field: message`.
pub open spec fn problem_text(p: Problem) -> Seq<char> {
    p.field + ": "@ + p.message
}

/// One `  - field: message` line per problem, separated by newlines.
pub open spec fn problem_lines(ps: Seq<Problem>) -> Seq<char>
    decreases ps.len(),
{
    if ps.len() == 0 {
        seq![]
    } else if ps.len() == 1 {
        "  - "@ + problem_text(ps[0])
    } else {
        problem_lines(ps.drop_last()) + "\n"@ + "  - "@ + problem_text(ps.last())
    }
}

/// `N problem(s) found:` followed by one line per problem.
pub open spec fn problems_text(ps: Seq<Problem>) -> Seq<char> {
    decimal(ps.len()) + " problem(s) found:\n"@ + problem_lines(ps)
}

impl ValidationError {
    /// The problem as text: `field: message`.
    pub fn describe(&self) -> (res: String)
        ensures
            res@ == problem_text(self@),
    {
        let mut s = self.field.clone();
        s.append(": ");
        s.append(self.message.as_str());
        s
    }
}

impl ValidationErrors {
    /// Every problem as text: a count, then one line per problem.
    pub fn describe(&self) -> (res: String)
        ensures
            res@ == problems_text(problems_of(self.0@)),
    {
        let ghost ps = problems_of(self.0@);
        let mut s = decimal_string(self.0.len() as u64);
        s.append(" problem(s) found:\n");
        let ghost head = s@;
        for i in 0..self.0.len()
            invariant
                ps == problems_of(self.0@),
                s@ == head + problem_lines(ps.take(i as int)),
        {
            proof {
                assert(ps.take(i + 1).drop_last() =~= ps.take(i as int));
                assert(ps.take(i + 1).last() == self.0@[i as int]@);
            }
            if i > 0 {
                s.append("\n");
            }
            s.append("  - ");
            s.append(self.0[i].describe().as_str());
            proof {
                if i == 0 {
                    assert(ps.take(1) =~= seq![ps[0]]);
                    assert(head + problem_lines(ps.take(0)) =~= head);
                }
                assert(s@ =~= head + problem_lines(ps.take(i + 1)));
            }
        }
        assert(ps.take(self.0.len() as int) =~= ps);
        s
    }
}

/// `{:?}` of an optional exit code: `Some(N)` or `None`.
pub open spec fn exit_code_text(c: Option<i32>) -> Seq<char> {
    match c {
        Some(n) => "Some("@ + signed_decimal(n as int) + ")"@,
        None => "None"@,
    }
}

/// The message shown for an error: what failed, why, and what to do.
pub open spec fn failure_text(e: Failure) -> Seq<char> {
    match e {
        Failure::ConfigNotFound { path } => "config file not found: "@ + path
            + "\n\nrun `forja init` to create one, or pass --config <path> to point at an existing file"@,
        Failure::Io { path, message } => "could not read config file "@ + path + ": "@ + message,
        Failure::TomlParse { path, message } => "config file "@ + path + " is not valid TOML:\n"@
            + message,
        Failure::Validation { path, problems } => "config file "@ + path + " has "@ + problems_text(
            problems,
        ),
        Failure::CommandSpawn { program, message } => "failed to run `"@ + program + "`: "@ + message
            + "\n\nis it installed and on your PATH?"@,
        Failure::ConfigAlreadyExists { path } => "config file already exists: "@ + path
            + "\n\npass --force to overwrite it"@,
        Failure::CommandFailed { command, stderr, exit_code } => "command failed: `"@ + command
            + "` (exit "@ + exit_code_text(exit_code) + ")\n"@ + stderr,
        Failure::NotAGitRepository => "not inside a git repository\n\nrun forja from within a git work tree"@,
        Failure::DirtyWorkingTree { files } => "working tree is dirty ("@ + decimal(files.len())
            + " file(s) changed)\n\nAborted before any changes. Commit or stash your changes:\n  git stash push -m \"wip\""@,
        Failure::ProtectedBranch { branch } => "branch "@ + branch
            + " is protected\n\nAborted before any changes. Switch to a feature branch to sync it."@,
        Failure::BaseBranchNotDetected => "could not determine the base branch: origin/HEAD is not set\n\nset base_branch in the [flow] section, or run `git remote set-head origin --auto`"@,
        Failure::RebaseConflict { base } => "conflict while integrating "@ + base
            + "\n\nThe repository was left as git left it. Resolve the conflict and run `git rebase --continue`, or undo with `git rebase --abort`."@,
    }
}

impl ForjaError {
    /// The message shown for this error (see [`failure_text`]).
    pub fn message(&self) -> (res: String)
        ensures
            res@ == failure_text(self@),
    {
        let mut s: String;
        match self {
            ForjaError::ConfigNotFound { path } => {
                s = "config file not found: ".to_owned();
                s.append(path.as_str());
                s.append("\n\nrun `forja init` to create one, or pass --config <path> to point at an existing file");
            },
            ForjaError::Io { path, message } => {
                s = "could not read config file ".to_owned();
                s.append(path.as_str());
                s.append(": ");
                s.append(message.as_str());
            },
            ForjaError::TomlParse { path, message } => {
                s = "config file ".to_owned();
                s.append(path.as_str());
                s.append(" is not valid TOML:\n");
                s.append(message.as_str());
            },
            ForjaError::Validation { path, errors } => {
                s = "config file ".to_owned();
                s.append(path.as_str());
                s.append(" has ");
                s.append(errors.describe().as_str());
            },
            ForjaError::CommandSpawn { program, message } => {
                s = "failed to run `".to_owned();
                s.append(program.as_str());
                s.append("`: ");
                s.append(message.as_str());
                s.append("\n\nis it installed and on your PATH?");
            },
            ForjaError::ConfigAlreadyExists { path } => {
                s = "config file already exists: ".to_owned();
                s.append(path.as_str());
                s.append("\n\npass --force to overwrite it");
            },
            ForjaError::CommandFailed { command, stderr, exit_code } => {
                s = "command failed: `".to_owned();
                s.append(command.as_str());
                s.append("` (exit ");
                match exit_code {
                    Some(n) => {
                        s.append("Some(");
                        s.append(signed_decimal_string(*n as i64).as_str());
                        s.append(")");
                    },
                    None => {
                        s.append("None");
                    },
                }
                s.append(")\n");
                s.append(stderr.as_str());
            },
            ForjaError::NotAGitRepository => {
                s = "not inside a git repository\n\nrun forja from within a git work tree".to_owned();
            },
            ForjaError::DirtyWorkingTree { files } => {
                s = "working tree is dirty (".to_owned();
                s.append(decimal_string(files.len() as u64).as_str());
                s.append(" file(s) changed)\n\nAborted before any changes. Commit or stash your changes:\n  git stash push -m \"wip\"");
            },
            ForjaError::ProtectedBranch { branch } => {
                s = "branch ".to_owned();
                s.append(branch.as_str());
                s.append(" is protected\n\nAborted before any changes. Switch to a feature branch to sync it.");
            },
            ForjaError::BaseBranchNotDetected => {
                s = "could not determine the base branch: origin/HEAD is not set\n\nset base_branch in the [flow] section, or run `git remote set-head origin --auto`".to_owned();
            },
            ForjaError::RebaseConflict { base } => {
                s = "conflict while integrating ".to_owned();
                s.append(base.as_str());
                s.append("\n\nThe repository was left as git left it. Resolve the conflict and run `git rebase --continue`, or undo with `git rebase --abort`.");
            },
        }
        s
    }
}

/// The exit-code contract: 4 exactly for a flow that refused to go on
/// because a safety precondition did not hold, 2 exactly for a config or
/// usage error, 3 exactly for a command that could not be run, 1 exactly
/// for a command that ran and failed.
pub proof fn law_exit_codes(e: ForjaError)
    ensures
        (e is NotAGitRepository || e is DirtyWorkingTree || e is ProtectedBranch
            || e is BaseBranchNotDetected || e is RebaseConflict) <==> exit_code_of(e) == 4,
        (e is ConfigNotFound || e is Io || e is TomlParse || e is Validation
            || e is ConfigAlreadyExists) <==> exit_code_of(e) == 2,
        e is CommandSpawn <==> exit_code_of(e) == 3,
        e is CommandFailed <==> exit_code_of(e) == 1,
{
}

} // verus!
