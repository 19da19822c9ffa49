//! `forja sync`: checks that the repository may be synced, then fetches,
//! integrates the base branch, and pushes.
//!
//! Each flow is a function from the outcomes of the commands it has run so
//! far to what it does next (run one more command, or finish); a driver
//! feeds it the outcomes that a [`CommandRunner`] gives.
use vstd::prelude::*;
use crate::config::{FlowConfig, FlowSettings, Strategy};
use crate::error::{Failure, ForjaError};
use crate::exec::{
    CommandLine, CommandOutcome, CommandRequest, CommandRunner, Next, RunResult, Step,
    command_failed, lemma_exchange_asked, exchanges, followed, lemma_exchanges_push, command_line,
    errs, failed_command, git, result_view, succeeded, text_result,
};
use crate::text::{
    lemma_nonblank_trimmed_empty, lemma_substring_in_left, lemma_substring_in_right, lemma_substring_self,
    has_substring, lines, nonblank_lines, nonblank_trimmed, same_text, strip_prefix, text_contains,
    trim, trimmed, views, without_prefix,
};

verus! {

/// The request `git rev-parse --is-inside-work-tree`.
pub open spec fn repo_line() -> CommandLine {
    git(seq!["rev-parse"@, "--is-inside-work-tree"@])
}

pub fn repo_request() -> (res: CommandRequest)
    ensures
        res@ == repo_line(),
{
    let r = CommandRequest::new("git", &["rev-parse", "--is-inside-work-tree"]);
    assert(r@.args =~= repo_line().args);
    r
}


/// The plan that [`plan_sync`] computes: the branch to sync, the base branch
/// as a plain name (`"main"`, never `"origin/main"`), how to integrate it,
/// and whether to push afterwards.
#[derive(Debug, Clone, PartialEq, Eq)]
pub struct SyncPlan {
    pub current_branch: String,
    pub base_branch: String,
    pub strategy: Strategy,
    pub will_push: bool,
}

/// [`SyncPlan`] as plain values.
pub struct SyncPlanView {
    pub current_branch: Seq<char>,
    pub base_branch: Seq<char>,
    pub strategy: Strategy,
    pub will_push: bool,
}

impl View for SyncPlan {
    type V = SyncPlanView;

    open spec fn view(&self) -> SyncPlanView {
        SyncPlanView {
            current_branch: self.current_branch@,
            base_branch: self.base_branch@,
            strategy: self.strategy,
            will_push: self.will_push,
        }
    }
}

/// What [`execute_sync`] did.
#[derive(Debug, Clone, PartialEq, Eq)]
pub struct SyncOutcome {
    pub base_branch: String,
    pub current_branch: String,
    pub pushed: bool,
}

/// [`SyncOutcome`] as plain values.
pub struct SyncOutcomeView {
    pub base_branch: Seq<char>,
    pub current_branch: Seq<char>,
    pub pushed: bool,
}

impl View for SyncOutcome {
    type V = SyncOutcomeView;

    open spec fn view(&self) -> SyncOutcomeView {
        SyncOutcomeView {
            base_branch: self.base_branch@,
            current_branch: self.current_branch@,
            pushed: self.pushed,
        }
    }
}

/// The request `git status --porcelain`.
pub open spec fn status_line() -> CommandLine {
    git(seq!["status"@, "--porcelain"@])
}

/// The request `git rev-parse --abbrev-ref HEAD`.
pub open spec fn head_line() -> CommandLine {
    git(seq!["rev-parse"@, "--abbrev-ref"@, "HEAD"@])
}

/// The request `git symbolic-ref --short refs/remotes/origin/HEAD`.
pub open spec fn origin_head_line() -> CommandLine {
    git(seq!["symbolic-ref"@, "--short"@, "refs/remotes/origin/HEAD"@])
}

pub fn status_request() -> (res: CommandRequest)
    ensures
        res@ == status_line(),
{
    let r = CommandRequest::new("git", &["status", "--porcelain"]);
    assert(r@.args =~= status_line().args);
    r
}

pub fn head_request() -> (res: CommandRequest)
    ensures
        res@ == head_line(),
{
    let r = CommandRequest::new("git", &["rev-parse", "--abbrev-ref", "HEAD"]);
    assert(r@.args =~= head_line().args);
    r
}

pub fn origin_head_request() -> (res: CommandRequest)
    ensures
        res@ == origin_head_line(),
{
    let r = CommandRequest::new("git", &["symbolic-ref", "--short", "refs/remotes/origin/HEAD"]);
    assert(r@.args =~= origin_head_line().args);
    r
}

/// Inside a work tree: `git rev-parse --is-inside-work-tree` succeeded and
/// printed `true`.
pub open spec fn repo_check(r: RunResult) -> Result<(), Failure> {
    match r {
        Err(e) => Err(e@),
        Ok(o) => if succeeded(o) && trim(o.stdout@) == "true"@ {
            Ok(())
        } else {
            Err(Failure::NotAGitRepository)
        },
    }
}

/// The files that `git status --porcelain` lists: its non-blank lines, trimmed.
pub open spec fn porcelain_files(o: CommandOutcome) -> Seq<Seq<char>> {
    nonblank_trimmed(lines(o.stdout@))
}

/// A clean work tree: `git status --porcelain` lists no file.
pub open spec fn clean_check(r: RunResult) -> Result<(), Failure> {
    match r {
        Err(e) => Err(e@),
        Ok(o) => if porcelain_files(o).len() > 0 {
            Err(Failure::DirtyWorkingTree { files: porcelain_files(o) })
        } else {
            Ok(())
        },
    }
}

/// The current branch, as `git rev-parse --abbrev-ref HEAD` prints it.
pub open spec fn branch_check(r: RunResult) -> Result<Seq<char>, Failure> {
    match r {
        Err(e) => Err(e@),
        Ok(o) => if succeeded(o) {
            Ok(trim(o.stdout@))
        } else {
            Err(Failure::NotAGitRepository)
        },
    }
}

/// `s` without a leading `origin/`.
pub open spec fn without_origin(s: Seq<char>) -> Seq<char> {
    match strip_prefix(s, "origin/"@) {
        Some(rest) => rest,
        None => s,
    }
}

/// The remote's default branch, from `git symbolic-ref --short
/// refs/remotes/origin/HEAD`, as a plain name.
pub open spec fn base_check(r: RunResult) -> Result<Seq<char>, Failure> {
    match r {
        Err(e) => Err(e@),
        Ok(o) => if succeeded(o) {
            Ok(without_origin(trim(o.stdout@)))
        } else {
            Err(Failure::BaseBranchNotDetected)
        },
    }
}

/// The plan for `current` onto `base`, with the strategy and push setting of `flow`.
pub open spec fn sync_plan_of(flow: FlowSettings, current: Seq<char>, base: Seq<char>) -> SyncPlanView {
    SyncPlanView {
        current_branch: current,
        base_branch: base,
        strategy: flow.strategy,
        will_push: flow.auto_push,
    }
}

/// What planning a sync does after the commands it ran gave `rs`, in order:
/// check for a repository, check for a clean work tree, read the current
/// branch and refuse a protected one, then take the base branch from the
/// config or, failing that, from `origin/HEAD`. Nothing is changed by any of
/// these commands.
pub open spec fn plan_sync_next(flow: FlowSettings, rs: Seq<RunResult>) -> Next<SyncPlanView> {
    if rs.len() == 0 {
        Next::Run(repo_line())
    } else {
        match repo_check(rs[0]) {
            Err(e) => Next::Done(Err(e)),
            Ok(_) => if rs.len() == 1 {
                Next::Run(status_line())
            } else {
                match clean_check(rs[1]) {
                    Err(e) => Next::Done(Err(e)),
                    Ok(_) => if rs.len() == 2 {
                        Next::Run(head_line())
                    } else {
                        match branch_check(rs[2]) {
                            Err(e) => Next::Done(Err(e)),
                            Ok(current) => if flow.protected_branches.contains(current) {
                                Next::Done(Err(Failure::ProtectedBranch { branch: current }))
                            } else {
                                match flow.base_branch {
                                    Some(base) => Next::Done(Ok(sync_plan_of(flow, current, base))),
                                    None => if rs.len() == 3 {
                                        Next::Run(origin_head_line())
                                    } else {
                                        match base_check(rs[3]) {
                                            Err(e) => Next::Done(Err(e)),
                                            Ok(base) => Next::Done(Ok(sync_plan_of(flow, current, base))),
                                        }
                                    },
                                }
                            },
                        }
                    },
                }
            },
        }
    }
}

pub fn ensure_git_repo(r: &RunResult) -> (res: Result<(), ForjaError>)
    ensures
        errs(res) == repo_check(*r),
{
    match r {
        Err(e) => Err(e.copy()),
        Ok(o) => {
            let t = trimmed(o.stdout.as_str());
            if o.success() && same_text(t.as_str(), "true") {
                Ok(())
            } else {
                Err(ForjaError::NotAGitRepository)
            }
        },
    }
}

pub fn ensure_clean_tree(r: &RunResult) -> (res: Result<(), ForjaError>)
    ensures
        errs(res) == clean_check(*r),
{
    match r {
        Err(e) => Err(e.copy()),
        Ok(o) => {
            let files = nonblank_lines(o.stdout.as_str());
            if files.len() > 0 {
                Err(ForjaError::DirtyWorkingTree { files })
            } else {
                Ok(())
            }
        },
    }
}

pub fn current_branch(r: &RunResult) -> (res: Result<String, ForjaError>)
    ensures
        text_result(res) == branch_check(*r),
{
    match r {
        Err(e) => Err(e.copy()),
        Ok(o) => if o.success() {
            Ok(trimmed(o.stdout.as_str()))
        } else {
            Err(ForjaError::NotAGitRepository)
        },
    }
}

/// Refuses a branch listed in `protected`.
pub fn ensure_not_protected(branch: &str, protected: &Vec<String>) -> (res: Result<(), ForjaError>)
    ensures
        match res {
            Ok(_) => !views(protected@).contains(branch@),
            Err(e) => views(protected@).contains(branch@) && e@ == Failure::ProtectedBranch {
                branch: branch@,
            },
        },
{
    for i in 0..protected.len()
        invariant
            forall|j: int| 0 <= j < i ==> views(protected@)[j] != branch@,
    {
        if same_text(protected[i].as_str(), branch) {
            assert(views(protected@)[i as int] == branch@);
            return Err(ForjaError::ProtectedBranch { branch: branch.to_owned() });
        }
    }
    Ok(())
}

pub fn detect_base_branch(r: &RunResult) -> (res: Result<String, ForjaError>)
    ensures
        text_result(res) == base_check(*r),
{
    match r {
        Err(e) => Err(e.copy()),
        Ok(o) => if o.success() {
            let t = trimmed(o.stdout.as_str());
            Ok(without_prefix(t.as_str(), "origin/"))
        } else {
            Err(ForjaError::BaseBranchNotDetected)
        },
    }
}

/// What planning a sync does next, given the outcomes of the commands it
/// has run so far (see [`plan_sync_next`]).
pub fn plan_sync_step(flow: &FlowConfig, responses: &Vec<RunResult>) -> (res: Step<SyncPlan>)
    ensures
        res@ == plan_sync_next(flow@, responses@),
{
    if responses.len() == 0 {
        return Step::Run(repo_request());
    }
    if let Err(e) = ensure_git_repo(&responses[0]) {
        return Step::Done(Err(e));
    }
    if responses.len() == 1 {
        return Step::Run(status_request());
    }
    if let Err(e) = ensure_clean_tree(&responses[1]) {
        return Step::Done(Err(e));
    }
    if responses.len() == 2 {
        return Step::Run(head_request());
    }
    let current = match current_branch(&responses[2]) {
        Err(e) => return Step::Done(Err(e)),
        Ok(c) => c,
    };
    if let Err(e) = ensure_not_protected(current.as_str(), &flow.protected_branches) {
        return Step::Done(Err(e));
    }
    let base = match &flow.base_branch {
        Some(b) => b.clone(),
        None => {
            if responses.len() == 3 {
                return Step::Run(origin_head_request());
            }
            match detect_base_branch(&responses[3]) {
                Err(e) => return Step::Done(Err(e)),
                Ok(b) => b,
            }
        },
    };
    Step::Done(Ok(SyncPlan { current_branch: current, base_branch: base, strategy: flow.strategy, will_push: flow.auto_push }))
}

pub proof fn lemma_plan_sync_finishes(flow: FlowSettings, rs: Seq<RunResult>)
    requires
        rs.len() >= 4,
    ensures
        plan_sync_next(flow, rs) is Done,
{
}

/// [`plan_sync_next`] for `flow`, as a function of the outcomes so far.
pub open spec fn plan_sync_steps(flow: FlowSettings) -> spec_fn(Seq<RunResult>) -> Next<SyncPlanView> {
    |rs: Seq<RunResult>| plan_sync_next(flow, rs)
}

/// Runs every precondition of a sync, in order, without changing anything.
/// Any failure means `sync` stops before touching the repository at all.
/// What reaches `runner` is exactly the exchanges of one run of
/// [`plan_sync_next`]: its log grows by each command the flow asks for after
/// the outcomes before it, with its outcome, and by nothing else. The
/// result is what [`plan_sync_next`] gives at the end of that run.
pub fn plan_sync<R: CommandRunner + ?Sized>(flow: &FlowConfig, runner: &mut R) -> (res: Result<SyncPlan, ForjaError>)
    ensures
        exists|rs: Seq<RunResult>|
            #[trigger] plan_sync_next(flow@, rs) == Next::Done(result_view(res)) && followed(plan_sync_steps(flow@), rs)
                && final(runner).log() == old(runner).log() + exchanges(plan_sync_steps(flow@), rs),
{
    let mut responses: Vec<RunResult> = Vec::new();
    loop
        invariant
            responses.len() <= 4,
            followed(plan_sync_steps(flow@), responses@),
            runner.log() == old(runner).log() + exchanges(plan_sync_steps(flow@), responses@),
        decreases 4 - responses.len(),
    {
        let step = plan_sync_step(flow, &responses);
        match step {
            Step::Run(request) => {
                proof {
                    if responses.len() >= 4 {
                        lemma_plan_sync_finishes(flow@, responses@);
                    }
                }
                let outcome = runner.run(&request);
                proof {
                    assert(plan_sync_steps(flow@)(responses@) == Next::<SyncPlanView>::Run(request@));
                    lemma_exchanges_push(plan_sync_steps(flow@), responses@, outcome);
                    assert(runner.log() =~= old(runner).log() + exchanges(plan_sync_steps(flow@), responses@.push(outcome)));
                }
                responses.push(outcome);
            },
            Step::Done(res) => {
                assert(plan_sync_next(flow@, responses@) == Next::Done(result_view(res)));
                return res;
            },
        }
    }
}


/// The git subcommand that integrates the base branch.
pub open spec fn integrate_word(s: Strategy) -> Seq<char> {
    match s {
        Strategy::Rebase => "rebase"@,
        Strategy::Merge => "merge"@,
    }
}

/// `origin/<base>`.
pub open spec fn base_ref(plan: SyncPlanView) -> Seq<char> {
    "origin/"@ + plan.base_branch
}

/// The request `git fetch origin`.
pub open spec fn fetch_line() -> CommandLine {
    git(seq!["fetch"@, "origin"@])
}

/// The request `git rebase origin/<base>` (or `merge`).
pub open spec fn integrate_line(plan: SyncPlanView) -> CommandLine {
    git(seq![integrate_word(plan.strategy), base_ref(plan)])
}

/// The request `git push --force-with-lease origin <current>`.
pub open spec fn push_line(plan: SyncPlanView) -> CommandLine {
    git(seq!["push"@, "--force-with-lease"@, "origin"@, plan.current_branch])
}

/// Output that reports a merge conflict.
pub open spec fn reports_conflict(o: CommandOutcome) -> bool {
    has_substring(o.stdout@, "CONFLICT"@) || has_substring(o.stderr@, "CONFLICT"@)
}

/// The outcome of a sync that went through.
pub open spec fn synced(plan: SyncPlanView) -> SyncOutcomeView {
    SyncOutcomeView {
        base_branch: plan.base_branch,
        current_branch: plan.current_branch,
        pushed: plan.will_push,
    }
}

/// What executing a sync plan does after the commands it ran gave `rs`:
/// fetch, integrate the base branch, push if the plan says so. A failed
/// integration that reports a conflict stops with the repository left as
/// git left it; nothing tries to resolve or abort it.
pub open spec fn execute_sync_next(plan: SyncPlanView, rs: Seq<RunResult>) -> Next<SyncOutcomeView> {
    if rs.len() == 0 {
        Next::Run(fetch_line())
    } else {
        match rs[0] {
            Err(e) => Next::Done(Err(e@)),
            Ok(f) => if !succeeded(f) {
                Next::Done(Err(command_failed("git fetch origin"@, f)))
            } else if rs.len() == 1 {
                Next::Run(integrate_line(plan))
            } else {
                match rs[1] {
                    Err(e) => Next::Done(Err(e@)),
                    Ok(i) => if !succeeded(i) {
                        if reports_conflict(i) {
                            Next::Done(Err(Failure::RebaseConflict { base: base_ref(plan) }))
                        } else {
                            Next::Done(
                                Err(
                                    command_failed(
                                        "git "@ + integrate_word(plan.strategy) + " "@ + base_ref(plan),
                                        i,
                                    ),
                                ),
                            )
                        }
                    } else if !plan.will_push {
                        Next::Done(Ok(synced(plan)))
                    } else if rs.len() == 2 {
                        Next::Run(push_line(plan))
                    } else {
                        match rs[2] {
                            Err(e) => Next::Done(Err(e@)),
                            Ok(p) => if !succeeded(p) {
                                Next::Done(
                                    Err(
                                        command_failed(
                                            "git push --force-with-lease origin "@ + plan.current_branch,
                                            p,
                                        ),
                                    ),
                                )
                            } else {
                                Next::Done(Ok(synced(plan)))
                            },
                        }
                    },
                }
            },
        }
    }
}

fn looks_like_a_conflict(o: &CommandOutcome) -> (res: bool)
    ensures
        res == reports_conflict(*o),
{
    text_contains(o.stdout.as_str(), "CONFLICT") || text_contains(o.stderr.as_str(), "CONFLICT")
}

fn integrate_subcommand(s: Strategy) -> (res: &'static str)
    ensures
        res@ == integrate_word(s),
{
    match s {
        Strategy::Rebase => "rebase",
        Strategy::Merge => "merge",
    }
}

fn base_ref_of(plan: &SyncPlan) -> (res: String)
    ensures
        res@ == base_ref(plan@),
{
    let mut r = "origin/".to_owned();
    r.append(plan.base_branch.as_str());
    r
}

/// What executing a sync plan does next, given the outcomes of the commands
/// it has run so far (see [`execute_sync_next`]).
pub fn execute_sync_step(plan: &SyncPlan, responses: &Vec<RunResult>) -> (res: Step<SyncOutcome>)
    ensures
        res@ == execute_sync_next(plan@, responses@),
{
    if responses.len() == 0 {
        let r = CommandRequest::new("git", &["fetch", "origin"]);
        assert(r@.args =~= fetch_line().args);
        return Step::Run(r);
    }
    match &responses[0] {
        Err(e) => return Step::Done(Err(e.copy())),
        Ok(f) => if !f.success() {
            return Step::Done(Err(failed_command("git fetch origin".to_owned(), f)));
        },
    }
    let word = integrate_subcommand(plan.strategy);
    let base = base_ref_of(plan);
    if responses.len() == 1 {
        let r = CommandRequest::new("git", &[word, base.as_str()]);
        assert(r@.args =~= integrate_line(plan@).args);
        return Step::Run(r);
    }
    match &responses[1] {
        Err(e) => return Step::Done(Err(e.copy())),
        Ok(i) => if !i.success() {
            if looks_like_a_conflict(i) {
                return Step::Done(Err(ForjaError::RebaseConflict { base }));
            }
            let mut command = "git ".to_owned();
            command.append(word);
            command.append(" ");
            command.append(base.as_str());
            return Step::Done(Err(failed_command(command, i)));
        },
    }
    let outcome = SyncOutcome {
        base_branch: plan.base_branch.clone(),
        current_branch: plan.current_branch.clone(),
        pushed: plan.will_push,
    };
    if !plan.will_push {
        return Step::Done(Ok(outcome));
    }
    if responses.len() == 2 {
        let r = CommandRequest::new(
            "git",
            &["push", "--force-with-lease", "origin", plan.current_branch.as_str()],
        );
        assert(r@.args =~= push_line(plan@).args);
        return Step::Run(r);
    }
    match &responses[2] {
        Err(e) => Step::Done(Err(e.copy())),
        Ok(p) => if !p.success() {
            let mut command = "git push --force-with-lease origin ".to_owned();
            command.append(plan.current_branch.as_str());
            Step::Done(Err(failed_command(command, p)))
        } else {
            Step::Done(Ok(outcome))
        },
    }
}

/// [`execute_sync_next`] for `plan`, as a function of the outcomes so far.
pub open spec fn execute_sync_steps(plan: SyncPlanView) -> spec_fn(Seq<RunResult>) -> Next<SyncOutcomeView> {
    |rs: Seq<RunResult>| execute_sync_next(plan, rs)
}

/// Fetches, integrates onto the base branch, and pushes if the plan calls
/// for it. Never resolves a conflict itself: on conflict, this stops and
/// leaves the repository exactly where git left it.
/// What reaches `runner` is exactly the exchanges of one run of
/// [`execute_sync_next`]: its log grows by each command the flow asks for after
/// the outcomes before it, with its outcome, and by nothing else. The
/// result is what [`execute_sync_next`] gives at the end of that run.
pub fn execute_sync<R: CommandRunner + ?Sized>(plan: &SyncPlan, runner: &mut R) -> (res: Result<SyncOutcome, ForjaError>)
    ensures
        exists|rs: Seq<RunResult>|
            #[trigger] execute_sync_next(plan@, rs) == Next::Done(result_view(res)) && followed(execute_sync_steps(plan@), rs)
                && final(runner).log() == old(runner).log() + exchanges(execute_sync_steps(plan@), rs),
{
    let mut responses: Vec<RunResult> = Vec::new();
    loop
        invariant
            responses.len() <= 3,
            followed(execute_sync_steps(plan@), responses@),
            runner.log() == old(runner).log() + exchanges(execute_sync_steps(plan@), responses@),
        decreases 3 - responses.len(),
    {
        match execute_sync_step(plan, &responses) {
            Step::Run(request) => {
                let outcome = runner.run(&request);
                proof {
                    assert(execute_sync_steps(plan@)(responses@) == Next::<SyncOutcomeView>::Run(request@));
                    lemma_exchanges_push(execute_sync_steps(plan@), responses@, outcome);
                    assert(runner.log() =~= old(runner).log() + exchanges(execute_sync_steps(plan@), responses@.push(outcome)));
                }
                responses.push(outcome);
            },
            Step::Done(res) => {
                assert(execute_sync_next(plan@, responses@) == Next::Done(result_view(res)));
                return res;
            },
        }
    }
}


/// The line reported after a sync that went through.
pub open spec fn synced_text(o: SyncOutcomeView) -> Seq<char> {
    if o.pushed {
        o.current_branch + " synced with origin/"@ + o.base_branch + " and pushed."@
    } else {
        o.current_branch + " synced with origin/"@ + o.base_branch
            + " (not pushed — auto_push is disabled)."@
    }
}

/// The line reported after a sync that went through (see [`synced_text`]).
pub fn synced_message(o: &SyncOutcome) -> (res: String)
    ensures
        res@ == synced_text(o@),
{
    let mut s = o.current_branch.clone();
    s.append(" synced with origin/");
    s.append(o.base_branch.as_str());
    if o.pushed {
        s.append(" and pushed.");
    } else {
        s.append(" (not pushed — auto_push is disabled).");
    }
    s
}

/// The plan as `forja sync` shows it before running it: the branches, the
/// checks that passed, and each command it will run.
pub open spec fn sync_plan_text(p: SyncPlanView) -> Seq<char> {
    "Current branch: "@ + p.current_branch + "\n"@ + "Base:           origin/"@ + p.base_branch
        + "\n"@ + "\n"@ + "  ✓ working tree is clean\n"@ + "  ✓ branch is not protected\n"@
        + "  → git fetch origin\n"@ + "  → git "@ + integrate_word(p.strategy) + " origin/"@
        + p.base_branch + "\n"@ + if p.will_push {
        "  → git push --force-with-lease origin "@ + p.current_branch + "\n"@
    } else {
        seq![]
    }
}

/// The plan as `forja sync` shows it (see [`sync_plan_text`]).
pub fn render_sync_plan(plan: &SyncPlan) -> (res: String)
    ensures
        res@ == sync_plan_text(plan@),
{
    let mut s = "Current branch: ".to_owned();
    s.append(plan.current_branch.as_str());
    s.append("\n");
    s.append("Base:           origin/");
    s.append(plan.base_branch.as_str());
    s.append("\n");
    s.append("\n");
    s.append("  ✓ working tree is clean\n");
    s.append("  ✓ branch is not protected\n");
    s.append("  → git fetch origin\n");
    s.append("  → git ");
    s.append(integrate_subcommand(plan.strategy));
    s.append(" origin/");
    s.append(plan.base_branch.as_str());
    s.append("\n");
    if plan.will_push {
        s.append("  → git push --force-with-lease origin ");
        s.append(plan.current_branch.as_str());
        s.append("\n");
    }
    assert(s@ =~= sync_plan_text(plan@));
    s
}

/// Whether `forja sync` goes on to execute its plan: never on a dry run,
/// which only shows the plan.
pub fn sync_should_execute(dry_run: bool) -> (res: bool)
    ensures
        res == !dry_run,
{
    !dry_run
}

// ---------------------------------------------------------------------------
// Laws.
// ---------------------------------------------------------------------------

/// A sync plan is never made for a protected branch.
pub proof fn law_plan_never_protected(flow: FlowSettings, rs: Seq<RunResult>)
    ensures
        plan_sync_next(flow, rs) matches Next::Done(Ok(plan)) ==> !flow.protected_branches.contains(
            plan.current_branch,
        ),
{
}

/// Planning a sync only runs commands that read: it checks for a
/// repository, lists changed files, reads the current branch and reads
/// `origin/HEAD`, so any abort happens before anything is changed.
pub proof fn law_planning_only_reads(flow: FlowSettings, rs: Seq<RunResult>)
    ensures
        plan_sync_next(flow, rs) matches Next::Run(line) ==> line == repo_line() || line == status_line()
            || line == head_line() || line == origin_head_line(),
{
}

/// A dirty work tree stops planning right after `git status`: nothing else
/// runs, and the error lists the changed files.
pub proof fn law_dirty_tree_aborts(flow: FlowSettings, rs: Seq<RunResult>)
    requires
        rs.len() >= 2,
        repo_check(rs[0]) is Ok,
        rs[1] matches Ok(o) && porcelain_files(o).len() > 0,
    ensures
        plan_sync_next(flow, rs) == Next::<SyncPlanView>::Done(Err(Failure::DirtyWorkingTree {
            files: porcelain_files(rs[1]->Ok_0),
        })),
{
}

/// An explicit `flow.base_branch` always wins: `origin/HEAD` is never read,
/// and the plan integrates that branch.
pub proof fn law_explicit_base_wins(flow: FlowSettings, rs: Seq<RunResult>)
    requires
        flow.base_branch is Some,
    ensures
        plan_sync_next(flow, rs) != Next::<SyncPlanView>::Run(origin_head_line()),
        plan_sync_next(flow, rs) matches Next::Done(Ok(plan)) ==> plan.base_branch
            == flow.base_branch->0,
{
    if plan_sync_next(flow, rs) == Next::<SyncPlanView>::Run(origin_head_line()) {
        assert(origin_head_line().args[0] == "symbolic-ref"@);
        assert(head_line().args.len() == 3);
        assert(status_line().args.len() == 2);
        assert(repo_line().args.len() == 2);
        reveal_strlit("symbolic-ref");
        reveal_strlit("rev-parse");
        assert("symbolic-ref"@[0] != "rev-parse"@[0]);
    }
}

/// Executing a sync runs only `git fetch origin`, the integration of
/// `origin/<base>`, and `git push --force-with-lease origin <branch>`: a
/// push never goes without the lease.
pub proof fn law_sync_commands(plan: SyncPlanView, rs: Seq<RunResult>)
    ensures
        execute_sync_next(plan, rs) matches Next::Run(line) ==> line == fetch_line() || line
            == integrate_line(plan) || line == push_line(plan),
{
}

/// With `auto_push` off, nothing is ever pushed.
pub proof fn law_no_push_without_auto_push(plan: SyncPlanView, rs: Seq<RunResult>)
    requires
        !plan.will_push,
    ensures
        !(execute_sync_next(plan, rs) matches Next::Run(line) && line == push_line(plan)),
        execute_sync_next(plan, rs) matches Next::Done(Ok(out)) ==> !out.pushed,
{
    if execute_sync_next(plan, rs) matches Next::Run(line) && line == push_line(plan) {
        if rs.len() == 0 {
            assert(fetch_line().args.len() == 2);
        } else {
            assert(integrate_line(plan).args.len() == 2);
        }
    }
}

/// A conflict while integrating stops the sync with a conflict error and
/// runs nothing more: no abort, no resolution, no push.
pub proof fn law_conflict_stops(plan: SyncPlanView, rs: Seq<RunResult>)
    requires
        rs.len() >= 2,
        rs[0] matches Ok(f) && succeeded(f),
        rs[1] matches Ok(i) && !succeeded(i) && reports_conflict(i),
    ensures
        execute_sync_next(plan, rs) == Next::<SyncOutcomeView>::Done(Err(Failure::RebaseConflict {
            base: base_ref(plan),
        })),
{
}

/// A sync asks, in this order and each only while every command before it
/// succeeded: `git fetch origin`, then the integration of `origin/<base>`,
/// then, only when the plan pushes, `git push --force-with-lease origin
/// <branch>`. Nothing follows a failure or a conflict.
pub proof fn law_sync_in_order(plan: SyncPlanView, rs: Seq<RunResult>)
    ensures
        execute_sync_next(plan, rs) matches Next::Run(line) ==> rs.len() < 3 && (forall|j: int|
            0 <= j < rs.len() ==> (#[trigger] rs[j] matches Ok(o) && succeeded(o))) && (rs.len() == 0
            ==> line == fetch_line()) && (rs.len() == 1 ==> line == integrate_line(plan)) && (rs.len()
            == 2 ==> plan.will_push && line == push_line(plan)),
{
}

/// The commands in a sync run are only `git fetch origin`, the
/// integration of `origin/<base>`, and `git push --force-with-lease origin
/// <branch>`, the push only when the plan pushes. With the log that
/// [`execute_sync`] promises, these are all the runner receives from it.
pub proof fn law_sync_sends_only_safe_commands(plan: SyncPlanView, rs: Seq<RunResult>, i: int)
    requires
        followed(execute_sync_steps(plan), rs),
        0 <= i < rs.len(),
    ensures
        ({
            let line = exchanges(execute_sync_steps(plan), rs)[i].0;
            line == fetch_line() || line == integrate_line(plan) || (plan.will_push && line == push_line(
                plan,
            ))
        }),
{
    lemma_exchange_asked(execute_sync_steps(plan), rs, i);
    law_sync_commands(plan, rs.take(i));
    if !plan.will_push {
        law_no_push_without_auto_push(plan, rs.take(i));
    }
}

/// The commands in a sync planning run only read: with the log that
/// [`plan_sync`] promises, nothing else reaches the runner.
pub proof fn law_plan_sync_sends_only_reads(flow: FlowSettings, rs: Seq<RunResult>, i: int)
    requires
        followed(plan_sync_steps(flow), rs),
        0 <= i < rs.len(),
    ensures
        ({
            let line = exchanges(plan_sync_steps(flow), rs)[i].0;
            line == repo_line() || line == status_line() || line == head_line() || line
                == origin_head_line()
        }),
        flow.base_branch is Some ==> exchanges(plan_sync_steps(flow), rs)[i].0 != origin_head_line(),
{
    lemma_exchange_asked(plan_sync_steps(flow), rs, i);
    law_planning_only_reads(flow, rs.take(i));
    if flow.base_branch is Some {
        law_explicit_base_wins(flow, rs.take(i));
    }
}

/// A plan that planning a sync finishes with follows the config: it
/// integrates with the configured strategy, pushes exactly when `auto_push`
/// is on, and uses the configured base branch when there is one.
pub proof fn law_plan_follows_config(flow: FlowSettings, rs: Seq<RunResult>)
    ensures
        plan_sync_next(flow, rs) matches Next::Done(Ok(plan)) ==> plan.strategy == flow.strategy,
        plan_sync_next(flow, rs) matches Next::Done(Ok(plan)) ==> plan.will_push == flow.auto_push,
        plan_sync_next(flow, rs) matches Next::Done(Ok(plan)) ==> (flow.base_branch is Some
            ==> plan.base_branch == flow.base_branch->0),
{
}

/// Executing a plan integrates with the git subcommand its strategy names:
/// `git merge origin/<base>` for a merge, `git rebase origin/<base>` for a
/// rebase; and a sync that went through reports a push exactly when the
/// plan pushes.
pub proof fn law_integration_follows_strategy(plan: SyncPlanView, rs: Seq<RunResult>)
    ensures
        integrate_line(plan).program == "git"@,
        integrate_line(plan).args == seq![
            if plan.strategy == Strategy::Merge { "merge"@ } else { "rebase"@ },
            "origin/"@ + plan.base_branch,
        ],
        execute_sync_next(plan, rs) matches Next::Done(Ok(out)) ==> out.pushed == plan.will_push
            && out.base_branch == plan.base_branch && out.current_branch == plan.current_branch,
{
    assert(integrate_line(plan).args =~= seq![
        if plan.strategy == Strategy::Merge { "merge"@ } else { "rebase"@ },
        "origin/"@ + plan.base_branch,
    ]);
}

/// The base branch read from `origin/HEAD` is the remote's default branch
/// without its `origin/` prefix: output `origin/<b>`, with any surrounding
/// white space, gives `b`.
pub proof fn law_base_strips_origin(o: CommandOutcome, b: Seq<char>)
    requires
        succeeded(o),
        trim(o.stdout@) == "origin/"@ + b,
    ensures
        base_check(Ok(o)) == Ok::<Seq<char>, Failure>(b),
{
    reveal_strlit("origin/");
    let t = "origin/"@ + b;
    assert(t.subrange(0, 7) =~= "origin/"@);
    assert(t.subrange(7, t.len() as int) =~= b);
}

/// A work tree is clean exactly when every line that `git status
/// --porcelain` prints is blank.
pub proof fn law_clean_iff_nothing_listed(o: CommandOutcome)
    ensures
        clean_check(Ok(o)) is Ok <==> forall|i: int|
            0 <= i < lines(o.stdout@).len() ==> trim(#[trigger] lines(o.stdout@)[i]).len() == 0,
{
    lemma_nonblank_trimmed_empty(lines(o.stdout@));
}

/// The plan shown before a sync names the integration the plan will run
/// (`git merge` for a merge, `git rebase` for a rebase) and shows the push
/// with `--force-with-lease` when the plan pushes; the line reported after
/// a sync says whether it pushed.
pub proof fn law_sync_texts(p: SyncPlanView, o: SyncOutcomeView)
    ensures
        has_substring(
            sync_plan_text(p),
            "  → git "@ + (if p.strategy == Strategy::Merge { "merge"@ } else { "rebase"@ }) + " origin/"@
                + p.base_branch + "\n"@,
        ),
        p.will_push ==> has_substring(
            sync_plan_text(p),
            "  → git push --force-with-lease origin "@ + p.current_branch + "\n"@,
        ),
        o.pushed ==> synced_text(o) == o.current_branch + " synced with origin/"@ + o.base_branch
            + " and pushed."@,
        !o.pushed ==> synced_text(o) == o.current_branch + " synced with origin/"@ + o.base_branch
            + " (not pushed — auto_push is disabled)."@,
{
    let head = "Current branch: "@ + p.current_branch + "\n"@ + "Base:           origin/"@ + p.base_branch
        + "\n"@ + "\n"@ + "  ✓ working tree is clean\n"@ + "  ✓ branch is not protected\n"@
        + "  → git fetch origin\n"@;
    let integ = "  → git "@ + integrate_word(p.strategy) + " origin/"@ + p.base_branch + "\n"@;
    let push: Seq<char> = if p.will_push {
        "  → git push --force-with-lease origin "@ + p.current_branch + "\n"@
    } else {
        seq![]
    };
    assert(sync_plan_text(p) =~= head + integ + push);
    lemma_substring_self(integ);
    lemma_substring_in_right(head, integ, integ);
    lemma_substring_in_left(head + integ, push, integ);
    lemma_substring_self(push);
    lemma_substring_in_right(head + integ, push, push);
}

} // verus!
