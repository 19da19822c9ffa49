//! `forja cleanup`: finds the local branches that are merged into the base
//! branch and whose upstream is gone, and deletes them with `git branch -d`.
use vstd::prelude::*;
use crate::config::{FlowConfig, FlowSettings};
use crate::error::{copy_strings, Failure, ForjaError};
use crate::exec::{
    CommandLine, CommandOutcome, CommandRequest, CommandRunner, Next, RunResult, Step,
    command_failed, lemma_exchange_asked, exchanges, followed, lemma_exchanges_push, failed_command,
    git, result_view, succeeded,
};
use crate::sync::{
    base_check, branch_check, current_branch, detect_base_branch, ensure_git_repo, head_line,
    head_request, origin_head_line, origin_head_request, repo_check, repo_line, repo_request,
};
use crate::text::{
    chars_of, contains_text, has_substring, lemma_views_push, lines, lines_of, nonblank_lines, nonblank_trimmed,
    same_text, string_from, text_contains, trim, trim_bounds, trimmed, views, decimal, decimal_string,
};

verus! {

/// Local branches eligible for deletion: merged into the base branch and
/// with an upstream that is confirmed gone, never the current branch, the
/// base branch itself, or a protected branch.
#[derive(Debug, Clone, PartialEq, Eq)]
pub struct CleanupPlan {
    pub candidates: Vec<String>,
}

impl View for CleanupPlan {
    type V = Seq<Seq<char>>;

    open spec fn view(&self) -> Seq<Seq<char>> {
        views(self.candidates@)
    }
}

/// Index of the first tab in `s`, or `s.len()` when there is none.
pub open spec fn tab_index(s: Seq<char>) -> nat
    decreases s.len(),
{
    if s.len() == 0 {
        0
    } else if s[0] == '\t' {
        0
    } else {
        1 + tab_index(s.drop_first())
    }
}

/// The branch name of a `for-each-ref` line: the text before the first
/// tab, trimmed.
pub open spec fn ref_name(line: Seq<char>) -> Seq<char> {
    trim(line.subrange(0, tab_index(line) as int))
}

/// The tracking state of a `for-each-ref` line: the text after the first
/// tab, or nothing when there is no tab.
pub open spec fn ref_track(line: Seq<char>) -> Seq<char> {
    if tab_index(line) < line.len() {
        line.subrange((tab_index(line) + 1) as int, line.len() as int)
    } else {
        seq![]
    }
}

/// The branches of `name<TAB>track` lines whose tracking state says `[gone]`.
pub open spec fn gone_names(ls: Seq<Seq<char>>) -> Seq<Seq<char>>
    decreases ls.len(),
{
    if ls.len() == 0 {
        seq![]
    } else if has_substring(ref_track(ls.last()), "[gone]"@) {
        gone_names(ls.drop_last()).push(ref_name(ls.last()))
    } else {
        gone_names(ls.drop_last())
    }
}

/// A branch that cleanup may delete.
pub open spec fn is_candidate(
    b: Seq<char>,
    gone: Seq<Seq<char>>,
    current: Seq<char>,
    base: Seq<char>,
    protected: Seq<Seq<char>>,
) -> bool {
    gone.contains(b) && b != current && b != base && !protected.contains(b)
}

/// The merged branches that are candidates, in the order git listed them.
pub open spec fn select_candidates(
    merged: Seq<Seq<char>>,
    gone: Seq<Seq<char>>,
    current: Seq<char>,
    base: Seq<char>,
    protected: Seq<Seq<char>>,
) -> Seq<Seq<char>>
    decreases merged.len(),
{
    if merged.len() == 0 {
        seq![]
    } else {
        let rest = select_candidates(merged.drop_last(), gone, current, base, protected);
        if is_candidate(merged.last(), gone, current, base, protected) {
            rest.push(merged.last())
        } else {
            rest
        }
    }
}

/// The request `git fetch --prune origin`.
pub open spec fn prune_line() -> CommandLine {
    git(seq!["fetch"@, "--prune"@, "origin"@])
}

/// The request `git branch --merged <base_ref> --format=%(refname:short)`.
pub open spec fn merged_line(base_ref: Seq<char>) -> CommandLine {
    git(seq!["branch"@, "--merged"@, base_ref, "--format=%(refname:short)"@])
}

/// The request `git for-each-ref --format=%(refname:short)<TAB>%(upstream:track) refs/heads`.
pub open spec fn track_line() -> CommandLine {
    git(seq!["for-each-ref"@, "--format=%(refname:short)\t%(upstream:track)"@, "refs/heads"@])
}

/// What planning a cleanup does after the commands it ran gave `rs`: check
/// for a repository, read the current branch, take the base branch (from the
/// config, or from `origin/HEAD`), prune remote-tracking refs so the gone
/// check reflects the remote, list the branches merged into `origin/<base>`,
/// list the branches whose upstream is gone, and select the candidates.
pub open spec fn plan_cleanup_next(flow: FlowSettings, rs: Seq<RunResult>) -> Next<Seq<Seq<char>>> {
    if rs.len() == 0 {
        Next::Run(repo_line())
    } else {
        match repo_check(rs[0]) {
            Err(e) => Next::Done(Err(e)),
            Ok(_) => if rs.len() == 1 {
                Next::Run(head_line())
            } else {
                match branch_check(rs[1]) {
                    Err(e) => Next::Done(Err(e)),
                    Ok(current) => {
                        let k: int = if flow.base_branch is Some { 2 } else { 3 };
                        if flow.base_branch is None && rs.len() == 2 {
                            Next::Run(origin_head_line())
                        } else {
                            let base_res = match flow.base_branch {
                                Some(b) => Ok(b),
                                None => base_check(rs[2]),
                            };
                            match base_res {
                                Err(e) => Next::Done(Err(e)),
                                Ok(base) => plan_cleanup_rest(flow, current, base, rs.skip(k)),
                            }
                        }
                    },
                }
            },
        }
    }
}

/// The part of [`plan_cleanup_next`] after the base branch is known.
pub open spec fn plan_cleanup_rest(
    flow: FlowSettings,
    current: Seq<char>,
    base: Seq<char>,
    rs: Seq<RunResult>,
) -> Next<Seq<Seq<char>>> {
    let base_ref = "origin/"@ + base;
    if rs.len() == 0 {
        Next::Run(prune_line())
    } else {
        match rs[0] {
            Err(e) => Next::Done(Err(e@)),
            Ok(p) => if !succeeded(p) {
                Next::Done(Err(command_failed("git fetch --prune origin"@, p)))
            } else if rs.len() == 1 {
                Next::Run(merged_line(base_ref))
            } else {
                match rs[1] {
                    Err(e) => Next::Done(Err(e@)),
                    Ok(m) => if !succeeded(m) {
                        Next::Done(Err(command_failed("git branch --merged "@ + base_ref, m)))
                    } else if rs.len() == 2 {
                        Next::Run(track_line())
                    } else {
                        match rs[2] {
                            Err(e) => Next::Done(Err(e@)),
                            Ok(g) => if !succeeded(g) {
                                Next::Done(Err(command_failed("git for-each-ref refs/heads"@, g)))
                            } else {
                                Next::Done(
                                    Ok(
                                        select_candidates(
                                            nonblank_trimmed(lines(m.stdout@)),
                                            gone_names(lines(g.stdout@)),
                                            current,
                                            base,
                                            flow.protected_branches,
                                        ),
                                    ),
                                )
                            },
                        }
                    },
                }
            },
        }
    }
}


pub proof fn lemma_tab_index(s: Seq<char>, k: int)
    requires
        0 <= k <= s.len(),
        forall|j: int| 0 <= j < k ==> #[trigger] s[j] != '\t',
        k == s.len() || s[k] == '\t',
    ensures
        tab_index(s) == k,
    decreases k,
{
    if k > 0 {
        lemma_tab_index(s.drop_first(), k - 1);
    }
}

/// The branch name and tracking state of one `for-each-ref` line.
fn split_ref_line(line: &str) -> (res: (String, String))
    ensures
        res.0@ == ref_name(line@),
        res.1@ == ref_track(line@),
{
    let v = chars_of(line);
    let mut t: usize = 0;
    while t < v.len() && v[t] != '\t'
        invariant
            v@ == line@,
            t <= v.len(),
            forall|j: int| 0 <= j < t ==> #[trigger] v@[j] != '\t',
        decreases v.len() - t,
    {
        t = t + 1;
    }
    proof { lemma_tab_index(line@, t as int); }
    let (a, b) = trim_bounds(&v, 0, t);
    let name = string_from(&v, a, b);
    let track = if t < v.len() {
        string_from(&v, t + 1, v.len())
    } else {
        String::new()
    };
    (name, track)
}

/// Local branches whose upstream git has confirmed is gone (shown as
/// `[gone]` in `%(upstream:track)`), i.e. branches that had a remote
/// counterpart which was since deleted, not branches that were never pushed.
pub fn list_gone_branches(output: &str) -> (res: Vec<String>)
    ensures
        views(res@) == gone_names(lines(output@)),
{
    let ls = crate::text::lines_of(output);
    let mut res: Vec<String> = Vec::new();
    for i in 0..ls.len()
        invariant
            views(ls@) == lines(output@),
            views(res@) == gone_names(views(ls@).take(i as int)),
    {
        let (name, track) = split_ref_line(ls[i].as_str());
        proof {
            assert(views(ls@).take(i + 1).drop_last() =~= views(ls@).take(i as int));
            assert(views(ls@).take(i + 1).last() == ls@[i as int]@);
        }
        if text_contains(track.as_str(), "[gone]") {
            proof { lemma_views_push(res@, name); }
            res.push(name);
        }
    }
    assert(views(ls@).take(ls.len() as int) =~= views(ls@));
    res
}

/// The merged branches that cleanup may delete (see [`select_candidates`]).
pub fn filter_candidates(
    merged: &Vec<String>,
    gone: &Vec<String>,
    current: &str,
    base: &str,
    protected: &Vec<String>,
) -> (res: Vec<String>)
    ensures
        views(res@) == select_candidates(views(merged@), views(gone@), current@, base@, views(protected@)),
{
    let mut res: Vec<String> = Vec::new();
    for i in 0..merged.len()
        invariant
            views(res@) == select_candidates(
                views(merged@).take(i as int),
                views(gone@),
                current@,
                base@,
                views(protected@),
            ),
    {
        let b = merged[i].as_str();
        proof {
            assert(views(merged@).take(i + 1).drop_last() =~= views(merged@).take(i as int));
            assert(views(merged@).take(i + 1).last() == merged@[i as int]@);
        }
        if contains_text(gone, b) && !same_text(b, current) && !same_text(b, base) && !contains_text(
            protected,
            b,
        ) {
            let c = merged[i].clone();
            proof { lemma_views_push(res@, c); }
            res.push(c);
        }
    }
    assert(views(merged@).take(merged.len() as int) =~= views(merged@));
    res
}

/// What planning a cleanup does next, given the outcomes of the commands it
/// has run so far (see [`plan_cleanup_next`]).
pub fn plan_cleanup_step(flow: &FlowConfig, responses: &Vec<RunResult>) -> (res: Step<CleanupPlan>)
    ensures
        res@ == plan_cleanup_next(flow@, responses@),
{
    if responses.len() == 0 {
        return Step::Run(repo_request());
    }
    if let Err(e) = ensure_git_repo(&responses[0]) {
        return Step::Done(Err(e));
    }
    if responses.len() == 1 {
        return Step::Run(head_request());
    }
    let current = match current_branch(&responses[1]) {
        Err(e) => return Step::Done(Err(e)),
        Ok(c) => c,
    };
    let k: usize;
    let base = match &flow.base_branch {
        Some(b) => {
            k = 2;
            b.clone()
        },
        None => {
            if responses.len() == 2 {
                return Step::Run(origin_head_request());
            }
            k = 3;
            match detect_base_branch(&responses[2]) {
                Err(e) => return Step::Done(Err(e)),
                Ok(b) => b,
            }
        },
    };
    let ghost rest = responses@.skip(k as int);
    let mut base_ref = "origin/".to_owned();
    base_ref.append(base.as_str());
    if responses.len() == k {
        let r = CommandRequest::new("git", &["fetch", "--prune", "origin"]);
        assert(r@.args =~= prune_line().args);
        return Step::Run(r);
    }
    assert(rest[0] == responses@[k as int]);
    match &responses[k] {
        Err(e) => return Step::Done(Err(e.copy())),
        Ok(p) => if !p.success() {
            return Step::Done(Err(failed_command("git fetch --prune origin".to_owned(), p)));
        },
    }
    if responses.len() == k + 1 {
        let r = CommandRequest::new("git", &["branch", "--merged", base_ref.as_str(), "--format=%(refname:short)"]);
        assert(r@.args =~= merged_line(base_ref@).args);
        return Step::Run(r);
    }
    assert(rest[1] == responses@[k + 1]);
    let merged = match &responses[k + 1] {
        Err(e) => return Step::Done(Err(e.copy())),
        Ok(m) => if !m.success() {
            let mut command = "git branch --merged ".to_owned();
            command.append(base_ref.as_str());
            return Step::Done(Err(failed_command(command, m)));
        } else {
            nonblank_lines(m.stdout.as_str())
        },
    };
    if responses.len() == k + 2 {
        let r = CommandRequest::new(
            "git",
            &["for-each-ref", "--format=%(refname:short)\t%(upstream:track)", "refs/heads"],
        );
        assert(r@.args =~= track_line().args);
        return Step::Run(r);
    }
    assert(rest[2] == responses@[k + 2]);
    let gone = match &responses[k + 2] {
        Err(e) => return Step::Done(Err(e.copy())),
        Ok(g) => if !g.success() {
            return Step::Done(Err(failed_command("git for-each-ref refs/heads".to_owned(), g)));
        } else {
            list_gone_branches(g.stdout.as_str())
        },
    };
    let candidates = filter_candidates(&merged, &gone, current.as_str(), base.as_str(), &flow.protected_branches);
    Step::Done(Ok(CleanupPlan { candidates }))
}

/// [`plan_cleanup_next`] for `flow`, as a function of the outcomes so far.
pub open spec fn plan_cleanup_steps(flow: FlowSettings) -> spec_fn(Seq<RunResult>) -> Next<Seq<Seq<char>>> {
    |rs: Seq<RunResult>| plan_cleanup_next(flow, rs)
}

/// Computes the cleanup candidates. Runs `git fetch --prune` itself so the
/// gone check reflects the remote's current state.
/// What reaches `runner` is exactly the exchanges of one run of
/// [`plan_cleanup_next`]: its log grows by each command the flow asks for after
/// the outcomes before it, with its outcome, and by nothing else. The
/// result is what [`plan_cleanup_next`] gives at the end of that run.
pub fn plan_cleanup<R: CommandRunner + ?Sized>(flow: &FlowConfig, runner: &mut R) -> (res: Result<CleanupPlan, ForjaError>)
    ensures
        exists|rs: Seq<RunResult>|
            #[trigger] plan_cleanup_next(flow@, rs) == Next::Done(result_view(res)) && followed(plan_cleanup_steps(flow@), rs)
                && final(runner).log() == old(runner).log() + exchanges(plan_cleanup_steps(flow@), rs),
{
    let mut responses: Vec<RunResult> = Vec::new();
    loop
        invariant
            responses.len() <= 6,
            followed(plan_cleanup_steps(flow@), responses@),
            runner.log() == old(runner).log() + exchanges(plan_cleanup_steps(flow@), responses@),
        decreases 6 - responses.len(),
    {
        match plan_cleanup_step(flow, &responses) {
            Step::Run(request) => {
                let outcome = runner.run(&request);
                proof {
                    assert(plan_cleanup_steps(flow@)(responses@) == Next::<Seq<Seq<char>>>::Run(request@));
                    lemma_exchanges_push(plan_cleanup_steps(flow@), responses@, outcome);
                    assert(runner.log() =~= old(runner).log() + exchanges(plan_cleanup_steps(flow@), responses@.push(outcome)));
                }
                responses.push(outcome);
            },
            Step::Done(res) => {
                assert(plan_cleanup_next(flow@, responses@) == Next::Done(result_view(res)));
                return res;
            },
        }
    }
}


/// Result of running [`delete_branches`]: what was deleted, and, if
/// deletion stopped early, the error that stopped it.
#[derive(Debug, Clone, PartialEq, Eq)]
pub struct DeleteOutcome {
    pub deleted: Vec<String>,
    pub error: Option<ForjaError>,
}

/// [`DeleteOutcome`] as plain values.
pub struct DeleteReport {
    pub deleted: Seq<Seq<char>>,
    pub error: Option<Failure>,
}

impl View for DeleteOutcome {
    type V = DeleteReport;

    open spec fn view(&self) -> DeleteReport {
        DeleteReport {
            deleted: views(self.deleted@),
            error: match self.error {
                Some(e) => Some(e@),
                None => None,
            },
        }
    }
}

/// The request `git branch -d <branch>` (a safe delete, never `-D`).
pub open spec fn delete_line(branch: Seq<char>) -> CommandLine {
    git(seq!["branch"@, "-d"@, branch])
}

/// `n` with the branches `p` deleted before it.
pub open spec fn after_deleting(p: Seq<Seq<char>>, n: Next<DeleteReport>) -> Next<DeleteReport> {
    match n {
        Next::Done(Ok(r)) => Next::Done(Ok(DeleteReport { deleted: p + r.deleted, error: r.error })),
        other => other,
    }
}

/// What deleting `cands` does after the deletions it ran gave `rs`: delete
/// each candidate in order with `git branch -d`, and stop at the first one
/// that fails, reporting what was deleted before it.
pub open spec fn delete_next(cands: Seq<Seq<char>>, rs: Seq<RunResult>) -> Next<DeleteReport>
    decreases rs.len(),
{
    if cands.len() == 0 {
        Next::Done(Ok(DeleteReport { deleted: seq![], error: None }))
    } else if rs.len() == 0 {
        Next::Run(delete_line(cands[0]))
    } else {
        match rs[0] {
            Err(e) => Next::Done(Ok(DeleteReport { deleted: seq![], error: Some(e@) })),
            Ok(o) => if !succeeded(o) {
                Next::Done(
                    Ok(
                        DeleteReport {
                            deleted: seq![],
                            error: Some(command_failed("git branch -d "@ + cands[0], o)),
                        },
                    ),
                )
            } else {
                after_deleting(seq![cands[0]], delete_next(cands.drop_first(), rs.drop_first()))
            },
        }
    }
}

pub proof fn lemma_after_deleting_twice(p: Seq<Seq<char>>, q: Seq<Seq<char>>, n: Next<DeleteReport>)
    ensures
        after_deleting(p, after_deleting(q, n)) == after_deleting(p + q, n),
{
    match n {
        Next::Done(Ok(r)) => {
            assert(p + (q + r.deleted) =~= (p + q) + r.deleted);
        },
        _ => {},
    }
}

/// What deleting `candidates` does next, given the outcomes of the
/// deletions it has run so far (see [`delete_next`]).
pub fn delete_step(candidates: &[String], responses: &Vec<RunResult>) -> (res: Step<DeleteOutcome>)
    ensures
        res@ == delete_next(views(candidates@), responses@),
{
    let ghost cands = views(candidates@);
    let mut deleted: Vec<String> = Vec::new();
    let mut i: usize = 0;
    proof {
        assert(cands.skip(0) =~= cands);
        assert(responses@.skip(0) =~= responses@);
        assert(cands.take(0) =~= Seq::<Seq<char>>::empty());
        match delete_next(cands, responses@) {
            Next::Done(Ok(r)) => { assert(Seq::<Seq<char>>::empty() + r.deleted =~= r.deleted); },
            _ => {},
        }
    }
    while i < candidates.len() && i < responses.len()
        invariant
            cands == views(candidates@),
            i <= candidates.len(),
            i <= responses.len(),
            views(deleted@) == cands.take(i as int),
            delete_next(cands, responses@) == after_deleting(
                cands.take(i as int),
                delete_next(cands.skip(i as int), responses@.skip(i as int)),
            ),
        decreases candidates.len() - i,
    {
        let mut command = "git branch -d ".to_owned();
        command.append(candidates[i].as_str());
        proof {
            assert(responses@.skip(i as int)[0] == responses@[i as int]);
            assert(cands.skip(i as int)[0] == cands[i as int]);
        }
        match &responses[i] {
            Err(e) => {
                proof {
                    assert(cands.take(i as int) + Seq::<Seq<char>>::empty() =~= cands.take(i as int));
                }
                return Step::Done(Ok(DeleteOutcome { deleted, error: Some(e.copy()) }));
            },
            Ok(o) => if !o.success() {
                proof {
                    assert(cands.take(i as int) + Seq::<Seq<char>>::empty() =~= cands.take(i as int));
                }
                return Step::Done(Ok(DeleteOutcome { deleted, error: Some(failed_command(command, o)) }));
            },
        }
        let b = candidates[i].clone();
        proof {
            lemma_views_push(deleted@, b);
            assert(cands.skip(i as int).drop_first() =~= cands.skip(i + 1));
            assert(responses@.skip(i as int).drop_first() =~= responses@.skip(i + 1));
            lemma_after_deleting_twice(
                cands.take(i as int),
                seq![cands[i as int]],
                delete_next(cands.skip(i + 1), responses@.skip(i + 1)),
            );
            assert(cands.take(i as int) + seq![cands[i as int]] =~= cands.take(i + 1));
        }
        deleted.push(b);
        i = i + 1;
    }
    if i < candidates.len() {
        let r = CommandRequest::new("git", &["branch", "-d", candidates[i].as_str()]);
        proof {
            assert(r@.args =~= delete_line(cands[i as int]).args);
            assert(cands.skip(i as int)[0] == cands[i as int]);
        }
        Step::Run(r)
    } else {
        proof {
            assert(cands.take(i as int) =~= cands);
            assert(cands.take(i as int) + Seq::<Seq<char>>::empty() =~= cands);
        }
        Step::Done(Ok(DeleteOutcome { deleted, error: None }))
    }
}

/// [`delete_next`] for `cands`, as a function of the outcomes so far.
pub open spec fn delete_steps(cands: Seq<Seq<char>>) -> spec_fn(Seq<RunResult>) -> Next<DeleteReport> {
    |rs: Seq<RunResult>| delete_next(cands, rs)
}

/// Deletes each candidate with `git branch -d` (never `-D`): a safe delete
/// refuses an unmerged branch, which enforces "never delete an unmerged
/// branch" a second time, independently of the `--merged` filter. Stops at
/// the first failure.
/// What reaches `runner` is exactly the exchanges of one run of
/// [`delete_next`]: its log grows by each command the flow asks for after
/// the outcomes before it, with its outcome, and by nothing else. The
/// outcome is what [`delete_next`] gives at the end of that run.
pub fn delete_branches<R: CommandRunner + ?Sized>(candidates: &[String], runner: &mut R) -> (res: DeleteOutcome)
    ensures
        exists|rs: Seq<RunResult>|
            #[trigger] delete_next(views(candidates@), rs) == Next::Done(Ok(res@)) && followed(delete_steps(views(candidates@)), rs)
                && final(runner).log() == old(runner).log() + exchanges(delete_steps(views(candidates@)), rs),
{
    let mut responses: Vec<RunResult> = Vec::new();
    loop
        invariant
            responses.len() <= candidates.len(),
            followed(delete_steps(views(candidates@)), responses@),
            runner.log() == old(runner).log() + exchanges(delete_steps(views(candidates@)), responses@),
        decreases candidates.len() - responses.len(),
    {
        match delete_step(candidates, &responses) {
            Step::Run(request) => {
                proof { lemma_delete_runs_below(views(candidates@), responses@); }
                let outcome = runner.run(&request);
                proof {
                    assert(delete_steps(views(candidates@))(responses@) == Next::<DeleteReport>::Run(request@));
                    lemma_exchanges_push(delete_steps(views(candidates@)), responses@, outcome);
                    assert(runner.log() =~= old(runner).log() + exchanges(delete_steps(views(candidates@)), responses@.push(outcome)));
                }
                responses.push(outcome);
            },
            Step::Done(Ok(res)) => {
                return res;
            },
            Step::Done(Err(_)) => {
                // Never taken: deleting always finishes with a report.
                proof {
                    lemma_delete_never_errs(views(candidates@), responses@);
                    assert(false);
                }
                return DeleteOutcome { deleted: Vec::new(), error: None };
            },
        }
    }
}

pub proof fn lemma_delete_runs_below(cands: Seq<Seq<char>>, rs: Seq<RunResult>)
    ensures
        delete_next(cands, rs) is Run ==> rs.len() < cands.len(),
    decreases rs.len(),
{
    if cands.len() > 0 && rs.len() > 0 {
        lemma_delete_runs_below(cands.drop_first(), rs.drop_first());
    }
}

pub proof fn lemma_delete_never_errs(cands: Seq<Seq<char>>, rs: Seq<RunResult>)
    ensures
        !(delete_next(cands, rs) matches Next::Done(Err(_))),
    decreases rs.len(),
{
    if cands.len() > 0 && rs.len() > 0 {
        lemma_delete_never_errs(cands.drop_first(), rs.drop_first());
    }
}


/// `y` or `Y`.
pub open spec fn is_y(c: char) -> bool {
    c == 'y' || c == 'Y'
}

/// An answer that confirms the deletion: once trimmed, `y` or `yes` in any
/// mix of upper and lower case. Anything else, an empty answer included,
/// declines.
pub open spec fn confirms(answer: Seq<char>) -> bool {
    let t = trim(answer);
    ||| (t.len() == 1 && is_y(t[0]))
    ||| (t.len() == 3 && is_y(t[0]) && (t[1] == 'e' || t[1] == 'E') && (t[2] == 's' || t[2] == 'S'))
}

/// Whether the answer typed at the confirmation prompt confirms the
/// deletion (see [`confirms`]).
pub fn is_confirmation(answer: &str) -> (res: bool)
    ensures
        res == confirms(answer@),
{
    let t = trimmed(answer);
    let v = chars_of(t.as_str());
    if v.len() == 1 {
        v[0] == 'y' || v[0] == 'Y'
    } else if v.len() == 3 {
        (v[0] == 'y' || v[0] == 'Y') && (v[1] == 'e' || v[1] == 'E') && (v[2] == 's' || v[2] == 'S')
    } else {
        false
    }
}

/// The line reported after deleting: `deleted N of M branch(es)`.
pub open spec fn deleted_summary(deleted: nat, total: nat) -> Seq<char> {
    "deleted "@ + decimal(deleted) + " of "@ + decimal(total) + " branch(es)"@
}

/// The line reported after deleting `deleted` of `total` candidates.
pub fn deleted_message(deleted: usize, total: usize) -> (res: String)
    ensures
        res@ == deleted_summary(deleted as nat, total as nat),
{
    let mut s = "deleted ".to_owned();
    s.append(decimal_string(deleted as u64).as_str());
    s.append(" of ");
    s.append(decimal_string(total as u64).as_str());
    s.append(" branch(es)");
    s
}

/// One line per branch: `  - <branch>`.
pub open spec fn branch_lines(bs: Seq<Seq<char>>) -> Seq<char>
    decreases bs.len(),
{
    if bs.len() == 0 {
        seq![]
    } else {
        branch_lines(bs.drop_last()) + "  - "@ + bs.last() + "\n"@
    }
}

/// The candidates as `forja cleanup` lists them before deleting.
pub open spec fn cleanup_plan_text(candidates: Seq<Seq<char>>) -> Seq<char> {
    "branches to delete (merged and removed on the remote):\n"@ + branch_lines(candidates)
}

/// The candidates as `forja cleanup` lists them (see [`cleanup_plan_text`]).
pub fn render_cleanup_plan(plan: &CleanupPlan) -> (res: String)
    ensures
        res@ == cleanup_plan_text(plan@),
{
    let mut s = "branches to delete (merged and removed on the remote):\n".to_owned();
    let ghost head = s@;
    let ghost v = plan@;
    for i in 0..plan.candidates.len()
        invariant
            v == plan@,
            v == views(plan.candidates@),
            s@ == head + branch_lines(v.take(i as int)),
    {
        proof {
            assert(v.take(i + 1).drop_last() =~= v.take(i as int));
            assert(v.take(i + 1).last() == v[i as int]);
        }
        s.append("  - ");
        s.append(plan.candidates[i].as_str());
        s.append("\n");
        assert(s@ =~= head + branch_lines(v.take(i + 1)));
    }
    assert(v.take(plan.candidates.len() as int) =~= v);
    s
}

/// Whether `forja cleanup` has to ask before deleting: there are
/// candidates, it is not a dry run, and `--yes` was not given.
pub fn cleanup_needs_answer(n: usize, dry_run: bool, yes: bool) -> (res: bool)
    ensures
        res <==> n > 0 && !dry_run && !yes,
{
    n > 0 && !dry_run && !yes
}

/// Whether `forja cleanup` deletes its `n` candidates: there are some, it
/// is not a dry run, and either `--yes` was given or the answer typed at
/// the prompt confirms. A dry run never deletes.
pub fn cleanup_should_delete(n: usize, dry_run: bool, yes: bool, answer: Option<&str>) -> (res: bool)
    ensures
        res <==> n > 0 && !dry_run && (yes || (answer matches Some(a) && confirms(a@))),
{
    if n == 0 || dry_run {
        false
    } else if yes {
        true
    } else {
        match answer {
            Some(a) => is_confirmation(a),
            None => false,
        }
    }
}

// ---------------------------------------------------------------------------
// Laws.
// ---------------------------------------------------------------------------

/// A branch is a cleanup candidate exactly when it is merged into the base
/// branch, its upstream is gone, and it is neither the current branch, nor
/// the base branch, nor protected.
pub proof fn law_candidates_are_exactly_the_safe_ones(
    merged: Seq<Seq<char>>,
    gone: Seq<Seq<char>>,
    current: Seq<char>,
    base: Seq<char>,
    protected: Seq<Seq<char>>,
    b: Seq<char>,
)
    ensures
        select_candidates(merged, gone, current, base, protected).contains(b) <==> (merged.contains(b)
            && is_candidate(b, gone, current, base, protected)),
        select_candidates(merged, gone, current, base, protected).contains(b) <==> (merged.contains(b)
            && gone.contains(b) && b != current && b != base && !protected.contains(b)),
    decreases merged.len(),
{
    if merged.len() > 0 {
        law_candidates_are_exactly_the_safe_ones(merged.drop_last(), gone, current, base, protected, b);
        let rest = select_candidates(merged.drop_last(), gone, current, base, protected);
        if merged.contains(b) && !merged.drop_last().contains(b) {
            let i = choose|i: int| 0 <= i < merged.len() && merged[i] == b;
            if i < merged.len() - 1 {
                assert(merged.drop_last()[i] == b);
            }
        }
        if merged.drop_last().contains(b) {
            let i = choose|i: int| 0 <= i < merged.len() - 1 && merged.drop_last()[i] == b;
            assert(merged[i] == b);
        }
        if is_candidate(merged.last(), gone, current, base, protected) {
            assert(rest.push(merged.last()).last() == merged.last());
            if rest.contains(b) {
                let i = choose|i: int| 0 <= i < rest.len() && rest[i] == b;
                assert(rest.push(merged.last())[i] == b);
            }
            if rest.push(merged.last()).contains(b) && b != merged.last() {
                let i = choose|i: int| 0 <= i < rest.len() + 1 && rest.push(merged.last())[i] == b;
                assert(rest[i] == b);
            }
        }
        if merged.contains(b) && b == merged.last() {
            assert(merged[merged.len() - 1] == b);
        }
    }
}

/// Planning a cleanup deletes nothing: besides `git fetch --prune origin`,
/// which only updates remote-tracking refs, it runs only commands that read.
pub proof fn law_cleanup_planning_only_reads(flow: FlowSettings, rs: Seq<RunResult>)
    ensures
        plan_cleanup_next(flow, rs) matches Next::Run(line) ==> line == repo_line() || line
            == head_line() || line == origin_head_line() || line == prune_line() || line
            == track_line() || exists|base_ref: Seq<char>| line == #[trigger] merged_line(base_ref),
{
}

/// Deleting the candidates runs nothing but `git branch -d <candidate>`:
/// never `-D`, never a branch that is not a candidate.
pub proof fn law_delete_only_safely(cands: Seq<Seq<char>>, rs: Seq<RunResult>)
    ensures
        delete_next(cands, rs) matches Next::Run(line) ==> exists|i: int|
            0 <= i < cands.len() && line == delete_line(#[trigger] cands[i]),
    decreases rs.len(),
{
    if cands.len() > 0 && rs.len() > 0 {
        law_delete_only_safely(cands.drop_first(), rs.drop_first());
        if let Next::Run(l) = delete_next(cands, rs) {
            let i = choose|i: int|
                0 <= i < cands.drop_first().len() && l == delete_line(#[trigger] cands.drop_first()[i]);
            assert(cands[i + 1] == cands.drop_first()[i]);
        }
    } else if cands.len() > 0 {
        assert(delete_next(cands, rs) == Next::<DeleteReport>::Run(delete_line(cands[0])));
    }
}

/// Deletion reports a prefix of the candidates as deleted, in order, and
/// reports an error exactly when it stopped before the last candidate.
pub proof fn law_delete_reports_progress(cands: Seq<Seq<char>>, rs: Seq<RunResult>)
    ensures
        delete_next(cands, rs) matches Next::Done(Ok(r)) ==> r.deleted.len() <= cands.len()
            && r.deleted == cands.take(r.deleted.len() as int) && (r.error is None <==> r.deleted
            == cands),
    decreases rs.len(),
{
    if cands.len() > 0 && rs.len() > 0 {
        law_delete_reports_progress(cands.drop_first(), rs.drop_first());
        if let Next::Done(Ok(r)) = delete_next(cands, rs) {
            if let Ok(o) = rs[0] {
                if succeeded(o) {
                    let inner = delete_next(cands.drop_first(), rs.drop_first());
                    if let Next::Done(Ok(q)) = inner {
                        assert(r.deleted == seq![cands[0]] + q.deleted);
                        assert(r.deleted =~= cands.take(r.deleted.len() as int));
                        if q.deleted == cands.drop_first() {
                            assert(r.deleted =~= cands);
                        }
                        if r.deleted == cands {
                            assert(q.deleted =~= cands.drop_first());
                        }
                    }
                } else {
                    assert(r.deleted =~= cands.take(0));
                }
            } else {
                assert(r.deleted =~= cands.take(0));
            }
        }
    } else if cands.len() == 0 {
        assert(cands.take(0) =~= cands);
    }
}

/// Deletion runs `git branch -d` on the candidates one by one, in order,
/// and asks for the next one only while every deletion before it succeeded:
/// nothing is sent after a failed deletion.
pub proof fn law_delete_in_order(cands: Seq<Seq<char>>, rs: Seq<RunResult>)
    ensures
        delete_next(cands, rs) matches Next::Run(line) ==> rs.len() < cands.len() && line
            == delete_line(cands[rs.len() as int]) && forall|j: int|
            0 <= j < rs.len() ==> (#[trigger] rs[j] matches Ok(o) && succeeded(o)),
    decreases rs.len(),
{
    if cands.len() > 0 && rs.len() > 0 {
        law_delete_in_order(cands.drop_first(), rs.drop_first());
        if delete_next(cands, rs) is Run {
            assert(cands.drop_first()[rs.len() - 1] == cands[rs.len() as int]);
            assert forall|j: int| 0 <= j < rs.len() implies (#[trigger] rs[j] matches Ok(o) && succeeded(o)) by {
                if j > 0 {
                    assert(rs.drop_first()[j - 1] == rs[j]);
                }
            }
        }
    }
}

/// The commands in a deletion run are `git branch -d` of the candidates,
/// in order, each sent only after every deletion before it succeeded: with
/// the log that [`delete_branches`] promises, nothing else reaches the
/// runner, and nothing follows a failed deletion.
pub proof fn law_deletion_sends_only_safe_deletes(cands: Seq<Seq<char>>, rs: Seq<RunResult>, i: int)
    requires
        followed(delete_steps(cands), rs),
        0 <= i < rs.len(),
    ensures
        i < cands.len(),
        exchanges(delete_steps(cands), rs)[i].0 == delete_line(cands[i]),
        forall|j: int| 0 <= j < i ==> (#[trigger] rs[j] matches Ok(o) && succeeded(o)),
{
    lemma_exchange_asked(delete_steps(cands), rs, i);
    law_delete_in_order(cands, rs.take(i));
    assert forall|j: int| 0 <= j < i implies (#[trigger] rs[j] matches Ok(o) && succeeded(o)) by {
        assert(rs.take(i)[j] == rs[j]);
    }
}

/// The commands in a cleanup planning run delete nothing: with the log
/// that [`plan_cleanup`] promises, nothing else reaches the runner.
pub proof fn law_plan_cleanup_sends_no_delete(flow: FlowSettings, rs: Seq<RunResult>, i: int)
    requires
        followed(plan_cleanup_steps(flow), rs),
        0 <= i < rs.len(),
    ensures
        ({
            let line = exchanges(plan_cleanup_steps(flow), rs)[i].0;
            line == repo_line() || line == head_line() || line == origin_head_line() || line
                == prune_line() || line == track_line() || exists|base_ref: Seq<char>| line
                == #[trigger] merged_line(base_ref)
        }),
{
    lemma_exchange_asked(plan_cleanup_steps(flow), rs, i);
    law_cleanup_planning_only_reads(flow, rs.take(i));
}

/// How a `for-each-ref` line splits at its first tab: the branch name is
/// the text before it, trimmed, and the tracking state is everything after
/// it; a line without a tab is a name with no tracking state.
pub proof fn law_ref_line_split(line: Seq<char>, t: int)
    requires
        0 <= t <= line.len(),
        forall|j: int| 0 <= j < t ==> #[trigger] line[j] != '\t',
        t == line.len() || line[t] == '\t',
    ensures
        ref_name(line) == trim(line.subrange(0, t)),
        t < line.len() ==> ref_track(line) == line.subrange(t + 1, line.len() as int),
        t == line.len() ==> ref_track(line) == Seq::<char>::empty(),
{
    lemma_tab_index(line, t);
}

/// A branch is reported gone exactly when some line names it and its
/// tracking state says `[gone]`; any other tracking state, such as
/// `[ahead 1]` or `[behind 2]`, leaves the branch out. The branches come
/// in the order of their lines.
pub proof fn law_gone_only_when_marked(ls: Seq<Seq<char>>, n: Seq<char>)
    ensures
        gone_names(ls).contains(n) <==> exists|i: int|
            0 <= i < ls.len() && ref_name(#[trigger] ls[i]) == n && has_substring(
                ref_track(ls[i]),
                "[gone]"@,
            ),
    decreases ls.len(),
{
    if ls.len() > 0 {
        let init = ls.drop_last();
        let last = ls.last();
        law_gone_only_when_marked(init, n);
        let g = gone_names(init);
        let marked = has_substring(ref_track(last), "[gone]"@);
        if gone_names(ls).contains(n) {
            if marked && n == ref_name(last) {
                assert(ls[ls.len() - 1] == last);
            } else {
                if marked {
                    let k = choose|k: int| 0 <= k < g.push(ref_name(last)).len() && g.push(ref_name(last))[k] == n;
                    assert(k < g.len());
                    assert(g[k] == n);
                }
                assert(g.contains(n));
                let i = choose|i: int|
                    0 <= i < init.len() && ref_name(#[trigger] init[i]) == n && has_substring(
                        ref_track(init[i]),
                        "[gone]"@,
                    );
                assert(ls[i] == init[i]);
            }
        }
        if exists|i: int|
            0 <= i < ls.len() && ref_name(#[trigger] ls[i]) == n && has_substring(
                ref_track(ls[i]),
                "[gone]"@,
            ) {
            let i = choose|i: int|
                0 <= i < ls.len() && ref_name(#[trigger] ls[i]) == n && has_substring(
                    ref_track(ls[i]),
                    "[gone]"@,
                );
            if i == ls.len() - 1 {
                assert(gone_names(ls) == g.push(ref_name(last)));
                assert(g.push(ref_name(last))[g.len() as int] == n);
            } else {
                assert(init[i] == ls[i]);
                assert(g.contains(n));
                let k = choose|k: int| 0 <= k < g.len() && g[k] == n;
                if marked {
                    assert(g.push(ref_name(last))[k] == n);
                }
            }
        }
    }
}

/// Only an answer that is `y` or `yes`, in any case and with any white
/// space around it, confirms the deletion: an empty answer declines, and
/// so does anything that does not start with `y`.
pub proof fn law_confirmation(a: Seq<char>)
    ensures
        confirms(a) ==> trim(a).len() > 0 && (trim(a)[0] == 'y' || trim(a)[0] == 'Y'),
        confirms(a) ==> trim(a).len() == 1 || trim(a).len() == 3,
        trim(a) == "y"@ ==> confirms(a),
        trim(a) == "Y"@ ==> confirms(a),
        trim(a) == "yes"@ ==> confirms(a),
        trim(a) == "YES"@ ==> confirms(a),
{
    reveal_strlit("y");
    reveal_strlit("Y");
    reveal_strlit("yes");
    reveal_strlit("YES");
}

} // verus!
