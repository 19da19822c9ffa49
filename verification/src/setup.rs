//! `forja setup`: brings the global git config in line with the `[git]`
//! section, writing only the keys whose current value differs.
use vstd::prelude::*;
use crate::config::{
    GitConfig, GitSettings, alias_listing, lemma_alias_listing_sorted, pair_views, lemma_pair_views_push,
    sorted_aliases,
};
use crate::text::{lemma_text_less_irreflexive, text_less};
use crate::error::{Failure, ForjaError};
use crate::exec::{
    CommandLine, CommandOutcome, CommandRequest, CommandRunner, Next, RunResult, Step,
    command_failed, lemma_exchange_asked, exchanges, followed, lemma_exchanges_push, failed_command,
    git, result_view, succeeded,
};
use crate::text::{decimal, decimal_string, lemma_trim_newline, opt_view, same_text, trim, trimmed, views};

verus! {

/// One `git config --global` key whose current value differs from what
/// `forja.toml` declares.
#[derive(Debug, Clone, PartialEq, Eq)]
pub struct GitConfigChange {
    pub key: String,
    pub old_value: Option<String>,
    pub new_value: String,
}

/// [`GitConfigChange`] as plain values.
pub struct Change {
    pub key: Seq<char>,
    pub old_value: Option<Seq<char>>,
    pub new_value: Seq<char>,
}

impl View for GitConfigChange {
    type V = Change;

    open spec fn view(&self) -> Change {
        Change { key: self.key@, old_value: opt_view(self.old_value), new_value: self.new_value@ }
    }
}

/// The views of a sequence of changes.
pub open spec fn changes_of(v: Seq<GitConfigChange>) -> Seq<Change> {
    v.map_values(|c: GitConfigChange| c@)
}

pub proof fn lemma_changes_push(v: Seq<GitConfigChange>, c: GitConfigChange)
    ensures
        changes_of(v.push(c)) == changes_of(v).push(c@),
{
    assert(changes_of(v.push(c)) =~= changes_of(v).push(c@));
}

/// The changes needed to bring the global git config in line with the
/// declared `[git]` section. Keys already conforming never appear here.
#[derive(Debug, Clone, PartialEq, Eq)]
pub struct SetupPlan {
    pub changes: Vec<GitConfigChange>,
}

impl View for SetupPlan {
    type V = Seq<Change>;

    open spec fn view(&self) -> Seq<Change> {
        changes_of(self.changes@)
    }
}

/// Result of applying a [`SetupPlan`]: the changes that succeeded, and, if
/// execution stopped early, the error that stopped it.
#[derive(Debug, Clone, PartialEq, Eq)]
pub struct ApplyOutcome {
    pub applied: Vec<GitConfigChange>,
    pub error: Option<ForjaError>,
}

/// [`ApplyOutcome`] as plain values.
pub struct ApplyReport {
    pub applied: Seq<Change>,
    pub error: Option<Failure>,
}

impl View for ApplyOutcome {
    type V = ApplyReport;

    open spec fn view(&self) -> ApplyReport {
        ApplyReport {
            applied: changes_of(self.applied@),
            error: match self.error {
                Some(e) => Some(e@),
                None => None,
            },
        }
    }
}

/// `b.to_string()` for a boolean.
pub open spec fn bool_text(b: bool) -> Seq<char> {
    if b { "true"@ } else { "false"@ }
}

/// The `git config` entries of the aliases: `alias.<name>` for each.
pub open spec fn alias_entries(aliases: Seq<(Seq<char>, Seq<char>)>) -> Seq<(Seq<char>, Seq<char>)> {
    aliases.map_values(|a: (Seq<char>, Seq<char>)| ("alias."@ + a.0, a.1))
}

/// The `git config` keys that a `[git]` section controls, with the values it
/// declares, in order: `user.name`, `user.email`, `init.defaultBranch`, then
/// `core.editor` and `pull.rebase` only when set, then one `alias.<name>`
/// per alias in name order, a later entry for a name replacing an earlier
/// one ([`alias_listing`]). Absent optional fields are never applied.
pub open spec fn desired_entries(git: GitSettings) -> Seq<(Seq<char>, Seq<char>)> {
    seq![
        ("user.name"@, git.user_name),
        ("user.email"@, git.user_email),
        ("init.defaultBranch"@, git.default_branch),
    ] + match git.editor {
        Some(e) => seq![("core.editor"@, e)],
        None => seq![],
    } + match git.pull_rebase {
        Some(b) => seq![("pull.rebase"@, bool_text(b))],
        None => seq![],
    } + alias_entries(alias_listing(git.aliases))
}

/// Maps a declared `[git]` section onto the `git config` keys it controls
/// (see [`desired_entries`]).
pub fn git_entries(git: &GitConfig) -> (res: Vec<(String, String)>)
    ensures
        pair_views(res@) == desired_entries(git@),
{
    let mut entries: Vec<(String, String)> = Vec::new();
    let e = ("user.name".to_owned(), git.user_name.clone());
    proof { lemma_pair_views_push(entries@, e); }
    entries.push(e);
    let e = ("user.email".to_owned(), git.user_email.clone());
    proof { lemma_pair_views_push(entries@, e); }
    entries.push(e);
    let e = ("init.defaultBranch".to_owned(), git.default_branch.clone());
    proof { lemma_pair_views_push(entries@, e); }
    entries.push(e);
    if let Some(editor) = &git.editor {
        let e = ("core.editor".to_owned(), editor.clone());
        proof { lemma_pair_views_push(entries@, e); }
        entries.push(e);
    }
    if let Some(pull_rebase) = git.pull_rebase {
        let e = ("pull.rebase".to_owned(), if pull_rebase { "true".to_owned() } else { "false".to_owned() });
        proof { lemma_pair_views_push(entries@, e); }
        entries.push(e);
    }
    let ghost fixed = pair_views(entries@);
    let aliases = sorted_aliases(&git.aliases);
    for i in 0..aliases.len()
        invariant
            pair_views(entries@) == fixed + alias_entries(pair_views(aliases@).take(i as int)),
    {
        let mut key = "alias.".to_owned();
        key.append(aliases[i].0.as_str());
        let e = (key, aliases[i].1.clone());
        proof {
            lemma_pair_views_push(entries@, e);
            assert(alias_entries(pair_views(aliases@).take(i + 1)) =~= alias_entries(
                pair_views(aliases@).take(i as int),
            ).push(e@));
        }
        entries.push(e);
    }
    assert(pair_views(aliases@).take(aliases.len() as int) =~= pair_views(aliases@));
    assert(pair_views(entries@) =~= desired_entries(git@));
    entries
}

/// The request `git config --global --get <key>`.
pub open spec fn get_line(key: Seq<char>) -> CommandLine {
    git(seq!["config"@, "--global"@, "--get"@, key])
}

/// The request `git config --global <key> <value>`.
pub open spec fn set_line(key: Seq<char>, value: Seq<char>) -> CommandLine {
    git(seq!["config"@, "--global"@, key, value])
}

/// The current value of a key from `git config --global --get`: a non-zero
/// exit means the key is unset (no value, not a failure), and so does an
/// empty value; only a failure to run git is an error.
pub open spec fn read_check(r: RunResult) -> Result<Option<Seq<char>>, Failure> {
    match r {
        Err(e) => Err(e@),
        Ok(o) => if !succeeded(o) || trim(o.stdout@).len() == 0 {
            Ok(None)
        } else {
            Ok(Some(trim(o.stdout@)))
        },
    }
}

/// `n` with the changes `p` found before it.
pub open spec fn after_changes(p: Seq<Change>, n: Next<Seq<Change>>) -> Next<Seq<Change>> {
    match n {
        Next::Done(Ok(cs)) => Next::Done(Ok(p + cs)),
        other => other,
    }
}

/// What computing a setup plan for `entries` does after the reads it ran
/// gave `rs`: read the current value of each key in order, and keep a change
/// for each key whose current value is not the declared one.
pub open spec fn compute_next(entries: Seq<(Seq<char>, Seq<char>)>, rs: Seq<RunResult>) -> Next<
    Seq<Change>,
>
    decreases rs.len(),
{
    if entries.len() == 0 {
        Next::Done(Ok(seq![]))
    } else if rs.len() == 0 {
        Next::Run(get_line(entries[0].0))
    } else {
        match read_check(rs[0]) {
            Err(e) => Next::Done(Err(e)),
            Ok(old) => {
                let (key, new_value) = entries[0];
                let found = if old != Some(new_value) {
                    seq![Change { key, old_value: old, new_value }]
                } else {
                    seq![]
                };
                after_changes(found, compute_next(entries.drop_first(), rs.drop_first()))
            },
        }
    }
}

pub proof fn lemma_after_changes_twice(p: Seq<Change>, q: Seq<Change>, n: Next<Seq<Change>>)
    ensures
        after_changes(p, after_changes(q, n)) == after_changes(p + q, n),
{
    match n {
        Next::Done(Ok(cs)) => {
            assert(p + (q + cs) =~= (p + q) + cs);
        },
        _ => {},
    }
}

pub proof fn lemma_compute_bounded(entries: Seq<(Seq<char>, Seq<char>)>, rs: Seq<RunResult>)
    ensures
        compute_next(entries, rs) is Run ==> rs.len() < entries.len(),
    decreases rs.len(),
{
    if entries.len() > 0 && rs.len() > 0 {
        lemma_compute_bounded(entries.drop_first(), rs.drop_first());
    }
}

/// Reads the current global value of a key (see [`read_check`]).
pub fn read_current(r: &RunResult) -> (res: Result<Option<String>, ForjaError>)
    ensures
        match res {
            Ok(v) => read_check(*r) == Ok::<Option<Seq<char>>, Failure>(opt_view(v)),
            Err(e) => read_check(*r) == Err::<Option<Seq<char>>, Failure>(e@),
        },
{
    match r {
        Err(e) => Err(e.copy()),
        Ok(o) => {
            if !o.success() {
                return Ok(None);
            }
            let value = trimmed(o.stdout.as_str());
            if value.as_str().is_empty() {
                Ok(None)
            } else {
                Ok(Some(value))
            }
        },
    }
}

fn copy_change(c: &GitConfigChange) -> (res: GitConfigChange)
    ensures
        res@ == c@,
{
    GitConfigChange {
        key: c.key.clone(),
        old_value: match &c.old_value {
            Some(v) => Some(v.clone()),
            None => None,
        },
        new_value: c.new_value.clone(),
    }
}

/// What computing the setup plan for `git` does next, given the outcomes of
/// the reads it has run so far (see [`compute_next`]).
pub fn compute_step(git: &GitConfig, responses: &Vec<RunResult>) -> (res: Step<SetupPlan>)
    ensures
        res@ == compute_next(desired_entries(git@), responses@),
{
    let entries = git_entries(git);
    let ghost es = pair_views(entries@);
    let mut changes: Vec<GitConfigChange> = Vec::new();
    let mut i: usize = 0;
    proof {
        assert(es.skip(0) =~= es);
        assert(responses@.skip(0) =~= responses@);
        match compute_next(es, responses@) {
            Next::Done(Ok(cs)) => { assert(Seq::<Change>::empty() + cs =~= cs); },
            _ => {},
        }
    }
    while i < entries.len() && i < responses.len()
        invariant
            es == pair_views(entries@),
            es == desired_entries(git@),
            i <= entries.len(),
            i <= responses.len(),
            compute_next(es, responses@) == after_changes(
                changes_of(changes@),
                compute_next(es.skip(i as int), responses@.skip(i as int)),
            ),
        decreases entries.len() - i,
    {
        proof {
            assert(responses@.skip(i as int)[0] == responses@[i as int]);
            assert(es.skip(i as int)[0] == es[i as int]);
            assert(es.skip(i as int).drop_first() =~= es.skip(i + 1));
            assert(responses@.skip(i as int).drop_first() =~= responses@.skip(i + 1));
        }
        let old_value = match read_current(&responses[i]) {
            Err(e) => return Step::Done(Err(e)),
            Ok(v) => v,
        };
        let differs = match &old_value {
            Some(v) => !same_text(v.as_str(), entries[i].1.as_str()),
            None => true,
        };
        let ghost before = changes_of(changes@);
        if differs {
            let c = GitConfigChange { key: entries[i].0.clone(), old_value, new_value: entries[i].1.clone() };
            proof {
                lemma_changes_push(changes@, c);
                lemma_after_changes_twice(before, seq![c@], compute_next(es.skip(i + 1), responses@.skip(i + 1)));
                assert(before + seq![c@] =~= before.push(c@));
            }
            changes.push(c);
        } else {
            proof {
                lemma_after_changes_twice(before, seq![], compute_next(es.skip(i + 1), responses@.skip(i + 1)));
                assert(before + Seq::<Change>::empty() =~= before);
            }
        }
        i = i + 1;
    }
    if i < entries.len() {
        let r = CommandRequest::new("git", &["config", "--global", "--get", entries[i].0.as_str()]);
        proof {
            assert(r@.args =~= get_line(es[i as int].0).args);
            assert(es.skip(i as int)[0] == es[i as int]);
        }
        Step::Run(r)
    } else {
        proof {
            assert(changes_of(changes@) + Seq::<Change>::empty() =~= changes_of(changes@));
        }
        Step::Done(Ok(SetupPlan { changes }))
    }
}

/// [`compute_next`] for `entries`, as a function of the outcomes so far.
pub open spec fn compute_steps(entries: Seq<(Seq<char>, Seq<char>)>) -> spec_fn(Seq<RunResult>) -> Next<Seq<Change>> {
    |rs: Seq<RunResult>| compute_next(entries, rs)
}

/// Computes the diff between the declared `[git]` section and the current
/// machine state, always before writing anything.
/// What reaches `runner` is exactly the exchanges of one run of
/// [`compute_next`]: its log grows by each command the flow asks for after
/// the outcomes before it, with its outcome, and by nothing else. The
/// result is what [`compute_next`] gives at the end of that run.
pub fn compute_plan<R: CommandRunner + ?Sized>(git: &GitConfig, runner: &mut R) -> (res: Result<SetupPlan, ForjaError>)
    ensures
        exists|rs: Seq<RunResult>|
            #[trigger] compute_next(desired_entries(git@), rs) == Next::Done(result_view(res))
                && followed(compute_steps(desired_entries(git@)), rs)
                && final(runner).log() == old(runner).log() + exchanges(compute_steps(desired_entries(git@)), rs),
{
    let mut responses: Vec<RunResult> = Vec::new();
    let count = git_entries(git).len();
    loop
        invariant
            count == desired_entries(git@).len(),
            responses.len() <= count,
            followed(compute_steps(desired_entries(git@)), responses@),
            runner.log() == old(runner).log() + exchanges(compute_steps(desired_entries(git@)), responses@),
        decreases count - responses.len(),
    {
        match compute_step(git, &responses) {
            Step::Run(request) => {
                proof { lemma_compute_bounded(desired_entries(git@), responses@); }
                let outcome = runner.run(&request);
                proof {
                    assert(compute_steps(desired_entries(git@))(responses@) == Next::<Seq<Change>>::Run(request@));
                    lemma_exchanges_push(compute_steps(desired_entries(git@)), responses@, outcome);
                    assert(runner.log() =~= old(runner).log() + exchanges(compute_steps(desired_entries(git@)), responses@.push(outcome)));
                }
                responses.push(outcome);
            },
            Step::Done(res) => {
                return res;
            },
        }
    }
}


/// `n` with the changes `p` applied before it.
pub open spec fn after_applying(p: Seq<Change>, n: Next<ApplyReport>) -> Next<ApplyReport> {
    match n {
        Next::Done(Ok(r)) => Next::Done(Ok(ApplyReport { applied: p + r.applied, error: r.error })),
        other => other,
    }
}

/// What applying `changes` does after the writes it ran gave `rs`: write
/// each change in order with its own `git config --global <key> <value>`,
/// and stop at the first one that fails, reporting what was applied before
/// it. Nothing is rolled back.
pub open spec fn apply_next(changes: Seq<Change>, rs: Seq<RunResult>) -> Next<ApplyReport>
    decreases rs.len(),
{
    if changes.len() == 0 {
        Next::Done(Ok(ApplyReport { applied: seq![], error: None }))
    } else if rs.len() == 0 {
        Next::Run(set_line(changes[0].key, changes[0].new_value))
    } else {
        match rs[0] {
            Err(e) => Next::Done(Ok(ApplyReport { applied: seq![], error: Some(e@) })),
            Ok(o) => if !succeeded(o) {
                Next::Done(
                    Ok(
                        ApplyReport {
                            applied: seq![],
                            error: Some(
                                command_failed(
                                    "git config --global "@ + changes[0].key + " "@
                                        + changes[0].new_value,
                                    o,
                                ),
                            ),
                        },
                    ),
                )
            } else {
                after_applying(seq![changes[0]], apply_next(changes.drop_first(), rs.drop_first()))
            },
        }
    }
}

pub proof fn lemma_after_applying_twice(p: Seq<Change>, q: Seq<Change>, n: Next<ApplyReport>)
    ensures
        after_applying(p, after_applying(q, n)) == after_applying(p + q, n),
{
    match n {
        Next::Done(Ok(r)) => {
            assert(p + (q + r.applied) =~= (p + q) + r.applied);
        },
        _ => {},
    }
}

pub proof fn lemma_apply_bounded(changes: Seq<Change>, rs: Seq<RunResult>)
    ensures
        apply_next(changes, rs) is Run ==> rs.len() < changes.len(),
        !(apply_next(changes, rs) matches Next::Done(Err(_))),
    decreases rs.len(),
{
    if changes.len() > 0 && rs.len() > 0 {
        lemma_apply_bounded(changes.drop_first(), rs.drop_first());
    }
}

/// What applying `plan` does next, given the outcomes of the writes it has
/// run so far (see [`apply_next`]).
pub fn apply_step(plan: &SetupPlan, responses: &Vec<RunResult>) -> (res: Step<ApplyOutcome>)
    ensures
        res@ == apply_next(plan@, responses@),
{
    let ghost cs = plan@;
    let mut applied: Vec<GitConfigChange> = Vec::new();
    let mut i: usize = 0;
    proof {
        assert(cs.skip(0) =~= cs);
        assert(responses@.skip(0) =~= responses@);
        match apply_next(cs, responses@) {
            Next::Done(Ok(r)) => { assert(Seq::<Change>::empty() + r.applied =~= r.applied); },
            _ => {},
        }
    }
    while i < plan.changes.len() && i < responses.len()
        invariant
            cs == plan@,
            i <= plan.changes.len(),
            i <= responses.len(),
            changes_of(applied@) == cs.take(i as int),
            apply_next(cs, responses@) == after_applying(
                cs.take(i as int),
                apply_next(cs.skip(i as int), responses@.skip(i as int)),
            ),
        decreases plan.changes.len() - i,
    {
        let change = &plan.changes[i];
        proof {
            assert(responses@.skip(i as int)[0] == responses@[i as int]);
            assert(cs.skip(i as int)[0] == cs[i as int]);
            assert(cs[i as int] == change@);
        }
        match &responses[i] {
            Err(e) => {
                proof { assert(cs.take(i as int) + Seq::<Change>::empty() =~= cs.take(i as int)); }
                return Step::Done(Ok(ApplyOutcome { applied, error: Some(e.copy()) }));
            },
            Ok(o) => if !o.success() {
                let mut command = "git config --global ".to_owned();
                command.append(change.key.as_str());
                command.append(" ");
                command.append(change.new_value.as_str());
                proof { assert(cs.take(i as int) + Seq::<Change>::empty() =~= cs.take(i as int)); }
                return Step::Done(Ok(ApplyOutcome { applied, error: Some(failed_command(command, o)) }));
            },
        }
        let c = copy_change(change);
        proof {
            lemma_changes_push(applied@, c);
            assert(cs.skip(i as int).drop_first() =~= cs.skip(i + 1));
            assert(responses@.skip(i as int).drop_first() =~= responses@.skip(i + 1));
            lemma_after_applying_twice(
                cs.take(i as int),
                seq![cs[i as int]],
                apply_next(cs.skip(i + 1), responses@.skip(i + 1)),
            );
            assert(cs.take(i as int) + seq![cs[i as int]] =~= cs.take(i + 1));
        }
        applied.push(c);
        i = i + 1;
    }
    if i < plan.changes.len() {
        let change = &plan.changes[i];
        let r = CommandRequest::new("git", &["config", "--global", change.key.as_str(), change.new_value.as_str()]);
        proof {
            assert(cs[i as int] == change@);
            assert(r@.args =~= set_line(cs[i as int].key, cs[i as int].new_value).args);
            assert(cs.skip(i as int)[0] == cs[i as int]);
        }
        Step::Run(r)
    } else {
        proof {
            assert(cs.take(i as int) =~= cs);
            assert(cs.take(i as int) + Seq::<Change>::empty() =~= cs);
        }
        Step::Done(Ok(ApplyOutcome { applied, error: None }))
    }
}

/// [`apply_next`] for `changes`, as a function of the outcomes so far.
pub open spec fn apply_steps(changes: Seq<Change>) -> spec_fn(Seq<RunResult>) -> Next<ApplyReport> {
    |rs: Seq<RunResult>| apply_next(changes, rs)
}

/// Applies each change in order via `git config --global <key> <value>`,
/// one process per key, stopping at the first failure (no rollback: partial
/// state is acceptable, silent partial state is not).
/// What reaches `runner` is exactly the exchanges of one run of
/// [`apply_next`]: its log grows by each command the flow asks for after
/// the outcomes before it, with its outcome, and by nothing else. The
/// outcome is what [`apply_next`] gives at the end of that run.
pub fn apply_plan<R: CommandRunner + ?Sized>(plan: &SetupPlan, runner: &mut R) -> (res: ApplyOutcome)
    ensures
        exists|rs: Seq<RunResult>|
            #[trigger] apply_next(plan@, rs) == Next::Done(Ok(res@)) && followed(apply_steps(plan@), rs)
                && final(runner).log() == old(runner).log() + exchanges(apply_steps(plan@), rs),
{
    let mut responses: Vec<RunResult> = Vec::new();
    loop
        invariant
            responses.len() <= plan.changes.len(),
            followed(apply_steps(plan@), responses@),
            runner.log() == old(runner).log() + exchanges(apply_steps(plan@), responses@),
        decreases plan.changes.len() - responses.len(),
    {
        proof { lemma_apply_bounded(plan@, responses@); }
        match apply_step(plan, &responses) {
            Step::Run(request) => {
                let outcome = runner.run(&request);
                proof {
                    assert(apply_steps(plan@)(responses@) == Next::<ApplyReport>::Run(request@));
                    lemma_exchanges_push(apply_steps(plan@), responses@, outcome);
                    assert(runner.log() =~= old(runner).log() + exchanges(apply_steps(plan@), responses@.push(outcome)));
                }
                responses.push(outcome);
            },
            Step::Done(Ok(res)) => {
                return res;
            },
            Step::Done(Err(_)) => {
                // Never taken: applying always finishes with a report.
                proof { assert(false); }
                return ApplyOutcome { applied: Vec::new(), error: None };
            },
        }
    }
}


/// The line reported after applying: `applied N of M change(s)`.
pub open spec fn applied_summary(applied: nat, total: nat) -> Seq<char> {
    "applied "@ + decimal(applied) + " of "@ + decimal(total) + " change(s)"@
}

/// The line reported after applying `applied` of `total` changes.
pub fn applied_message(applied: usize, total: usize) -> (res: String)
    ensures
        res@ == applied_summary(applied as nat, total as nat),
{
    let mut s = "applied ".to_owned();
    s.append(decimal_string(applied as u64).as_str());
    s.append(" of ");
    s.append(decimal_string(total as u64).as_str());
    s.append(" change(s)");
    s
}

/// One line per change: `  key : old -> new`, with `(unset)` for a key
/// that has no current value.
pub open spec fn change_lines(cs: Seq<Change>) -> Seq<char>
    decreases cs.len(),
{
    if cs.len() == 0 {
        seq![]
    } else {
        let c = cs.last();
        change_lines(cs.drop_last()) + "  "@ + c.key + " : "@ + match c.old_value {
            Some(v) => v,
            None => "(unset)"@,
        } + " -> "@ + c.new_value + "\n"@
    }
}

/// The changes as `forja setup` lists them (see [`change_lines`]).
pub fn render_setup_plan(plan: &SetupPlan) -> (res: String)
    ensures
        res@ == change_lines(plan@),
{
    let mut s = String::new();
    let ghost v = plan@;
    for i in 0..plan.changes.len()
        invariant
            v == plan@,
            s@ == change_lines(v.take(i as int)),
    {
        proof {
            assert(v.take(i + 1).drop_last() =~= v.take(i as int));
            assert(v.take(i + 1).last() == v[i as int]);
        }
        let c = &plan.changes[i];
        s.append("  ");
        s.append(c.key.as_str());
        s.append(" : ");
        let ghost mid = s@;
        match &c.old_value {
            Some(old) => s.append(old.as_str()),
            None => s.append("(unset)"),
        }
        let ghost old_part = s@.skip(mid.len() as int);
        assert(s@ =~= mid + old_part);
        s.append(" -> ");
        s.append(c.new_value.as_str());
        s.append("\n");
        assert(s@ =~= change_lines(v.take(i + 1)));
    }
    assert(v.take(plan.changes.len() as int) =~= v);
    s
}

/// What `forja setup` does once the config is loaded and, when there is a
/// `[git]` section, its plan is computed.
#[derive(Debug, Clone, Copy, PartialEq, Eq)]
pub enum SetupAction {
    /// No `[git]` section: nothing to apply.
    NothingToApply,
    /// Every declared key already has its value: no change needed.
    AlreadyConforms,
    /// `--dry-run`: show the plan, back up nothing, write nothing.
    ShowPlanOnly,
    /// Show the plan, back up the global gitconfig, then apply the plan.
    BackupThenApply,
}

/// The action of `forja setup` (see [`SetupAction`]): a dry run never backs
/// up or writes anything, and the backup always comes before the writes.
pub fn setup_action(has_git: bool, plan_empty: bool, dry_run: bool) -> (res: SetupAction)
    ensures
        !has_git ==> res == SetupAction::NothingToApply,
        has_git && plan_empty ==> res == SetupAction::AlreadyConforms,
        has_git && !plan_empty && dry_run ==> res == SetupAction::ShowPlanOnly,
        has_git && !plan_empty && !dry_run ==> res == SetupAction::BackupThenApply,
{
    if !has_git {
        SetupAction::NothingToApply
    } else if plan_empty {
        SetupAction::AlreadyConforms
    } else if dry_run {
        SetupAction::ShowPlanOnly
    } else {
        SetupAction::BackupThenApply
    }
}

// ---------------------------------------------------------------------------
// Laws.
// ---------------------------------------------------------------------------

/// Every change in a setup plan is for a declared key, carries the declared
/// value, and is there because the current value differs: keys that already
/// conform never cause a write.
pub proof fn law_changes_are_divergences(
    entries: Seq<(Seq<char>, Seq<char>)>,
    rs: Seq<RunResult>,
    cs: Seq<Change>,
)
    requires
        compute_next(entries, rs) == Next::<Seq<Change>>::Done(Ok(cs)),
    ensures
        forall|j: int|
            0 <= j < cs.len() ==> exists|i: int|
                0 <= i < entries.len() && (#[trigger] cs[j]).key == entries[i].0 && cs[j].new_value
                    == entries[i].1 && cs[j].old_value != Some(entries[i].1),
    decreases rs.len(),
{
    if entries.len() > 0 && rs.len() > 0 {
        if let Ok(old) = read_check(rs[0]) {
            let (key, new_value) = entries[0];
            let found = if old != Some(new_value) {
                seq![Change { key, old_value: old, new_value }]
            } else {
                seq![]
            };
            let inner = compute_next(entries.drop_first(), rs.drop_first());
            if let Next::Done(Ok(rest)) = inner {
                law_changes_are_divergences(entries.drop_first(), rs.drop_first(), rest);
                assert(cs == found + rest);
                assert forall|j: int| 0 <= j < cs.len() implies exists|i: int|
                    0 <= i < entries.len() && (#[trigger] cs[j]).key == entries[i].0 && cs[j].new_value
                        == entries[i].1 && cs[j].old_value != Some(entries[i].1) by {
                    if j < found.len() {
                        assert(cs[j] == found[j]);
                        assert(cs[j].key == entries[0].0);
                    } else {
                        assert(cs[j] == rest[j - found.len()]);
                        let i = choose|i: int|
                            0 <= i < entries.drop_first().len() && (#[trigger] rest[j - found.len()]).key
                                == entries.drop_first()[i].0 && rest[j - found.len()].new_value
                                == entries.drop_first()[i].1 && rest[j - found.len()].old_value != Some(
                                entries.drop_first()[i].1,
                            );
                        assert(entries[i + 1] == entries.drop_first()[i]);
                    }
                }
            }
        }
    }
}

/// Computing a setup plan writes nothing: the only commands it runs are
/// `git config --global --get <key>` for declared keys.
pub proof fn law_planning_only_reads(entries: Seq<(Seq<char>, Seq<char>)>, rs: Seq<RunResult>)
    ensures
        compute_next(entries, rs) matches Next::Run(line) ==> exists|i: int|
            0 <= i < entries.len() && line == get_line(#[trigger] entries[i].0),
    decreases rs.len(),
{
    if entries.len() > 0 && rs.len() > 0 {
        law_planning_only_reads(entries.drop_first(), rs.drop_first());
        if let Next::Run(l) = compute_next(entries, rs) {
            if read_check(rs[0]) is Ok {
                assert(compute_next(entries.drop_first(), rs.drop_first()) == Next::<Seq<Change>>::Run(l));
                let i = choose|i: int|
                    0 <= i < entries.drop_first().len() && l == get_line(#[trigger] entries.drop_first()[i].0);
                assert(entries[i + 1] == entries.drop_first()[i]);
            }
        }
    } else if entries.len() > 0 {
        assert(compute_next(entries, rs) == Next::<Seq<Change>>::Run(get_line(entries[0].0)));
    }
}

/// Applying a plan reports a prefix of its changes as applied, in order,
/// and reports an error exactly when it stopped before the last change.
pub proof fn law_apply_reports_progress(changes: Seq<Change>, rs: Seq<RunResult>)
    ensures
        apply_next(changes, rs) matches Next::Done(Ok(r)) ==> r.applied.len() <= changes.len()
            && r.applied == changes.take(r.applied.len() as int) && (r.error is None <==> r.applied
            == changes),
    decreases rs.len(),
{
    if changes.len() > 0 && rs.len() > 0 {
        law_apply_reports_progress(changes.drop_first(), rs.drop_first());
        if let Next::Done(Ok(r)) = apply_next(changes, rs) {
            if let Ok(o) = rs[0] {
                if succeeded(o) {
                    let inner = apply_next(changes.drop_first(), rs.drop_first());
                    if let Next::Done(Ok(q)) = inner {
                        assert(r.applied == seq![changes[0]] + q.applied);
                        assert(r.applied =~= changes.take(r.applied.len() as int));
                        if q.applied == changes.drop_first() {
                            assert(r.applied =~= changes);
                        }
                        if r.applied == changes {
                            assert(q.applied =~= changes.drop_first());
                        }
                    }
                } else {
                    assert(r.applied =~= changes.take(0));
                }
            } else {
                assert(r.applied =~= changes.take(0));
            }
        }
    } else if changes.len() == 0 {
        assert(changes.take(0) =~= changes);
    }
}


/// `r` is what `git config --global --get <key>` gives when the global
/// config holds `store`: the stored value and a newline, or a failing exit
/// when the key is unset.
pub open spec fn reads_store(r: RunResult, store: Map<Seq<char>, Seq<char>>, key: Seq<char>) -> bool {
    match r {
        Ok(o) => if store.contains_key(key) {
            succeeded(o) && o.stdout@ == store[key].push('\n')
        } else {
            !succeeded(o)
        },
        Err(_) => false,
    }
}

/// `rs` are the reads of every key of `entries`, in order, from `store`.
pub open spec fn reads_of(
    rs: Seq<RunResult>,
    store: Map<Seq<char>, Seq<char>>,
    entries: Seq<(Seq<char>, Seq<char>)>,
) -> bool {
    rs.len() == entries.len() && forall|i: int| 0 <= i < rs.len() ==> reads_store(#[trigger] rs[i], store, entries[i].0)
}

/// The global config after writing each change in order.
pub open spec fn apply_changes(store: Map<Seq<char>, Seq<char>>, cs: Seq<Change>) -> Map<Seq<char>, Seq<char>>
    decreases cs.len(),
{
    if cs.len() == 0 {
        store
    } else {
        apply_changes(store, cs.drop_last()).insert(cs.last().key, cs.last().new_value)
    }
}

/// A value that git gives back as written: non-empty, with nothing for
/// trimming to take off.
pub open spec fn stable_value(v: Seq<char>) -> bool {
    v.len() > 0 && trim(v) == v
}

proof fn lemma_read_stable(r: RunResult, store: Map<Seq<char>, Seq<char>>, key: Seq<char>)
    requires
        reads_store(r, store, key),
        store.contains_key(key),
        stable_value(store[key]),
    ensures
        read_check(r) == Ok::<Option<Seq<char>>, Failure>(Some(store[key])),
{
    lemma_trim_newline(store[key]);
}

proof fn lemma_compute_all_conform(entries: Seq<(Seq<char>, Seq<char>)>, rs: Seq<RunResult>)
    requires
        rs.len() == entries.len(),
        forall|i: int|
            0 <= i < rs.len() ==> read_check(#[trigger] rs[i]) == Ok::<Option<Seq<char>>, Failure>(
                Some(entries[i].1),
            ),
    ensures
        compute_next(entries, rs) == Next::<Seq<Change>>::Done(Ok(seq![])),
    decreases rs.len(),
{
    if entries.len() > 0 {
        assert forall|i: int| 0 <= i < rs.drop_first().len() implies read_check(
            #[trigger] rs.drop_first()[i],
        ) == Ok::<Option<Seq<char>>, Failure>(Some(entries.drop_first()[i].1)) by {
            assert(rs.drop_first()[i] == rs[i + 1]);
        }
        lemma_compute_all_conform(entries.drop_first(), rs.drop_first());
        assert(read_check(rs[0]) == Ok::<Option<Seq<char>>, Failure>(Some(entries[0].1)));
        assert(Seq::<Change>::empty() + Seq::<Change>::empty() =~= Seq::<Change>::empty());
    }
}

/// A key whose read diverged from its declared value has a change.
proof fn lemma_divergence_has_change(
    entries: Seq<(Seq<char>, Seq<char>)>,
    rs: Seq<RunResult>,
    cs: Seq<Change>,
    i: int,
)
    requires
        compute_next(entries, rs) == Next::<Seq<Change>>::Done(Ok(cs)),
        0 <= i < entries.len(),
        i < rs.len(),
        read_check(rs[i]) is Ok,
        read_check(rs[i])->Ok_0 != Some(entries[i].1),
    ensures
        exists|j: int| 0 <= j < cs.len() && (#[trigger] cs[j]).key == entries[i].0,
    decreases rs.len(),
{
    if let Ok(old) = read_check(rs[0]) {
        let (key, new_value) = entries[0];
        let found = if old != Some(new_value) {
            seq![Change { key, old_value: old, new_value }]
        } else {
            seq![]
        };
        if let Next::Done(Ok(rest)) = compute_next(entries.drop_first(), rs.drop_first()) {
            assert(cs == found + rest);
            if i == 0 {
                assert(cs[0].key == entries[0].0);
            } else {
                assert(rs.drop_first()[i - 1] == rs[i]);
                assert(entries.drop_first()[i - 1] == entries[i]);
                lemma_divergence_has_change(entries.drop_first(), rs.drop_first(), rest, i - 1);
                let j = choose|j: int| 0 <= j < rest.len() && (#[trigger] rest[j]).key == entries[i].0;
                assert(cs[j + found.len()] == rest[j]);
            }
        }
    }
}

/// What the config holds for `key` after applying `cs`: the new value of
/// some change for `key`, or what it held before when no change is for it.
proof fn lemma_apply_lookup(store: Map<Seq<char>, Seq<char>>, cs: Seq<Change>, key: Seq<char>)
    ensures
        (exists|j: int| 0 <= j < cs.len() && (#[trigger] cs[j]).key == key) ==> apply_changes(
            store,
            cs,
        ).contains_key(key) && exists|j: int|
            0 <= j < cs.len() && (#[trigger] cs[j]).key == key && apply_changes(store, cs)[key]
                == cs[j].new_value,
        (forall|j: int| 0 <= j < cs.len() ==> (#[trigger] cs[j]).key != key) ==> (apply_changes(
            store,
            cs,
        ).contains_key(key) == store.contains_key(key) && (store.contains_key(key) ==> apply_changes(
            store,
            cs,
        )[key] == store[key])),
    decreases cs.len(),
{
    if cs.len() > 0 {
        let init = cs.drop_last();
        lemma_apply_lookup(store, init, key);
        if cs.last().key != key {
            if exists|j: int| 0 <= j < cs.len() && (#[trigger] cs[j]).key == key {
                let j = choose|j: int| 0 <= j < cs.len() && (#[trigger] cs[j]).key == key;
                assert(init[j] == cs[j]);
                let j2 = choose|j2: int|
                    0 <= j2 < init.len() && (#[trigger] init[j2]).key == key && apply_changes(store, init)[key]
                        == init[j2].new_value;
                assert(cs[j2] == init[j2]);
            }
            if forall|j: int| 0 <= j < cs.len() ==> (#[trigger] cs[j]).key != key {
                assert forall|j: int| 0 <= j < init.len() implies (#[trigger] init[j]).key != key by {
                    assert(init[j] == cs[j]);
                }
            }
        } else {
            assert(cs[cs.len() - 1].key == key);
        }
    }
}

/// Running setup again right after it applied its plan finds nothing left
/// to change: the second run reports zero changes. This holds when the
/// declared keys are distinct and each declared value is one that git gives
/// back as written (non-empty, no surrounding whitespace); reads trim what
/// git prints, so a value such as `" x"` would be written again each time.
pub proof fn law_setup_converges(
    entries: Seq<(Seq<char>, Seq<char>)>,
    store: Map<Seq<char>, Seq<char>>,
    rs1: Seq<RunResult>,
    cs: Seq<Change>,
    rs2: Seq<RunResult>,
)
    requires
        forall|i: int, j: int| 0 <= i < j < entries.len() ==> entries[i].0 != entries[j].0,
        forall|i: int| 0 <= i < entries.len() ==> stable_value(#[trigger] entries[i].1),
        reads_of(rs1, store, entries),
        compute_next(entries, rs1) == Next::<Seq<Change>>::Done(Ok(cs)),
        reads_of(rs2, apply_changes(store, cs), entries),
    ensures
        compute_next(entries, rs2) == Next::<Seq<Change>>::Done(Ok(seq![])),
{
    let after = apply_changes(store, cs);
    law_changes_are_divergences(entries, rs1, cs);
    assert forall|i: int| 0 <= i < rs2.len() implies read_check(#[trigger] rs2[i]) == Ok::<
        Option<Seq<char>>,
        Failure,
    >(Some(entries[i].1)) by {
        let key = entries[i].0;
        let v = entries[i].1;
        assert(reads_store(rs2[i], after, key));
        assert(reads_store(rs1[i], store, key));
        lemma_apply_lookup(store, cs, key);
        if exists|j: int| 0 <= j < cs.len() && (#[trigger] cs[j]).key == key {
            let j = choose|j: int|
                0 <= j < cs.len() && (#[trigger] cs[j]).key == key && after[key] == cs[j].new_value;
            let i2 = choose|i2: int|
                0 <= i2 < entries.len() && (#[trigger] cs[j]).key == entries[i2].0 && cs[j].new_value
                    == entries[i2].1 && cs[j].old_value != Some(entries[i2].1);
            if i2 != i {
                if i2 < i {
                    assert(entries[i2].0 != entries[i].0);
                } else {
                    assert(entries[i].0 != entries[i2].0);
                }
            }
            lemma_read_stable(rs2[i], after, key);
        } else {
            if read_check(rs1[i]) != Ok::<Option<Seq<char>>, Failure>(Some(v)) {
                lemma_divergence_has_change(entries, rs1, cs, i);
            }
            assert(store.contains_key(key));
            assert(rs1[i]->Ok_0.stdout@ == rs2[i]->Ok_0.stdout@);
        }
    }
    lemma_compute_all_conform(entries, rs2);
}


/// The `git config` keys that a `[git]` section declares are distinct, so
/// no declared value overrides another.
pub proof fn law_desired_keys_distinct(git: GitSettings)
    ensures
        forall|i: int, j: int|
            0 <= i < j < desired_entries(git).len() ==> (#[trigger] desired_entries(git)[i]).0
                != (#[trigger] desired_entries(git)[j]).0,
{
    reveal_strlit("user.name");
    reveal_strlit("user.email");
    reveal_strlit("init.defaultBranch");
    reveal_strlit("core.editor");
    reveal_strlit("pull.rebase");
    reveal_strlit("alias.");
    let listing = alias_listing(git.aliases);
    lemma_alias_listing_sorted(git.aliases);
    let e = desired_entries(git);
    let fixed = e.len() - listing.len();
    let aliases = alias_entries(listing);
    assert(e.subrange(fixed, e.len() as int) =~= aliases);
    assert forall|i: int, j: int| 0 <= i < j < e.len() implies (#[trigger] e[i]).0 != (#[trigger] e[j]).0 by {
        if j >= fixed {
            assert(e[j] == aliases[j - fixed]);
            assert(e[j].0 == "alias."@ + listing[j - fixed].0);
            assert(e[j].0[0] == 'a');
            if i >= fixed {
                assert(e[i] == aliases[i - fixed]);
                assert(text_less(listing[i - fixed].0, listing[j - fixed].0));
                lemma_text_less_irreflexive(listing[i - fixed].0);
                if e[i].0 == e[j].0 {
                    assert(listing[i - fixed].0 =~= e[i].0.skip(6));
                    assert(listing[j - fixed].0 =~= e[j].0.skip(6));
                }
            } else {
                assert(e[i].0[0] != 'a');
            }
        } else {
            assert(e[i].0 != e[j].0) by {
                assert(e[i].0.len() != e[j].0.len() || e[i].0[0] != e[j].0[0] || e[i].0[5] != e[j].0[5]);
            }
        }
    }
}

/// Computing a plan reads the declared keys one by one, in order, and
/// asks for the next read only while every read before it ran.
pub proof fn law_compute_in_order(entries: Seq<(Seq<char>, Seq<char>)>, rs: Seq<RunResult>)
    ensures
        compute_next(entries, rs) matches Next::Run(line) ==> rs.len() < entries.len() && line
            == get_line(entries[rs.len() as int].0) && forall|j: int|
            0 <= j < rs.len() ==> (#[trigger] read_check(rs[j])) is Ok,
    decreases rs.len(),
{
    if entries.len() > 0 && rs.len() > 0 {
        law_compute_in_order(entries.drop_first(), rs.drop_first());
        if compute_next(entries, rs) is Run {
            assert(entries.drop_first()[rs.len() - 1] == entries[rs.len() as int]);
            assert forall|j: int| 0 <= j < rs.len() implies (#[trigger] read_check(rs[j])) is Ok by {
                if j > 0 {
                    assert(rs.drop_first()[j - 1] == rs[j]);
                }
            }
        }
    }
}

/// Applying a plan writes its changes one by one, in order, and asks for
/// the next write only while every write before it succeeded: nothing is
/// written after a failed write.
pub proof fn law_apply_in_order(changes: Seq<Change>, rs: Seq<RunResult>)
    ensures
        apply_next(changes, rs) matches Next::Run(line) ==> rs.len() < changes.len() && line
            == set_line(changes[rs.len() as int].key, changes[rs.len() as int].new_value) && forall|j: int|
            0 <= j < rs.len() ==> (#[trigger] rs[j] matches Ok(o) && succeeded(o)),
    decreases rs.len(),
{
    if changes.len() > 0 && rs.len() > 0 {
        law_apply_in_order(changes.drop_first(), rs.drop_first());
        if apply_next(changes, rs) is Run {
            assert(changes.drop_first()[rs.len() - 1] == changes[rs.len() as int]);
            assert forall|j: int| 0 <= j < rs.len() implies (#[trigger] rs[j] matches Ok(o) && succeeded(o)) by {
                if j > 0 {
                    assert(rs.drop_first()[j - 1] == rs[j]);
                }
            }
        }
    }
}

/// The commands in a planning run of `setup` are `git config --global
/// --get` of the declared keys, in order: with the log that
/// [`compute_plan`] promises, no write reaches the runner.
pub proof fn law_compute_sends_only_reads(entries: Seq<(Seq<char>, Seq<char>)>, rs: Seq<RunResult>, i: int)
    requires
        followed(compute_steps(entries), rs),
        0 <= i < rs.len(),
    ensures
        i < entries.len(),
        exchanges(compute_steps(entries), rs)[i].0 == get_line(entries[i].0),
{
    lemma_exchange_asked(compute_steps(entries), rs, i);
    law_compute_in_order(entries, rs.take(i));
}

/// The commands in an apply run are the plan's writes, in order, each sent
/// only after every write before it succeeded: with the log that
/// [`apply_plan`] promises, nothing else reaches the runner, and nothing
/// follows a failed write.
pub proof fn law_apply_sends_only_planned_writes(changes: Seq<Change>, rs: Seq<RunResult>, i: int)
    requires
        followed(apply_steps(changes), rs),
        0 <= i < rs.len(),
    ensures
        i < changes.len(),
        exchanges(apply_steps(changes), rs)[i].0 == set_line(changes[i].key, changes[i].new_value),
        forall|j: int| 0 <= j < i ==> (#[trigger] rs[j] matches Ok(o) && succeeded(o)),
{
    lemma_exchange_asked(apply_steps(changes), rs, i);
    law_apply_in_order(changes, rs.take(i));
    assert forall|j: int| 0 <= j < i implies (#[trigger] rs[j] matches Ok(o) && succeeded(o)) by {
        assert(rs.take(i)[j] == rs[j]);
    }
}

/// The declared `[git]` section is written key by key with the values it
/// declares: `user.name`, `user.email` and `init.defaultBranch` always,
/// `core.editor` and `pull.rebase` (as `true` or `false`) exactly when set,
/// and `alias.<name>` for every alias, with its command.
pub proof fn law_entries_carry_declared_values(git: GitSettings)
    ensures
        desired_entries(git).contains(("user.name"@, git.user_name)),
        desired_entries(git).contains(("user.email"@, git.user_email)),
        desired_entries(git).contains(("init.defaultBranch"@, git.default_branch)),
        git.editor is Some ==> desired_entries(git).contains(("core.editor"@, git.editor->0)),
        git.pull_rebase is Some ==> desired_entries(git).contains(
            ("pull.rebase"@, if git.pull_rebase->0 { "true"@ } else { "false"@ }),
        ),
        git.editor is None ==> forall|i: int|
            0 <= i < desired_entries(git).len() ==> (#[trigger] desired_entries(git)[i]).0
                != "core.editor"@,
        git.pull_rebase is None ==> forall|i: int|
            0 <= i < desired_entries(git).len() ==> (#[trigger] desired_entries(git)[i]).0
                != "pull.rebase"@,
        forall|k: int|
            0 <= k < alias_listing(git.aliases).len() ==> desired_entries(git).contains(
                ("alias."@ + (#[trigger] alias_listing(git.aliases)[k]).0, alias_listing(git.aliases)[k].1),
            ),
{
    let e = desired_entries(git);
    let listing = alias_listing(git.aliases);
    let aliases = alias_entries(listing);
    let fixed = e.len() - listing.len();
    assert(e[0] == ("user.name"@, git.user_name));
    assert(e[1] == ("user.email"@, git.user_email));
    assert(e[2] == ("init.defaultBranch"@, git.default_branch));
    if git.editor is Some {
        assert(e[3] == ("core.editor"@, git.editor->0));
    }
    if git.pull_rebase is Some {
        let k: int = if git.editor is Some { 4 } else { 3 };
        assert(e[k] == ("pull.rebase"@, bool_text(git.pull_rebase->0)));
    }
    assert(e.subrange(fixed, e.len() as int) =~= aliases);
    assert forall|k: int| 0 <= k < listing.len() implies e.contains(
        ("alias."@ + (#[trigger] listing[k]).0, listing[k].1),
    ) by {
        assert(e[fixed + k] == aliases[k]);
    }
    reveal_strlit("core.editor");
    reveal_strlit("pull.rebase");
    reveal_strlit("user.name");
    reveal_strlit("user.email");
    reveal_strlit("init.defaultBranch");
    reveal_strlit("alias.");
    assert forall|i: int| 0 <= i < e.len() && i >= fixed implies (#[trigger] e[i]).0[0] == 'a' by {
        assert(e[i] == aliases[i - fixed]);
    }
    if git.editor is None {
        assert forall|i: int| 0 <= i < e.len() implies (#[trigger] e[i]).0 != "core.editor"@ by {
            if i >= fixed {
                assert(e[i].0[0] == 'a');
            } else if e[i].0 == "core.editor"@ {
                assert(e[i].0.len() != 11 || e[i].0[0] != 'c');
            }
        }
    }
    if git.pull_rebase is None {
        assert forall|i: int| 0 <= i < e.len() implies (#[trigger] e[i]).0 != "pull.rebase"@ by {
            if i >= fixed {
                assert(e[i].0[0] == 'a');
            } else if e[i].0 == "pull.rebase"@ {
                assert(e[i].0.len() != 11 || e[i].0[0] != 'p');
            }
        }
    }
}

/// When the declared keys are distinct (as [`law_desired_keys_distinct`]
/// shows they are), every declared key whose current value is not the
/// declared one gets a change to the declared value in the plan (and, by [`law_changes_are_divergences`], no other
/// key does).
pub proof fn law_divergences_get_changes(
    entries: Seq<(Seq<char>, Seq<char>)>,
    rs: Seq<RunResult>,
    cs: Seq<Change>,
    i: int,
)
    requires
        forall|a: int, b: int| 0 <= a < b < entries.len() ==> entries[a].0 != entries[b].0,
        compute_next(entries, rs) == Next::<Seq<Change>>::Done(Ok(cs)),
        0 <= i < entries.len(),
        i < rs.len(),
        read_check(rs[i]) is Ok,
        read_check(rs[i])->Ok_0 != Some(entries[i].1),
    ensures
        exists|j: int| 0 <= j < cs.len() && (#[trigger] cs[j]).key == entries[i].0 && cs[j].new_value
            == entries[i].1,
{
    lemma_divergence_has_change(entries, rs, cs, i);
    law_changes_are_divergences(entries, rs, cs);
    let j = choose|j: int| 0 <= j < cs.len() && (#[trigger] cs[j]).key == entries[i].0;
    let i2 = choose|i2: int|
        0 <= i2 < entries.len() && (#[trigger] cs[j]).key == entries[i2].0 && cs[j].new_value
            == entries[i2].1 && cs[j].old_value != Some(entries[i2].1);
    if i2 != i {
        if i2 < i {
            assert(entries[i2].0 != entries[i].0);
        } else {
            assert(entries[i].0 != entries[i2].0);
        }
    }
}

} // verus!
