//! External commands: what the flows ask to run, and what comes back.
use vstd::prelude::*;
use crate::error::{ForjaError, Failure};
use crate::text::views;

verus! {

/// A request to run an external command as an argument vector.
///
/// There is deliberately no way to build this from a single shell string:
/// every flow constructs `program` and `args` directly, so there is never a
/// string-interpolation point where config content could reach a shell.
#[derive(Debug, Clone, PartialEq, Eq)]
pub struct CommandRequest {
    pub program: String,
    pub args: Vec<String>,
}

/// A command line as plain text: the program and its arguments.
pub struct CommandLine {
    pub program: Seq<char>,
    pub args: Seq<Seq<char>>,
}

impl View for CommandRequest {
    type V = CommandLine;

    open spec fn view(&self) -> CommandLine {
        CommandLine { program: self.program@, args: views(self.args@) }
    }
}

/// The views of a slice of string slices.
pub open spec fn str_views(v: Seq<&str>) -> Seq<Seq<char>> {
    v.map_values(|s: &str| s@)
}

/// The command line `program args...`.
pub open spec fn command_line(program: Seq<char>, args: Seq<Seq<char>>) -> CommandLine {
    CommandLine { program, args }
}

impl CommandRequest {
    pub fn new(program: &str, args: &[&str]) -> (res: Self)
        ensures
            res@ == command_line(program@, str_views(args@)),
    {
        let mut owned: Vec<String> = Vec::new();
        for i in 0..args.len()
            invariant
                views(owned@) == str_views(args@).take(i as int),
        {
            let a = args[i].to_owned();
            proof {
                crate::text::lemma_views_push(owned@, a);
                assert(str_views(args@).take(i + 1) =~= str_views(args@).take(i as int).push(
                    args@[i as int]@,
                ));
            }
            owned.push(a);
        }
        assert(str_views(args@).take(args.len() as int) =~= str_views(args@));
        CommandRequest { program: program.to_owned(), args: owned }
    }
}

/// The result of running a [`CommandRequest`] to completion.
#[derive(Debug, Clone, PartialEq, Eq)]
pub struct CommandOutcome {
    pub status_code: Option<i32>,
    pub stdout: String,
    pub stderr: String,
}

/// The command exited with status 0.
pub open spec fn succeeded(o: CommandOutcome) -> bool {
    o.status_code == Some(0i32)
}

impl CommandOutcome {
    pub fn success(&self) -> (res: bool)
        ensures
            res == succeeded(*self),
    {
        match self.status_code {
            Some(code) => code == 0,
            None => false,
        }
    }
}

/// What running a command gave: its outcome, or the error that kept it from
/// running (such as a program that is not installed).
pub type RunResult = Result<CommandOutcome, ForjaError>;

/// What a flow does next: run a command, or finish with a result.
pub enum Step<T> {
    Run(CommandRequest),
    Done(Result<T, ForjaError>),
}

/// [`Step`] as plain values.
pub enum Next<V> {
    Run(CommandLine),
    Done(Result<V, Failure>),
}

impl<T: View> View for Step<T> {
    type V = Next<T::V>;

    open spec fn view(&self) -> Next<T::V> {
        match self {
            Step::Run(r) => Next::Run(r@),
            Step::Done(Ok(v)) => Next::Done(Ok(v@)),
            Step::Done(Err(e)) => Next::Done(Err(e@)),
        }
    }
}

/// A result with its error taken as plain values.
pub open spec fn errs<T>(r: Result<T, ForjaError>) -> Result<T, Failure> {
    match r {
        Ok(v) => Ok(v),
        Err(e) => Err(e@),
    }
}

/// A result with its value and its error taken as plain values.
pub open spec fn result_view<T: View>(r: Result<T, ForjaError>) -> Result<T::V, Failure> {
    match r {
        Ok(v) => Ok(v@),
        Err(e) => Err(e@),
    }
}

/// A result whose value is a string, taken as plain values.
pub open spec fn text_result(r: Result<String, ForjaError>) -> Result<Seq<char>, Failure> {
    match r {
        Ok(v) => Ok(v@),
        Err(e) => Err(e@),
    }
}

/// The command line `git args...`.
pub open spec fn git(args: Seq<Seq<char>>) -> CommandLine {
    command_line("git"@, args)
}

/// The failure reported for a command that ran and exited unsuccessfully.
pub open spec fn command_failed(command: Seq<char>, o: CommandOutcome) -> Failure {
    Failure::CommandFailed { command, stderr: o.stderr@, exit_code: o.status_code }
}

/// The error for a command that ran and exited unsuccessfully.
pub fn failed_command(command: String, o: &CommandOutcome) -> (res: ForjaError)
    ensures
        res@ == command_failed(command@, *o),
{
    ForjaError::CommandFailed { command, stderr: o.stderr.clone(), exit_code: o.status_code }
}

/// Runs external commands. Flows go through this trait so that their logic
/// can be exercised against a scripted runner without touching a real
/// process or repository.
pub trait CommandRunner {
    /// Every exchange this runner has had, in order: each request it was
    /// asked to run, with what running it gave. An implementation verified
    /// with Verus defines it from its own state. The body here only lets an
    /// implementation written outside Verus compile without one; Verus never
    /// reads it for a runner it does not know, so of such a runner only what
    /// [`CommandRunner::run`] promises is known.
    closed spec fn log(&self) -> Seq<(CommandLine, RunResult)> {
        Seq::empty()
    }

    /// Runs `request` and gives what running it gave; the exchange is added
    /// to the runner's log.
    fn run(&mut self, request: &CommandRequest) -> (res: RunResult)
        ensures
            final(self).log() == old(self).log().push((request@, res)),
    ;
}

/// The flow asks to run a command.
pub open spec fn asks<V>(n: Next<V>) -> bool {
    n is Run
}

/// `rs` can be the outcomes of a run of the flow whose next step after
/// outcomes `p` is `next(p)`: after each prefix `rs[..i]`, the flow asked
/// to run one more command, and `rs[i]` is what running it gave.
pub open spec fn followed<V>(next: spec_fn(Seq<RunResult>) -> Next<V>, rs: Seq<RunResult>) -> bool {
    forall|i: int| 0 <= i < rs.len() ==> #[trigger] asks(next(rs.take(i)))
}

/// The exchanges of such a run, in order: the command the flow asked for
/// after `rs[..i]`, with its outcome `rs[i]`.
pub open spec fn exchanges<V>(next: spec_fn(Seq<RunResult>) -> Next<V>, rs: Seq<RunResult>) -> Seq<
    (CommandLine, RunResult),
> {
    Seq::new(rs.len(), |i: int| (next(rs.take(i))->Run_0, rs[i]))
}

/// A run grows by the outcome of the command the flow asks for next.
pub proof fn lemma_exchanges_push<V>(
    next: spec_fn(Seq<RunResult>) -> Next<V>,
    rs: Seq<RunResult>,
    r: RunResult,
)
    requires
        followed(next, rs),
        asks(next(rs)),
    ensures
        followed(next, rs.push(r)),
        exchanges(next, rs.push(r)) == exchanges(next, rs).push((next(rs)->Run_0, r)),
{
    let t = rs.push(r);
    assert forall|i: int| 0 <= i < t.len() implies #[trigger] asks(next(t.take(i))) by {
        if i < rs.len() {
            assert(t.take(i) =~= rs.take(i));
        } else {
            assert(t.take(i) =~= rs);
        }
    }
    assert forall|i: int| 0 <= i < rs.len() implies t.take(i) == rs.take(i) by {
        assert(t.take(i) =~= rs.take(i));
    }
    assert(t.take(rs.len() as int) =~= rs);
    assert(exchanges(next, t) =~= exchanges(next, rs).push((next(rs)->Run_0, r)));
}

/// Each exchange of a run holds the command the flow asked for at that
/// point, so what a law says of every command a flow asks for holds of
/// every command in the run.
pub proof fn lemma_exchange_asked<V>(next: spec_fn(Seq<RunResult>) -> Next<V>, rs: Seq<RunResult>, i: int)
    requires
        followed(next, rs),
        0 <= i < rs.len(),
    ensures
        next(rs.take(i)) == Next::<V>::Run(exchanges(next, rs)[i].0),
        exchanges(next, rs)[i].1 == rs[i],
{
    assert(asks(next(rs.take(i))));
}

} // verus!
