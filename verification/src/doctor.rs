//! `forja doctor`: checks that `git` is installed and recent enough, and
//! whether `gh` is installed and authenticated.
use vstd::prelude::*;
use crate::error::ForjaError;
use crate::exec::{
    CommandLine, CommandOutcome, CommandRequest, CommandRunner, Next, RunResult, Step, command_line,
    lemma_exchange_asked, exchanges, followed, lemma_exchanges_push, succeeded,
};
use crate::patterns::{regex_capture, regex_group, version_pattern};
use crate::text::{chars_of, decimal, decimal_string, digit_char, lines, lines_of, opt_view, trim, trimmed, views};

verus! {

#[derive(Debug, Clone, Copy, PartialEq, Eq)]
pub enum CheckStatus {
    /// The check passed.
    Passed,
    Warning,
    Failed,
}

#[derive(Debug, Clone, PartialEq, Eq)]
pub struct CheckResult {
    pub name: String,
    pub status: CheckStatus,
    pub detail: String,
}

/// [`CheckResult`] as plain values.
pub struct Check {
    pub name: Seq<char>,
    pub status: CheckStatus,
    pub detail: Seq<char>,
}

impl View for CheckResult {
    type V = Check;

    open spec fn view(&self) -> Check {
        Check { name: self.name@, status: self.status, detail: self.detail@ }
    }
}

/// The views of a sequence of check results.
pub open spec fn checks_of(v: Seq<CheckResult>) -> Seq<Check> {
    v.map_values(|c: CheckResult| c@)
}

#[derive(Debug, Clone, PartialEq, Eq)]
pub struct DoctorReport {
    pub checks: Vec<CheckResult>,
}

impl View for DoctorReport {
    type V = Seq<Check>;

    open spec fn view(&self) -> Seq<Check> {
        checks_of(self.checks@)
    }
}

/// Some check failed.
pub open spec fn any_failed(checks: Seq<Check>) -> bool {
    exists|i: int| 0 <= i < checks.len() && checks[i].status == CheckStatus::Failed
}

impl DoctorReport {
    /// True if any required check failed: this is what `forja doctor` maps
    /// to exit code 3. Warnings alone do not fail the run.
    pub fn has_failure(&self) -> (res: bool)
        ensures
            res == any_failed(self@),
    {
        for i in 0..self.checks.len()
            invariant
                forall|j: int| 0 <= j < i ==> self@[j].status != CheckStatus::Failed,
        {
            match self.checks[i].status {
                CheckStatus::Failed => {
                    assert(self@[i as int].status == CheckStatus::Failed);
                    return true;
                },
                _ => {},
            }
        }
        false
    }
}

/// The value of a decimal digit character.
pub open spec fn digit_value(c: char) -> nat {
    if c == '0' { 0 }
    else if c == '1' { 1 }
    else if c == '2' { 2 }
    else if c == '3' { 3 }
    else if c == '4' { 4 }
    else if c == '5' { 5 }
    else if c == '6' { 6 }
    else if c == '7' { 7 }
    else if c == '8' { 8 }
    else { 9 }
}

/// An ASCII decimal digit.
pub open spec fn is_digit(c: char) -> bool {
    '0' <= c && c <= '9'
}

/// The number that a run of decimal digits denotes.
pub open spec fn digits_value(s: Seq<char>) -> nat
    decreases s.len(),
{
    if s.len() == 0 {
        0
    } else {
        digits_value(s.drop_last()) * 10 + digit_value(s.last())
    }
}

/// `str::parse::<u32>`: an optional `+`, then one or more ASCII digits,
/// denoting a number that fits in a `u32`.
pub open spec fn parse_u32(s: Seq<char>) -> Option<u32> {
    let d = unsigned_digits(s);
    if d.len() > 0 && all_digits(d) && digits_value(d) <= u32::MAX {
        Some(digits_value(d) as u32)
    } else {
        None
    }
}

/// `s` without one leading `+`.
pub open spec fn unsigned_digits(s: Seq<char>) -> Seq<char> {
    if s.len() > 0 && s[0] == '+' {
        s.drop_first()
    } else {
        s
    }
}

/// Every character of `d` is an ASCII digit.
pub open spec fn all_digits(d: Seq<char>) -> bool {
    forall|i: int| 0 <= i < d.len() ==> is_digit(#[trigger] d[i])
}

pub proof fn lemma_digits_value_grows(s: Seq<char>, k: int)
    requires
        0 <= k <= s.len(),
    ensures
        digits_value(s.take(k)) <= digits_value(s),
    decreases s.len() - k,
{
    if k < s.len() {
        lemma_digits_value_grows(s.drop_last(), k);
        assert(s.drop_last().take(k) =~= s.take(k));
    } else {
        assert(s.take(k) =~= s);
    }
}

fn digit_of(c: char) -> (res: u64)
    ensures
        res == digit_value(c),
{
    if c == '0' { 0 }
    else if c == '1' { 1 }
    else if c == '2' { 2 }
    else if c == '3' { 3 }
    else if c == '4' { 4 }
    else if c == '5' { 5 }
    else if c == '6' { 6 }
    else if c == '7' { 7 }
    else if c == '8' { 8 }
    else { 9 }
}

/// `s.parse::<u32>().ok()`.
pub fn parse_number(s: &str) -> (res: Option<u32>)
    ensures
        res == parse_u32(s@),
{
    let v = chars_of(s);
    let start: usize = if v.len() > 0 && v[0] == '+' { 1 } else { 0 };
    let ghost d = unsigned_digits(s@);
    assert(d =~= v@.skip(start as int));
    if start == v.len() {
        return None;
    }
    let mut value: u64 = 0;
    let mut i: usize = start;
    while i < v.len()
        invariant
            v@ == s@,
            d == v@.skip(start as int),
            d == unsigned_digits(s@),
            start < v.len(),
            start <= i <= v.len(),
            value <= u32::MAX,
            value == digits_value(d.take(i - start)),
            forall|j: int| 0 <= j < i - start ==> is_digit(#[trigger] d[j]),
        decreases v.len() - i,
    {
        let c = v[i];
        assert(d[i - start] == c);
        if !('0' <= c && c <= '9') {
            assert(!is_digit(d[i - start]));
            assert(!all_digits(d));
            assert(parse_u32(s@) is None);
            return None;
        }
        assert(d.take(i - start + 1).drop_last() =~= d.take(i - start));
        assert(d.take(i - start + 1).last() == c);
        assert(digits_value(d.take(i - start + 1)) == value * 10 + digit_value(c));
        let next = value * 10 + digit_of(c);
        if next > 4294967295 {
            proof { lemma_digits_value_grows(d, i - start + 1); }
            assert(digits_value(d) > u32::MAX);
            assert(parse_u32(s@) is None);
            return None;
        }
        value = next;
        i = i + 1;
    }
    assert(d.take(d.len() as int) =~= d);
    Some(value as u32)
}

/// A `major.minor.patch` version, from three parsed numbers.
pub open spec fn version_from(
    major: Option<Seq<char>>,
    minor: Option<Seq<char>>,
    patch: Option<Seq<char>>,
) -> Option<(u32, u32, u32)> {
    match (major, minor, patch) {
        (Some(a), Some(b), Some(c)) => match (parse_u32(a), parse_u32(b), parse_u32(c)) {
            (Some(x), Some(y), Some(z)) => Some((x, y, z)),
            _ => None,
        },
        _ => None,
    }
}

/// The version in `git --version` output: the three groups of the first
/// match of `(\d+)\.(\d+)\.(\d+)`, each parsed as a `u32`.
pub open spec fn parsed_version(output: Seq<char>) -> Option<(u32, u32, u32)> {
    version_from(
        regex_group(version_pattern(), output, 1),
        regex_group(version_pattern(), output, 2),
        regex_group(version_pattern(), output, 3),
    )
}

/// The version denoted by the three captured groups (see [`version_from`]).
pub fn version_from_groups(major: Option<String>, minor: Option<String>, patch: Option<String>) -> (res:
    Option<(u32, u32, u32)>)
    ensures
        res == version_from(opt_view(major), opt_view(minor), opt_view(patch)),
{
    match (major, minor, patch) {
        (Some(a), Some(b), Some(c)) => match (
            parse_number(a.as_str()),
            parse_number(b.as_str()),
            parse_number(c.as_str()),
        ) {
            (Some(x), Some(y), Some(z)) => Some((x, y, z)),
            _ => None,
        },
        _ => None,
    }
}

/// Finds a `major.minor.patch` version in `output` (see [`parsed_version`]).
pub fn parse_version(output: &str) -> (res: Option<(u32, u32, u32)>)
    ensures
        res == parsed_version(output@),
{
    let pattern = "(\\d+)\\.(\\d+)\\.(\\d+)";
    let major = regex_capture(pattern, output, 1);
    let minor = regex_capture(pattern, output, 2);
    let patch = regex_capture(pattern, output, 3);
    version_from_groups(major, minor, patch)
}


/// The oldest git that forja supports.
pub open spec fn minimum_git() -> (u32, u32, u32) {
    (2, 23, 0)
}

/// `v >= m` in the order of `(major, minor, patch)` tuples.
pub open spec fn version_at_least(v: (u32, u32, u32), m: (u32, u32, u32)) -> bool {
    v.0 > m.0 || (v.0 == m.0 && (v.1 > m.1 || (v.1 == m.1 && v.2 >= m.2)))
}

/// `major.minor.patch`.
pub open spec fn version_text(v: (u32, u32, u32)) -> Seq<char> {
    decimal(v.0 as nat) + "."@ + decimal(v.1 as nat) + "."@ + decimal(v.2 as nat)
}

/// The check named `name`.
pub open spec fn check(name: Seq<char>, status: CheckStatus, detail: Seq<char>) -> Check {
    Check { name, status, detail }
}

/// The request `git --version`.
pub open spec fn git_version_line() -> CommandLine {
    command_line("git"@, seq!["--version"@])
}

/// The request `gh --version`.
pub open spec fn gh_version_line() -> CommandLine {
    command_line("gh"@, seq!["--version"@])
}

/// The request `gh auth status`.
pub open spec fn gh_auth_line() -> CommandLine {
    command_line("gh"@, seq!["auth"@, "status"@])
}

/// The `git` check: git runs, and `git --version` shows at least 2.23.0.
pub open spec fn git_check(r: RunResult) -> Check {
    match r {
        Err(_) => check("git"@, CheckStatus::Failed, "not found on PATH — install git"@),
        Ok(o) => if !succeeded(o) {
            check("git"@, CheckStatus::Failed, "`git --version` failed: "@ + trim(o.stderr@))
        } else {
            match parsed_version(o.stdout@) {
                Some(v) => if version_at_least(v, minimum_git()) {
                    check("git"@, CheckStatus::Passed, version_text(v))
                } else {
                    check(
                        "git"@,
                        CheckStatus::Failed,
                        "found "@ + version_text(v) + ", need >= 2.23.0 — upgrade git"@,
                    )
                },
                None => check(
                    "git"@,
                    CheckStatus::Failed,
                    "could not parse a version from: "@ + trim(o.stdout@),
                ),
            }
        },
    }
}

/// `gh --version` ran and succeeded.
pub open spec fn gh_found(r: RunResult) -> bool {
    r matches Ok(o) && succeeded(o)
}

/// The first line of `s`, trimmed (empty when `s` has no line).
pub open spec fn first_line(s: Seq<char>) -> Seq<char> {
    if lines(s).len() > 0 {
        trim(lines(s)[0])
    } else {
        seq![]
    }
}

/// The `gh` check: a warning, not a failure, when `gh` is missing.
pub open spec fn gh_check(r: RunResult) -> Check {
    match r {
        Ok(o) => if succeeded(o) {
            check("gh"@, CheckStatus::Passed, first_line(o.stdout@))
        } else {
            check("gh"@, CheckStatus::Warning, gh_missing_detail())
        },
        Err(_) => check("gh"@, CheckStatus::Warning, gh_missing_detail()),
    }
}

pub open spec fn gh_missing_detail() -> Seq<char> {
    "not found on PATH — needed for Phase 2 (pr, repo new); install from https://cli.github.com"@
}

/// The `gh auth` check: a warning, not a failure, when not authenticated.
pub open spec fn gh_auth_check(r: RunResult) -> Check {
    match r {
        Ok(o) => if succeeded(o) {
            check("gh auth"@, CheckStatus::Passed, "authenticated"@)
        } else {
            check("gh auth"@, CheckStatus::Warning, "not authenticated — run `gh auth login`"@)
        },
        Err(_) => check(
            "gh auth"@,
            CheckStatus::Warning,
            "could not determine authentication status"@,
        ),
    }
}

/// What the diagnostics do after the commands they ran gave `rs`: check
/// git, check gh, and check gh's authentication only when gh was found.
/// Every check is reported, passed or not.
pub open spec fn run_checks_next(rs: Seq<RunResult>) -> Next<Seq<Check>> {
    if rs.len() == 0 {
        Next::Run(git_version_line())
    } else if rs.len() == 1 {
        Next::Run(gh_version_line())
    } else if !gh_found(rs[1]) {
        Next::Done(Ok(seq![git_check(rs[0]), gh_check(rs[1])]))
    } else if rs.len() == 2 {
        Next::Run(gh_auth_line())
    } else {
        Next::Done(Ok(seq![git_check(rs[0]), gh_check(rs[1]), gh_auth_check(rs[2])]))
    }
}

fn result(name: &str, status: CheckStatus, detail: String) -> (res: CheckResult)
    ensures
        res@ == check(name@, status, detail@),
{
    CheckResult { name: name.to_owned(), status, detail }
}

fn version_string(v: (u32, u32, u32)) -> (res: String)
    ensures
        res@ == version_text(v),
{
    let mut s = decimal_string(v.0 as u64);
    s.append(".");
    s.append(decimal_string(v.1 as u64).as_str());
    s.append(".");
    s.append(decimal_string(v.2 as u64).as_str());
    s
}

pub fn check_git(r: &RunResult) -> (res: CheckResult)
    ensures
        res@ == git_check(*r),
{
    let o = match r {
        Err(_) => return result("git", CheckStatus::Failed, "not found on PATH — install git".to_owned()),
        Ok(o) => o,
    };
    if !o.success() {
        let mut detail = "`git --version` failed: ".to_owned();
        detail.append(trimmed(o.stderr.as_str()).as_str());
        return result("git", CheckStatus::Failed, detail);
    }
    match parse_version(o.stdout.as_str()) {
        Some(v) => {
            if v.0 > 2 || (v.0 == 2 && (v.1 > 23 || (v.1 == 23 && v.2 >= 0))) {
                result("git", CheckStatus::Passed, version_string(v))
            } else {
                let mut detail = "found ".to_owned();
                detail.append(version_string(v).as_str());
                detail.append(", need >= 2.23.0 — upgrade git");
                result("git", CheckStatus::Failed, detail)
            }
        },
        None => {
            let mut detail = "could not parse a version from: ".to_owned();
            detail.append(trimmed(o.stdout.as_str()).as_str());
            result("git", CheckStatus::Failed, detail)
        },
    }
}

pub fn check_gh_presence(r: &RunResult) -> (res: CheckResult)
    ensures
        res@ == gh_check(*r),
{
    match r {
        Ok(o) => if o.success() {
            let ls = lines_of(o.stdout.as_str());
            let detail = if ls.len() > 0 {
                trimmed(ls[0].as_str())
            } else {
                String::new()
            };
            return result("gh", CheckStatus::Passed, detail);
        },
        Err(_) => {},
    }
    result(
        "gh",
        CheckStatus::Warning,
        "not found on PATH — needed for Phase 2 (pr, repo new); install from https://cli.github.com".to_owned(),
    )
}

pub fn check_gh_auth(r: &RunResult) -> (res: CheckResult)
    ensures
        res@ == gh_auth_check(*r),
{
    match r {
        Ok(o) => if o.success() {
            result("gh auth", CheckStatus::Passed, "authenticated".to_owned())
        } else {
            result("gh auth", CheckStatus::Warning, "not authenticated — run `gh auth login`".to_owned())
        },
        Err(_) => result(
            "gh auth",
            CheckStatus::Warning,
            "could not determine authentication status".to_owned(),
        ),
    }
}

/// What the diagnostics do next, given the outcomes of the commands they
/// have run so far (see [`run_checks_next`]).
pub fn run_checks_step(responses: &Vec<RunResult>) -> (res: Step<DoctorReport>)
    ensures
        res@ == run_checks_next(responses@),
{
    if responses.len() == 0 {
        let r = CommandRequest::new("git", &["--version"]);
        assert(r@.args =~= git_version_line().args);
        return Step::Run(r);
    }
    if responses.len() == 1 {
        let r = CommandRequest::new("gh", &["--version"]);
        assert(r@.args =~= gh_version_line().args);
        return Step::Run(r);
    }
    let g = check_git(&responses[0]);
    let p = check_gh_presence(&responses[1]);
    let found = match &responses[1] {
        Ok(o) => o.success(),
        Err(_) => false,
    };
    let mut checks: Vec<CheckResult> = Vec::new();
    checks.push(g);
    checks.push(p);
    if !found {
        assert(checks_of(checks@) =~= seq![git_check(responses@[0]), gh_check(responses@[1])]);
        return Step::Done(Ok(DoctorReport { checks }));
    }
    if responses.len() == 2 {
        let r = CommandRequest::new("gh", &["auth", "status"]);
        assert(r@.args =~= gh_auth_line().args);
        return Step::Run(r);
    }
    checks.push(check_gh_auth(&responses[2]));
    assert(checks_of(checks@) =~= seq![
        git_check(responses@[0]),
        gh_check(responses@[1]),
        gh_auth_check(responses@[2]),
    ]);
    Step::Done(Ok(DoctorReport { checks }))
}

/// [`run_checks_next`] as a function of the outcomes so far.
pub open spec fn run_checks_steps() -> spec_fn(Seq<RunResult>) -> Next<Seq<Check>> {
    |rs: Seq<RunResult>| run_checks_next(rs)
}

/// Runs every diagnostic check via `runner`.
/// What reaches `runner` is exactly the exchanges of one run of
/// [`run_checks_next`]: its log grows by each command the flow asks for after
/// the outcomes before it, with its outcome, and by nothing else. The
/// report is what [`run_checks_next`] gives at the end of that run.
pub fn run_checks<R: CommandRunner + ?Sized>(runner: &mut R) -> (res: DoctorReport)
    ensures
        exists|rs: Seq<RunResult>|
            #[trigger] run_checks_next(rs) == Next::Done(Ok(res@)) && followed(run_checks_steps(), rs)
                && final(runner).log() == old(runner).log() + exchanges(run_checks_steps(), rs),
{
    let mut responses: Vec<RunResult> = Vec::new();
    loop
        invariant
            responses.len() <= 3,
            followed(run_checks_steps(), responses@),
            runner.log() == old(runner).log() + exchanges(run_checks_steps(), responses@),
        decreases 3 - responses.len(),
    {
        match run_checks_step(&responses) {
            Step::Run(request) => {
                let outcome = runner.run(&request);
                proof {
                    assert(run_checks_steps()(responses@) == Next::<Seq<Check>>::Run(request@));
                    lemma_exchanges_push(run_checks_steps(), responses@, outcome);
                    assert(runner.log() =~= old(runner).log() + exchanges(run_checks_steps(), responses@.push(outcome)));
                }
                responses.push(outcome);
            },
            Step::Done(Ok(report)) => {
                return report;
            },
            Step::Done(Err(_)) => {
                // Never taken: the checks always finish with a report.
                proof { assert(false); }
                return DoctorReport { checks: Vec::new() };
            },
        }
    }
}


/// The mark shown in front of a check: `✓` passed, `⚠` warning, `✗` failed.
pub open spec fn status_mark(st: CheckStatus) -> Seq<char> {
    match st {
        CheckStatus::Passed => "✓"@,
        CheckStatus::Warning => "⚠"@,
        CheckStatus::Failed => "✗"@,
    }
}

/// One line per check: `  <mark> <name>: <detail>`.
pub open spec fn report_lines(checks: Seq<Check>) -> Seq<char>
    decreases checks.len(),
{
    if checks.len() == 0 {
        seq![]
    } else {
        let c = checks.last();
        report_lines(checks.drop_last()) + "  "@ + status_mark(c.status) + " "@ + c.name + ": "@
            + c.detail + "\n"@
    }
}

/// The report as `forja doctor` prints it (see [`report_lines`]).
pub fn render_report(report: &DoctorReport) -> (res: String)
    ensures
        res@ == report_lines(report@),
{
    let mut s = String::new();
    let ghost v = report@;
    for i in 0..report.checks.len()
        invariant
            v == report@,
            s@ == report_lines(v.take(i as int)),
    {
        proof {
            assert(v.take(i + 1).drop_last() =~= v.take(i as int));
            assert(v.take(i + 1).last() == v[i as int]);
        }
        let c = &report.checks[i];
        s.append("  ");
        match c.status {
            CheckStatus::Passed => s.append("✓"),
            CheckStatus::Warning => s.append("⚠"),
            CheckStatus::Failed => s.append("✗"),
        }
        s.append(" ");
        s.append(c.name.as_str());
        s.append(": ");
        s.append(c.detail.as_str());
        s.append("\n");
        assert(s@ =~= report_lines(v.take(i + 1)));
    }
    assert(v.take(report.checks.len() as int) =~= v);
    s
}

/// Only the `git` check can fail the diagnostics: a missing or
/// unauthenticated `gh` is a warning, never a failure. The `gh auth` check
/// runs only when `gh` was found.
pub proof fn law_only_git_can_fail(rs: Seq<RunResult>, checks: Seq<Check>)
    requires
        run_checks_next(rs) == Next::<Seq<Check>>::Done(Ok(checks)),
    ensures
        checks.len() >= 2,
        checks[0] == git_check(rs[0]),
        any_failed(checks) <==> checks[0].status == CheckStatus::Failed,
        checks.len() == 3 <==> gh_found(rs[1]),
{
    if checks[0].status == CheckStatus::Failed {
        assert(any_failed(checks));
    }
}

/// The diagnostics change nothing: the only commands they run are
/// `git --version`, `gh --version` and `gh auth status`.
pub proof fn law_diagnostics_only_read(rs: Seq<RunResult>)
    ensures
        run_checks_next(rs) matches Next::Run(line) ==> line == git_version_line() || line
            == gh_version_line() || line == gh_auth_line(),
{
}

/// The commands in a diagnostics run only read: with the log that
/// [`run_checks`] promises, nothing else reaches the runner.
pub proof fn law_diagnostics_send_only_reads(rs: Seq<RunResult>, i: int)
    requires
        followed(run_checks_steps(), rs),
        0 <= i < rs.len(),
    ensures
        ({
            let line = exchanges(run_checks_steps(), rs)[i].0;
            line == git_version_line() || line == gh_version_line() || line == gh_auth_line()
        }),
{
    lemma_exchange_asked(run_checks_steps(), rs, i);
    law_diagnostics_only_read(rs.take(i));
}

/// The git check passes exactly when `git --version` runs and shows a
/// version of at least 2.23.0; otherwise it fails.
pub proof fn law_git_version_gate(r: RunResult)
    ensures
        git_check(r).status == CheckStatus::Passed <==> (r matches Ok(o) && succeeded(o) && parsed_version(
            o.stdout@,
        ) is Some && ({
            let v = parsed_version(o.stdout@)->0;
            v.0 > 2 || (v.0 == 2 && v.1 >= 23)
        })),
        git_check(r).status != CheckStatus::Passed ==> git_check(r).status == CheckStatus::Failed,
        git_check(r).name == "git"@,
{
}

proof fn lemma_digit_char_value(d: nat)
    requires
        d < 10,
    ensures
        is_digit(digit_char(d)),
        digit_value(digit_char(d)) == d,
{
}

proof fn lemma_decimal_digits(n: nat)
    ensures
        decimal(n).len() > 0,
        all_digits(decimal(n)),
        digits_value(decimal(n)) == n,
    decreases n,
{
    if n < 10 {
        lemma_digit_char_value(n);
        assert(decimal(n).drop_last() =~= Seq::<char>::empty());
        assert(digits_value(Seq::<char>::empty()) == 0);
    } else {
        lemma_decimal_digits(n / 10);
        lemma_digit_char_value(n % 10);
        let d = decimal(n / 10);
        assert(decimal(n).drop_last() =~= d);
        assert(decimal(n).last() == digit_char(n % 10));
        assert(digits_value(decimal(n)) == digits_value(d) * 10 + digit_value(digit_char(n % 10)));
        assert((n / 10) * 10 + n % 10 == n) by (nonlinear_arith);
        assert forall|i: int| 0 <= i < decimal(n).len() implies is_digit(#[trigger] decimal(n)[i]) by {
            if i < d.len() {
                assert(decimal(n)[i] == d[i]);
            }
        }
    }
}

/// Reading a number reads decimal notation: the decimal text of every
/// `u32` parses back to that number, so a version such as `2.43.0` is read
/// digit by digit as it is written.
pub proof fn law_parse_reads_decimal(n: u32)
    ensures
        parse_u32(decimal(n as nat)) == Some(n),
{
    lemma_decimal_digits(n as nat);
    assert(is_digit(decimal(n as nat)[0]));
    assert(unsigned_digits(decimal(n as nat)) == decimal(n as nat));
}

} // verus!
