//! Validation of a parsed `forja.toml` into a [`ForjaConfig`]: every field is
//! checked, every problem is collected (validation never stops at the first
//! one), defaults are filled in, and unknown keys become warnings.
pub mod schema;

use vstd::prelude::*;
use crate::error::{Failure, ForjaError, ValidationError, ValidationErrors, Problem, problem, problems_of, lemma_problems_push};
use crate::patterns::{regex_is_match, is_alias_name};
use crate::text::{views, opt_view, lemma_views_push, same_text, text_contains, has_substring, decimal, decimal_string, is_text_less, text_less, lemma_text_less_irreflexive, lemma_text_less_asymmetric, lemma_text_less_total, lemma_text_less_transitive};
use schema::{TomlValue, RawConfig, RawGitConfig, RawGitAliases, RawFlowConfig, toml_str, toml_bool, toml_items};

verus! {

/// The strategy `forja sync` uses to integrate the base branch.
#[derive(Debug, Clone, Copy, PartialEq, Eq)]
pub enum Strategy {
    Rebase,
    Merge,
}

impl Default for Strategy {
    fn default() -> (res: Self)
        ensures
            res == Strategy::Rebase,
    {
        Strategy::Rebase
    }
}

/// Validated, defaulted `[git]` section. Only present when the config file
/// declares a `[git]` table. `aliases` maps alias names to commands: a
/// validated section lists them sorted by name, each name once, and every
/// function that reads them takes them in that order ([`alias_listing`]).
#[derive(Debug, Clone, PartialEq, Eq)]
pub struct GitConfig {
    pub user_name: String,
    pub user_email: String,
    pub default_branch: String,
    pub editor: Option<String>,
    pub pull_rebase: Option<bool>,
    pub aliases: Vec<(String, String)>,
}

/// Validated, defaulted `[flow]` section. Always present, since `sync` and
/// `cleanup` must work with zero config.
#[derive(Debug, Clone, PartialEq, Eq)]
pub struct FlowConfig {
    pub base_branch: Option<String>,
    pub strategy: Strategy,
    pub auto_push: bool,
    pub protected_branches: Vec<String>,
}

/// A fully loaded, validated, and defaulted `forja.toml`.
#[derive(Debug, Clone, PartialEq, Eq)]
pub struct ForjaConfig {
    pub version: String,
    pub git: Option<GitConfig>,
    pub flow: FlowConfig,
}

/// A successfully loaded config, plus the non-fatal warnings (unknown keys)
/// gathered along the way.
#[derive(Debug, Clone, PartialEq, Eq)]
pub struct LoadOutcome {
    pub config: ForjaConfig,
    pub warnings: Vec<String>,
}

/// [`GitConfig`] as plain values.
pub struct GitSettings {
    pub user_name: Seq<char>,
    pub user_email: Seq<char>,
    pub default_branch: Seq<char>,
    pub editor: Option<Seq<char>>,
    pub pull_rebase: Option<bool>,
    pub aliases: Seq<(Seq<char>, Seq<char>)>,
}

/// [`FlowConfig`] as plain values.
pub struct FlowSettings {
    pub base_branch: Option<Seq<char>>,
    pub strategy: Strategy,
    pub auto_push: bool,
    pub protected_branches: Seq<Seq<char>>,
}

/// [`ForjaConfig`] as plain values.
pub struct Settings {
    pub version: Seq<char>,
    pub git: Option<GitSettings>,
    pub flow: FlowSettings,
}

/// [`LoadOutcome`] as plain values.
pub struct Loaded {
    pub config: Settings,
    pub warnings: Seq<Seq<char>>,
}

/// The views of a sequence of string pairs.
pub open spec fn pair_views(v: Seq<(String, String)>) -> Seq<(Seq<char>, Seq<char>)> {
    v.map_values(|p: (String, String)| (p.0@, p.1@))
}

pub proof fn lemma_pair_views_push(v: Seq<(String, String)>, p: (String, String))
    ensures
        pair_views(v.push(p)) == pair_views(v).push((p.0@, p.1@)),
{
    assert(pair_views(v.push(p)) =~= pair_views(v).push((p.0@, p.1@)));
}

impl View for GitConfig {
    type V = GitSettings;

    open spec fn view(&self) -> GitSettings {
        GitSettings {
            user_name: self.user_name@,
            user_email: self.user_email@,
            default_branch: self.default_branch@,
            editor: opt_view(self.editor),
            pull_rebase: self.pull_rebase,
            aliases: pair_views(self.aliases@),
        }
    }
}

impl View for FlowConfig {
    type V = FlowSettings;

    open spec fn view(&self) -> FlowSettings {
        FlowSettings {
            base_branch: opt_view(self.base_branch),
            strategy: self.strategy,
            auto_push: self.auto_push,
            protected_branches: views(self.protected_branches@),
        }
    }
}

/// The view of an optional `[git]` section.
pub open spec fn git_view(g: Option<GitConfig>) -> Option<GitSettings> {
    match g {
        Some(g) => Some(g@),
        None => None,
    }
}

impl View for ForjaConfig {
    type V = Settings;

    open spec fn view(&self) -> Settings {
        Settings { version: self.version@, git: git_view(self.git), flow: self.flow@ }
    }
}

impl View for LoadOutcome {
    type V = Loaded;

    open spec fn view(&self) -> Loaded {
        Loaded { config: self.config@, warnings: views(self.warnings@) }
    }
}

/// The `[flow]` defaults: base branch detected from the remote, rebase,
/// push after integrating, and `main` and `master` protected.
pub open spec fn default_flow() -> FlowSettings {
    FlowSettings {
        base_branch: None,
        strategy: Strategy::Rebase,
        auto_push: true,
        protected_branches: seq!["main"@, "master"@],
    }
}

impl Default for FlowConfig {
    fn default() -> (res: Self)
        ensures
            res@ == default_flow(),
    {
        let mut protected_branches: Vec<String> = Vec::new();
        let main = "main".to_owned();
        let master = "master".to_owned();
        proof {
            lemma_views_push(protected_branches@, main);
            lemma_views_push(protected_branches@.push(main), master);
        }
        protected_branches.push(main);
        protected_branches.push(master);
        assert(views(protected_branches@) =~= seq!["main"@, "master"@]);
        FlowConfig { base_branch: None, strategy: Strategy::Rebase, auto_push: true, protected_branches }
    }
}

// ---------------------------------------------------------------------------
// What validation computes, field by field.
// ---------------------------------------------------------------------------

/// `o`, or `d` when absent.
pub open spec fn or_else<T>(o: Option<T>, d: T) -> T {
    match o {
        Some(v) => v,
        None => d,
    }
}

/// The root `version` field: required, and must be the string `"1"`.
pub open spec fn version_check(value: Option<TomlValue>) -> (Option<Seq<char>>, Seq<Problem>) {
    match value {
        None => (
            None,
            seq![problem("version"@, "is required — add `version = \"1\"` at the top of the file"@)],
        ),
        Some(v) => match toml_str(v) {
            Some(s) => if s == "1"@ {
                (Some("1"@), seq![])
            } else {
                (None, seq![problem("version"@, "must be \"1\", found \""@ + s + "\""@)])
            },
            None => (None, seq![problem("version"@, "must be a string, e.g. \"1\""@)]),
        },
    }
}

/// A required field that must be a non-empty string.
pub open spec fn required_string_check(value: Option<TomlValue>, field: Seq<char>) -> (
    Option<Seq<char>>,
    Seq<Problem>,
) {
    match value {
        None => (None, seq![problem(field, "is required"@)]),
        Some(v) => match toml_str(v) {
            Some(s) => if s.len() > 0 {
                (Some(s), seq![])
            } else {
                (None, seq![problem(field, "must not be empty"@)])
            },
            None => (None, seq![problem(field, "must be a string"@)]),
        },
    }
}

/// A required, non-empty string that must contain `@`.
pub open spec fn email_check(value: Option<TomlValue>, field: Seq<char>) -> (
    Option<Seq<char>>,
    Seq<Problem>,
) {
    let (s, ps) = required_string_check(value, field);
    match s {
        None => (None, ps),
        Some(e) => if has_substring(e, "@"@) {
            (Some(e), ps)
        } else {
            (None, ps.push(problem(field, "must contain \"@\""@)))
        },
    }
}

/// An optional field that, when present, must be a non-empty string.
pub open spec fn optional_string_check(value: Option<TomlValue>, field: Seq<char>) -> (
    Option<Seq<char>>,
    Seq<Problem>,
) {
    match value {
        None => (None, seq![]),
        Some(v) => match toml_str(v) {
            Some(s) => if s.len() > 0 {
                (Some(s), seq![])
            } else {
                (None, seq![problem(field, "must not be empty if present"@)])
            },
            None => (None, seq![problem(field, "must be a string"@)]),
        },
    }
}

/// An optional field that, when present, must be a boolean.
pub open spec fn optional_bool_check(value: Option<TomlValue>, field: Seq<char>) -> (
    Option<bool>,
    Seq<Problem>,
) {
    match value {
        None => (None, seq![]),
        Some(v) => match toml_bool(v) {
            Some(b) => (Some(b), seq![]),
            None => (None, seq![problem(field, "must be a boolean"@)]),
        },
    }
}

/// `BTreeMap::insert` on the sorted listing `m` of a map keyed by text:
/// `k` takes its place in key order, replacing the entry with the same key.
pub open spec fn sorted_insert(m: Seq<(Seq<char>, Seq<char>)>, k: Seq<char>, v: Seq<char>) -> Seq<
    (Seq<char>, Seq<char>),
>
    decreases m.len(),
{
    if m.len() == 0 {
        seq![(k, v)]
    } else if m[0].0 == k {
        seq![(k, v)] + m.drop_first()
    } else if text_less(k, m[0].0) {
        seq![(k, v)] + m
    } else {
        seq![m[0]] + sorted_insert(m.drop_first(), k, v)
    }
}

/// The field name of alias `name`.
pub open spec fn alias_field(name: Seq<char>) -> Seq<char> {
    "git.aliases."@ + name
}

/// The aliases after visiting `entries` in order, and the problems found.
pub open spec fn aliases_fold(entries: Seq<(String, TomlValue)>) -> (
    Seq<(Seq<char>, Seq<char>)>,
    Seq<Problem>,
)
    decreases entries.len(),
{
    if entries.len() == 0 {
        (seq![], seq![])
    } else {
        let (m, ps) = aliases_fold(entries.drop_last());
        let name = entries.last().0@;
        let value = entries.last().1;
        let field = alias_field(name);
        if !is_alias_name(name) {
            (
                m,
                ps.push(
                    problem(field, "alias name \""@ + name + "\" must match ^[a-zA-Z0-9_-]+$"@),
                ),
            )
        } else {
            match toml_str(value) {
                Some(s) => if s.len() > 0 {
                    (sorted_insert(m, name, s), ps)
                } else {
                    (m, ps.push(problem(field, "alias value must not be empty"@)))
                },
                None => (m, ps.push(problem(field, "alias value must be a string"@))),
            }
        }
    }
}

/// The `[git.aliases]` table: names must match `^[a-zA-Z0-9_-]+$`, values
/// must be non-empty strings.
pub open spec fn aliases_check(aliases: Option<RawGitAliases>) -> (
    Seq<(Seq<char>, Seq<char>)>,
    Seq<Problem>,
) {
    match aliases {
        None => (seq![], seq![]),
        Some(a) => aliases_fold(a.entries@),
    }
}

/// The warning for an unknown key.
pub open spec fn unknown_key_warning(prefix: Seq<char>, key: Seq<char>) -> Seq<char> {
    "unknown config key \""@ + prefix + key + "\" is ignored (it may belong to a newer forja schema)"@
}

/// The warnings for the unknown keys of one table, in order.
pub open spec fn unknown_key_warnings(prefix: Seq<char>, keys: Seq<Seq<char>>) -> Seq<Seq<char>> {
    keys.map_values(|k: Seq<char>| unknown_key_warning(prefix, k))
}

/// The `[git]` section: its value, its problems, and its warnings.
pub open spec fn git_check(raw: RawGitConfig) -> (GitSettings, Seq<Problem>, Seq<Seq<char>>) {
    let warnings = unknown_key_warnings("git."@, views(raw.extra@));
    let (user_name, p1) = required_string_check(raw.user_name, "git.user_name"@);
    let (user_email, p2) = email_check(raw.user_email, "git.user_email"@);
    let (default_branch, p3) = optional_string_check(raw.default_branch, "git.default_branch"@);
    let (editor, p4) = optional_string_check(raw.editor, "git.editor"@);
    let (pull_rebase, p5) = optional_bool_check(raw.pull_rebase, "git.pull_rebase"@);
    let (aliases, p6) = aliases_check(raw.aliases);
    (
        GitSettings {
            user_name: or_else(user_name, seq![]),
            user_email: or_else(user_email, seq![]),
            default_branch: or_else(default_branch, "main"@),
            editor,
            pull_rebase,
            aliases,
        },
        p1 + p2 + p3 + p4 + p5 + p6,
        warnings,
    )
}

/// `flow.strategy`: `"rebase"` or `"merge"` when present.
pub open spec fn strategy_check(value: Option<TomlValue>) -> (Option<Strategy>, Seq<Problem>) {
    match value {
        None => (None, seq![]),
        Some(v) => match toml_str(v) {
            Some(s) => if s == "rebase"@ {
                (Some(Strategy::Rebase), seq![])
            } else if s == "merge"@ {
                (Some(Strategy::Merge), seq![])
            } else {
                (
                    None,
                    seq![
                        problem(
                            "flow.strategy"@,
                            "must be \"rebase\" or \"merge\", found \""@ + s + "\""@,
                        ),
                    ],
                )
            },
            None => (None, seq![problem("flow.strategy"@, "must be a string"@)]),
        },
    }
}

/// The field name of item `i` of `flow.protected_branches`.
pub open spec fn protected_item_field(i: nat) -> Seq<char> {
    "flow.protected_branches["@ + decimal(i) + "]"@
}

/// The branches among `items` that are non-empty strings, and a problem for
/// each of the others.
pub open spec fn protected_fold(items: Seq<TomlValue>) -> (Seq<Seq<char>>, Seq<Problem>)
    decreases items.len(),
{
    if items.len() == 0 {
        (seq![], seq![])
    } else {
        let (bs, ps) = protected_fold(items.drop_last());
        let i = (items.len() - 1) as nat;
        match toml_str(items.last()) {
            Some(s) => if s.len() > 0 {
                (bs.push(s), ps)
            } else {
                (bs, ps.push(problem(protected_item_field(i), "must be a non-empty string"@)))
            },
            None => (bs, ps.push(problem(protected_item_field(i), "must be a non-empty string"@))),
        }
    }
}

/// `flow.protected_branches`: when present, an array of non-empty strings.
pub open spec fn protected_check(value: Option<TomlValue>) -> (Option<Seq<Seq<char>>>, Seq<Problem>) {
    match value {
        None => (None, seq![]),
        Some(v) => match toml_items(v) {
            None => (None, seq![problem("flow.protected_branches"@, "must be an array of strings"@)]),
            Some(items) => {
                let (bs, ps) = protected_fold(items);
                (Some(bs), ps)
            },
        },
    }
}

/// The `[flow]` section: its value (defaults filled in), its problems, and
/// its warnings.
pub open spec fn flow_check(raw: Option<RawFlowConfig>) -> (FlowSettings, Seq<Problem>, Seq<Seq<char>>) {
    match raw {
        None => (default_flow(), seq![], seq![]),
        Some(r) => {
            let warnings = unknown_key_warnings("flow."@, views(r.extra@));
            let (base_branch, p1) = optional_string_check(r.base_branch, "flow.base_branch"@);
            let (strategy, p2) = strategy_check(r.strategy);
            let (auto_push, p3) = optional_bool_check(r.auto_push, "flow.auto_push"@);
            let (protected, p4) = protected_check(r.protected_branches);
            (
                FlowSettings {
                    base_branch,
                    strategy: or_else(strategy, Strategy::Rebase),
                    auto_push: or_else(auto_push, true),
                    protected_branches: or_else(protected, default_flow().protected_branches),
                },
                p1 + p2 + p3 + p4,
                warnings,
            )
        },
    }
}

/// Every problem of a raw config, in the order they are reported: the
/// version, then the `[git]` fields, then the `[flow]` fields.
pub open spec fn config_problems(raw: RawConfig) -> Seq<Problem> {
    version_check(raw.version).1 + match raw.git {
        Some(g) => git_check(g).1,
        None => seq![],
    } + flow_check(raw.flow).1
}

/// Every warning of a raw config: unknown root keys, then unknown `[git]`
/// keys, then unknown `[flow]` keys.
pub open spec fn config_warnings(raw: RawConfig) -> Seq<Seq<char>> {
    unknown_key_warnings(""@, views(raw.extra@)) + match raw.git {
        Some(g) => git_check(g).2,
        None => seq![],
    } + flow_check(raw.flow).2
}

/// The validated config of a raw config that has no problem.
pub open spec fn config_settings(raw: RawConfig) -> Settings {
    Settings {
        version: "1"@,
        git: match raw.git {
            Some(g) => Some(git_check(g).0),
            None => None,
        },
        flow: flow_check(raw.flow).0,
    }
}


// ---------------------------------------------------------------------------
// Validation.
// ---------------------------------------------------------------------------

fn push_problem(errors: &mut Vec<ValidationError>, field: String, message: String)
    ensures
        problems_of(final(errors)@) == problems_of(old(errors)@).push(problem(field@, message@)),
{
    let e = ValidationError::new(field, message);
    proof { lemma_problems_push(errors@, e); }
    errors.push(e);
}

/// `"<a><b>"` as a new string.
fn concat2(a: &str, b: &str) -> (res: String)
    ensures
        res@ == a@ + b@,
{
    let mut s = a.to_owned();
    s.append(b);
    s
}

/// `"<a><b><c>"` as a new string.
fn concat3(a: &str, b: &str, c: &str) -> (res: String)
    ensures
        res@ == a@ + b@ + c@,
{
    let mut s = a.to_owned();
    s.append(b);
    s.append(c);
    s
}

fn validate_version(raw: &RawConfig, errors: &mut Vec<ValidationError>) -> (res: Option<String>)
    ensures
        opt_view(res) == version_check(raw.version).0,
        problems_of(final(errors)@) == problems_of(old(errors)@) + version_check(raw.version).1,
{
    let ghost before = problems_of(errors@);
    match &raw.version {
        None => {
            push_problem(
                errors,
                "version".to_owned(),
                "is required — add `version = \"1\"` at the top of the file".to_owned(),
            );
            assert(problems_of(errors@) =~= before + version_check(raw.version).1);
            None
        },
        Some(TomlValue::String(s)) => {
            if same_text(s.as_str(), "1") {
                assert(problems_of(errors@) =~= before + version_check(raw.version).1);
                Some("1".to_owned())
            } else {
                push_problem(errors, "version".to_owned(), concat3("must be \"1\", found \"", s.as_str(), "\""));
                assert(problems_of(errors@) =~= before + version_check(raw.version).1);
                None
            }
        },
        Some(_) => {
            push_problem(errors, "version".to_owned(), "must be a string, e.g. \"1\"".to_owned());
            assert(problems_of(errors@) =~= before + version_check(raw.version).1);
            None
        },
    }
}

fn required_non_empty_string(
    value: &Option<TomlValue>,
    field: &str,
    errors: &mut Vec<ValidationError>,
) -> (res: Option<String>)
    ensures
        opt_view(res) == required_string_check(*value, field@).0,
        problems_of(final(errors)@) == problems_of(old(errors)@) + required_string_check(*value, field@).1,
{
    let ghost before = problems_of(errors@);
    match value {
        None => {
            push_problem(errors, field.to_owned(), "is required".to_owned());
            assert(problems_of(errors@) =~= before + required_string_check(*value, field@).1);
            None
        },
        Some(TomlValue::String(s)) => {
            if !s.as_str().is_empty() {
                assert(problems_of(errors@) =~= before + required_string_check(*value, field@).1);
                Some(s.clone())
            } else {
                push_problem(errors, field.to_owned(), "must not be empty".to_owned());
                assert(problems_of(errors@) =~= before + required_string_check(*value, field@).1);
                None
            }
        },
        Some(_) => {
            push_problem(errors, field.to_owned(), "must be a string".to_owned());
            assert(problems_of(errors@) =~= before + required_string_check(*value, field@).1);
            None
        },
    }
}

fn required_email(
    value: &Option<TomlValue>,
    field: &str,
    errors: &mut Vec<ValidationError>,
) -> (res: Option<String>)
    ensures
        opt_view(res) == email_check(*value, field@).0,
        problems_of(final(errors)@) == problems_of(old(errors)@) + email_check(*value, field@).1,
{
    let ghost before = problems_of(errors@);
    let email = required_non_empty_string(value, field, errors);
    match email {
        None => None,
        Some(e) => {
            if text_contains(e.as_str(), "@") {
                Some(e)
            } else {
                let ghost mid = problems_of(errors@);
                push_problem(errors, field.to_owned(), "must contain \"@\"".to_owned());
                assert(problems_of(errors@) =~= before + email_check(*value, field@).1);
                None
            }
        },
    }
}

fn optional_non_empty_string(
    value: &Option<TomlValue>,
    field: &str,
    errors: &mut Vec<ValidationError>,
) -> (res: Option<String>)
    ensures
        opt_view(res) == optional_string_check(*value, field@).0,
        problems_of(final(errors)@) == problems_of(old(errors)@) + optional_string_check(*value, field@).1,
{
    let ghost before = problems_of(errors@);
    match value {
        None => {
            assert(problems_of(errors@) =~= before + optional_string_check(*value, field@).1);
            None
        },
        Some(TomlValue::String(s)) => {
            if !s.as_str().is_empty() {
                assert(problems_of(errors@) =~= before + optional_string_check(*value, field@).1);
                Some(s.clone())
            } else {
                push_problem(errors, field.to_owned(), "must not be empty if present".to_owned());
                assert(problems_of(errors@) =~= before + optional_string_check(*value, field@).1);
                None
            }
        },
        Some(_) => {
            push_problem(errors, field.to_owned(), "must be a string".to_owned());
            assert(problems_of(errors@) =~= before + optional_string_check(*value, field@).1);
            None
        },
    }
}

fn optional_bool(
    value: &Option<TomlValue>,
    field: &str,
    errors: &mut Vec<ValidationError>,
) -> (res: Option<bool>)
    ensures
        res == optional_bool_check(*value, field@).0,
        problems_of(final(errors)@) == problems_of(old(errors)@) + optional_bool_check(*value, field@).1,
{
    let ghost before = problems_of(errors@);
    match value {
        None => {
            assert(problems_of(errors@) =~= before + optional_bool_check(*value, field@).1);
            None
        },
        Some(TomlValue::Boolean(b)) => {
            assert(problems_of(errors@) =~= before + optional_bool_check(*value, field@).1);
            Some(*b)
        },
        Some(_) => {
            push_problem(errors, field.to_owned(), "must be a boolean".to_owned());
            assert(problems_of(errors@) =~= before + optional_bool_check(*value, field@).1);
            None
        },
    }
}


pub proof fn lemma_sorted_insert_at(
    s: Seq<(Seq<char>, Seq<char>)>,
    k: Seq<char>,
    v: Seq<char>,
    i: int,
)
    requires
        0 <= i <= s.len(),
        forall|j: int| 0 <= j < i ==> text_less(#[trigger] s[j].0, k),
        i == s.len() || !text_less(s[i].0, k),
    ensures
        sorted_insert(s, k, v) == if i < s.len() && s[i].0 == k {
            s.take(i) + seq![(k, v)] + s.skip(i + 1)
        } else {
            s.take(i) + seq![(k, v)] + s.skip(i)
        },
    decreases i,
{
    if i == 0 {
        if s.len() > 0 && s[0].0 != k {
            lemma_text_less_total(s[0].0, k);
        }
        assert(s.take(0) + seq![(k, v)] + s.skip(1) =~= seq![(k, v)] + s.drop_first());
        assert(s.take(0) + seq![(k, v)] + s.skip(0) =~= seq![(k, v)] + s);
    } else {
        lemma_text_less_irreflexive(k);
        lemma_text_less_asymmetric(s[0].0, k);
        let t = s.drop_first();
        assert forall|j: int| 0 <= j < i - 1 implies text_less(#[trigger] t[j].0, k) by {
            assert(t[j] == s[j + 1]);
        }
        lemma_sorted_insert_at(t, k, v, i - 1);
        assert(s.take(i) =~= seq![s[0]] + t.take(i - 1));
        if i < s.len() {
            assert(s.skip(i + 1) =~= t.skip(i));
        }
        assert(s.skip(i) =~= t.skip(i - 1));
    }
}

/// Inserts `(k, v)` into the sorted listing `m` the way `BTreeMap::insert` does.
fn insert_sorted(m: &mut Vec<(String, String)>, k: String, v: String)
    ensures
        pair_views(final(m)@) == sorted_insert(pair_views(old(m)@), k@, v@),
{
    let ghost s = pair_views(m@);
    let mut i: usize = 0;
    while i < m.len() && is_text_less(m[i].0.as_str(), k.as_str())
        invariant
            i <= m.len(),
            s == pair_views(m@),
            forall|j: int| 0 <= j < i ==> text_less(#[trigger] s[j].0, k@),
        decreases m.len() - i,
    {
        i = i + 1;
    }
    proof { lemma_sorted_insert_at(s, k@, v@, i as int); }
    if i < m.len() && same_text(m[i].0.as_str(), k.as_str()) {
        m.remove(i);
        m.insert(i, (k, v));
        assert(pair_views(m@) =~= s.take(i as int) + seq![(k@, v@)] + s.skip(i + 1));
    } else {
        m.insert(i, (k, v));
        assert(pair_views(m@) =~= s.take(i as int) + seq![(k@, v@)] + s.skip(i as int));
    }
}

fn validate_aliases(raw: &RawGitConfig, errors: &mut Vec<ValidationError>) -> (res: Vec<(String, String)>)
    ensures
        pair_views(res@) == aliases_check(raw.aliases).0,
        problems_of(final(errors)@) == problems_of(old(errors)@) + aliases_check(raw.aliases).1,
{
    let ghost before = problems_of(errors@);
    let aliases = match &raw.aliases {
        None => {
            assert(problems_of(errors@) =~= before + aliases_check(raw.aliases).1);
            return Vec::new();
        },
        Some(a) => a,
    };
    let mut result: Vec<(String, String)> = Vec::new();
    for i in 0..aliases.entries.len()
        invariant
            raw.aliases == Some(*aliases),
            pair_views(result@) == aliases_fold(aliases.entries@.take(i as int)).0,
            problems_of(errors@) == before + aliases_fold(aliases.entries@.take(i as int)).1,
    {
        let ghost prefix = aliases.entries@.take(i + 1);
        proof {
            assert(prefix.drop_last() =~= aliases.entries@.take(i as int));
            assert(prefix.last() == aliases.entries@[i as int]);
        }
        let name = &aliases.entries[i].0;
        let value = &aliases.entries[i].1;
        let field = concat2("git.aliases.", name.as_str());
        let matched = regex_is_match("^[a-zA-Z0-9_-]+$", name.as_str());
        if matched != Some(true) {
            push_problem(
                errors,
                field,
                concat3("alias name \"", name.as_str(), "\" must match ^[a-zA-Z0-9_-]+$"),
            );
            assert(problems_of(errors@) =~= before + aliases_fold(prefix).1);
        } else {
            match value {
                TomlValue::String(s) => {
                    if !s.as_str().is_empty() {
                        insert_sorted(&mut result, name.clone(), s.clone());
                    } else {
                        push_problem(errors, field, "alias value must not be empty".to_owned());
                        assert(problems_of(errors@) =~= before + aliases_fold(prefix).1);
                    }
                },
                _ => {
                    push_problem(errors, field, "alias value must be a string".to_owned());
                    assert(problems_of(errors@) =~= before + aliases_fold(prefix).1);
                },
            }
        }
    }
    assert(aliases.entries@.take(aliases.entries@.len() as int) =~= aliases.entries@);
    result
}


fn collect_unknown_keys(prefix: &str, extra: &Vec<String>, warnings: &mut Vec<String>)
    ensures
        views(final(warnings)@) == views(old(warnings)@) + unknown_key_warnings(prefix@, views(extra@)),
{
    let ghost before = views(warnings@);
    for i in 0..extra.len()
        invariant
            views(warnings@) == before + unknown_key_warnings(prefix@, views(extra@).take(i as int)),
    {
        let mut w = concat3("unknown config key \"", prefix, extra[i].as_str());
        w.append("\" is ignored (it may belong to a newer forja schema)");
        proof {
            lemma_views_push(warnings@, w);
            assert(unknown_key_warnings(prefix@, views(extra@).take(i + 1)) =~= unknown_key_warnings(
                prefix@,
                views(extra@).take(i as int),
            ).push(unknown_key_warning(prefix@, extra@[i as int]@)));
        }
        warnings.push(w);
    }
    assert(views(extra@).take(extra.len() as int) =~= views(extra@));
}

fn validate_git(
    raw: &RawGitConfig,
    errors: &mut Vec<ValidationError>,
    warnings: &mut Vec<String>,
) -> (res: GitConfig)
    ensures
        res@ == git_check(*raw).0,
        problems_of(final(errors)@) == problems_of(old(errors)@) + git_check(*raw).1,
        views(final(warnings)@) == views(old(warnings)@) + git_check(*raw).2,
{
    let ghost before = problems_of(errors@);
    collect_unknown_keys("git.", &raw.extra, warnings);
    let user_name = required_non_empty_string(&raw.user_name, "git.user_name", errors);
    let user_email = required_email(&raw.user_email, "git.user_email", errors);
    let default_branch = match optional_non_empty_string(&raw.default_branch, "git.default_branch", errors) {
        Some(b) => b,
        None => "main".to_owned(),
    };
    let editor = optional_non_empty_string(&raw.editor, "git.editor", errors);
    let pull_rebase = optional_bool(&raw.pull_rebase, "git.pull_rebase", errors);
    let aliases = validate_aliases(raw, errors);
    let res = GitConfig {
        user_name: match user_name {
            Some(n) => n,
            None => String::new(),
        },
        user_email: match user_email {
            Some(e) => e,
            None => String::new(),
        },
        default_branch,
        editor,
        pull_rebase,
        aliases,
    };
    assert(problems_of(errors@) =~= before + git_check(*raw).1);
    res
}

fn validate_strategy(value: &Option<TomlValue>, errors: &mut Vec<ValidationError>) -> (res: Option<Strategy>)
    ensures
        res == strategy_check(*value).0,
        problems_of(final(errors)@) == problems_of(old(errors)@) + strategy_check(*value).1,
{
    let ghost before = problems_of(errors@);
    match value {
        None => {
            assert(problems_of(errors@) =~= before + strategy_check(*value).1);
            None
        },
        Some(TomlValue::String(s)) => {
            if same_text(s.as_str(), "rebase") {
                assert(problems_of(errors@) =~= before + strategy_check(*value).1);
                Some(Strategy::Rebase)
            } else if same_text(s.as_str(), "merge") {
                assert(problems_of(errors@) =~= before + strategy_check(*value).1);
                Some(Strategy::Merge)
            } else {
                push_problem(
                    errors,
                    "flow.strategy".to_owned(),
                    concat3("must be \"rebase\" or \"merge\", found \"", s.as_str(), "\""),
                );
                assert(problems_of(errors@) =~= before + strategy_check(*value).1);
                None
            }
        },
        Some(_) => {
            push_problem(errors, "flow.strategy".to_owned(), "must be a string".to_owned());
            assert(problems_of(errors@) =~= before + strategy_check(*value).1);
            None
        },
    }
}

fn validate_protected_branches(
    value: &Option<TomlValue>,
    errors: &mut Vec<ValidationError>,
) -> (res: Option<Vec<String>>)
    ensures
        match res {
            Some(b) => protected_check(*value).0 == Some(views(b@)),
            None => protected_check(*value).0 == None::<Seq<Seq<char>>>,
        },
        problems_of(final(errors)@) == problems_of(old(errors)@) + protected_check(*value).1,
{
    let ghost before = problems_of(errors@);
    let items = match value {
        None => {
            assert(problems_of(errors@) =~= before + protected_check(*value).1);
            return None;
        },
        Some(TomlValue::Array(items)) => items,
        Some(_) => {
            push_problem(
                errors,
                "flow.protected_branches".to_owned(),
                "must be an array of strings".to_owned(),
            );
            assert(problems_of(errors@) =~= before + protected_check(*value).1);
            return None;
        },
    };
    let mut branches: Vec<String> = Vec::new();
    for i in 0..items.len()
        invariant
            *value == Some(TomlValue::Array(*items)),
            views(branches@) == protected_fold(items@.take(i as int)).0,
            problems_of(errors@) == before + protected_fold(items@.take(i as int)).1,
    {
        let ghost prefix = items@.take(i + 1);
        proof {
            assert(prefix.drop_last() =~= items@.take(i as int));
            assert(prefix.last() == items@[i as int]);
        }
        let mut ok = false;
        match &items[i] {
            TomlValue::String(s) => {
                if !s.as_str().is_empty() {
                    let b = s.clone();
                    proof { lemma_views_push(branches@, b); }
                    branches.push(b);
                    ok = true;
                }
            },
            _ => {},
        }
        if !ok {
            let field = concat3(
                "flow.protected_branches[",
                decimal_string(i as u64).as_str(),
                "]",
            );
            push_problem(errors, field, "must be a non-empty string".to_owned());
            assert(problems_of(errors@) =~= before + protected_fold(prefix).1);
        }
    }
    assert(items@.take(items@.len() as int) =~= items@);
    Some(branches)
}

fn validate_flow(
    raw: &Option<RawFlowConfig>,
    errors: &mut Vec<ValidationError>,
    warnings: &mut Vec<String>,
) -> (res: FlowConfig)
    ensures
        res@ == flow_check(*raw).0,
        problems_of(final(errors)@) == problems_of(old(errors)@) + flow_check(*raw).1,
        views(final(warnings)@) == views(old(warnings)@) + flow_check(*raw).2,
{
    let ghost before = problems_of(errors@);
    let ghost wbefore = views(warnings@);
    let raw = match raw {
        None => {
            assert(problems_of(errors@) =~= before + flow_check(*raw).1);
            assert(views(warnings@) =~= wbefore + flow_check(*raw).2);
            return FlowConfig::default();
        },
        Some(r) => r,
    };
    collect_unknown_keys("flow.", &raw.extra, warnings);
    let base_branch = optional_non_empty_string(&raw.base_branch, "flow.base_branch", errors);
    let strategy = match validate_strategy(&raw.strategy, errors) {
        Some(s) => s,
        None => Strategy::Rebase,
    };
    let auto_push = match optional_bool(&raw.auto_push, "flow.auto_push", errors) {
        Some(b) => b,
        None => true,
    };
    let protected_branches = match validate_protected_branches(&raw.protected_branches, errors) {
        Some(b) => b,
        None => FlowConfig::default().protected_branches,
    };
    let res = FlowConfig { base_branch, strategy, auto_push, protected_branches };
    assert(problems_of(errors@) =~= before + flow_check(Some(*raw)).1);
    res
}

/// Validates a parsed config: `Ok` with the validated, defaulted config and
/// its warnings when no field has a problem, otherwise `Err` with every
/// problem found, in order.
pub fn validate_config(raw: &RawConfig) -> (res: Result<LoadOutcome, Vec<ValidationError>>)
    ensures
        match res {
            Ok(outcome) => config_problems(*raw).len() == 0 && outcome@ == (Loaded {
                config: config_settings(*raw),
                warnings: config_warnings(*raw),
            }),
            Err(errors) => config_problems(*raw).len() > 0 && problems_of(errors@) == config_problems(*raw),
        },
{
    let mut errors: Vec<ValidationError> = Vec::new();
    let mut warnings: Vec<String> = Vec::new();
    collect_unknown_keys("", &raw.extra, &mut warnings);
    let version = validate_version(raw, &mut errors);
    let git = match &raw.git {
        Some(g) => Some(validate_git(g, &mut errors, &mut warnings)),
        None => None,
    };
    let flow = validate_flow(&raw.flow, &mut errors, &mut warnings);
    proof {
        assert(problems_of(errors@) =~= config_problems(*raw));
        assert(views(warnings@) =~= config_warnings(*raw));
    }
    if errors.len() > 0 {
        return Err(errors);
    }
    match version {
        Some(version) => Ok(LoadOutcome { config: ForjaConfig { version, git, flow }, warnings }),
        None => Err(errors),
    }
}


/// What reading and parsing the config file gave: the file is missing, it
/// could not be read, it is not valid TOML (or not of the schema's shape),
/// or it parsed.
#[derive(Debug, PartialEq, Eq)]
pub enum ConfigFile {
    Missing,
    Unreadable { message: String },
    Malformed { message: String },
    Parsed(RawConfig),
}

/// The validated config of a raw config without problems, and its warnings.
pub open spec fn loaded(raw: RawConfig) -> Loaded {
    Loaded { config: config_settings(raw), warnings: config_warnings(raw) }
}

/// Loads and validates the config file at `path`, given what reading and
/// parsing it gave. A missing file is always an error here: callers that
/// must tolerate one use [`load_flow_config`].
pub fn load_config(path: &str, file: ConfigFile) -> (res: Result<LoadOutcome, ForjaError>)
    ensures
        match file {
            ConfigFile::Missing => res matches Err(e) && e@ == Failure::ConfigNotFound {
                path: path@,
            },
            ConfigFile::Unreadable { message } => res matches Err(e) && e@ == Failure::Io {
                path: path@,
                message: message@,
            },
            ConfigFile::Malformed { message } => res matches Err(e) && e@ == Failure::TomlParse {
                path: path@,
                message: message@,
            },
            ConfigFile::Parsed(raw) => if config_problems(raw).len() == 0 {
                res matches Ok(outcome) && outcome@ == loaded(raw)
            } else {
                res matches Err(e) && e@ == Failure::Validation {
                    path: path@,
                    problems: config_problems(raw),
                }
            },
        },
{
    match file {
        ConfigFile::Missing => Err(ForjaError::ConfigNotFound { path: path.to_owned() }),
        ConfigFile::Unreadable { message } => Err(ForjaError::Io { path: path.to_owned(), message }),
        ConfigFile::Malformed { message } => Err(
            ForjaError::TomlParse { path: path.to_owned(), message },
        ),
        ConfigFile::Parsed(raw) => match validate_config(&raw) {
            Ok(outcome) => Ok(outcome),
            Err(errors) => Err(
                ForjaError::Validation { path: path.to_owned(), errors: ValidationErrors(errors) },
            ),
        },
    }
}

/// Loads just the `[flow]` section for `sync` and `cleanup`, tolerating a
/// missing file (flows work with zero config). A file that exists but is
/// invalid is still reported, even if the problem is in `[git]`, which flows
/// never read: a broken `forja.toml` is never silently ignored.
pub fn load_flow_config(path: &str, file: ConfigFile) -> (res: Result<(FlowConfig, Vec<String>), ForjaError>)
    ensures
        match file {
            ConfigFile::Missing => res matches Ok(r) && r.0@ == default_flow() && r.1@.len() == 0,
            ConfigFile::Unreadable { message } => res matches Err(e) && e@ == Failure::Io {
                path: path@,
                message: message@,
            },
            ConfigFile::Malformed { message } => res matches Err(e) && e@ == Failure::TomlParse {
                path: path@,
                message: message@,
            },
            ConfigFile::Parsed(raw) => if config_problems(raw).len() == 0 {
                res matches Ok(r) && r.0@ == loaded(raw).config.flow && views(r.1@)
                    == loaded(raw).warnings
            } else {
                res matches Err(e) && e@ == Failure::Validation {
                    path: path@,
                    problems: config_problems(raw),
                }
            },
        },
{
    if let ConfigFile::Missing = file {
        return Ok((FlowConfig::default(), Vec::new()));
    }
    let outcome = load_config(path, file)?;
    Ok((outcome.config.flow, outcome.warnings))
}


// ---------------------------------------------------------------------------
// Laws.
// ---------------------------------------------------------------------------

/// Keys in strictly increasing order (so each key occurs once), as a
/// `BTreeMap` lists them.
pub open spec fn strictly_sorted(m: Seq<(Seq<char>, Seq<char>)>) -> bool {
    forall|i: int, j: int| 0 <= i < j < m.len() ==> text_less(#[trigger] m[i].0, #[trigger] m[j].0)
}

pub proof fn lemma_sorted_insert_keeps_order(m: Seq<(Seq<char>, Seq<char>)>, k: Seq<char>, v: Seq<char>)
    requires
        strictly_sorted(m),
    ensures
        strictly_sorted(sorted_insert(m, k, v)),
        forall|i: int|
            0 <= i < sorted_insert(m, k, v).len() ==> (#[trigger] sorted_insert(m, k, v)[i]).0 == k
                || exists|j: int| 0 <= j < m.len() && m[j].0 == sorted_insert(m, k, v)[i].0,
    decreases m.len(),
{
    if m.len() > 0 {
        let t = m.drop_first();
        assert forall|i: int, j: int| 0 <= i < j < t.len() implies text_less(#[trigger] t[i].0, #[trigger] t[j].0) by {
            assert(t[i] == m[i + 1] && t[j] == m[j + 1]);
        }
        lemma_sorted_insert_keeps_order(t, k, v);
        let r = sorted_insert(m, k, v);
        if m[0].0 == k {
            assert forall|i: int, j: int| 0 <= i < j < r.len() implies text_less(#[trigger] r[i].0, #[trigger] r[j].0) by {
                if i == 0 {
                    assert(text_less(m[0].0, m[j].0));
                } else {
                    assert(text_less(m[i].0, m[j].0));
                }
            }
        } else if text_less(k, m[0].0) {
            assert forall|i: int, j: int| 0 <= i < j < r.len() implies text_less(#[trigger] r[i].0, #[trigger] r[j].0) by {
                if i == 0 {
                    if j > 1 {
                        assert(text_less(m[0].0, m[j - 1].0));
                        lemma_text_less_transitive(k, m[0].0, m[j - 1].0);
                    }
                } else {
                    assert(text_less(m[i - 1].0, m[j - 1].0));
                }
            }
        } else {
            let rest = sorted_insert(t, k, v);
            lemma_text_less_total(k, m[0].0);
            assert forall|i: int, j: int| 0 <= i < j < r.len() implies text_less(#[trigger] r[i].0, #[trigger] r[j].0) by {
                if i == 0 {
                    assert(r[j] == rest[j - 1]);
                    if rest[j - 1].0 == k {
                    } else {
                        let q = choose|q: int| 0 <= q < t.len() && t[q].0 == rest[j - 1].0;
                        assert(t[q] == m[q + 1]);
                        assert(text_less(m[0].0, m[q + 1].0));
                    }
                } else {
                    assert(r[i] == rest[i - 1] && r[j] == rest[j - 1]);
                }
            }
            assert forall|i: int| 0 <= i < r.len() implies (#[trigger] r[i]).0 == k || exists|j: int|
                0 <= j < m.len() && m[j].0 == r[i].0 by {
                if i == 0 {
                    assert(m[0].0 == r[0].0);
                } else {
                    assert(r[i] == rest[i - 1]);
                    if rest[i - 1].0 != k {
                        let q = choose|q: int| 0 <= q < t.len() && t[q].0 == rest[i - 1].0;
                        assert(t[q] == m[q + 1]);
                    }
                }
            }
        }
        if m[0].0 == k || text_less(k, m[0].0) {
            assert forall|i: int| 0 <= i < r.len() implies (#[trigger] r[i]).0 == k || exists|j: int|
                0 <= j < m.len() && m[j].0 == r[i].0 by {
                if i > 0 {
                    if m[0].0 == k {
                        assert(r[i] == m[i]);
                    } else {
                        assert(r[i] == m[i - 1]);
                    }
                }
            }
        }
    }
}

/// The validated aliases are listed by name in strictly increasing order,
/// so each name occurs once; each name matches `^[a-zA-Z0-9_-]+$` and each
/// value is non-empty.
pub proof fn law_aliases_sorted_and_valid(entries: Seq<(String, TomlValue)>)
    ensures
        strictly_sorted(aliases_fold(entries).0),
        forall|i: int|
            0 <= i < aliases_fold(entries).0.len() ==> is_alias_name(
                (#[trigger] aliases_fold(entries).0[i]).0,
            ) && aliases_fold(entries).0[i].1.len() > 0,
    decreases entries.len(),
{
    if entries.len() > 0 {
        law_aliases_sorted_and_valid(entries.drop_last());
        let (m, ps) = aliases_fold(entries.drop_last());
        let name = entries.last().0@;
        if is_alias_name(name) {
            if let Some(s) = toml_str(entries.last().1) {
                if s.len() > 0 {
                    lemma_sorted_insert_keeps_order(m, name, s);
                    lemma_sorted_insert_valid(m, name, s);
                }
            }
        }
    }
}

proof fn lemma_sorted_insert_valid(m: Seq<(Seq<char>, Seq<char>)>, k: Seq<char>, v: Seq<char>)
    requires
        is_alias_name(k),
        v.len() > 0,
        forall|i: int| 0 <= i < m.len() ==> is_alias_name((#[trigger] m[i]).0) && m[i].1.len() > 0,
    ensures
        forall|i: int|
            0 <= i < sorted_insert(m, k, v).len() ==> is_alias_name(
                (#[trigger] sorted_insert(m, k, v)[i]).0,
            ) && sorted_insert(m, k, v)[i].1.len() > 0,
    decreases m.len(),
{
    if m.len() > 0 {
        let t = m.drop_first();
        assert forall|i: int| 0 <= i < t.len() implies is_alias_name((#[trigger] t[i]).0) && t[i].1.len() > 0 by {
            assert(t[i] == m[i + 1]);
        }
        lemma_sorted_insert_valid(t, k, v);
        let r = sorted_insert(m, k, v);
        assert forall|i: int| 0 <= i < r.len() implies is_alias_name((#[trigger] r[i]).0) && r[i].1.len() > 0 by {
            if m[0].0 == k {
                if i > 0 { assert(r[i] == m[i]); }
            } else if text_less(k, m[0].0) {
                if i > 0 { assert(r[i] == m[i - 1]); }
            } else {
                if i > 0 { assert(r[i] == sorted_insert(t, k, v)[i - 1]); }
            }
        }
    }
}

/// Unknown keys only ever cause warnings: two configs that differ only in
/// their unknown keys have the same problems and, when valid, the same
/// settings.
pub proof fn law_unknown_keys_only_warn(a: RawConfig, b: RawConfig)
    requires
        a.version == b.version,
        a.git is Some <==> b.git is Some,
        a.git is Some ==> ({
            let (x, y) = (a.git->0, b.git->0);
            x.user_name == y.user_name && x.user_email == y.user_email && x.default_branch
                == y.default_branch && x.editor == y.editor && x.pull_rebase == y.pull_rebase
                && x.aliases == y.aliases
        }),
        a.flow is Some <==> b.flow is Some,
        a.flow is Some ==> ({
            let (x, y) = (a.flow->0, b.flow->0);
            x.base_branch == y.base_branch && x.strategy == y.strategy && x.auto_push == y.auto_push
                && x.protected_branches == y.protected_branches
        }),
    ensures
        config_problems(a) == config_problems(b),
        config_settings(a) == config_settings(b),
{
}

/// The aliases listed the way a map keyed by name lists them: in name
/// order, each name once, a later entry for a name replacing an earlier
/// one. For validated aliases this is the listing itself
/// ([`lemma_alias_listing_of_sorted`]).
pub open spec fn alias_listing(aliases: Seq<(Seq<char>, Seq<char>)>) -> Seq<(Seq<char>, Seq<char>)>
    decreases aliases.len(),
{
    if aliases.len() == 0 {
        seq![]
    } else {
        sorted_insert(alias_listing(aliases.drop_last()), aliases.last().0, aliases.last().1)
    }
}

/// An alias listing is in strictly increasing name order.
pub proof fn lemma_alias_listing_sorted(aliases: Seq<(Seq<char>, Seq<char>)>)
    ensures
        strictly_sorted(alias_listing(aliases)),
    decreases aliases.len(),
{
    if aliases.len() > 0 {
        lemma_alias_listing_sorted(aliases.drop_last());
        lemma_sorted_insert_keeps_order(alias_listing(aliases.drop_last()), aliases.last().0, aliases.last().1);
    }
}

/// Aliases already in strictly increasing name order, as validation gives
/// them, are their own listing.
pub proof fn lemma_alias_listing_of_sorted(m: Seq<(Seq<char>, Seq<char>)>)
    requires
        strictly_sorted(m),
    ensures
        alias_listing(m) == m,
    decreases m.len(),
{
    if m.len() > 0 {
        let init = m.drop_last();
        assert forall|i: int, j: int| 0 <= i < j < init.len() implies text_less(#[trigger] init[i].0, #[trigger] init[j].0) by {
            assert(init[i] == m[i] && init[j] == m[j]);
        }
        lemma_alias_listing_of_sorted(init);
        assert forall|j: int| 0 <= j < init.len() implies text_less(#[trigger] init[j].0, m.last().0) by {
            assert(init[j] == m[j]);
            assert(m.last() == m[m.len() - 1]);
        }
        lemma_sorted_insert_at(init, m.last().0, m.last().1, init.len() as int);
        assert(init.take(init.len() as int) + seq![(m.last().0, m.last().1)] + init.skip(init.len() as int) =~= m);
    }
}

/// The aliases as a map keyed by name lists them (see [`alias_listing`]).
pub fn sorted_aliases(aliases: &Vec<(String, String)>) -> (res: Vec<(String, String)>)
    ensures
        pair_views(res@) == alias_listing(pair_views(aliases@)),
{
    let ghost a = pair_views(aliases@);
    let mut res: Vec<(String, String)> = Vec::new();
    for i in 0..aliases.len()
        invariant
            a == pair_views(aliases@),
            pair_views(res@) == alias_listing(a.take(i as int)),
    {
        proof {
            assert(a.take(i + 1).drop_last() =~= a.take(i as int));
            assert(a.take(i + 1).last() == a[i as int]);
        }
        insert_sorted(&mut res, aliases[i].0.clone(), aliases[i].1.clone());
    }
    assert(a.take(aliases.len() as int) =~= a);
    res
}

/// A `[flow]` field that is absent takes its documented default, whether
/// the `[flow]` table is there or not: the base branch is left to be
/// detected, the strategy is rebase, `auto_push` is on, and `main` and
/// `master` are protected.
pub proof fn law_flow_defaults(raw: Option<RawFlowConfig>)
    ensures
        (raw is None || raw->0.base_branch is None) ==> flow_check(raw).0.base_branch is None,
        (raw is None || raw->0.strategy is None) ==> flow_check(raw).0.strategy == Strategy::Rebase,
        (raw is None || raw->0.auto_push is None) ==> flow_check(raw).0.auto_push == true,
        (raw is None || raw->0.protected_branches is None) ==> flow_check(raw).0.protected_branches
            == seq!["main"@, "master"@],
{
}

/// A `[flow]` field that is present and valid is taken as written: a
/// boolean `auto_push`, a `"rebase"` or `"merge"` strategy, a non-empty
/// base branch.
pub proof fn law_flow_values_taken(r: RawFlowConfig)
    ensures
        r.auto_push matches Some(TomlValue::Boolean(b)) ==> flow_check(Some(r)).0.auto_push == b,
        r.strategy matches Some(TomlValue::String(s)) ==> (s@ == "merge"@ ==> flow_check(
            Some(r),
        ).0.strategy == Strategy::Merge),
        r.strategy matches Some(TomlValue::String(s)) ==> (s@ == "rebase"@ ==> flow_check(
            Some(r),
        ).0.strategy == Strategy::Rebase),
        r.base_branch matches Some(TomlValue::String(s)) ==> (s@.len() > 0 ==> flow_check(
            Some(r),
        ).0.base_branch == Some(s@)),
{
    reveal_strlit("merge");
    reveal_strlit("rebase");
    assert("merge"@[0] != "rebase"@[0]);
}

/// A `[git]` field that is present and valid is taken as written, and an
/// absent default branch is `main`.
pub proof fn law_git_values_taken(g: RawGitConfig)
    ensures
        g.default_branch is None ==> git_check(g).0.default_branch == "main"@,
        g.default_branch matches Some(TomlValue::String(s)) ==> (s@.len() > 0 ==> git_check(g).0.default_branch
            == s@),
        g.user_name matches Some(TomlValue::String(s)) ==> (s@.len() > 0 ==> git_check(g).0.user_name
            == s@),
        g.editor is None ==> git_check(g).0.editor is None,
        g.editor matches Some(TomlValue::String(s)) ==> (s@.len() > 0 ==> git_check(g).0.editor == Some(
            s@,
        )),
        g.pull_rebase is None ==> git_check(g).0.pull_rebase is None,
        g.pull_rebase matches Some(TomlValue::Boolean(b)) ==> git_check(g).0.pull_rebase == Some(b),
{
}

/// A config without problems declares version `"1"`, and its `[git]`
/// section, when present, has a non-empty user name and a user email that
/// contains `@`.
pub proof fn law_valid_config(raw: RawConfig)
    requires
        config_problems(raw).len() == 0,
    ensures
        raw.version matches Some(TomlValue::String(s)) && s@ == "1"@,
        raw.git is Some ==> git_check(raw.git->0).0.user_name.len() > 0,
        raw.git is Some ==> has_substring(git_check(raw.git->0).0.user_email, "@"@),
        config_settings(raw).version == "1"@,
{
    let p0 = version_check(raw.version).1;
    let p1: Seq<Problem> = match raw.git {
        Some(g) => git_check(g).1,
        None => seq![],
    };
    let p2 = flow_check(raw.flow).1;
    assert(config_problems(raw) == p0 + p1 + p2);
    assert(p0.len() == 0 && p1.len() == 0);
    if raw.git is Some {
        let g = raw.git->0;
        let (un, q1) = required_string_check(g.user_name, "git.user_name"@);
        let (ue, q2) = email_check(g.user_email, "git.user_email"@);
        assert(git_check(g).1 == q1 + q2 + optional_string_check(g.default_branch, "git.default_branch"@).1
            + optional_string_check(g.editor, "git.editor"@).1 + optional_bool_check(g.pull_rebase, "git.pull_rebase"@).1
            + aliases_check(g.aliases).1);
        assert(q1.len() == 0 && q2.len() == 0);
        let (ue0, q20) = required_string_check(g.user_email, "git.user_email"@);
        if ue0 is Some && !has_substring(ue0->0, "@"@) {
            assert(q2 == q20.push(problem("git.user_email"@, "must contain \"@\""@)));
        }
    }
}

/// Whether some problem is about `field`.
pub open spec fn reports(ps: Seq<Problem>, field: Seq<char>) -> bool {
    exists|i: int| 0 <= i < ps.len() && (#[trigger] ps[i]).field == field
}

proof fn lemma_reports_concat(a: Seq<Problem>, b: Seq<Problem>, field: Seq<char>)
    ensures
        reports(a, field) ==> reports(a + b, field),
        reports(b, field) ==> reports(a + b, field),
{
    if reports(a, field) {
        let i = choose|i: int| 0 <= i < a.len() && (#[trigger] a[i]).field == field;
        assert((a + b)[i] == a[i]);
    }
    if reports(b, field) {
        let i = choose|i: int| 0 <= i < b.len() && (#[trigger] b[i]).field == field;
        assert((a + b)[a.len() + i] == b[i]);
    }
}

/// Validation reports every problem, not just the first: a missing
/// version, a missing user name or email in a present `[git]` section, and
/// a non-boolean `auto_push` in a present `[flow]` table are each reported
/// under their field, whatever else is wrong.
pub proof fn law_every_problem_reported(raw: RawConfig)
    ensures
        raw.version is None ==> reports(config_problems(raw), "version"@),
        (raw.git is Some && raw.git->0.user_name is None) ==> reports(config_problems(raw), "git.user_name"@),
        (raw.git is Some && raw.git->0.user_email is None) ==> reports(config_problems(raw), "git.user_email"@),
        (raw.flow is Some && raw.flow->0.auto_push is Some && toml_bool(raw.flow->0.auto_push->0) is None)
            ==> reports(config_problems(raw), "flow.auto_push"@),
{
    let p0 = version_check(raw.version).1;
    let p1: Seq<Problem> = match raw.git {
        Some(g) => git_check(g).1,
        None => seq![],
    };
    let p2 = flow_check(raw.flow).1;
    assert(config_problems(raw) == p0 + p1 + p2);
    if raw.version is None {
        assert(p0[0].field == "version"@);
        lemma_reports_concat(p0, p1, "version"@);
        lemma_reports_concat(p0 + p1, p2, "version"@);
    }
    if raw.git is Some {
        let g = raw.git->0;
        let q1 = required_string_check(g.user_name, "git.user_name"@).1;
        let q2 = email_check(g.user_email, "git.user_email"@).1;
        let q3 = optional_string_check(g.default_branch, "git.default_branch"@).1;
        let q4 = optional_string_check(g.editor, "git.editor"@).1;
        let q5 = optional_bool_check(g.pull_rebase, "git.pull_rebase"@).1;
        let q6 = aliases_check(g.aliases).1;
        assert(p1 == q1 + q2 + q3 + q4 + q5 + q6);
        if g.user_name is None {
            assert(q1[0].field == "git.user_name"@);
            lemma_reports_concat(q1, q2, "git.user_name"@);
            lemma_reports_concat(q1 + q2, q3, "git.user_name"@);
            lemma_reports_concat(q1 + q2 + q3, q4, "git.user_name"@);
            lemma_reports_concat(q1 + q2 + q3 + q4, q5, "git.user_name"@);
            lemma_reports_concat(q1 + q2 + q3 + q4 + q5, q6, "git.user_name"@);
            lemma_reports_concat(p0, p1, "git.user_name"@);
            lemma_reports_concat(p0 + p1, p2, "git.user_name"@);
        }
        if g.user_email is None {
            assert(q2[0].field == "git.user_email"@);
            lemma_reports_concat(q1, q2, "git.user_email"@);
            lemma_reports_concat(q1 + q2, q3, "git.user_email"@);
            lemma_reports_concat(q1 + q2 + q3, q4, "git.user_email"@);
            lemma_reports_concat(q1 + q2 + q3 + q4, q5, "git.user_email"@);
            lemma_reports_concat(q1 + q2 + q3 + q4 + q5, q6, "git.user_email"@);
            lemma_reports_concat(p0, p1, "git.user_email"@);
            lemma_reports_concat(p0 + p1, p2, "git.user_email"@);
        }
    }
    if raw.flow is Some && raw.flow->0.auto_push is Some && toml_bool(raw.flow->0.auto_push->0) is None {
        let r = raw.flow->0;
        let f1 = optional_string_check(r.base_branch, "flow.base_branch"@).1;
        let f2 = strategy_check(r.strategy).1;
        let f3 = optional_bool_check(r.auto_push, "flow.auto_push"@).1;
        let f4 = protected_check(r.protected_branches).1;
        assert(p2 == f1 + f2 + f3 + f4);
        assert(f3[0].field == "flow.auto_push"@);
        lemma_reports_concat(f1 + f2, f3, "flow.auto_push"@);
        lemma_reports_concat(f1 + f2 + f3, f4, "flow.auto_push"@);
        lemma_reports_concat(p0 + p1, p2, "flow.auto_push"@);
    }
}

} // verus!
