//! `forja show`: the loaded, normalized config as the text it prints.
use vstd::prelude::*;
use crate::config::{alias_listing, sorted_aliases, FlowConfig, ForjaConfig, GitConfig, GitSettings, FlowSettings, Settings, Strategy, pair_views};
use crate::setup::bool_text;
use crate::text::{
    has_substring, lemma_substring_in_left, lemma_substring_in_right, lemma_substring_self, opt_view, views,
};

verus! {

/// One alias line of the `[git.aliases]` block: `    name = "value"`.
pub open spec fn alias_line(a: (Seq<char>, Seq<char>)) -> Seq<char> {
    "    "@ + a.0 + " = \""@ + a.1 + "\"\n"@
}

/// The alias lines, one per alias, in order.
pub open spec fn alias_lines(aliases: Seq<(Seq<char>, Seq<char>)>) -> Seq<char>
    decreases aliases.len(),
{
    if aliases.len() == 0 {
        seq![]
    } else {
        alias_lines(aliases.drop_last()) + alias_line(aliases.last())
    }
}

/// `"b"` for a branch name.
pub open spec fn quoted(b: Seq<char>) -> Seq<char> {
    "\""@ + b + "\""@
}

/// The branches, each quoted, separated by `, `.
pub open spec fn quoted_list(bs: Seq<Seq<char>>) -> Seq<char>
    decreases bs.len(),
{
    if bs.len() == 0 {
        seq![]
    } else if bs.len() == 1 {
        quoted(bs[0])
    } else {
        quoted_list(bs.drop_last()) + ", "@ + quoted(bs.last())
    }
}

/// The first lines of the `[git]` section: its header and the three
/// fields that always have a value.
pub open spec fn git_header(g: GitSettings) -> Seq<char> {
    "[git]\n"@ + ("  user_name      = "@ + g.user_name + "\n"@) + ("  user_email     = "@
        + g.user_email + "\n"@) + ("  default_branch = "@ + g.default_branch + "\n"@)
}

/// The `editor` line, only when an editor is set.
pub open spec fn editor_line(editor: Option<Seq<char>>) -> Seq<char> {
    match editor {
        Some(e) => "  editor         = "@ + e + "\n"@,
        None => seq![],
    }
}

/// The `pull_rebase` line, only when it is set.
pub open spec fn pull_rebase_line(pull_rebase: Option<bool>) -> Seq<char> {
    match pull_rebase {
        Some(b) => "  pull_rebase    = "@ + bool_text(b) + "\n"@,
        None => seq![],
    }
}

/// The `[git.aliases]` block after a blank line, only when there are aliases.
pub open spec fn aliases_block(aliases: Seq<(Seq<char>, Seq<char>)>) -> Seq<char> {
    if aliases.len() > 0 {
        "\n"@ + "  [git.aliases]\n"@ + alias_lines(aliases)
    } else {
        seq![]
    }
}

/// The `[git]` block: the section, or a line saying it is not set.
pub open spec fn git_block(git: Option<GitSettings>) -> Seq<char> {
    match git {
        None => "[git]  (not set)\n"@,
        Some(g) => git_header(g) + editor_line(g.editor) + pull_rebase_line(g.pull_rebase)
            + aliases_block(alias_listing(g.aliases)),
    }
}

/// The name of a strategy as it is written in the config.
pub open spec fn strategy_text(s: Strategy) -> Seq<char> {
    match s {
        Strategy::Rebase => "rebase"@,
        Strategy::Merge => "merge"@,
    }
}

/// The `base_branch` line: the configured branch, or a note that it is
/// detected from the remote.
pub open spec fn base_branch_line(base: Option<Seq<char>>) -> Seq<char> {
    "  base_branch        = "@ + match base {
        Some(b) => b,
        None => "(detected from remote)"@,
    } + "\n"@
}

/// The `protected_branches` line: the branches, quoted, as a list.
pub open spec fn protected_line(bs: Seq<Seq<char>>) -> Seq<char> {
    "  protected_branches = ["@ + quoted_list(bs) + "]\n"@
}

/// The `[flow]` block.
pub open spec fn flow_block(f: FlowSettings) -> Seq<char> {
    "[flow]\n"@ + ("  strategy           = "@ + strategy_text(f.strategy) + "\n"@) + (
    "  auto_push          = "@ + bool_text(f.auto_push) + "\n"@) + base_branch_line(f.base_branch)
        + protected_line(f.protected_branches)
}

/// What `forja show` prints for a config, line by line: the version, a
/// blank line, the `[git]` block, a blank line, the `[flow]` block.
pub open spec fn show_text(c: Settings) -> Seq<char> {
    ("version: "@ + c.version + "\n"@) + "\n"@ + git_block(c.git) + "\n"@ + flow_block(c.flow)
}

fn append_bool(s: &mut String, b: bool)
    ensures
        final(s)@ == old(s)@ + bool_text(b),
{
    if b {
        s.append("true");
    } else {
        s.append("false");
    }
}

fn append_aliases(s: &mut String, aliases: &Vec<(String, String)>)
    ensures
        final(s)@ == old(s)@ + alias_lines(pair_views(aliases@)),
{
    let ghost start = s@;
    let ghost a = pair_views(aliases@);
    for i in 0..aliases.len()
        invariant
            a == pair_views(aliases@),
            s@ == start + alias_lines(a.take(i as int)),
    {
        proof {
            assert(a.take(i + 1).drop_last() =~= a.take(i as int));
            assert(a.take(i + 1).last() == a[i as int]);
        }
        s.append("    ");
        s.append(aliases[i].0.as_str());
        s.append(" = \"");
        s.append(aliases[i].1.as_str());
        s.append("\"\n");
        assert(s@ =~= start + alias_lines(a.take(i + 1)));
    }
    assert(a.take(aliases.len() as int) =~= a);
}

fn append_branches(s: &mut String, bs: &Vec<String>)
    ensures
        final(s)@ == old(s)@ + quoted_list(views(bs@)),
{
    let ghost start = s@;
    let ghost v = views(bs@);
    for i in 0..bs.len()
        invariant
            v == views(bs@),
            s@ == start + quoted_list(v.take(i as int)),
    {
        proof {
            assert(v.take(i + 1).drop_last() =~= v.take(i as int));
            assert(v.take(i + 1).last() == v[i as int]);
            if i == 0 {
                assert(v.take(1) =~= seq![v[0]]);
                assert(start + quoted_list(v.take(0)) =~= start);
            }
        }
        if i > 0 {
            s.append(", ");
        }
        s.append("\"");
        s.append(bs[i].as_str());
        s.append("\"");
        assert(s@ =~= start + quoted_list(v.take(i + 1)));
    }
    assert(v.take(bs.len() as int) =~= v);
}

fn append_git_header(s: &mut String, git: &GitConfig)
    ensures
        final(s)@ == old(s)@ + git_header(git@),
{
    let ghost start = s@;
    s.append("[git]\n");
    s.append("  user_name      = ");
    s.append(git.user_name.as_str());
    s.append("\n");
    s.append("  user_email     = ");
    s.append(git.user_email.as_str());
    s.append("\n");
    s.append("  default_branch = ");
    s.append(git.default_branch.as_str());
    s.append("\n");
    assert(s@ =~= start + git_header(git@));
}

#[verifier::rlimit(50)]
fn append_git_section(s: &mut String, git: &GitConfig)
    ensures
        final(s)@ == old(s)@ + git_block(Some(git@)),
{
    let ghost start = s@;
    append_git_header(s, git);
    let ghost a = s@;
    if let Some(editor) = &git.editor {
        s.append("  editor         = ");
        s.append(editor.as_str());
        s.append("\n");
    }
    assert(s@ =~= a + editor_line(git@.editor));
    let ghost b = s@;
    if let Some(pull_rebase) = git.pull_rebase {
        s.append("  pull_rebase    = ");
        append_bool(s, pull_rebase);
        s.append("\n");
    }
    assert(s@ =~= b + pull_rebase_line(git@.pull_rebase));
    let ghost c = s@;
    let aliases = sorted_aliases(&git.aliases);
    if aliases.len() > 0 {
        s.append("\n");
        s.append("  [git.aliases]\n");
        append_aliases(s, &aliases);
    }
    assert(s@ =~= c + aliases_block(alias_listing(git@.aliases)));
    assert(s@ =~= start + git_block(Some(git@)));
}

fn append_base_line(s: &mut String, base: &Option<String>)
    ensures
        final(s)@ == old(s)@ + base_branch_line(opt_view(*base)),
{
    let ghost start = s@;
    s.append("  base_branch        = ");
    match base {
        Some(b) => s.append(b.as_str()),
        None => s.append("(detected from remote)"),
    }
    s.append("\n");
    assert(s@ =~= start + base_branch_line(opt_view(*base)));
}

fn append_protected_line(s: &mut String, bs: &Vec<String>)
    ensures
        final(s)@ == old(s)@ + protected_line(views(bs@)),
{
    let ghost start = s@;
    s.append("  protected_branches = [");
    append_branches(s, bs);
    s.append("]\n");
    assert(s@ =~= start + protected_line(views(bs@)));
}

fn append_flow_section(s: &mut String, flow: &FlowConfig)
    ensures
        final(s)@ == old(s)@ + flow_block(flow@),
{
    let ghost start = s@;
    s.append("[flow]\n");
    s.append("  strategy           = ");
    match flow.strategy {
        Strategy::Rebase => s.append("rebase"),
        Strategy::Merge => s.append("merge"),
    }
    s.append("\n");
    s.append("  auto_push          = ");
    append_bool(s, flow.auto_push);
    s.append("\n");
    append_base_line(s, &flow.base_branch);
    append_protected_line(s, &flow.protected_branches);
    assert(s@ =~= start + flow_block(flow@));
}

/// The text that `forja show` prints for `config` (see [`show_text`]).
pub fn render_show(config: &ForjaConfig) -> (res: String)
    ensures
        res@ == show_text(config@),
{
    let mut s = "version: ".to_owned();
    s.append(config.version.as_str());
    s.append("\n");
    s.append("\n");
    match &config.git {
        Some(git) => append_git_section(&mut s, git),
        None => s.append("[git]  (not set)\n"),
    }
    s.append("\n");
    append_flow_section(&mut s, &config.flow);
    assert(s@ =~= show_text(config@));
    s
}

/// `n` occurs in `a + b + c` when it is `b`.
proof fn lemma_middle(a: Seq<char>, b: Seq<char>, c: Seq<char>)
    ensures
        has_substring(a + b + c, b),
{
    lemma_substring_self(b);
    lemma_substring_in_right(a, b, b);
    lemma_substring_in_left(a + b, c, b);
}

/// What `forja show` prints states each configured value on its own line:
/// the version; the name, email and default branch; the editor and
/// `pull_rebase` (as `true` or `false`) when set; the strategy (`rebase`
/// or `merge`), `auto_push` (`true` or `false`) and the base branch (or
/// that it is detected from the remote).
pub proof fn law_show_states_values(c: Settings)
    ensures
        has_substring(show_text(c), "version: "@ + c.version + "\n"@),
        has_substring(
            show_text(c),
            "  strategy           = "@ + (if c.flow.strategy == Strategy::Merge { "merge"@ } else { "rebase"@ })
                + "\n"@,
        ),
        has_substring(
            show_text(c),
            "  auto_push          = "@ + (if c.flow.auto_push { "true"@ } else { "false"@ }) + "\n"@,
        ),
        has_substring(
            show_text(c),
            "  base_branch        = "@ + (if c.flow.base_branch is Some { c.flow.base_branch->0 } else {
                "(detected from remote)"@
            }) + "\n"@,
        ),
        c.git is Some ==> has_substring(show_text(c), "  user_name      = "@ + c.git->0.user_name + "\n"@),
        c.git is Some ==> has_substring(show_text(c), "  user_email     = "@ + c.git->0.user_email + "\n"@),
        c.git is Some ==> has_substring(
            show_text(c),
            "  default_branch = "@ + c.git->0.default_branch + "\n"@,
        ),
        c.git is Some && c.git->0.editor is Some ==> has_substring(
            show_text(c),
            "  editor         = "@ + c.git->0.editor->0 + "\n"@,
        ),
        c.git is Some && c.git->0.pull_rebase is Some ==> has_substring(
            show_text(c),
            "  pull_rebase    = "@ + (if c.git->0.pull_rebase->0 { "true"@ } else { "false"@ }) + "\n"@,
        ),
{
    let v = "version: "@ + c.version + "\n"@;
    let g = git_block(c.git);
    let f = flow_block(c.flow);
    let pre = v + "\n"@;
    // show_text(c) == ((pre + g) + "\n") + f
    lemma_substring_self(v);
    lemma_substring_in_left(v, "\n"@, v);
    lemma_substring_in_left(pre, g, v);
    lemma_substring_in_left(pre + g, "\n"@, v);
    lemma_substring_in_left(pre + g + "\n"@, f, v);
    // The [flow] lines.
    let fl = c.flow;
    let st = "  strategy           = "@ + strategy_text(fl.strategy) + "\n"@;
    let ap = "  auto_push          = "@ + bool_text(fl.auto_push) + "\n"@;
    let bl = base_branch_line(fl.base_branch);
    let pl = protected_line(fl.protected_branches);
    lemma_middle("[flow]\n"@, st, ap);
    lemma_substring_in_left("[flow]\n"@ + st + ap, bl, st);
    lemma_substring_in_left("[flow]\n"@ + st + ap + bl, pl, st);
    lemma_middle("[flow]\n"@ + st, ap, bl);
    lemma_substring_in_left("[flow]\n"@ + st + ap + bl, pl, ap);
    lemma_middle("[flow]\n"@ + st + ap, bl, pl);
    assert forall|n: Seq<char>| has_substring(f, n) implies has_substring(show_text(c), n) by {
        lemma_substring_in_right(pre + g + "\n"@, f, n);
    }
    assert(st == "  strategy           = "@ + (if fl.strategy == Strategy::Merge { "merge"@ } else { "rebase"@ }) + "\n"@);
    assert(ap == "  auto_push          = "@ + (if fl.auto_push { "true"@ } else { "false"@ }) + "\n"@);
    // The [git] lines.
    assert forall|n: Seq<char>| has_substring(g, n) implies has_substring(show_text(c), n) by {
        lemma_substring_in_right(pre, g, n);
        lemma_substring_in_left(pre + g, "\n"@, n);
        lemma_substring_in_left(pre + g + "\n"@, f, n);
    }
    if c.git is Some {
        let gs = c.git->0;
        let nm = "  user_name      = "@ + gs.user_name + "\n"@;
        let em = "  user_email     = "@ + gs.user_email + "\n"@;
        let db = "  default_branch = "@ + gs.default_branch + "\n"@;
        let h = git_header(gs);
        let e = editor_line(gs.editor);
        let pr = pull_rebase_line(gs.pull_rebase);
        let ab = aliases_block(alias_listing(gs.aliases));
        assert forall|n: Seq<char>| has_substring(h, n) implies has_substring(g, n) by {
            lemma_substring_in_left(h, e, n);
            lemma_substring_in_left(h + e, pr, n);
            lemma_substring_in_left(h + e + pr, ab, n);
        }
        lemma_middle("[git]\n"@, nm, em);
        lemma_substring_in_left("[git]\n"@ + nm + em, db, nm);
        lemma_middle("[git]\n"@ + nm, em, db);
        lemma_substring_self(db);
        lemma_substring_in_right("[git]\n"@ + nm + em, db, db);
        if gs.editor is Some {
            lemma_middle(h, e, pr);
            lemma_substring_in_left(h + e + pr, ab, e);
        }
        if gs.pull_rebase is Some {
            lemma_middle(h + e, pr, ab);
            assert(pr == "  pull_rebase    = "@ + (if gs.pull_rebase->0 { "true"@ } else { "false"@ }) + "\n"@);
        }
    }
}

proof fn lemma_alias_lines_contain(aliases: Seq<(Seq<char>, Seq<char>)>, k: int)
    requires
        0 <= k < aliases.len(),
    ensures
        has_substring(alias_lines(aliases), alias_line(aliases[k])),
    decreases aliases.len(),
{
    let init = aliases.drop_last();
    if k == aliases.len() - 1 {
        lemma_substring_self(alias_line(aliases[k]));
        lemma_substring_in_right(alias_lines(init), alias_line(aliases.last()), alias_line(aliases[k]));
    } else {
        lemma_alias_lines_contain(init, k);
        assert(init[k] == aliases[k]);
        lemma_substring_in_left(alias_lines(init), alias_line(aliases.last()), alias_line(aliases[k]));
    }
}

/// What `forja show` prints lists every alias, in the map's order, as
/// `    <name> = "<command>"`.
pub proof fn law_show_lists_aliases(c: Settings, k: int)
    requires
        c.git is Some,
        0 <= k < alias_listing(c.git->0.aliases).len(),
    ensures
        has_substring(
            show_text(c),
            "    "@ + alias_listing(c.git->0.aliases)[k].0 + " = \""@ + alias_listing(c.git->0.aliases)[k].1
                + "\"\n"@,
        ),
{
    let gs = c.git->0;
    let listing = alias_listing(gs.aliases);
    let n = alias_line(listing[k]);
    lemma_alias_lines_contain(listing, k);
    let ab = aliases_block(listing);
    lemma_substring_in_right("\n"@ + "  [git.aliases]\n"@, alias_lines(listing), n);
    let h = git_header(gs);
    let e = editor_line(gs.editor);
    let pr = pull_rebase_line(gs.pull_rebase);
    lemma_substring_in_right(h + e + pr, ab, n);
    let v = "version: "@ + c.version + "\n"@;
    let pre = v + "\n"@;
    let g = git_block(c.git);
    lemma_substring_in_right(pre, g, n);
    lemma_substring_in_left(pre + g, "\n"@, n);
    lemma_substring_in_left(pre + g + "\n"@, flow_block(c.flow), n);
}

} // verus!
