//! What the command line takes, prints and runs.

use crate::app::{EffectView, RequestView};
use crate::cli::{
    cli_error_text, command_in, entry_line, help_shown, ls_text, next_for, pr_from, prompt_flag,
    pull_items, resume_args_of, signed_decimal, stack_text, without_handoff, CliErrorView,
    CommandView, NextView, PullItemView, HELP_END, HELP_MIDDLE, HELP_TOP,
};
use crate::data::{index_from, Backend};
use crate::names::AgentNamesView;
use crate::space::{PoolRepoView, RepoStateView, SpaceRepoView};
use crate::stack::{PrInfoView, StackView};
use crate::text::{debug_form, decimal_of, filled, lowercase, repeated};
use vstd::prelude::*;

verus! {

// ---- arguments ------------------------------------------------------------------------------

proof fn lemma_index_from(parts: Seq<Seq<char>>, x: Seq<char>, i: int, k: int)
    requires
        0 <= i,
    ensures
        i <= k < parts.len() && parts[k] == x && (forall|j: int|
            i <= j < k ==> #[trigger] parts[j] != x) ==> index_from(parts, x, i) == Some(k),
        (forall|j: int| i <= j < parts.len() ==> #[trigger] parts[j] != x) ==> index_from(
            parts,
            x,
            i,
        ) is None,
    decreases parts.len() - i,
{
    if i < parts.len() {
        lemma_index_from(parts, x, i + 1, k);
    }
}

/// The place of a text in a list is the first one at which it stands.
pub proof fn law_first_place_in_a_list(parts: Seq<Seq<char>>, x: Seq<char>, k: int)
    ensures
        0 <= k < parts.len() && parts[k] == x && (forall|j: int|
            0 <= j < k ==> #[trigger] parts[j] != x) ==> index_from(parts, x, 0) == Some(k),
        (forall|j: int| 0 <= j < parts.len() ==> #[trigger] parts[j] != x) ==> index_from(
            parts,
            x,
            0,
        ) is None,
{
    lemma_index_from(parts, x, 0, k);
}

/// The handoff file and its path are taken out of the arguments, wherever they stand, and the
/// others stay as they are; the flag alone is an error.
pub proof fn law_handoff_file_is_taken_out(
    before: Seq<Seq<char>>,
    path: Seq<char>,
    after: Seq<Seq<char>>,
)
    requires
        forall|j: int| 0 <= j < before.len() ==> #[trigger] before[j] != "--handoff-file"@,
    ensures
        without_handoff(before + seq!["--handoff-file"@, path] + after) == Ok::<
            (Option<Seq<char>>, Seq<Seq<char>>),
            CliErrorView,
        >((Some(path), before + after)),
        without_handoff(before.push("--handoff-file"@)) == Err::<
            (Option<Seq<char>>, Seq<Seq<char>>),
            CliErrorView,
        >(CliErrorView::HandoffWithoutPath),
        without_handoff(before) == Ok::<(Option<Seq<char>>, Seq<Seq<char>>), CliErrorView>(
            (None, before),
        ),
{
    let flag = "--handoff-file"@;
    let n = before.len() as int;
    let all = before + seq![flag, path] + after;
    assert forall|j: int| 0 <= j < n implies #[trigger] all[j] != flag by {
        assert(all[j] == before[j]);
    }
    assert(all[n] == flag && all[n + 1] == path);
    lemma_index_from(all, flag, 0, n);
    assert(all.take(n) + all.skip(n + 2) == before + after);
    let alone = before.push(flag);
    assert forall|j: int| 0 <= j < n implies #[trigger] alone[j] != flag by {
        assert(alone[j] == before[j]);
    }
    lemma_index_from(alone, flag, 0, n);
    lemma_index_from(before, flag, 0, n);
}

/// What each first argument stands for, with the others handed on; without any, and with any
/// other, the app is run.
pub proof fn law_commands(first: Seq<char>, rest: Seq<Seq<char>>)
    ensures
        ({
            let said = |first: Seq<char>| command_in(seq![first] + rest);
            let ok = |c: CommandView| Ok::<CommandView, CliErrorView>(c);
            &&& command_in(Seq::empty()) == ok(CommandView::Tui)
            &&& said("-h"@) == ok(CommandView::Help)
            &&& said("--help"@) == ok(CommandView::Help)
            &&& said("wt"@) == ok(CommandView::Wt { args: rest })
            &&& said("pull"@) == ok(CommandView::Pull { args: rest })
            &&& said("add"@) == ok(CommandView::Add { args: rest })
            &&& said("ls"@) == ok(CommandView::Ls)
            &&& said("stack"@) == ok(CommandView::Stack { args: rest })
            &&& rest.len() > 0 && rest[0] == "zsh"@ ==> said("--init"@) == ok(CommandView::InitZsh)
            &&& rest.len() > 0 && rest[0] != "zsh"@ ==> said("--init"@) == Err::<
                CommandView,
                CliErrorView,
            >(CliErrorView::UnsupportedShell { shell: rest[0] })
            &&& rest.len() == 0 ==> said("--init"@) == Err::<CommandView, CliErrorView>(
                CliErrorView::UnsupportedShell { shell: "<none>"@ },
            )
            &&& first != "-h"@ && first != "--help"@ && first != "--init"@ && first != "wt"@ && first
                != "pull"@ && first != "add"@ && first != "ls"@ && first != "stack"@ ==> said(first)
                == ok(CommandView::Tui)
        }),
{
    reveal_strlit("-h");
    reveal_strlit("--help");
    reveal_strlit("--init");
    reveal_strlit("wt");
    reveal_strlit("pull");
    reveal_strlit("add");
    reveal_strlit("ls");
    reveal_strlit("stack");
    assert("-h"@[0] == '-' && "--help"@[1] == '-' && "--init"@[2] == 'i');
    assert("wt"@[0] == 'w' && "pull"@[0] == 'p' && "add"@[0] == 'a' && "ls"@[0] == 'l'
        && "stack"@[0] == 's');
    assert(forall|x: Seq<char>|
        (#[trigger] (seq![x] + rest)).drop_first() == rest && (seq![x] + rest)[0] == x);
}

// ---- printing -------------------------------------------------------------------------------

/// What each error of the command line says.
pub proof fn law_cli_errors_say(a: Seq<char>)
    ensures
        cli_error_text(CliErrorView::HandoffWithoutPath) == "--handoff-file requires a path"@,
        cli_error_text(CliErrorView::UnsupportedShell { shell: a }) == "unsupported shell "@
            + debug_form(a) + "; supported: zsh"@,
        cli_error_text(CliErrorView::WtUsage) == "usage: space wt <repo> <branch>"@,
        cli_error_text(CliErrorView::AddUsage)
            == "usage: space add <repo>   (bare name or group-qualified, e.g. acme/api)"@,
        cli_error_text(CliErrorView::NotMember { name: a }) == "`"@ + a
            + "` is not in this space"@,
        cli_error_text(CliErrorView::NotInSpace { cwd: a }) == "not inside a space (no "@
            + ".space.toml"@ + " found in any parent of "@ + a + ")"@,
{
}

/// The help names the program of the agent and the directory that holds its transcripts.
pub proof fn law_help_names_the_agent(names: AgentNamesView)
    ensures
        help_shown(names) == HELP_TOP@ + names.program + HELP_MIDDLE@ + names.home + HELP_END@,
{
}

/// A pull takes the members in their order: all of them, or just those of the name that was
/// given, those that are no repos marked.
pub proof fn law_pull_items(members: Seq<SpaceRepoView>, name: Seq<char>)
    ensures
        ({
            let item = |r: SpaceRepoView|
                PullItemView { name: r.name, foreign: r.state is Foreign };
            &&& pull_items(members, None) == members.map_values(item)
            &&& pull_items(members, Some(name)) == members.filter(
                |r: SpaceRepoView| r.name == name,
            ).map_values(item)
        }),
    decreases members.len(),
{
    reveal(Seq::filter);
    let item = |r: SpaceRepoView| PullItemView { name: r.name, foreign: r.state is Foreign };
    if members.len() > 0 {
        let front = members.drop_last();
        law_pull_items(front, name);
        assert(members == front.push(members.last()));
        assert(members.map_values(item) == front.map_values(item).push(item(members.last())));
        let kept = front.filter(|r: SpaceRepoView| r.name == name);
        assert(kept.push(members.last()).map_values(item) == kept.map_values(item).push(
            item(members.last()),
        ));
    } else {
        assert(members.map_values(item) == Seq::<PullItemView>::empty());
        assert(members.filter(|r: SpaceRepoView| r.name == name).map_values(item) == Seq::<
            PullItemView,
        >::empty());
    }
}

/// The listing names the space, each of its members with what it is, and behind them each repo
/// of the pool.
pub proof fn law_listing(
    space: Seq<char>,
    members: Seq<SpaceRepoView>,
    pool: Seq<PoolRepoView>,
    i: int,
)
    ensures
        ({
            let lines = ls_text(space, members, pool);
            let n = members.len() as int;
            &&& lines.len() == n + pool.len() + 2
            &&& lines[0] == "space: "@ + space
            &&& 0 <= i < n ==> lines[1 + i] == "  "@ + filled(members[i].name, 28) + " "@ + (
            match members[i].state {
                RepoStateView::Symlink => "-> repos/"@,
                RepoStateView::Worktree { branch } => "worktree on "@ + branch,
                RepoStateView::Foreign => "(unmanaged)"@,
            })
            &&& lines[n + 1] == "pool:"@
            &&& 0 <= i < pool.len() ==> lines[n + 2 + i] == "  "@ + pool[i].name
        }),
{
}

proof fn lemma_pr_from(prs: Seq<(Seq<char>, PrInfoView)>, branch: Seq<char>, i: int, k: int)
    requires
        0 <= i,
    ensures
        i <= k < prs.len() && prs[k].0 == branch && (forall|j: int|
            i <= j < k ==> (#[trigger] prs[j]).0 != branch) ==> pr_from(prs, branch, i) == Some(
            prs[k].1,
        ),
        (forall|j: int| i <= j < prs.len() ==> (#[trigger] prs[j]).0 != branch) ==> pr_from(
            prs,
            branch,
            i,
        ) is None,
    decreases prs.len() - i,
{
    if i < prs.len() {
        lemma_pr_from(prs, branch, i + 1, k);
    }
}

/// The text `  ` so many times over is so many blanks.
proof fn lemma_indent(n: nat)
    ensures
        repeated("  "@, n) == Seq::new(2 * n, |i: int| ' '),
    decreases n,
{
    reveal_strlit("  ");
    if n > 0 {
        lemma_indent((n - 1) as nat);
        assert(repeated("  "@, (n - 1) as nat) + "  "@ == Seq::new(2 * n, |i: int| ' '));
    } else {
        assert(repeated("  "@, n) == Seq::new(2 * n, |i: int| ' '));
    }
}

/// A stack is printed with its default branch on top and a line for each of its branches, two
/// blanks further in for each branch below which it stands, with its commits and behind them its
/// pull request: the first in the list that has the branch. Where there is none, the page on
/// which to open one, if origin is on GitHub.
pub proof fn law_stack_is_printed(
    stack: StackView,
    prs: Seq<(Seq<char>, PrInfoView)>,
    i: int,
    k: int,
)
    requires
        0 <= i < stack.entries.len(),
    ensures
        ({
            let lines = stack_text(stack, prs);
            let e = stack.entries[i];
            let start = Seq::new(2 * e.depth, |j: int| ' ') + "└─ "@ + e.branch + "  "@
                + decimal_of(e.commits) + " commit"@ + (if e.commits == 1 {
                Seq::empty()
            } else {
                seq!['s']
            });
            let none = forall|j: int| 0 <= j < prs.len() ==> (#[trigger] prs[j]).0 != e.branch;
            &&& lines.len() == stack.entries.len() + 1
            &&& lines[0] == stack.default_branch
            &&& 0 <= k < prs.len() && prs[k].0 == e.branch && (forall|j: int|
                0 <= j < k ==> (#[trigger] prs[j]).0 != e.branch) ==> lines[1 + i] == start + (
            "  PR #"@ + decimal_of(prs[k].1.number as nat) + " "@ + lowercase(prs[k].1.state)
                + "  "@ + prs[k].1.url)
            &&& none && stack.slug is Some ==> lines[1 + i] == start + ("  no PR  "@ + (
            "https://github.com/"@ + stack.slug->0 + "/compare/"@ + e.parent + "..."@ + e.branch))
            &&& none && stack.slug is None ==> lines[1 + i] == start
        }),
{
    let e = stack.entries[i];
    lemma_pr_from(prs, e.branch, 0, k);
    lemma_indent(e.depth);
    reveal_strlit("s");
    assert("s"@ == seq!['s']);
    let lines = stack_text(stack, prs);
    assert(lines[1 + i] == entry_line(e, prs, stack.slug));
    let start = Seq::new(2 * e.depth, |j: int| ' ') + "└─ "@ + e.branch + "  "@ + decimal_of(
        e.commits,
    ) + " commit"@ + (if e.commits == 1 {
        Seq::empty()
    } else {
        seq!['s']
    });
    assert(start + Seq::<char>::empty() == start);
}

// ---- running --------------------------------------------------------------------------------

/// A new conversation, one taken up again and one forked: the arguments that each agent is run
/// with, the flag that keeps it from asking always last.
pub proof fn law_agents_are_run_with(id: Seq<char>, names: AgentNamesView)
    ensures
        ({
            let new = |backend: Backend|
                next_for(
                    EffectView::LaunchNew { backend, cwd: Seq::empty() },
                    false,
                    names,
                )->Agent_argv;
            &&& new(Backend::Claude) == seq![names.program, "--dangerously-skip-permissions"@]
            &&& new(Backend::Codex) == seq![
                "codex"@,
                "--dangerously-bypass-approvals-and-sandbox"@,
            ]
            &&& resume_args_of(Backend::Claude, id, false, names) == seq![
                names.program,
                "--resume"@,
                id,
                "--dangerously-skip-permissions"@,
            ]
            &&& resume_args_of(Backend::Claude, id, true, names) == seq![
                names.program,
                "--resume"@,
                id,
                "--fork-session"@,
                "--dangerously-skip-permissions"@,
            ]
            &&& resume_args_of(Backend::Codex, id, false, names) == seq![
                "codex"@,
                "resume"@,
                id,
                "--dangerously-bypass-approvals-and-sandbox"@,
            ]
            &&& resume_args_of(Backend::Codex, id, true, names) == seq![
                "codex"@,
                "fork"@,
                id,
                "--dangerously-bypass-approvals-and-sandbox"@,
            ]
            &&& prompt_flag(Backend::Claude) == "--dangerously-skip-permissions"@
            &&& prompt_flag(Backend::Codex) == "--dangerously-bypass-approvals-and-sandbox"@
        }),
{
}

/// What comes of each effect: a conversation runs in its own directory, a shell in the one it
/// was opened for; a diff is paged between the parent and the branch; what is asked is asked.
pub proof fn law_effects_are_carried_out(
    backend: Backend,
    cwd: Seq<char>,
    id: Seq<char>,
    fork: bool,
    names: AgentNamesView,
    request: RequestView,
    wrapped: bool,
)
    ensures
        next_for(EffectView::Nothing, wrapped, names) is Stay,
        next_for(EffectView::Quit, wrapped, names) is Leave,
        next_for(EffectView::Shell { cwd }, false, names) == (NextView::Shell { cwd }),
        next_for(EffectView::Shell { cwd }, true, names) == (NextView::HandOff {
            cwd,
            argv: Seq::empty(),
        }),
        next_for(EffectView::LaunchNew { backend, cwd }, false, names) matches NextView::Agent {
            backend: b,
            cwd: c,
            ..
        } && b == backend && c == cwd,
        next_for(EffectView::Resume { backend, cwd, id, fork }, false, names) == (NextView::Agent {
            backend,
            cwd,
            argv: resume_args_of(backend, id, fork, names),
        }),
        next_for(EffectView::Resume { backend, cwd, id, fork }, true, names) == (NextView::HandOff {
            cwd,
            argv: resume_args_of(backend, id, fork, names),
        }),
        next_for(EffectView::Ask { request }, wrapped, names) == (NextView::Ask { request }),
{
}

/// A diff is paged by a shell that git's output goes through, with the directory, the parent and
/// the branch for its arguments.
pub proof fn law_diffs_are_paged(
    repo: Seq<char>,
    dir: Seq<char>,
    parent: Seq<char>,
    branch: Seq<char>,
    names: AgentNamesView,
    wrapped: bool,
)
    ensures
        next_for(EffectView::Diff { repo, dir, parent, branch }, wrapped, names) == (
        NextView::Pager {
            args: seq![
                "-c"@,
                "git -C \"$1\" diff \"$2..$3\" | delta --paging=always"@,
                "_"@,
                dir,
                parent,
                branch,
            ],
            repo,
            dir,
        }),
{
}

/// A number below zero has a minus before its digits.
pub proof fn law_signed_numbers(n: nat)
    ensures
        signed_decimal(n as int) == decimal_of(n),
        n > 0 ==> signed_decimal(-n) == seq!['-'] + decimal_of(n),
{
    reveal_strlit("-");
    assert("-"@ == seq!['-']);
}

} // verus!
