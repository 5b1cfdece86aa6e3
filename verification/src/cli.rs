//! The command line: what its arguments mean, what it prints, and what follows when the
//! TUI ends.

use crate::app::{Effect, EffectView, Request, RequestView};
use crate::data::{index_from, position, Backend};
use crate::names::{AgentNames, AgentNamesView, CODEX_PROGRAM};
use crate::path::{is_rooted, join, joined_path, rooted};
use crate::space::{
    plural, Found, PoolRepo, PoolRepoView, RepoState, RepoStateView, SpaceRepo, SpaceRepoView,
    MARKER,
};
use crate::stack::{compare_url, PrInfo, PrInfoView, Stack, StackEntry, StackEntryView, StackView};
use crate::text::{
    cat, cat3, cat4, cat5, cat6, debug_form, decimal, decimal_of, fill, filled, lowercase, repeat,
    repeated, same, strings, to_debug, to_lower,
};
use vstd::prelude::*;

verus! {

// ---- help --------------------------------------------------------------------------------------------

pub const HELP_TOP: &'static str = "space: spaces of repos + agent conversations, in one TUI

USAGE:
    space              open the TUI
    space --init zsh   print the shell wrapper (add eval \"$(space --init zsh)\" to ~/.zshrc)
    space pull [repo]  inside a space: update repos from origin (ff-only on main)
    space add <repo>   inside a space: link a pool repo in (bare or us/<repo>)
    space ls           inside a space: list members and the pool
    space wt <repo> <branch>
                       inside a space: swap a symlinked repo for a git worktree
                       on <branch> (what agents run before branching)

LAYOUT:
    ~/Desktop/repos/<repo>   canonical checkouts (you populate; source of truth)
    ~/Desktop/<space>/       a space: symlinks/worktrees into the pool

KEYS (spaces view):
    j/k move   l/h panes   n new space   a add repo   w worktree   u unbranch
    x remove   Enter launch ";

pub const HELP_MIDDLE: &'static str = "   o launch codex   D delete space   Tab conversations

KEYS (conversations view):
    j/k move   / search   Enter resume   f fork   ^u/^d scroll preview   Tab spaces

READ-ONLY:
    ~/";

pub const HELP_END: &'static str = "/projects/**    ~/.codex/sessions/**   (transcripts are never written)";

/// What `space --help` prints.
pub open spec fn help_shown(names: AgentNamesView) -> Seq<char> {
    HELP_TOP@ + names.program + HELP_MIDDLE@ + names.home + HELP_END@
}

/// What `space --help` prints.
pub fn help_text(names: &AgentNames) -> (r: String)
    ensures
        r@ == help_shown(names.deep_view()),
{
    cat5(HELP_TOP, names.program.as_str(), HELP_MIDDLE, names.home.as_str(), HELP_END)
}

// ---- arguments ------------------------------------------------------------------------------------

/// Why the command line cannot be followed.
#[derive(Clone, Debug)]
pub enum CliError {
    /// `--handoff-file` comes last.
    HandoffWithoutPath,
    UnsupportedShell { shell: String },
    WtUsage,
    AddUsage,
    NotMember { name: String },
    NotInSpace { cwd: String },
}

/// A command line error over text.
#[verifier::ext_equal]
pub enum CliErrorView {
    HandoffWithoutPath,
    UnsupportedShell { shell: Seq<char> },
    WtUsage,
    AddUsage,
    NotMember { name: Seq<char> },
    NotInSpace { cwd: Seq<char> },
}

impl DeepView for CliError {
    type V = CliErrorView;

    open spec fn deep_view(&self) -> CliErrorView {
        match self {
            CliError::HandoffWithoutPath => CliErrorView::HandoffWithoutPath,
            CliError::UnsupportedShell { shell } => CliErrorView::UnsupportedShell {
                shell: shell@,
            },
            CliError::WtUsage => CliErrorView::WtUsage,
            CliError::AddUsage => CliErrorView::AddUsage,
            CliError::NotMember { name } => CliErrorView::NotMember { name: name@ },
            CliError::NotInSpace { cwd } => CliErrorView::NotInSpace { cwd: cwd@ },
        }
    }
}

/// A command line error in words.
pub open spec fn cli_error_text(e: CliErrorView) -> Seq<char> {
    match e {
        CliErrorView::HandoffWithoutPath => "--handoff-file requires a path"@,
        CliErrorView::UnsupportedShell { shell } => "unsupported shell "@ + debug_form(shell)
            + "; supported: zsh"@,
        CliErrorView::WtUsage => "usage: space wt <repo> <branch>"@,
        CliErrorView::AddUsage =>
            "usage: space add <repo>   (bare name or group-qualified, e.g. acme/api)"@,
        CliErrorView::NotMember { name } => "`"@ + name + "` is not in this space"@,
        CliErrorView::NotInSpace { cwd } => "not inside a space (no "@ + MARKER@
            + " found in any parent of "@ + cwd + ")"@,
    }
}

impl CliError {
    /// The error in words.
    pub fn message(&self) -> (r: String)
        ensures
            r@ == cli_error_text(self.deep_view()),
    {
        match self {
            CliError::HandoffWithoutPath => "--handoff-file requires a path".to_owned(),
            CliError::UnsupportedShell { shell } => cat3(
                "unsupported shell ",
                to_debug(shell.as_str()).as_str(),
                "; supported: zsh",
            ),
            CliError::WtUsage => "usage: space wt <repo> <branch>".to_owned(),
            CliError::AddUsage =>
                "usage: space add <repo>   (bare name or group-qualified, e.g. acme/api)".to_owned(),
            CliError::NotMember { name } => cat3("`", name.as_str(), "` is not in this space"),
            CliError::NotInSpace { cwd } => cat5(
                "not inside a space (no ",
                MARKER,
                " found in any parent of ",
                cwd.as_str(),
                ")",
            ),
        }
    }
}

/// The arguments without the first `--handoff-file` and the path behind it, and that path.
pub open spec fn without_handoff(args: Seq<Seq<char>>) -> Result<
    (Option<Seq<char>>, Seq<Seq<char>>),
    CliErrorView,
> {
    match index_from(args, "--handoff-file"@, 0) {
        Some(i) => if i + 1 >= args.len() {
            Err(CliErrorView::HandoffWithoutPath)
        } else {
            Ok((Some(args[i + 1]), args.take(i) + args.skip(i + 2)))
        },
        None => Ok((None, args)),
    }
}

proof fn lemma_index_from(parts: Seq<Seq<char>>, x: Seq<char>, i: int)
    requires
        0 <= i,
    ensures
        index_from(parts, x, i) matches Some(k) ==> i <= k < parts.len() && parts[k] == x,
    decreases parts.len() - i,
{
    if i < parts.len() && parts[i] != x {
        lemma_index_from(parts, x, i + 1);
    }
}

/// The zsh wrapper passes --handoff-file on EVERY invocation; strip it
/// before dispatch so subcommands pass through untouched. Only the TUI
/// consumes it.
pub fn strip_handoff(args: Vec<String>) -> (r: Result<(Option<String>, Vec<String>), CliError>)
    ensures
        match without_handoff(args.deep_view()) {
            Ok((path, rest)) => r matches Ok(x) && x.0.deep_view() == path && x.1.deep_view()
                == rest,
            Err(e) => r matches Err(x) && x.deep_view() == e,
        },
{
    let ghost view = args.deep_view();
    proof {
        lemma_index_from(view, "--handoff-file"@, 0);
    }
    match position(&args, "--handoff-file") {
        Some(i) => {
            let n = args.len();
            assert(view.len() == n);
            if i >= n - 1 {
                return Err(CliError::HandoffWithoutPath);
            }
            let mut args = args;
            let ghost held = args@;
            let path = args.remove(i + 1);
            assert(path@ == view[i + 1]);
            let flag = args.remove(i);
            assert(args@ == held.remove(i + 1).remove(i as int));
            assert(args.deep_view() == view.take(i as int) + view.skip(i + 2));
            Ok((Some(path), args))
        },
        None => Ok((None, args)),
    }
}

/// What the command line asks for.
#[derive(Clone, Debug)]
pub enum Command {
    Help,
    InitZsh,
    Wt { args: Vec<String> },
    Pull { args: Vec<String> },
    Add { args: Vec<String> },
    Ls,
    Stack { args: Vec<String> },
    Tui,
}

/// A command over text.
#[verifier::ext_equal]
pub enum CommandView {
    Help,
    InitZsh,
    Wt { args: Seq<Seq<char>> },
    Pull { args: Seq<Seq<char>> },
    Add { args: Seq<Seq<char>> },
    Ls,
    Stack { args: Seq<Seq<char>> },
    Tui,
}

impl DeepView for Command {
    type V = CommandView;

    open spec fn deep_view(&self) -> CommandView {
        match self {
            Command::Help => CommandView::Help,
            Command::InitZsh => CommandView::InitZsh,
            Command::Wt { args } => CommandView::Wt { args: args.deep_view() },
            Command::Pull { args } => CommandView::Pull { args: args.deep_view() },
            Command::Add { args } => CommandView::Add { args: args.deep_view() },
            Command::Ls => CommandView::Ls,
            Command::Stack { args } => CommandView::Stack { args: args.deep_view() },
            Command::Tui => CommandView::Tui,
        }
    }
}

/// What the arguments ask for: the first one decides, and anything unknown opens the TUI.
pub open spec fn command_in(args: Seq<Seq<char>>) -> Result<CommandView, CliErrorView> {
    if args.len() == 0 {
        Ok(CommandView::Tui)
    } else {
        let rest = args.drop_first();
        if args[0] == "-h"@ || args[0] == "--help"@ {
            Ok(CommandView::Help)
        } else if args[0] == "--init"@ {
            if rest.len() > 0 && rest[0] == "zsh"@ {
                Ok(CommandView::InitZsh)
            } else {
                Err(
                    CliErrorView::UnsupportedShell {
                        shell: if rest.len() > 0 {
                            rest[0]
                        } else {
                            "<none>"@
                        },
                    },
                )
            }
        } else if args[0] == "wt"@ {
            Ok(CommandView::Wt { args: rest })
        } else if args[0] == "pull"@ {
            Ok(CommandView::Pull { args: rest })
        } else if args[0] == "add"@ {
            Ok(CommandView::Add { args: rest })
        } else if args[0] == "ls"@ {
            Ok(CommandView::Ls)
        } else if args[0] == "stack"@ {
            Ok(CommandView::Stack { args: rest })
        } else {
            Ok(CommandView::Tui)
        }
    }
}

/// What the arguments ask for.
pub fn dispatch(args: Vec<String>) -> (r: Result<Command, CliError>)
    ensures
        match command_in(args.deep_view()) {
            Ok(c) => r matches Ok(x) && x.deep_view() == c,
            Err(e) => r matches Err(x) && x.deep_view() == e,
        },
{
    let ghost view = args.deep_view();
    assert(view.len() == args@.len());
    if args.len() == 0 {
        return Ok(Command::Tui);
    }
    let mut rest = args;
    let first = rest.remove(0);
    assert(first@ == view[0]);
    assert(rest.deep_view() == view.drop_first());
    let first = first.as_str();
    if same(first, "-h") || same(first, "--help") {
        Ok(Command::Help)
    } else if same(first, "--init") {
        if rest.len() > 0 {
            assert(rest.deep_view()[0] == rest@[0]@);
            if same(rest[0].as_str(), "zsh") {
                Ok(Command::InitZsh)
            } else {
                Err(CliError::UnsupportedShell { shell: rest[0].clone() })
            }
        } else {
            Err(CliError::UnsupportedShell { shell: "<none>".to_owned() })
        }
    } else if same(first, "wt") {
        Ok(Command::Wt { args: rest })
    } else if same(first, "pull") {
        Ok(Command::Pull { args: rest })
    } else if same(first, "add") {
        Ok(Command::Add { args: rest })
    } else if same(first, "ls") {
        Ok(Command::Ls)
    } else if same(first, "stack") {
        Ok(Command::Stack { args: rest })
    } else {
        Ok(Command::Tui)
    }
}

/// The repo and the branch that `space wt` is given.
pub fn wt_args(args: &Vec<String>) -> (r: Result<(String, String), CliError>)
    ensures
        if args@.len() == 2 {
            r matches Ok(x) && x.0@ == args@[0]@ && x.1@ == args@[1]@
        } else {
            r matches Err(x) && x.deep_view() == CliErrorView::WtUsage
        },
{
    if args.len() == 2 {
        Ok((args[0].clone(), args[1].clone()))
    } else {
        Err(CliError::WtUsage)
    }
}

/// The repo that `space add` is given.
pub fn add_args(args: &Vec<String>) -> (r: Result<String, CliError>)
    ensures
        if args@.len() == 1 {
            r matches Ok(x) && x@ == args@[0]@
        } else {
            r matches Err(x) && x.deep_view() == CliErrorView::AddUsage
        },
{
    if args.len() == 1 {
        Ok(args[0].clone())
    } else {
        Err(CliError::AddUsage)
    }
}

/// Whether the shell's own idea of the working directory is used: getcwd() resolves
/// symlinks, so from inside a symlinked repo it would point into the pool, past the space.
pub fn logical_cwd(pwd: Option<&str>) -> (r: Option<String>)
    ensures
        r.deep_view() == match pwd {
            Some(p) => if is_rooted(p@) {
                Some(p@)
            } else {
                None
            },
            None => None,
        },
{
    match pwd {
        Some(p) => if rooted(p) {
            Some(p.to_owned())
        } else {
            None
        },
        None => None,
    }
}

/// The space enclosing the caller's working directory, by what was found at the markers
/// above it.
pub fn current_space(cwd: &str, found: &Found) -> (r: Result<String, CliError>)
    ensures
        match crate::space::first_marked(found.deep_view(), crate::path::ancestors_of(cwd@)) {
            Some(dir) => r matches Ok(x) && x@ == dir,
            None => r matches Err(x) && x.deep_view() == (CliErrorView::NotInSpace { cwd: cwd@ }),
        },
{
    match crate::space::enclosing_space(cwd, found) {
        Some(dir) => Ok(dir),
        None => Err(CliError::NotInSpace { cwd: cwd.to_owned() }),
    }
}

/// Where `space stack` looks: at the member it is given, which has to be a directory, or
/// at the shell's working directory.
pub fn stack_dir(space: &str, repo: Option<&str>, is_dir: bool, pwd: Option<&str>) -> (r: Result<
    String,
    CliError,
>)
    ensures
        match repo {
            Some(name) => if is_dir {
                r matches Ok(x) && x@ == joined_path(space@, name@)
            } else {
                r matches Err(x) && x.deep_view() == (CliErrorView::NotMember { name: name@ })
            },
            None => r matches Ok(x) && x@ == match pwd {
                Some(p) => p@,
                None => Seq::empty(),
            },
        },
{
    match repo {
        Some(name) => {
            if is_dir {
                Ok(join(space, name))
            } else {
                Err(CliError::NotMember { name: name.to_owned() })
            }
        },
        None => match pwd {
            Some(p) => Ok(p.to_owned()),
            None => Ok(String::new()),
        },
    }
}

// ---- what is printed --------------------------------------------------------------------------------

/// What `space wt` prints.
pub fn wt_line(space: &str, name: &str, branch: &str) -> (r: String)
    ensures
        r@ == "added worktree "@ + space@ + "/"@ + name@ + " on `"@ + branch@ + "`"@,
{
    let head = cat4("added worktree ", space, "/", name);
    cat4(head.as_str(), " on `", branch, "`")
}

/// What `space add` prints.
pub fn add_line(repo: &str, space: &str) -> (r: String)
    ensures
        r@ == "added "@ + repo@ + " to "@ + space@,
{
    cat4("added ", repo, " to ", space)
}

/// A member that `space pull` comes to, and whether it is left alone.
#[derive(Clone, Debug)]
pub struct PullItem {
    pub name: String,
    pub foreign: bool,
}

/// A pull item over text.
#[verifier::ext_equal]
pub struct PullItemView {
    pub name: Seq<char>,
    pub foreign: bool,
}

impl DeepView for PullItem {
    type V = PullItemView;

    open spec fn deep_view(&self) -> PullItemView {
        PullItemView { name: self.name@, foreign: self.foreign }
    }
}

/// The members that a pull comes to: all of them, or those of one name.
pub open spec fn pull_items(members: Seq<SpaceRepoView>, only: Option<Seq<char>>) -> Seq<
    PullItemView,
>
    decreases members.len(),
{
    if members.len() == 0 {
        Seq::empty()
    } else {
        let before = pull_items(members.drop_last(), only);
        let r = members.last();
        if only is Some && only->0 != r.name {
            before
        } else {
            before.push(PullItemView { name: r.name, foreign: r.state is Foreign })
        }
    }
}

/// The members that `space pull` comes to; a name that no member has is refused.
pub fn pull_plan(members: &Vec<SpaceRepo>, only: Option<&str>) -> (r: Result<
    Vec<PullItem>,
    CliError,
>)
    ensures
        ({
            let all = members.deep_view();
            if only is Some && !crate::app::has_member(all, only->0@) {
                r matches Err(x) && x.deep_view() == (CliErrorView::NotMember { name: only->0@ })
            } else {
                r matches Ok(x) && x.deep_view() == pull_items(all, only.deep_view())
            }
        }),
{
    let ghost all = members.deep_view();
    let mut out: Vec<PullItem> = Vec::new();
    let mut hit = false;
    assert(all.take(0) == Seq::<SpaceRepoView>::empty());
    assert(out.deep_view() == Seq::<PullItemView>::empty());
    for i in 0..members.len()
        invariant
            all == members.deep_view(),
            out.deep_view() == pull_items(all.take(i as int), only.deep_view()),
            only is Some ==> hit == crate::app::has_member(all.take(i as int), only->0@),
    {
        let ghost before = out.deep_view();
        let ghost part = all.take(i as int);
        let r = &members[i];
        assert(all.take(i + 1).drop_last() == part);
        assert(all.take(i + 1).last() == r.deep_view());
        assert(all.take(i + 1) == part.push(r.deep_view()));
        let wanted = match only {
            Some(name) => same(r.name.as_str(), name),
            None => true,
        };
        proof {
            if only is Some {
                lemma_has_member_push(part, r.deep_view(), only->0@);
            }
        }
        if wanted {
            hit = true;
            let foreign = match &r.state {
                RepoState::Foreign => true,
                _ => false,
            };
            let item = PullItem { name: r.name.clone(), foreign };
            out.push(item);
            assert(out.deep_view() == before.push(item.deep_view()));
        }
    }
    assert(all.take(members@.len() as int) == all);
    match only {
        Some(name) => {
            if !hit {
                return Err(CliError::NotMember { name: name.to_owned() });
            }
        },
        None => {},
    }
    Ok(out)
}

proof fn lemma_has_member_push(s: Seq<SpaceRepoView>, x: SpaceRepoView, name: Seq<char>)
    ensures
        crate::app::has_member(s.push(x), name) <==> crate::app::has_member(s, name) || x.name
            == name,
{
    if crate::app::has_member(s, name) {
        let i = choose|i: int| 0 <= i < s.len() && (#[trigger] s[i]).name == name;
        assert(s.push(x)[i].name == name);
    }
    if x.name == name {
        assert(s.push(x)[s.len() as int].name == name);
    }
    if crate::app::has_member(s.push(x), name) {
        let i = choose|i: int| 0 <= i < s.push(x).len() && (#[trigger] s.push(x)[i]).name == name;
        if i < s.len() {
            assert(s[i].name == name);
        }
    }
}

/// What `space pull` prints for a member that is left alone.
pub fn skip_line(name: &str) -> (r: String)
    ensures
        r@ == "skip "@ + filled(name@, 24)
            + " not space-managed (stray file/dir at the space root)"@,
{
    let col = fill(name, 24);
    cat3("skip ", col.as_str(), " not space-managed (stray file/dir at the space root)")
}

/// What `space pull` prints for the outcome of a pull.
pub fn pull_line(name: &str, outcome: &Result<String, String>) -> (r: String)
    ensures
        r@ == match outcome {
            Ok(msg) => "ok   "@ + filled(name@, 24) + " "@ + msg@,
            Err(e) => "fail "@ + filled(name@, 24) + " "@ + e@,
        },
{
    let col = fill(name, 24);
    match outcome {
        Ok(msg) => cat4("ok   ", col.as_str(), " ", msg.as_str()),
        Err(e) => cat4("fail ", col.as_str(), " ", e.as_str()),
    }
}

/// What `space ls` prints for a member.
pub open spec fn member_line(r: SpaceRepoView) -> Seq<char> {
    "  "@ + filled(r.name, 28) + " "@ + match r.state {
        RepoStateView::Symlink => "-> repos/"@,
        RepoStateView::Worktree { branch } => "worktree on "@ + branch,
        RepoStateView::Foreign => "(unmanaged)"@,
    }
}

/// What `space ls` prints: the space, its members, the pool.
pub open spec fn ls_text(
    space: Seq<char>,
    members: Seq<SpaceRepoView>,
    pool: Seq<PoolRepoView>,
) -> Seq<Seq<char>> {
    seq!["space: "@ + space] + members.map_values(|r: SpaceRepoView| member_line(r)) + seq![
        "pool:"@,
    ] + pool.map_values(|p: PoolRepoView| "  "@ + p.name)
}

fn make_member_line(r: &SpaceRepo) -> (s: String)
    ensures
        s@ == member_line(r.deep_view()),
{
    let col = fill(r.name.as_str(), 28);
    let state = match &r.state {
        RepoState::Symlink => "-> repos/".to_owned(),
        RepoState::Worktree { branch } => cat("worktree on ", branch.as_str()),
        RepoState::Foreign => "(unmanaged)".to_owned(),
    };
    cat4("  ", col.as_str(), " ", state.as_str())
}

/// What `space ls` prints: the space, its members, the pool.
pub fn ls_lines(space: &str, members: &Vec<SpaceRepo>, pool: &Vec<PoolRepo>) -> (r: Vec<String>)
    ensures
        r.deep_view() == ls_text(space@, members.deep_view(), pool.deep_view()),
{
    let ghost rows = members.deep_view().map_values(|r: SpaceRepoView| member_line(r));
    let ghost names = pool.deep_view().map_values(|p: PoolRepoView| "  "@ + p.name);
    let mut out: Vec<String> = Vec::new();
    let head = cat("space: ", space);
    out.push(head);
    let ghost top = seq!["space: "@ + space@];
    assert(out.deep_view() == top);
    assert(top + rows.take(0) == top);
    for i in 0..members.len()
        invariant
            rows == members.deep_view().map_values(|r: SpaceRepoView| member_line(r)),
            out.deep_view() == top + rows.take(i as int),
    {
        let ghost before = out.deep_view();
        let line = make_member_line(&members[i]);
        out.push(line);
        assert(out.deep_view() == before.push(line@));
        assert(members.deep_view()[i as int] == members@[i as int].deep_view());
        assert(rows[i as int] == line@);
        assert(top + rows.take(i + 1) == (top + rows.take(i as int)).push(line@));
    }
    assert(rows.take(members@.len() as int) == rows);
    let ghost upper = out.deep_view();
    out.push("pool:".to_owned());
    let ghost mid = upper.push("pool:"@);
    assert(out.deep_view() == mid);
    assert(mid + names.take(0) == mid);
    for i in 0..pool.len()
        invariant
            names == pool.deep_view().map_values(|p: PoolRepoView| "  "@ + p.name),
            out.deep_view() == mid + names.take(i as int),
    {
        let ghost before = out.deep_view();
        let line = cat("  ", pool[i].name.as_str());
        out.push(line);
        assert(out.deep_view() == before.push(line@));
        assert(pool.deep_view()[i as int] == pool@[i as int].deep_view());
        assert(names[i as int] == line@);
        assert(mid + names.take(i + 1) == (mid + names.take(i as int)).push(line@));
    }
    assert(names.take(pool@.len() as int) == names);
    assert(out.deep_view() == ls_text(space@, members.deep_view(), pool.deep_view()));
    out
}

/// The first pull request from `i` on whose head branch is `branch`.
pub open spec fn pr_from(
    prs: Seq<(Seq<char>, PrInfoView)>,
    branch: Seq<char>,
    i: int,
) -> Option<PrInfoView>
    decreases prs.len() - i,
{
    if i < 0 || i >= prs.len() {
        None
    } else if prs[i].0 == branch {
        Some(prs[i].1)
    } else {
        pr_from(prs, branch, i + 1)
    }
}

/// What `space stack` says of a branch's pull request.
pub open spec fn pr_note(
    e: StackEntryView,
    prs: Seq<(Seq<char>, PrInfoView)>,
    slug: Option<Seq<char>>,
) -> Seq<char> {
    match pr_from(prs, e.branch, 0) {
        Some(p) => "  PR #"@ + decimal_of(p.number as nat) + " "@ + lowercase(p.state) + "  "@
            + p.url,
        None => match slug {
            Some(s) => "  no PR  "@ + ("https://github.com/"@ + s + "/compare/"@ + e.parent + "..."@
                + e.branch),
            None => Seq::empty(),
        },
    }
}

/// What `space stack` prints for a branch.
pub open spec fn entry_line(
    e: StackEntryView,
    prs: Seq<(Seq<char>, PrInfoView)>,
    slug: Option<Seq<char>>,
) -> Seq<char> {
    repeated("  "@, e.depth) + "└─ "@ + e.branch + "  "@ + decimal_of(e.commits) + " commit"@
        + plural(e.commits == 1) + pr_note(e, prs, slug)
}

/// What `space stack` prints: the default branch, then the branches.
pub open spec fn stack_text(stack: StackView, prs: Seq<(Seq<char>, PrInfoView)>) -> Seq<Seq<char>> {
    seq![stack.default_branch] + stack.entries.map_values(
        |e: StackEntryView| entry_line(e, prs, stack.slug),
    )
}

fn make_pr_note(e: &StackEntry, prs: &Vec<(String, PrInfo)>, slug: &Option<String>) -> (r: String)
    ensures
        r@ == pr_note(e.deep_view(), prs.deep_view(), slug.deep_view()),
{
    let ghost view = prs.deep_view();
    let mut i: usize = 0;
    while i < prs.len()
        invariant
            i <= prs@.len(),
            view == prs.deep_view(),
            pr_from(view, e.branch@, 0) == pr_from(view, e.branch@, i as int),
        decreases prs@.len() - i,
    {
        assert(view[i as int] == (prs@[i as int].0@, prs@[i as int].1.deep_view()));
        if same(prs[i].0.as_str(), e.branch.as_str()) {
            let p = &prs[i].1;
            let number = decimal(p.number);
            let state = to_lower(p.state.as_str());
            return cat6("  PR #", number.as_str(), " ", state.as_str(), "  ", p.url.as_str());
        }
        i = i + 1;
    }
    match slug {
        Some(s) => {
            let url = compare_url(s.as_str(), e.parent.as_str(), e.branch.as_str());
            cat("  no PR  ", url.as_str())
        },
        None => String::new(),
    }
}

fn make_entry_line(e: &StackEntry, prs: &Vec<(String, PrInfo)>, slug: &Option<String>) -> (r:
    String)
    ensures
        r@ == entry_line(e.deep_view(), prs.deep_view(), slug.deep_view()),
{
    let indent = repeat("  ", e.depth);
    let count = decimal(e.commits as u64);
    let ending = if e.commits == 1 {
        String::new()
    } else {
        "s".to_owned()
    };
    let note = make_pr_note(e, prs, slug);
    let head = cat6(
        indent.as_str(),
        "└─ ",
        e.branch.as_str(),
        "  ",
        count.as_str(),
        " commit",
    );
    cat3(head.as_str(), ending.as_str(), note.as_str())
}

/// What `space stack` prints: the default branch, then the branches.
pub fn stack_lines(stack: &Stack, prs: &Vec<(String, PrInfo)>) -> (r: Vec<String>)
    ensures
        r.deep_view() == stack_text(stack.deep_view(), prs.deep_view()),
{
    let ghost pv = prs.deep_view();
    let ghost slug = stack.slug.deep_view();
    let ghost want = stack.entries.deep_view().map_values(
        |e: StackEntryView| entry_line(e, pv, slug),
    );
    let mut out: Vec<String> = Vec::new();
    out.push(stack.default_branch.clone());
    let ghost top = seq![stack.default_branch@];
    assert(out.deep_view() == top);
    assert(top + want.take(0) == top);
    for i in 0..stack.entries.len()
        invariant
            pv == prs.deep_view(),
            slug == stack.slug.deep_view(),
            want == stack.entries.deep_view().map_values(
                |e: StackEntryView| entry_line(e, pv, slug),
            ),
            out.deep_view() == top + want.take(i as int),
    {
        let ghost before = out.deep_view();
        let line = make_entry_line(&stack.entries[i], prs, &stack.slug);
        out.push(line);
        assert(out.deep_view() == before.push(line@));
        assert(stack.entries.deep_view()[i as int] == stack.entries@[i as int].deep_view());
        assert(want[i as int] == line@);
        assert(top + want.take(i + 1) == (top + want.take(i as int)).push(line@));
    }
    assert(want.take(stack.entries@.len() as int) == want);
    out
}

// ---- running agents -----------------------------------------------------------------------------------

/// The program of an agent.
pub open spec fn program_of(b: Backend, names: AgentNamesView) -> Seq<char> {
    match b {
        Backend::Claude => names.program,
        Backend::Codex => CODEX_PROGRAM@,
    }
}

/// The program of an agent.
pub fn binary_name(backend: Backend, names: &AgentNames) -> (r: &str)
    ensures
        r@ == program_of(backend, names.deep_view()),
{
    match backend {
        Backend::Claude => names.program.as_str(),
        Backend::Codex => CODEX_PROGRAM,
    }
}

/// The flag that makes an agent run without permission prompts.
pub open spec fn prompt_flag(b: Backend) -> Seq<char> {
    match b {
        Backend::Claude => "--dangerously-skip-permissions"@,
        Backend::Codex => "--dangerously-bypass-approvals-and-sandbox"@,
    }
}

/// Agents launched from spaces run without permission prompts.
/// If a CLI update renames these, the handoff surfaces the CLI's own
/// unknown-flag error and waits for a keypress, so it fails loudly.
pub fn skip_permissions_flag(backend: Backend) -> (r: &'static str)
    ensures
        r@ == prompt_flag(backend),
{
    match backend {
        Backend::Claude => "--dangerously-skip-permissions",
        Backend::Codex => "--dangerously-bypass-approvals-and-sandbox",
    }
}

/// Argv for launching a fresh agent session (cwd handled separately).
pub fn launch_argv(backend: Backend, names: &AgentNames) -> (r: Vec<String>)
    ensures
        r.deep_view() == seq![program_of(backend, names.deep_view()), prompt_flag(backend)],
{
    let r = strings(&[binary_name(backend, names), skip_permissions_flag(backend)]);
    assert(r.deep_view() == seq![program_of(backend, names.deep_view()), prompt_flag(backend)]);
    r
}

/// Argv for resuming or forking a conversation.
pub open spec fn resume_args_of(
    b: Backend,
    id: Seq<char>,
    fork: bool,
    names: AgentNamesView,
) -> Seq<Seq<char>> {
    match b {
        Backend::Claude => if fork {
            seq![program_of(b, names), "--resume"@, id, "--fork-session"@, prompt_flag(b)]
        } else {
            seq![program_of(b, names), "--resume"@, id, prompt_flag(b)]
        },
        Backend::Codex => seq![
            program_of(b, names),
            if fork {
                "fork"@
            } else {
                "resume"@
            },
            id,
            prompt_flag(b),
        ],
    }
}

/// Argv for resuming/forking an existing conversation.
pub fn resume_argv(backend: Backend, id: &str, fork: bool, names: &AgentNames) -> (r: Vec<String>)
    ensures
        r.deep_view() == resume_args_of(backend, id@, fork, names.deep_view()),
{
    let program = binary_name(backend, names);
    let flag = skip_permissions_flag(backend);
    let r = match backend {
        Backend::Claude => {
            if fork {
                strings(&[program, "--resume", id, "--fork-session", flag])
            } else {
                strings(&[program, "--resume", id, flag])
            }
        },
        Backend::Codex => {
            let verb = if fork {
                "fork"
            } else {
                "resume"
            };
            strings(&[program, verb, id, flag])
        },
    };
    assert(r.deep_view() == resume_args_of(backend, id@, fork, names.deep_view()));
    r
}

/// A number in decimal, with its sign where it is negative.
pub open spec fn signed_decimal(n: int) -> Seq<char> {
    if n < 0 {
        "-"@ + decimal_of((-n) as nat)
    } else {
        decimal_of(n as nat)
    }
}

/// What an agent's end is reported as, where it is no success.
pub fn exit_line(backend: Backend, code: Option<i32>, names: &AgentNames) -> (r: String)
    ensures
        r@ == program_of(backend, names.deep_view()) + " exited ("@ + (match code {
            Some(c) => signed_decimal(c as int),
            None => "signal"@,
        }) + ")"@,
{
    let what = match code {
        Some(c) => {
            let wide: i64 = c as i64;
            if wide < 0 {
                cat("-", decimal((-wide) as u64).as_str())
            } else {
                decimal(wide as u64)
            }
        },
        None => "signal".to_owned(),
    };
    cat4(binary_name(backend, names), " exited (", what.as_str(), ")")
}

/// What is reported when an agent cannot be started.
pub fn launch_failed(backend: Backend, error: &str, names: &AgentNames) -> (r: String)
    ensures
        r@ == "failed to launch "@ + program_of(backend, names.deep_view()) + ": "@ + error@,
{
    cat4("failed to launch ", binary_name(backend, names), ": ", error)
}

/// The directory that a shell starts in: the one asked for, or the root where it is not
/// there.
pub fn shell_target(dir: &str, exists: bool) -> (r: String)
    ensures
        r@ == (if dir@.len() == 0 || !exists {
            "/"@
        } else {
            dir@
        }),
{
    if dir.is_empty() || !exists {
        "/".to_owned()
    } else {
        dir.to_owned()
    }
}

/// The shell that is run: the user's, or zsh.
pub fn shell_program(shell: Option<&str>) -> (r: String)
    ensures
        r@ == (match shell {
            Some(s) => s@,
            None => "/bin/zsh"@,
        }),
{
    match shell {
        Some(s) => s.to_owned(),
        None => "/bin/zsh".to_owned(),
    }
}

/// What the event loop does about an effect.
pub enum Next {
    /// Go on.
    Stay,
    /// End the TUI.
    Leave,
    /// End the TUI and report cwd and argv to the wrapper.
    HandOff { cwd: String, argv: Vec<String> },
    /// End the TUI in a shell.
    Shell { cwd: String },
    /// End the TUI, run the agent, then a shell.
    Agent { backend: Backend, cwd: String, argv: Vec<String> },
    /// Suspend the TUI for a pager, run by `sh` with `args`; the stack view follows.
    Pager { args: Vec<String>, repo: String, dir: String },
    /// Do something behind the TUI and hand its outcome back.
    Ask { request: Request },
}

/// A next step over text.
#[verifier::ext_equal]
pub enum NextView {
    Stay,
    Leave,
    HandOff { cwd: Seq<char>, argv: Seq<Seq<char>> },
    Shell { cwd: Seq<char> },
    Agent { backend: Backend, cwd: Seq<char>, argv: Seq<Seq<char>> },
    Pager { args: Seq<Seq<char>>, repo: Seq<char>, dir: Seq<char> },
    Ask { request: RequestView },
}

impl DeepView for Next {
    type V = NextView;

    open spec fn deep_view(&self) -> NextView {
        match self {
            Next::Stay => NextView::Stay,
            Next::Leave => NextView::Leave,
            Next::HandOff { cwd, argv } => NextView::HandOff { cwd: cwd@, argv: argv.deep_view() },
            Next::Shell { cwd } => NextView::Shell { cwd: cwd@ },
            Next::Agent { backend, cwd, argv } => NextView::Agent {
                backend: *backend,
                cwd: cwd@,
                argv: argv.deep_view(),
            },
            Next::Pager { args, repo, dir } => NextView::Pager {
                args: args.deep_view(),
                repo: repo@,
                dir: dir@,
            },
            Next::Ask { request } => NextView::Ask { request: request.deep_view() },
        }
    }
}

/// The shell line that pages a diff; its arguments come by position.
pub const PAGER: &'static str = "git -C \"$1\" diff \"$2..$3\" | delta --paging=always";

/// What the event loop does about an effect: with a wrapper around it, what would run next
/// is handed off instead.
pub open spec fn next_for(effect: EffectView, wrapped: bool, names: AgentNamesView) -> NextView {
    match effect {
        EffectView::Nothing => NextView::Stay,
        EffectView::Quit => NextView::Leave,
        EffectView::Shell { cwd } => if wrapped {
            NextView::HandOff { cwd, argv: Seq::empty() }
        } else {
            NextView::Shell { cwd }
        },
        EffectView::LaunchNew { backend, cwd } => {
            let argv = seq![program_of(backend, names), prompt_flag(backend)];
            if wrapped {
                NextView::HandOff { cwd, argv }
            } else {
                NextView::Agent { backend, cwd, argv }
            }
        },
        EffectView::Resume { backend, cwd, id, fork } => {
            let argv = resume_args_of(backend, id, fork, names);
            if wrapped {
                NextView::HandOff { cwd, argv }
            } else {
                NextView::Agent { backend, cwd, argv }
            }
        },
        EffectView::Diff { repo, dir, parent, branch } => NextView::Pager {
            args: seq!["-c"@, PAGER@, "_"@, dir, parent, branch],
            repo,
            dir,
        },
        EffectView::Ask { request } => NextView::Ask { request },
    }
}

/// What the event loop does about an effect; `wrapped` tells whether there is a handoff
/// file.
pub fn route(effect: Effect, wrapped: bool, names: &AgentNames) -> (r: Next)
    ensures
        r.deep_view() == next_for(effect.deep_view(), wrapped, names.deep_view()),
{
    match effect {
        Effect::Nothing => Next::Stay,
        Effect::Quit => Next::Leave,
        Effect::Shell { cwd } => {
            if wrapped {
                let argv: Vec<String> = Vec::new();
                assert(argv.deep_view() == Seq::<Seq<char>>::empty());
                Next::HandOff { cwd, argv }
            } else {
                Next::Shell { cwd }
            }
        },
        Effect::LaunchNew { backend, cwd } => {
            let argv = launch_argv(backend, names);
            if wrapped {
                Next::HandOff { cwd, argv }
            } else {
                Next::Agent { backend, cwd, argv }
            }
        },
        Effect::Resume { backend, cwd, id, fork } => {
            let argv = resume_argv(backend, id.as_str(), fork, names);
            if wrapped {
                Next::HandOff { cwd, argv }
            } else {
                Next::Agent { backend, cwd, argv }
            }
        },
        Effect::Diff { repo, dir, parent, branch } => {
            let args = strings(
                &["-c", PAGER, "_", dir.as_str(), parent.as_str(), branch.as_str()],
            );
            assert(args.deep_view() == seq!["-c"@, PAGER@, "_"@, dir@, parent@, branch@]);
            Next::Pager { args, repo, dir }
        },
        Effect::Ask { request } => Next::Ask { request },
    }
}

/// Under the wrapper nothing is run from here: whatever would replace the TUI is handed off
/// as data, the same argv that would have run.
pub proof fn law_wrapped_effects_are_handed_off(effect: EffectView, names: AgentNamesView)
    ensures
        !(next_for(effect, true, names) is Shell) && !(next_for(effect, true, names) is Agent),
        next_for(effect, false, names) matches NextView::Shell { cwd } ==> next_for(effect, true, names) == (
        NextView::HandOff { cwd, argv: Seq::empty() }),
        next_for(effect, false, names) matches NextView::Agent { cwd, argv, .. } ==> next_for(
            effect,
            true,
            names,
        ) == (NextView::HandOff { cwd, argv }),
{
}

} // verus!
