//! What each key does, in terms of what is selected and shown.

use crate::app::{
    key_step, moved, AppView, EffectView, InputKind, Key, ListState, ModalView, Pane, RepoConfirm,
    RequestView,
};
use crate::data::{backend_label, Backend};
use crate::path::joined_path;
use crate::space::RepoStateView;
use vstd::prelude::*;

verus! {

/// Whether the app shows its lists with the `k`-th space selected, and nothing over them.
pub open spec fn on_space(v: AppView, k: int) -> bool {
    &&& v.modal is Closed
    &&& v.space_state.selected matches Some(i) && i == k
    &&& 0 <= k < v.spaces.len()
}

/// Whether besides, in the list of its members, the `j`-th is selected.
pub open spec fn on_repo(v: AppView, k: int, j: int) -> bool {
    &&& on_space(v, k)
    &&& v.pane == Pane::Repos
    &&& v.repo_state.selected matches Some(i) && i == j
    &&& 0 <= j < v.spaces[k].repos.len()
}

/// The app with no message in its status bar.
pub open spec fn silent(v: AppView) -> AppView {
    AppView { status: None, ..v }
}

/// The app with a message in its status bar.
pub open spec fn saying(v: AppView, message: Seq<char>) -> AppView {
    AppView { status: Some(message), ..v }
}

/// The app with something shown over its lists, and no message.
pub open spec fn over(v: AppView, modal: ModalView) -> AppView {
    AppView { status: None, modal, ..v }
}

/// The selection of a row.
pub open spec fn row(i: int) -> ListState {
    ListState { selected: Some(i as usize) }
}

// ---- moving and leaving -----------------------------------------------------------------------

/// Moving a selection by one goes to the row above or below, and stays where there is none; with
/// nothing selected it counts from the first row, and in an empty list nothing is selected.
pub proof fn law_moving_goes_one_row(state: ListState, len: nat, i: int)
    requires
        len <= usize::MAX,
    ensures
        0 <= i < len && state == row(i) && i + 1 < len ==> moved(state, len, 1) == row(i + 1),
        0 <= i < len && state == row(i) && i + 1 == len ==> moved(state, len, 1) == row(i),
        0 < i < len && state == row(i) ==> moved(state, len, -1) == row(i - 1),
        len > 0 && state == row(0) ==> moved(state, len, -1) == row(0),
        len > 1 && state.selected is None ==> moved(state, len, 1) == row(1),
        len > 0 && state.selected is None ==> moved(state, len, -1) == row(0),
        len == 0 ==> moved(state, len, 1).selected is None && moved(state, len, -1).selected
            is None,
{
}

/// `q` and Esc leave the lists; Tab goes from the spaces to the repos, from there to the
/// conversations, and from there back.
pub proof fn law_leaving_and_tabbing(v: AppView, ctrl: bool)
    requires
        v.modal is Closed,
    ensures
        key_step(v, Key::Char('q'), ctrl) == (silent(v), EffectView::Quit),
        key_step(v, Key::Esc, ctrl) == (silent(v), EffectView::Quit),
        v.pane == Pane::Spaces ==> key_step(v, Key::Tab, ctrl) == (
            AppView { pane: Pane::Repos, ..silent(v) },
            EffectView::Nothing,
        ),
        v.pane == Pane::Repos ==> key_step(v, Key::Tab, ctrl) == (
            AppView { pane: Pane::Convos, ..silent(v) },
            EffectView::Nothing,
        ),
        v.pane == Pane::Convos ==> key_step(v, Key::Tab, ctrl) == (
            AppView { pane: Pane::Spaces, ..silent(v) },
            EffectView::Nothing,
        ),
{
}

/// Only `q` and Esc quit, and only from the lists.
pub proof fn law_only_leaving_quits(v: AppView, key: Key, ctrl: bool)
    ensures
        key_step(v, key, ctrl).1 is Quit <==> v.modal is Closed && (key == Key::Char('q') || key
            == Key::Esc),
{
}

/// The arrows and `h`, `j`, `k`, `l` move over the lists: left from the repos or the
/// conversations to the spaces, right from the spaces to the repos where there are some, up and
/// down a row at a time; the letters do what the arrows do.
pub proof fn law_arrows_move(v: AppView, k: int, ctrl: bool)
    requires
        on_space(v, k),
    ensures
        v.pane != Pane::Spaces ==> key_step(v, Key::Left, ctrl) == (
            AppView { pane: Pane::Spaces, ..silent(v) },
            EffectView::Nothing,
        ),
        v.pane == Pane::Spaces && v.spaces[k].repos.len() > 0 ==> key_step(v, Key::Right, ctrl) == (
            AppView { pane: Pane::Repos, ..silent(v) },
            EffectView::Nothing,
        ),
        v.pane == Pane::Spaces && v.spaces[k].repos.len() == 0 ==> key_step(v, Key::Right, ctrl)
            == (silent(v), EffectView::Nothing),
        key_step(v, Key::Char('h'), ctrl) == key_step(v, Key::Left, ctrl),
        key_step(v, Key::Char('j'), ctrl) == key_step(v, Key::Down, ctrl),
        key_step(v, Key::Char('k'), ctrl) == key_step(v, Key::Up, ctrl),
        v.pane == Pane::Spaces ==> key_step(v, Key::Char('l'), ctrl) == key_step(
            v,
            Key::Right,
            ctrl,
        ),
        v.pane == Pane::Repos ==> key_step(v, Key::Down, ctrl) == (
            AppView { repo_state: moved(v.repo_state, v.spaces[k].repos.len(), 1), ..silent(v) },
            EffectView::Nothing,
        ),
        v.pane == Pane::Repos ==> key_step(v, Key::Up, ctrl) == (
            AppView { repo_state: moved(v.repo_state, v.spaces[k].repos.len(), -1), ..silent(v) },
            EffectView::Nothing,
        ),
{
}

/// Going to another space selects it, and there the first member and the first conversation.
pub proof fn law_moving_between_spaces(v: AppView, k: int, ctrl: bool)
    requires
        on_space(v, k),
        v.pane == Pane::Spaces,
        v.spaces.len() <= usize::MAX,
    ensures
        ({
            let down = key_step(v, Key::Down, ctrl).0;
            let up = key_step(v, Key::Up, ctrl).0;
            &&& key_step(v, Key::Down, ctrl).1 is Nothing && key_step(v, Key::Up, ctrl).1 is Nothing
            &&& k + 1 < v.spaces.len() ==> down.space_state == row(k + 1)
            &&& k + 1 == v.spaces.len() ==> down.space_state == row(k)
            &&& k > 0 ==> up.space_state == row(k - 1)
            &&& k == 0 ==> up.space_state == row(0)
            &&& down.convo_state == row(0) && up.convo_state == row(0)
            &&& k + 1 < v.spaces.len() && v.spaces[k + 1].repos.len() > 0 ==> down.repo_state == row(
                0,
            )
            &&& k + 1 < v.spaces.len() && v.spaces[k + 1].repos.len() == 0
                ==> down.repo_state.selected is None
            &&& k > 0 && v.spaces[k - 1].repos.len() > 0 ==> up.repo_state == row(0)
            &&& down == AppView {
                space_state: down.space_state,
                repo_state: down.repo_state,
                convo_state: down.convo_state,
                ..silent(v)
            }
            &&& up == AppView {
                space_state: up.space_state,
                repo_state: up.repo_state,
                convo_state: up.convo_state,
                ..silent(v)
            }
        }),
{
}

// ---- starting something -----------------------------------------------------------------------

/// Enter opens a shell: on a space in its directory, on a member in the member's.
pub proof fn law_enter_opens_a_shell(v: AppView, k: int, j: int, ctrl: bool)
    requires
        on_space(v, k),
    ensures
        v.pane == Pane::Spaces ==> key_step(v, Key::Enter, ctrl) == (
            silent(v),
            EffectView::Shell { cwd: v.spaces[k].path },
        ),
        on_repo(v, k, j) ==> key_step(v, Key::Enter, ctrl) == (
            silent(v),
            EffectView::Shell { cwd: joined_path(v.spaces[k].path, v.spaces[k].repos[j].name) },
        ),
{
}

/// `c` and `o` start the one agent and the other in the directory of the selected space,
/// whichever list is in front; an agent that is not there is named in the status bar, and so is
/// the lack of a space.
pub proof fn law_letters_launch_agents(v: AppView, k: int, ctrl: bool)
    requires
        v.modal is Closed,
    ensures
        on_space(v, k) && v.claude_ok ==> key_step(v, Key::Char('c'), ctrl) == (
            silent(v),
            EffectView::LaunchNew { backend: Backend::Claude, cwd: v.spaces[k].path },
        ),
        on_space(v, k) && v.codex_ok ==> key_step(v, Key::Char('o'), ctrl) == (
            silent(v),
            EffectView::LaunchNew { backend: Backend::Codex, cwd: v.spaces[k].path },
        ),
        !v.claude_ok ==> key_step(v, Key::Char('c'), ctrl) == (
            saying(v, backend_label(Backend::Claude, v.names) + " is not on PATH"@),
            EffectView::Nothing,
        ),
        !v.codex_ok ==> key_step(v, Key::Char('o'), ctrl) == (
            saying(v, backend_label(Backend::Codex, v.names) + " is not on PATH"@),
            EffectView::Nothing,
        ),
        v.spaces.len() == 0 && v.claude_ok ==> key_step(v, Key::Char('c'), ctrl) == (
            saying(v, "no space selected"@),
            EffectView::Nothing,
        ),
        v.spaces.len() == 0 && v.codex_ok ==> key_step(v, Key::Char('o'), ctrl) == (
            saying(v, "no space selected"@),
            EffectView::Nothing,
        ),
{
}

/// Nothing but `c` and `o` in the lists starts a new conversation.
pub proof fn law_only_letters_launch(v: AppView, key: Key, ctrl: bool)
    ensures
        key_step(v, key, ctrl).1 matches EffectView::LaunchNew { backend, cwd } ==> v.modal is Closed
            && (backend == Backend::Claude && key == Key::Char('c') || backend == Backend::Codex
            && key == Key::Char('o')) && exists|k: int| on_space(v, k) && cwd == (
        #[trigger] v.spaces[k]).path,
{
    match key_step(v, key, ctrl).1 {
        EffectView::LaunchNew { backend, cwd } => {
            let k = v.space_state.selected->0 as int;
            assert(on_space(v, k) && cwd == v.spaces[k].path);
        },
        _ => {},
    }
}

// ---- asking ---------------------------------------------------------------------------------

/// `n` asks for the name of a new space, `D` whether the selected one shall be deleted, and `w`
/// for the branch of a worktree of the selected member, unless that is no repo.
pub proof fn law_letters_ask(v: AppView, k: int, j: int, ctrl: bool)
    requires
        v.modal is Closed,
    ensures
        key_step(v, Key::Char('n'), ctrl) == (
            over(v, ModalView::Input { kind: InputKind::NewSpace, buffer: Seq::empty() }),
            EffectView::Nothing,
        ),
        on_space(v, k) ==> key_step(v, Key::Char('D'), ctrl) == (
            over(v, ModalView::ConfirmDeleteSpace { name: v.spaces[k].name }),
            EffectView::Nothing,
        ),
        v.spaces.len() == 0 ==> key_step(v, Key::Char('D'), ctrl) == (silent(v), EffectView::Nothing),
        on_repo(v, k, j) && !(v.spaces[k].repos[j].state is Foreign) ==> key_step(
            v,
            Key::Char('w'),
            ctrl,
        ) == (
            over(v, ModalView::Input { kind: InputKind::Branch, buffer: Seq::empty() }),
            EffectView::Nothing,
        ),
        on_repo(v, k, j) && v.spaces[k].repos[j].state is Foreign ==> key_step(
            v,
            Key::Char('w'),
            ctrl,
        ) == (saying(v, "select a repo to add a worktree for"@), EffectView::Nothing),
{
}

/// On a worktree, `u` and `x` ask whether it shall be closed or removed, by its name and branch;
/// a linked member is removed by `x` at once and cannot be closed.
pub proof fn law_letters_on_members(v: AppView, k: int, j: int, ctrl: bool)
    requires
        on_repo(v, k, j),
    ensures
        ({
            let r = v.spaces[k].repos[j];
            &&& r.state matches RepoStateView::Worktree { branch } ==> {
                &&& key_step(v, Key::Char('u'), ctrl) == (
                    over(
                        v,
                        ModalView::ConfirmRepo {
                            kind: RepoConfirm::ToSymlink,
                            repo: r.name,
                            branch,
                        },
                    ),
                    EffectView::Nothing,
                )
                &&& key_step(v, Key::Char('x'), ctrl) == (
                    over(
                        v,
                        ModalView::ConfirmRepo { kind: RepoConfirm::Remove, repo: r.name, branch },
                    ),
                    EffectView::Nothing,
                )
            }
            &&& !(r.state is Worktree) ==> key_step(v, Key::Char('u'), ctrl) == (
                saying(v, "that repo is not a worktree"@),
                EffectView::Nothing,
            )
            &&& !(r.state is Worktree) ==> key_step(v, Key::Char('x'), ctrl) == (
                silent(v),
                EffectView::Ask {
                    request: RequestView::Remove { space: v.spaces[k].path, repo: r.name },
                },
            )
            &&& !(r.state is Foreign) ==> key_step(v, Key::Char('s'), ctrl) == (
                silent(v),
                EffectView::Ask {
                    request: RequestView::OpenStack {
                        repo: r.name,
                        dir: joined_path(v.spaces[k].path, r.name),
                    },
                },
            )
            &&& r.state is Foreign ==> key_step(v, Key::Char('s'), ctrl) == (
                saying(v, "not a repo"@),
                EffectView::Nothing,
            )
        }),
{
}

/// A confirmation is given by `y`, which asks for what it was about, on what is selected; any
/// other key takes it back. Either way it closes.
pub proof fn law_confirmations(v: AppView, k: int, j: int, key: Key, ctrl: bool)
    requires
        v.space_state == row(k),
        v.repo_state == row(j),
        0 <= k < v.spaces.len() <= usize::MAX,
        0 <= j < v.spaces[k].repos.len() <= usize::MAX,
    ensures
        ({
            let s = v.spaces[k];
            let closed = over(v, ModalView::Closed);
            let asked = |request: RequestView| (closed, EffectView::Ask { request });
            &&& v.modal is ConfirmDeleteSpace ==> key_step(v, Key::Char('y'), ctrl) == asked(
                RequestView::DeleteSpace { space: s.path },
            )
            &&& v.modal matches ModalView::ConfirmRepo { kind, .. } ==> kind == RepoConfirm::Remove
                ==> key_step(v, Key::Char('y'), ctrl) == asked(
                RequestView::Remove { space: s.path, repo: s.repos[j].name },
            )
            &&& v.modal matches ModalView::ConfirmRepo { kind, .. } ==> kind
                == RepoConfirm::ToSymlink && s.repos[j].state is Worktree ==> key_step(
                v,
                Key::Char('y'),
                ctrl,
            ) == asked(RequestView::Revert { space: s.path, repo: s.repos[j].name })
            &&& v.modal matches ModalView::ConfirmRepo { kind, .. } ==> kind
                == RepoConfirm::ToSymlink && !(s.repos[j].state is Worktree) ==> key_step(
                v,
                Key::Char('y'),
                ctrl,
            ) == (saying(closed, "that repo is not a worktree"@), EffectView::Nothing)
            &&& (v.modal is ConfirmDeleteSpace || v.modal is ConfirmRepo) && key != Key::Char('y')
                ==> key_step(v, key, ctrl) == (closed, EffectView::Nothing)
            &&& v.modal is PullResults ==> key_step(v, key, ctrl) == (closed, EffectView::Nothing)
        }),
{
}

/// Text is typed character by character and taken back from its end; Enter asks for the space
/// of that name, or for a worktree of the selected member on that branch; Esc gives up.
pub proof fn law_typing(v: AppView, kind: InputKind, buffer: Seq<char>, c: char, ctrl: bool)
    requires
        v.modal == (ModalView::Input { kind, buffer }),
    ensures
        key_step(v, Key::Char(c), ctrl) == (
            over(v, ModalView::Input { kind, buffer: buffer + seq![c] }),
            EffectView::Nothing,
        ),
        buffer.len() > 0 ==> key_step(v, Key::Backspace, ctrl) == (
            over(v, ModalView::Input { kind, buffer: buffer.take(buffer.len() - 1) }),
            EffectView::Nothing,
        ),
        buffer.len() == 0 ==> key_step(v, Key::Backspace, ctrl) == (silent(v), EffectView::Nothing),
        key_step(v, Key::Esc, ctrl) == (over(v, ModalView::Closed), EffectView::Nothing),
        kind == InputKind::NewSpace ==> key_step(v, Key::Enter, ctrl) == (
            silent(v),
            EffectView::Ask { request: RequestView::CreateSpace { name: buffer } },
        ),
{
    assert(buffer.push(c) == buffer + seq![c]);
    if buffer.len() > 0 {
        assert(buffer.drop_last() == buffer.take(buffer.len() - 1));
    }
}

/// Enter on the name of a branch asks for a worktree on it of the member that is selected.
pub proof fn law_branch_is_for_the_selected_member(
    v: AppView,
    buffer: Seq<char>,
    k: int,
    j: int,
    ctrl: bool,
)
    requires
        v.modal == (ModalView::Input { kind: InputKind::Branch, buffer }),
        v.space_state == row(k),
        v.repo_state == row(j),
        0 <= k < v.spaces.len() <= usize::MAX,
        0 <= j < v.spaces[k].repos.len() <= usize::MAX,
    ensures
        key_step(v, Key::Enter, ctrl) == (
            silent(v),
            EffectView::Ask {
                request: RequestView::Promote {
                    space: v.spaces[k].path,
                    repo: v.spaces[k].repos[j].name,
                    branch: buffer,
                },
            },
        ),
{
}

// ---- the stack --------------------------------------------------------------------------------

/// In a stack, Enter opens the page of the selected branch: that of its pull request where one is
/// known, else the comparison of the branch with its parent; `d` shows what it adds to its
/// parent, by the pager where there is one; Esc and `q` leave.
pub proof fn law_stack_keys(v: AppView, i: int, ctrl: bool)
    requires
        v.modal is Stack,
        v.modal->Stack_state == row(i),
        0 <= i < v.modal->stack.entries.len() <= usize::MAX,
    ensures
        ({
            let m = v.modal;
            let e = m->stack.entries[i];
            let known = m->Stack_prs.contains_key(e.branch) && m->Stack_prs[e.branch].url.len() > 0;
            &&& known ==> key_step(v, Key::Enter, ctrl) == (
                silent(v),
                EffectView::Ask { request: RequestView::OpenUrl { url: m->Stack_prs[e.branch].url } },
            )
            &&& !known && m->stack.slug is Some ==> key_step(v, Key::Enter, ctrl) == (
                silent(v),
                EffectView::Ask {
                    request: RequestView::OpenUrl {
                        url: "https://github.com/"@ + m->stack.slug->0 + "/compare/"@ + e.parent
                            + "..."@ + e.branch,
                    },
                },
            )
            &&& !known && m->stack.slug is None ==> key_step(v, Key::Enter, ctrl) == (
                saying(v, "origin is not a GitHub remote"@),
                EffectView::Nothing,
            )
            &&& v.delta_ok ==> key_step(v, Key::Char('d'), ctrl) == (
                silent(v),
                EffectView::Diff {
                    repo: m->Stack_repo,
                    dir: m->Stack_dir,
                    parent: e.parent,
                    branch: e.branch,
                },
            )
            &&& !v.delta_ok ==> key_step(v, Key::Char('d'), ctrl) == (
                silent(v),
                EffectView::Ask {
                    request: RequestView::LayerDiff {
                        repo: m->Stack_repo,
                        dir: m->Stack_dir,
                        branch: e.branch,
                        parent: e.parent,
                    },
                },
            )
            &&& key_step(v, Key::Esc, ctrl) == (
                AppView { pr_wait: None, ..over(v, ModalView::Closed) },
                EffectView::Nothing,
            )
            &&& key_step(v, Key::Char('q'), ctrl) == key_step(v, Key::Esc, ctrl)
        }),
{
}

/// In a stack, the arrows and `j` and `k` move the selection a row at a time and change nothing
/// else.
pub proof fn law_stack_moves(v: AppView, i: int, ctrl: bool)
    requires
        v.modal is Stack,
        v.modal->Stack_state == row(i),
        0 <= i < v.modal->stack.entries.len() <= usize::MAX,
    ensures
        ({
            let m = v.modal;
            let at = |to: int|
                (
                    over(
                        v,
                        ModalView::Stack {
                            repo: m->Stack_repo,
                            dir: m->Stack_dir,
                            stack: m->stack,
                            prs: m->Stack_prs,
                            prs_loading: m->prs_loading,
                            state: row(to),
                        },
                    ),
                    EffectView::Nothing,
                );
            &&& i + 1 < m->stack.entries.len() ==> key_step(v, Key::Down, ctrl) == at(i + 1)
            &&& i + 1 == m->stack.entries.len() ==> key_step(v, Key::Down, ctrl) == at(i)
            &&& i > 0 ==> key_step(v, Key::Up, ctrl) == at(i - 1)
            &&& i == 0 ==> key_step(v, Key::Up, ctrl) == at(0)
            &&& key_step(v, Key::Char('j'), ctrl) == key_step(v, Key::Down, ctrl)
            &&& key_step(v, Key::Char('k'), ctrl) == key_step(v, Key::Up, ctrl)
        }),
{
}

/// In a shown diff, the keys scroll by one line, by twenty or by forty, and stop at the ends;
/// Esc and `q` go back to the stack of the same repo.
pub proof fn law_diff_keys(v: AppView, key: Key, ctrl: bool)
    requires
        v.modal is StackDiff,
    ensures
        ({
            let m = v.modal;
            let at = m->scroll as int;
            let rolled = |delta: int|
                (
                    over(
                        v,
                        ModalView::StackDiff {
                            repo: m->StackDiff_repo,
                            dir: m->StackDiff_dir,
                            branch: m->StackDiff_branch,
                            parent: m->StackDiff_parent,
                            lines: m->lines,
                            truncated: m->truncated,
                            scroll: if at + delta < 0 {
                                0u16
                            } else if at + delta > 65535 {
                                65535u16
                            } else {
                                (at + delta) as u16
                            },
                        },
                    ),
                    EffectView::Nothing,
                );
            &&& key_step(v, Key::Up, ctrl) == rolled(-1) && key_step(v, Key::Char('k'), ctrl) == rolled(-1)
            &&& key_step(v, Key::Down, ctrl) == rolled(1) && key_step(v, Key::Char('j'), ctrl) == rolled(1)
            &&& key_step(v, Key::Char('u'), true) == rolled(-20)
            &&& key_step(v, Key::Char('d'), true) == rolled(20)
            &&& key_step(v, Key::PageUp, ctrl) == rolled(-40)
            &&& key_step(v, Key::PageDown, ctrl) == rolled(40)
            &&& key_step(v, Key::Char('u'), false) == (silent(v), EffectView::Nothing)
            &&& key_step(v, Key::Char('d'), false) == (silent(v), EffectView::Nothing)
            &&& key_step(v, Key::Esc, ctrl) == (
                over(v, ModalView::Closed),
                EffectView::Ask {
                    request: RequestView::OpenStack { repo: m->StackDiff_repo, dir: m->StackDiff_dir },
                },
            )
            &&& key_step(v, Key::Char('q'), ctrl) == key_step(v, Key::Esc, ctrl)
        }),
{
}

// ---- keys without a meaning -------------------------------------------------------------------

/// A key that means nothing where it is typed does nothing, but that the last message goes: in the
/// lists, in a text, in the picker, in the search, in a stack and in a diff.
pub proof fn law_other_keys_do_nothing(v: AppView, key: Key, ctrl: bool)
    requires
        v.modal is Input ==> (key == Key::Up || key == Key::Down || key == Key::Left || key
            == Key::Right || key == Key::Tab || key == Key::PageUp || key == Key::PageDown || key
            == Key::Other),
        v.modal is RepoPicker || v.modal is ConvoSearch ==> (key == Key::Left || key == Key::Right
            || key == Key::Tab || key == Key::PageUp || key == Key::PageDown || key == Key::Other),
        v.modal is Stack ==> (key == Key::Left || key == Key::Right || key == Key::Tab || key
            == Key::PageUp || key == Key::PageDown || key == Key::Backspace || key == Key::Other
            || key == Key::Char('y') || key == Key::Char('n') || key == Key::Char('p') || key
            == Key::Char('x') || key == Key::Char('c') || key == Key::Char('o')),
        v.modal is StackDiff ==> (key == Key::Left || key == Key::Right || key == Key::Tab || key
            == Key::Enter || key == Key::Backspace || key == Key::Other),
        v.modal is Closed ==> (key == Key::PageUp || key == Key::PageDown || key == Key::Backspace
            || key == Key::Other || key == Key::Char('y') || key == Key::Char('d') || v.pane
            != Pane::Repos && (key == Key::Char('w') || key == Key::Char('s') || key == Key::Char(
            'u',
        ) || key == Key::Char('x')) || v.pane != Pane::Convos && key == Key::Char('f') || v.pane
            == Pane::Spaces && (key == Key::Left || key == Key::Char('h')) || v.pane != Pane::Spaces
            && (key == Key::Right || key == Key::Char('l'))),
        !(v.modal is ConfirmDeleteSpace),
        !(v.modal is ConfirmRepo),
        !(v.modal is PullResults),
    ensures
        key_step(v, key, ctrl) == (silent(v), EffectView::Nothing),
{
}

} // verus!
