//! The state of the TUI, and what every key does to it.
//!
//! Nothing here touches the disk, runs a program or waits: where a key takes that, it comes
//! out as an effect, and the outcome is handed back to the state.

use crate::data::{backend_label, Backend, Session, SessionView};
use crate::names::{AgentNames, AgentNamesView};
use crate::order::{
    is_sorted, law_sorting_keeps_members, law_sorting_sorts, sort, sorted_stably, Ranked,
};
use crate::path::{join, joined_path};
use crate::space::{
    bare_name, pool_display, pool_shown, reply_view, Layout, LayoutView, PoolRepo, PoolRepoView, RepoState,
    RepoStateView, Space, SpaceRepo, SpaceRepoView, SpaceView,
};
use crate::stack::{compare_url, PrInfo, PrInfoView, Stack, StackEntryView, StackView};
use crate::text::{
    begins, cat, cat3, cat6, decimal, decimal_of, has_prefix, has_text, holds, lowercase, same,
    split, to_lower,
};
use vstd::hash_map::StringHashMap;
use vstd::prelude::*;

verus! {

// ---- the parts of the state -----------------------------------------------------------------

#[derive(PartialEq, Eq, Clone, Copy, Debug, Structural)]
pub enum Pane {
    Spaces,
    Repos,
    Convos,
}

#[derive(PartialEq, Eq, Clone, Copy, Debug, Structural)]
pub enum InputKind {
    NewSpace,
    Branch,
}

#[derive(PartialEq, Eq, Clone, Copy, Debug, Structural)]
pub enum RepoConfirm {
    /// `x`: remove the worktree from the space.
    Remove,
    /// `u`: convert the worktree back to a symlink.
    ToSymlink,
}

/// The selected row of a list.
#[derive(PartialEq, Eq, Clone, Copy, Debug, Structural)]
pub struct ListState {
    pub selected: Option<usize>,
}

/// A key.
#[derive(PartialEq, Eq, Clone, Copy, Debug, Structural)]
pub enum Key {
    Up,
    Down,
    Left,
    Right,
    Enter,
    Esc,
    Tab,
    Backspace,
    PageUp,
    PageDown,
    Char(char),
    Other,
}

/// A row of the repo picker.
#[derive(Clone, Debug)]
pub struct PickerItem {
    /// Pool-relative name (`acme/api`).
    pub name: String,
    /// Already a member of the selected space (shown grayed, not addable).
    pub added: bool,
}

/// A picker row over text.
#[verifier::ext_equal]
pub struct PickerItemView {
    pub name: Seq<char>,
    pub added: bool,
}

impl DeepView for PickerItem {
    type V = PickerItemView;

    open spec fn deep_view(&self) -> PickerItemView {
        PickerItemView { name: self.name@, added: self.added }
    }
}

/// Picker rows: the available ones first.
pub open spec fn available_first() -> spec_fn(PickerItemView, PickerItemView) -> bool {
    |a: PickerItemView, b: PickerItemView| !a.added && b.added
}

impl Ranked for PickerItem {
    open spec fn order() -> spec_fn(PickerItemView, PickerItemView) -> bool {
        available_first()
    }

    fn is_before(&self, other: &PickerItem) -> (r: bool) {
        !self.added && other.added
    }
}

/// Sessions: the newest first.
pub open spec fn newest_first() -> spec_fn(SessionView, SessionView) -> bool {
    |a: SessionView, b: SessionView| a.last_activity > b.last_activity
}

impl Ranked for Session {
    open spec fn order() -> spec_fn(SessionView, SessionView) -> bool {
        newest_first()
    }

    fn is_before(&self, other: &Session) -> (r: bool) {
        self.last_activity > other.last_activity
    }
}

/// The pull requests of a stack, by head branch.
pub open spec fn prs_view(prs: Map<Seq<char>, PrInfo>) -> Map<Seq<char>, PrInfoView> {
    Map::new(|k: Seq<char>| prs.contains_key(k), |k: Seq<char>| prs[k].deep_view())
}

/// The outcomes of a pull, by repo.
pub open spec fn results_view(results: Seq<(String, Result<String, String>)>) -> Seq<
    (Seq<char>, Result<Seq<char>, Seq<char>>),
> {
    results.map_values(|p: (String, Result<String, String>)| (p.0@, reply_view(p.1)))
}

pub enum Modal {
    Closed,
    Input { kind: InputKind, buffer: String },
    RepoPicker {
        /// Every pool repo, available-first; `added` = already in the space.
        all: Vec<PickerItem>,
        /// `all` narrowed by `filter`; what the list shows and Enter picks from.
        candidates: Vec<PickerItem>,
        filter: String,
        state: ListState,
    },
    /// Global conversation search: filter over every session's title + text,
    /// with a live preview. Enter resumes, ^f forks.
    ConvoSearch {
        filter: String,
        /// Indices into `App::sessions`, newest first.
        matches: Vec<usize>,
        state: ListState,
        preview_scroll: u16,
    },
    ConfirmDeleteSpace { name: String },
    /// Confirm a worktree-affecting repo action (`x` remove / `u` to-symlink).
    ConfirmRepo { kind: RepoConfirm, repo: String, branch: String },
    /// Per-repo outcome of a space pull; any key closes.
    PullResults { space: String, results: Vec<(String, Result<String, String>)> },
    /// Branch stack of one repo, with PR info overlaid as it arrives.
    Stack {
        repo: String,
        dir: String,
        stack: Stack,
        prs: StringHashMap<PrInfo>,
        prs_loading: bool,
        state: ListState,
    },
    /// Diff of one stack layer against its parent; Esc returns to the stack.
    StackDiff {
        repo: String,
        dir: String,
        branch: String,
        parent: String,
        lines: Vec<String>,
        truncated: usize,
        scroll: u16,
    },
}

/// A modal over text.
#[verifier::ext_equal]
pub enum ModalView {
    Closed,
    Input { kind: InputKind, buffer: Seq<char> },
    RepoPicker {
        all: Seq<PickerItemView>,
        candidates: Seq<PickerItemView>,
        filter: Seq<char>,
        state: ListState,
    },
    ConvoSearch { filter: Seq<char>, matches: Seq<usize>, state: ListState, preview_scroll: u16 },
    ConfirmDeleteSpace { name: Seq<char> },
    ConfirmRepo { kind: RepoConfirm, repo: Seq<char>, branch: Seq<char> },
    PullResults {
        space: Seq<char>,
        results: Seq<(Seq<char>, Result<Seq<char>, Seq<char>>)>,
    },
    Stack {
        repo: Seq<char>,
        dir: Seq<char>,
        stack: StackView,
        prs: Map<Seq<char>, PrInfoView>,
        prs_loading: bool,
        state: ListState,
    },
    StackDiff {
        repo: Seq<char>,
        dir: Seq<char>,
        branch: Seq<char>,
        parent: Seq<char>,
        lines: Seq<Seq<char>>,
        truncated: usize,
        scroll: u16,
    },
}

impl DeepView for Modal {
    type V = ModalView;

    open spec fn deep_view(&self) -> ModalView {
        match self {
            Modal::Closed => ModalView::Closed,
            Modal::Input { kind, buffer } => ModalView::Input { kind: *kind, buffer: buffer@ },
            Modal::RepoPicker { all, candidates, filter, state } => ModalView::RepoPicker {
                all: all.deep_view(),
                candidates: candidates.deep_view(),
                filter: filter@,
                state: *state,
            },
            Modal::ConvoSearch { filter, matches, state, preview_scroll } =>
                ModalView::ConvoSearch {
                filter: filter@,
                matches: matches@,
                state: *state,
                preview_scroll: *preview_scroll,
            },
            Modal::ConfirmDeleteSpace { name } => ModalView::ConfirmDeleteSpace { name: name@ },
            Modal::ConfirmRepo { kind, repo, branch } => ModalView::ConfirmRepo {
                kind: *kind,
                repo: repo@,
                branch: branch@,
            },
            Modal::PullResults { space, results } => ModalView::PullResults {
                space: space@,
                results: results_view(results@),
            },
            Modal::Stack { repo, dir, stack, prs, prs_loading, state } => ModalView::Stack {
                repo: repo@,
                dir: dir@,
                stack: stack.deep_view(),
                prs: prs_view(prs@),
                prs_loading: *prs_loading,
                state: *state,
            },
            Modal::StackDiff { repo, dir, branch, parent, lines, truncated, scroll } =>
                ModalView::StackDiff {
                repo: repo@,
                dir: dir@,
                branch: branch@,
                parent: parent@,
                lines: lines.deep_view(),
                truncated: *truncated,
                scroll: *scroll,
            },
        }
    }
}

/// A pull of one member: its name, where it is, and whether it is left alone.
#[derive(Clone, Debug)]
pub struct PullJob {
    pub repo: String,
    pub dir: String,
    pub foreign: bool,
}

/// A pull job over text.
#[verifier::ext_equal]
pub struct PullJobView {
    pub repo: Seq<char>,
    pub dir: Seq<char>,
    pub foreign: bool,
}

impl DeepView for PullJob {
    type V = PullJobView;

    open spec fn deep_view(&self) -> PullJobView {
        PullJobView { repo: self.repo@, dir: self.dir@, foreign: self.foreign }
    }
}

/// Something to do on disk, with git or in the browser; its outcome is handed back.
pub enum Request {
    /// Create a space; answered by `input_done`.
    CreateSpace { name: String },
    /// Add a worktree; answered by `input_done`.
    Promote { space: String, repo: String, branch: String },
    /// Link a pool repo into a space; answered by `add_done`.
    AddRepo { space: String, repo: String, filter: String },
    /// Remove a member; answered by `remove_done`.
    Remove { space: String, repo: String },
    /// Close a worktree; answered by `revert_done`.
    Revert { space: String, repo: String },
    /// Delete a space; answered by `delete_done`.
    DeleteSpace { space: String },
    /// Pull the members one by one; answered by `poll_pull`.
    Pull { jobs: Vec<PullJob> },
    /// Build a branch stack; answered by `open_stack_at`.
    OpenStack { repo: String, dir: String },
    /// Open a page in the browser; answered by `url_opened`.
    OpenUrl { url: String },
    /// Diff a layer; answered by `diff_done`.
    LayerDiff { repo: String, dir: String, branch: String, parent: String },
    /// Re-scan spaces and pool; answered by `reload_spaces`.
    Reload,
}

/// A request over text.
#[verifier::ext_equal]
pub enum RequestView {
    CreateSpace { name: Seq<char> },
    Promote { space: Seq<char>, repo: Seq<char>, branch: Seq<char> },
    AddRepo { space: Seq<char>, repo: Seq<char>, filter: Seq<char> },
    Remove { space: Seq<char>, repo: Seq<char> },
    Revert { space: Seq<char>, repo: Seq<char> },
    DeleteSpace { space: Seq<char> },
    Pull { jobs: Seq<PullJobView> },
    OpenStack { repo: Seq<char>, dir: Seq<char> },
    OpenUrl { url: Seq<char> },
    LayerDiff { repo: Seq<char>, dir: Seq<char>, branch: Seq<char>, parent: Seq<char> },
    Reload,
}

impl DeepView for Request {
    type V = RequestView;

    open spec fn deep_view(&self) -> RequestView {
        match self {
            Request::CreateSpace { name } => RequestView::CreateSpace { name: name@ },
            Request::Promote { space, repo, branch } => RequestView::Promote {
                space: space@,
                repo: repo@,
                branch: branch@,
            },
            Request::AddRepo { space, repo, filter } => RequestView::AddRepo {
                space: space@,
                repo: repo@,
                filter: filter@,
            },
            Request::Remove { space, repo } => RequestView::Remove { space: space@, repo: repo@ },
            Request::Revert { space, repo } => RequestView::Revert { space: space@, repo: repo@ },
            Request::DeleteSpace { space } => RequestView::DeleteSpace { space: space@ },
            Request::Pull { jobs } => RequestView::Pull { jobs: jobs.deep_view() },
            Request::OpenStack { repo, dir } => RequestView::OpenStack { repo: repo@, dir: dir@ },
            Request::OpenUrl { url } => RequestView::OpenUrl { url: url@ },
            Request::LayerDiff { repo, dir, branch, parent } => RequestView::LayerDiff {
                repo: repo@,
                dir: dir@,
                branch: branch@,
                parent: parent@,
            },
            Request::Reload => RequestView::Reload,
        }
    }
}

/// Something the event loop must do outside the TUI (it owns the terminal).
/// Everything except `Nothing`/`Quit`/`Ask` is one-shot: the TUI tears down and execs,
/// never returning (fzf-style; quitting an agent lands in a shell at its cwd).
pub enum Effect {
    Nothing,
    Quit,
    /// Replace the TUI with the user's shell, cd'd into `cwd`.
    Shell { cwd: String },
    /// Start a fresh agent session with `cwd` set to the space.
    LaunchNew { backend: Backend, cwd: String },
    /// Resume (or fork) an existing conversation in its own cwd.
    Resume { backend: Backend, cwd: String, id: String, fork: bool },
    /// Suspend the TUI, page a layer diff through delta, then return to the
    /// stack view (the one temporary suspend; everything else is one-shot).
    Diff { repo: String, dir: String, parent: String, branch: String },
    /// Do something behind the TUI and hand its outcome back.
    Ask { request: Request },
}

/// An effect over text.
#[verifier::ext_equal]
pub enum EffectView {
    Nothing,
    Quit,
    Shell { cwd: Seq<char> },
    LaunchNew { backend: Backend, cwd: Seq<char> },
    Resume { backend: Backend, cwd: Seq<char>, id: Seq<char>, fork: bool },
    Diff { repo: Seq<char>, dir: Seq<char>, parent: Seq<char>, branch: Seq<char> },
    Ask { request: RequestView },
}

impl DeepView for Effect {
    type V = EffectView;

    open spec fn deep_view(&self) -> EffectView {
        match self {
            Effect::Nothing => EffectView::Nothing,
            Effect::Quit => EffectView::Quit,
            Effect::Shell { cwd } => EffectView::Shell { cwd: cwd@ },
            Effect::LaunchNew { backend, cwd } => EffectView::LaunchNew {
                backend: *backend,
                cwd: cwd@,
            },
            Effect::Resume { backend, cwd, id, fork } => EffectView::Resume {
                backend: *backend,
                cwd: cwd@,
                id: id@,
                fork: *fork,
            },
            Effect::Diff { repo, dir, parent, branch } => EffectView::Diff {
                repo: repo@,
                dir: dir@,
                parent: parent@,
                branch: branch@,
            },
            Effect::Ask { request } => EffectView::Ask { request: request.deep_view() },
        }
    }
}

/// Progress of a pull.
pub enum PullMsg {
    One { repo: String, result: Result<String, String> },
    Done,
}

/// How long fetched PR metadata is reused, in nanoseconds.
pub const PR_CACHE_TTL: u64 = 60_000_000_000;

/// PR metadata that was fetched for a repo slug.
pub struct CachedPrs {
    /// When it was fetched, in nanoseconds of a clock that never goes back.
    pub at: u64,
    pub list: Vec<(String, PrInfo)>,
}

/// Cached PR metadata over text.
#[verifier::ext_equal]
pub struct CachedPrsView {
    pub at: u64,
    pub list: Seq<(Seq<char>, PrInfoView)>,
}

impl DeepView for CachedPrs {
    type V = CachedPrsView;

    open spec fn deep_view(&self) -> CachedPrsView {
        CachedPrsView { at: self.at, list: self.list.deep_view() }
    }
}

/// The cached PR metadata, by slug.
pub open spec fn cache_view(cache: Map<Seq<char>, CachedPrs>) -> Map<Seq<char>, CachedPrsView> {
    Map::new(|k: Seq<char>| cache.contains_key(k), |k: Seq<char>| cache[k].deep_view())
}

pub struct App {
    pub names: AgentNames,
    pub layout: Layout,
    pub pane: Pane,
    pub modal: Modal,
    pub status: Option<String>,
    pub now: i64,
    pub claude_ok: bool,
    pub codex_ok: bool,
    pub delta_ok: bool,
    pub spaces: Vec<Space>,
    pub pool: Vec<PoolRepo>,
    pub space_state: ListState,
    pub repo_state: ListState,
    /// Selection within the selected space's conversation pane.
    pub convo_state: ListState,
    /// All sessions, newest first (loaded in the background).
    pub sessions: Vec<Session>,
    pub loading: bool,
    /// In-flight `p` pull: progress + accumulated results.
    pub pull_active: bool,
    pub pull_space: String,
    pub pull_total: usize,
    pub pull_results: Vec<(String, Result<String, String>)>,
    /// The repo slug of an in-flight `gh pr list` for the stack view.
    pub pr_wait: Option<String>,
    /// PR results per slug, so stack reopens and diff round trips within the
    /// TTL reuse the network fetch instead of repeating it.
    pub pr_cache: StringHashMap<CachedPrs>,
}

/// The state of the TUI over text.
#[verifier::ext_equal]
pub struct AppView {
    pub names: AgentNamesView,
    pub layout: LayoutView,
    pub pane: Pane,
    pub modal: ModalView,
    pub status: Option<Seq<char>>,
    pub now: i64,
    pub claude_ok: bool,
    pub codex_ok: bool,
    pub delta_ok: bool,
    pub spaces: Seq<SpaceView>,
    pub pool: Seq<PoolRepoView>,
    pub space_state: ListState,
    pub repo_state: ListState,
    pub convo_state: ListState,
    pub sessions: Seq<SessionView>,
    pub loading: bool,
    pub pull_active: bool,
    pub pull_space: Seq<char>,
    pub pull_total: usize,
    pub pull_results: Seq<(Seq<char>, Result<Seq<char>, Seq<char>>)>,
    pub pr_wait: Option<Seq<char>>,
    pub pr_cache: Map<Seq<char>, CachedPrsView>,
}

impl DeepView for App {
    type V = AppView;

    open spec fn deep_view(&self) -> AppView {
        AppView {
            names: self.names.deep_view(),
            layout: self.layout.deep_view(),
            pane: self.pane,
            modal: self.modal.deep_view(),
            status: self.status.deep_view(),
            now: self.now,
            claude_ok: self.claude_ok,
            codex_ok: self.codex_ok,
            delta_ok: self.delta_ok,
            spaces: self.spaces.deep_view(),
            pool: self.pool.deep_view(),
            space_state: self.space_state,
            repo_state: self.repo_state,
            convo_state: self.convo_state,
            sessions: self.sessions.deep_view(),
            loading: self.loading,
            pull_active: self.pull_active,
            pull_space: self.pull_space@,
            pull_total: self.pull_total,
            pull_results: results_view(self.pull_results@),
            pr_wait: self.pr_wait.deep_view(),
            pr_cache: cache_view(self.pr_cache@),
        }
    }
}

// ---- selections -----------------------------------------------------------------------------

/// The first row.
pub fn selected0() -> (r: ListState)
    ensures
        r == (ListState { selected: Some(0) }),
{
    ListState { selected: Some(0) }
}

/// The row `delta` further in a list of `len`, kept inside the list; no row in an empty
/// list.
pub open spec fn moved(state: ListState, len: nat, delta: int) -> ListState {
    if len == 0 {
        ListState { selected: None }
    } else {
        let cur = match state.selected {
            Some(i) => i as int,
            None => 0,
        };
        let to = cur + delta;
        ListState {
            selected: Some(
                if to < 0 {
                    0usize
                } else if to > len - 1 {
                    (len - 1) as usize
                } else {
                    to as usize
                },
            ),
        }
    }
}

/// Move the selection one row up or down. Clamp at the edges; no wrap-around.
pub fn move_list(state: ListState, len: usize, up: bool) -> (r: ListState)
    ensures
        r == moved(
            state,
            len as nat,
            if up {
                -1
            } else {
                1
            },
        ),
{
    if len == 0 {
        return ListState { selected: None };
    }
    let cur: usize = match state.selected {
        Some(i) => i,
        None => 0,
    };
    let to: usize = if up {
        if cur == 0 {
            0
        } else if cur - 1 > len - 1 {
            len - 1
        } else {
            cur - 1
        }
    } else {
        if cur >= len - 1 {
            len - 1
        } else {
            cur + 1
        }
    };
    ListState { selected: Some(to) }
}

/// The first row of a list of `len`, where it has one.
pub open spec fn first_row(len: nat) -> ListState {
    ListState {
        selected: if len == 0 {
            None
        } else {
            Some(0)
        },
    }
}

fn first_of(len: usize) -> (r: ListState)
    ensures
        r == first_row(len as nat),
{
    ListState {
        selected: if len == 0 {
            None
        } else {
            Some(0)
        },
    }
}

/// The selected row, or the first, brought inside a list of `len`; no row in an empty list.
pub open spec fn kept_inside(state: ListState, len: nat) -> ListState {
    ListState {
        selected: if len == 0 {
            None
        } else {
            match state.selected {
                Some(i) => if i < len {
                    Some(i)
                } else {
                    Some((len - 1) as usize)
                },
                None => Some(0),
            }
        },
    }
}

fn keep_inside(state: ListState, len: usize) -> (r: ListState)
    ensures
        r == kept_inside(state, len as nat),
{
    ListState {
        selected: if len == 0 {
            None
        } else {
            match state.selected {
                Some(i) => if i < len {
                    Some(i)
                } else {
                    Some(len - 1)
                },
                None => Some(0),
            }
        },
    }
}

/// The selected member of a sequence, where the selection is inside it.
pub open spec fn chosen<T>(items: Seq<T>, state: ListState) -> Option<T> {
    match state.selected {
        Some(i) => if i < items.len() {
            Some(items[i as int])
        } else {
            None
        },
        None => None,
    }
}

fn pick<T>(items: &Vec<T>, state: ListState) -> (r: Option<&T>)
    ensures
        match r {
            Some(x) => chosen(items@, state) == Some(*x) && state.selected is Some && state.selected->0
                < items@.len(),
            None => chosen(items@, state) is None,
        },
{
    match state.selected {
        Some(i) => if i < items.len() {
            Some(&items[i])
        } else {
            None
        },
        None => None,
    }
}

/// The selected space.
pub open spec fn space_chosen(v: AppView) -> Option<SpaceView> {
    chosen(v.spaces, v.space_state)
}

/// The selected member of the selected space.
pub open spec fn repo_chosen(v: AppView) -> Option<SpaceRepoView> {
    match space_chosen(v) {
        Some(s) => chosen(s.repos, v.repo_state),
        None => None,
    }
}

/// How many members the selected space has.
pub open spec fn repo_count(v: AppView) -> nat {
    match space_chosen(v) {
        Some(s) => s.repos.len(),
        None => 0,
    }
}

/// The state with the member selection brought inside the selected space.
pub open spec fn repo_clamped(v: AppView) -> AppView {
    AppView { repo_state: kept_inside(v.repo_state, repo_count(v)), ..v }
}

/// The position of the first space from `i` on that is called `name`.
pub open spec fn space_from(spaces: Seq<SpaceView>, name: Seq<char>, i: int) -> Option<int>
    decreases spaces.len() - i,
{
    if i < 0 || i >= spaces.len() {
        None
    } else if spaces[i].name == name {
        Some(i)
    } else {
        space_from(spaces, name, i + 1)
    }
}

/// The state after a re-scan: the selected space stays selected by name, otherwise the
/// first one is.
pub open spec fn reloaded(v: AppView, spaces: Seq<SpaceView>, pool: Seq<PoolRepoView>) -> AppView {
    let at = match space_chosen(v) {
        Some(s) => space_from(spaces, s.name, 0),
        None => None,
    };
    let state = ListState {
        selected: if spaces.len() == 0 {
            None
        } else {
            match at {
                Some(i) => Some(i as usize),
                None => Some(0),
            }
        },
    };
    repo_clamped(AppView { spaces, pool, space_state: state, ..v })
}

// ---- sessions -------------------------------------------------------------------------------

/// The positions of the sessions that `keep` admits.
pub open spec fn rows(sessions: Seq<SessionView>, keep: spec_fn(SessionView) -> bool) -> Seq<usize>
    decreases sessions.len(),
{
    if sessions.len() == 0 {
        Seq::empty()
    } else {
        let before = rows(sessions.drop_last(), keep);
        if keep(sessions.last()) {
            before.push((sessions.len() - 1) as usize)
        } else {
            before
        }
    }
}

/// Whether the session was held inside the directory `dir`.
pub open spec fn held_in(dir: Seq<char>) -> spec_fn(SessionView) -> bool {
    |s: SessionView| s.cwd == dir || has_prefix(s.cwd, dir + "/"@)
}

/// Whether the session's search text holds `needle`.
pub open spec fn mentions(needle: Seq<char>) -> spec_fn(SessionView) -> bool {
    |s: SessionView| needle.len() == 0 || has_text(s.search_blob, needle)
}

/// The positions of the sessions that a search finds.
pub open spec fn found(sessions: Seq<SessionView>, filter: Seq<char>) -> Seq<usize> {
    rows(sessions, mentions(lowercase(filter)))
}

/// The positions of the sessions of the selected space.
pub open spec fn convos(v: AppView) -> Seq<usize> {
    match space_chosen(v) {
        Some(s) => rows(v.sessions, held_in(s.path)),
        None => Seq::empty(),
    }
}

/// The position of the session that is selected in the selected space.
pub open spec fn convo_chosen(v: AppView) -> Option<usize> {
    chosen(convos(v), v.convo_state)
}

fn search_matches(sessions: &Vec<Session>, filter: &str) -> (r: Vec<usize>)
    ensures
        r@ == found(sessions.deep_view(), filter@),
{
    let needle = to_lower(filter);
    let ghost view = sessions.deep_view();
    let ghost keep = mentions(needle@);
    let mut out: Vec<usize> = Vec::new();
    assert(view.take(0) == Seq::<SessionView>::empty());
    for i in 0..sessions.len()
        invariant
            view == sessions.deep_view(),
            keep == mentions(needle@),
            out@ == rows(view.take(i as int), keep),
    {
        assert(view.take(i + 1).drop_last() == view.take(i as int));
        assert(view.take(i + 1).last() == sessions@[i as int].deep_view());
        if sessions[i].matches(needle.as_str()) {
            out.push(i);
        }
    }
    assert(view.take(sessions@.len() as int) == view);
    out
}

fn sessions_under(sessions: &Vec<Session>, dir: &str) -> (r: Vec<usize>)
    ensures
        r@ == rows(sessions.deep_view(), held_in(dir@)),
{
    let below = cat(dir, "/");
    let ghost view = sessions.deep_view();
    let ghost keep = held_in(dir@);
    let mut out: Vec<usize> = Vec::new();
    assert(view.take(0) == Seq::<SessionView>::empty());
    for i in 0..sessions.len()
        invariant
            view == sessions.deep_view(),
            keep == held_in(dir@),
            below@ == dir@ + "/"@,
            out@ == rows(view.take(i as int), keep),
    {
        assert(view.take(i + 1).drop_last() == view.take(i as int));
        assert(view.take(i + 1).last() == sessions@[i as int].deep_view());
        let cwd = sessions[i].cwd.as_str();
        if same(cwd, dir) || begins(cwd, below.as_str()) {
            out.push(i);
        }
    }
    assert(view.take(sessions@.len() as int) == view);
    out
}

// ---- what keys mean: the panes -----------------------------------------------------------------

/// The state with a message in the status bar.
pub open spec fn said(v: AppView, message: Seq<char>) -> AppView {
    AppView { status: Some(message), ..v }
}

/// The state with another modal.
pub open spec fn showing(v: AppView, modal: ModalView) -> AppView {
    AppView { modal, ..v }
}

/// The same state, and nothing to do.
pub open spec fn quiet(v: AppView) -> (AppView, EffectView) {
    (v, EffectView::Nothing)
}

/// The state, and something to do behind the TUI.
pub open spec fn asking(v: AppView, request: RequestView) -> (AppView, EffectView) {
    (v, EffectView::Ask { request })
}

/// Whether the key moves a selection up.
pub open spec fn is_up(key: Key) -> bool {
    key == Key::Up || key == Key::Char('k')
}

/// Whether the key moves a selection down.
pub open spec fn is_down(key: Key) -> bool {
    key == Key::Down || key == Key::Char('j')
}

/// The state with the space selection moved, members and conversations from the top.
pub open spec fn space_moved(v: AppView, delta: int) -> AppView {
    repo_clamped(
        AppView {
            space_state: moved(v.space_state, v.spaces.len(), delta),
            repo_state: ListState { selected: Some(0) },
            convo_state: ListState { selected: Some(0) },
            ..v
        },
    )
}

/// What a key does in the pane of spaces.
pub open spec fn spaces_key(v: AppView, key: Key) -> (AppView, EffectView) {
    if is_down(key) {
        quiet(space_moved(v, 1))
    } else if is_up(key) {
        quiet(space_moved(v, -1))
    } else if key == Key::Right || key == Key::Char('l') {
        if repo_count(v) > 0 {
            quiet(AppView { pane: Pane::Repos, ..v })
        } else {
            quiet(v)
        }
    } else if key == Key::Enter && space_chosen(v) is Some {
        (v, EffectView::Shell { cwd: space_chosen(v)->0.path })
    } else {
        quiet(v)
    }
}

/// The request to remove the selected member.
pub open spec fn remove_chosen(v: AppView) -> (AppView, EffectView) {
    match (space_chosen(v), repo_chosen(v)) {
        (Some(s), Some(r)) => asking(v, RequestView::Remove { space: s.path, repo: r.name }),
        _ => quiet(v),
    }
}

/// The request to close the selected worktree.
pub open spec fn revert_chosen(v: AppView) -> (AppView, EffectView) {
    match (space_chosen(v), repo_chosen(v)) {
        (Some(s), Some(r)) => if r.state is Worktree {
            asking(v, RequestView::Revert { space: s.path, repo: r.name })
        } else {
            quiet(said(v, "that repo is not a worktree"@))
        },
        _ => quiet(v),
    }
}

/// The request for the branch stack of the selected member.
pub open spec fn stack_chosen(v: AppView) -> (AppView, EffectView) {
    match (space_chosen(v), repo_chosen(v)) {
        (Some(s), Some(r)) => if r.state is Foreign {
            quiet(said(v, "not a repo"@))
        } else {
            asking(v, RequestView::OpenStack { repo: r.name, dir: joined_path(s.path, r.name) })
        },
        _ => quiet(v),
    }
}

/// What a key does in the pane of members.
pub open spec fn repos_key(v: AppView, key: Key) -> (AppView, EffectView) {
    let repo = repo_chosen(v);
    if is_down(key) {
        quiet(AppView { repo_state: moved(v.repo_state, repo_count(v), 1), ..v })
    } else if is_up(key) {
        quiet(AppView { repo_state: moved(v.repo_state, repo_count(v), -1), ..v })
    } else if key == Key::Left || key == Key::Char('h') {
        quiet(AppView { pane: Pane::Spaces, ..v })
    } else if key == Key::Char('w') {
        if repo is Some && !(repo->0.state is Foreign) {
            quiet(showing(v, ModalView::Input { kind: InputKind::Branch, buffer: Seq::empty() }))
        } else {
            quiet(said(v, "select a repo to add a worktree for"@))
        }
    } else if key == Key::Char('s') {
        stack_chosen(v)
    } else if key == Key::Char('u') && repo is Some {
        match repo->0.state {
            RepoStateView::Worktree { branch } => quiet(
                showing(
                    v,
                    ModalView::ConfirmRepo {
                        kind: RepoConfirm::ToSymlink,
                        repo: repo->0.name,
                        branch,
                    },
                ),
            ),
            _ => quiet(said(v, "that repo is not a worktree"@)),
        }
    } else if key == Key::Char('x') && repo is Some {
        match repo->0.state {
            RepoStateView::Worktree { branch } => quiet(
                showing(
                    v,
                    ModalView::ConfirmRepo {
                        kind: RepoConfirm::Remove,
                        repo: repo->0.name,
                        branch,
                    },
                ),
            ),
            _ => remove_chosen(v),
        }
    } else if key == Key::Enter && repo is Some {
        (v, EffectView::Shell { cwd: joined_path(space_chosen(v)->0.path, repo->0.name) })
    } else {
        quiet(v)
    }
}

/// Whether the agent can be run.
pub open spec fn can_run(v: AppView, backend: Backend) -> bool {
    match backend {
        Backend::Claude => v.claude_ok,
        Backend::Codex => v.codex_ok,
    }
}

/// Resuming (or forking) the session at a position.
pub open spec fn resuming(v: AppView, row: Option<usize>, fork: bool) -> (AppView, EffectView) {
    match row {
        Some(i) => if i < v.sessions.len() {
            let s = v.sessions[i as int];
            if can_run(v, s.backend) {
                (v, EffectView::Resume { backend: s.backend, cwd: s.cwd, id: s.id, fork })
            } else {
                quiet(said(v, backend_label(s.backend, v.names) + " is not on PATH, cannot resume"@))
            }
        } else {
            quiet(v)
        },
        None => quiet(v),
    }
}

/// What a key does in the pane of conversations.
pub open spec fn convos_key(v: AppView, key: Key) -> (AppView, EffectView) {
    if is_down(key) {
        quiet(AppView { convo_state: moved(v.convo_state, convos(v).len(), 1), ..v })
    } else if is_up(key) {
        quiet(AppView { convo_state: moved(v.convo_state, convos(v).len(), -1), ..v })
    } else if key == Key::Left || key == Key::Char('h') {
        quiet(AppView { pane: Pane::Spaces, ..v })
    } else if key == Key::Enter {
        resuming(v, convo_chosen(v), false)
    } else if key == Key::Char('f') {
        resuming(v, convo_chosen(v), true)
    } else {
        quiet(v)
    }
}

/// Starting an agent in the selected space.
pub open spec fn launching(v: AppView, backend: Backend) -> (AppView, EffectView) {
    if !can_run(v, backend) {
        quiet(said(v, backend_label(backend, v.names) + " is not on PATH"@))
    } else {
        match space_chosen(v) {
            Some(s) => (v, EffectView::LaunchNew { backend, cwd: s.path }),
            None => quiet(said(v, "no space selected"@)),
        }
    }
}

/// The search over every conversation, as it opens.
pub open spec fn search_opened(v: AppView) -> AppView {
    let matches = found(v.sessions, Seq::empty());
    showing(
        v,
        ModalView::ConvoSearch {
            filter: Seq::empty(),
            matches,
            state: first_row(matches.len()),
            preview_scroll: 0,
        },
    )
}

/// Whether a space has a member of this name.
pub open spec fn has_member(repos: Seq<SpaceRepoView>, name: Seq<char>) -> bool {
    exists|i: int| 0 <= i < repos.len() && (#[trigger] repos[i]).name == name
}

/// The picker row of a pool repo: a space links it by its basename.
pub open spec fn picker_row(p: PoolRepoView, repos: Seq<SpaceRepoView>) -> PickerItemView {
    PickerItemView { name: p.name, added: has_member(repos, bare_name(p.name)) }
}

/// The picker rows for a space: available repos first.
pub open spec fn picker_rows(pool: Seq<PoolRepoView>, repos: Seq<SpaceRepoView>) -> Seq<
    PickerItemView,
> {
    sorted_stably(pool.map_values(|p: PoolRepoView| picker_row(p, repos)), available_first())
}

/// The picker, as it opens.
pub open spec fn picker_opened(v: AppView) -> AppView {
    match space_chosen(v) {
        Some(s) => if v.pool.len() == 0 {
            said(v, "no repos in "@ + pool_shown(v.layout) + " to add"@)
        } else {
            let all = picker_rows(v.pool, s.repos);
            showing(
                v,
                ModalView::RepoPicker {
                    all,
                    candidates: all,
                    filter: Seq::empty(),
                    state: ListState { selected: Some(0) },
                },
            )
        },
        None => said(v, "create a space first (n)"@),
    }
}

/// The pulls of a space's members.
pub open spec fn pull_jobs(s: SpaceView) -> Seq<PullJobView> {
    s.repos.map_values(
        |r: SpaceRepoView|
            PullJobView {
                repo: r.name,
                dir: joined_path(s.path, r.name),
                foreign: r.state is Foreign,
            },
    )
}

/// Starting a pull of the selected space.
pub open spec fn pull_started(v: AppView) -> (AppView, EffectView) {
    if v.pull_active {
        quiet(said(v, "a pull is already running"@))
    } else {
        match space_chosen(v) {
            Some(s) => if s.repos.len() == 0 {
                quiet(said(v, "space has no repos"@))
            } else {
                asking(
                    AppView {
                        pull_active: true,
                        pull_space: s.name,
                        pull_total: s.repos.len() as usize,
                        pull_results: Seq::empty(),
                        ..v
                    },
                    RequestView::Pull { jobs: pull_jobs(s) },
                )
            },
            None => quiet(said(v, "no space selected"@)),
        }
    }
}

/// What a key does where no modal is open.
pub open spec fn plain_key(v: AppView, key: Key) -> (AppView, EffectView) {
    if key == Key::Char('q') || key == Key::Esc {
        (v, EffectView::Quit)
    } else if key == Key::Tab {
        quiet(
            AppView {
                pane: match v.pane {
                    Pane::Spaces => Pane::Repos,
                    Pane::Repos => Pane::Convos,
                    Pane::Convos => Pane::Spaces,
                },
                ..v
            },
        )
    } else if key == Key::Char('/') {
        quiet(search_opened(v))
    } else if key == Key::Char('n') {
        quiet(showing(v, ModalView::Input { kind: InputKind::NewSpace, buffer: Seq::empty() }))
    } else if key == Key::Char('a') {
        quiet(picker_opened(v))
    } else if key == Key::Char('p') {
        pull_started(v)
    } else if key == Key::Char('c') {
        launching(v, Backend::Claude)
    } else if key == Key::Char('o') {
        launching(v, Backend::Codex)
    } else if key == Key::Char('D') {
        match space_chosen(v) {
            Some(s) => quiet(showing(v, ModalView::ConfirmDeleteSpace { name: s.name })),
            None => quiet(v),
        }
    } else {
        match v.pane {
            Pane::Spaces => spaces_key(v, key),
            Pane::Repos => repos_key(v, key),
            Pane::Convos => convos_key(v, key),
        }
    }
}

// ---- what keys mean: the modals ------------------------------------------------------------------

/// The rows that a filter leaves, upper and lower case alike.
pub open spec fn filtered(all: Seq<PickerItemView>, filter: Seq<char>) -> Seq<PickerItemView>
    decreases all.len(),
{
    if all.len() == 0 {
        Seq::empty()
    } else if has_text(lowercase(all.last().name), lowercase(filter)) {
        filtered(all.drop_last(), filter).push(all.last())
    } else {
        filtered(all.drop_last(), filter)
    }
}

/// The picker with another filter; the selection stays on a valid row.
pub open spec fn refiltered(
    all: Seq<PickerItemView>,
    filter: Seq<char>,
    state: ListState,
) -> ModalView {
    let candidates = filtered(all, filter);
    ModalView::RepoPicker { all, candidates, filter, state: kept_inside(state, candidates.len()) }
}

/// A text without its last character, where it has one.
pub open spec fn without_last(s: Seq<char>) -> Seq<char> {
    if s.len() > 0 {
        s.drop_last()
    } else {
        s
    }
}

/// What a key does to a text that is typed.
pub open spec fn input_key(v: AppView, kind: InputKind, buffer: Seq<char>, key: Key) -> (
    AppView,
    EffectView,
) {
    match key {
        Key::Esc => quiet(showing(v, ModalView::Closed)),
        Key::Backspace => quiet(
            showing(v, ModalView::Input { kind, buffer: without_last(buffer) }),
        ),
        Key::Char(c) => quiet(showing(v, ModalView::Input { kind, buffer: buffer.push(c) })),
        Key::Enter => match kind {
            InputKind::NewSpace => asking(v, RequestView::CreateSpace { name: buffer }),
            InputKind::Branch => match (space_chosen(v), repo_chosen(v)) {
                (Some(s), Some(r)) => asking(
                    v,
                    RequestView::Promote { space: s.path, repo: r.name, branch: buffer },
                ),
                _ => asking(showing(v, ModalView::Closed), RequestView::Reload),
            },
        },
        _ => quiet(v),
    }
}

/// What a key does in the picker.
pub open spec fn picker_key(
    v: AppView,
    all: Seq<PickerItemView>,
    candidates: Seq<PickerItemView>,
    filter: Seq<char>,
    state: ListState,
    key: Key,
) -> (AppView, EffectView) {
    match key {
        Key::Esc => quiet(showing(v, ModalView::Closed)),
        Key::Up => quiet(
            showing(
                v,
                ModalView::RepoPicker {
                    all,
                    candidates,
                    filter,
                    state: moved(state, candidates.len(), -1),
                },
            ),
        ),
        Key::Down => quiet(
            showing(
                v,
                ModalView::RepoPicker {
                    all,
                    candidates,
                    filter,
                    state: moved(state, candidates.len(), 1),
                },
            ),
        ),
        Key::Enter => match chosen(candidates, state) {
            Some(item) => if item.added {
                quiet(said(v, item.name + " is already in this space"@))
            } else {
                match space_chosen(v) {
                    Some(s) => asking(
                        v,
                        RequestView::AddRepo { space: s.path, repo: item.name, filter },
                    ),
                    None => quiet(v),
                }
            },
            None => quiet(v),
        },
        Key::Char(c) => quiet(showing(v, refiltered(all, filter.push(c), state))),
        Key::Backspace => quiet(showing(v, refiltered(all, without_last(filter), state))),
        _ => quiet(v),
    }
}

/// The search with another filter, from the top.
pub open spec fn searched(v: AppView, filter: Seq<char>) -> AppView {
    let matches = found(v.sessions, filter);
    showing(
        v,
        ModalView::ConvoSearch {
            filter,
            matches,
            state: first_row(matches.len()),
            preview_scroll: 0,
        },
    )
}

/// A scroll position `by` lines further, as far as it goes.
pub open spec fn scrolled(at: u16, by: int) -> u16 {
    if at + by < 0 {
        0
    } else if at + by > u16::MAX {
        u16::MAX
    } else {
        (at + by) as u16
    }
}

/// What a key does in the search over conversations.
pub open spec fn search_key(
    v: AppView,
    filter: Seq<char>,
    matches: Seq<usize>,
    state: ListState,
    scroll: u16,
    key: Key,
    ctrl: bool,
) -> (AppView, EffectView) {
    let same = |state: ListState, scroll: u16|
        ModalView::ConvoSearch { filter, matches, state, preview_scroll: scroll };
    if key == Key::Esc {
        quiet(showing(v, ModalView::Closed))
    } else if key == Key::Up {
        quiet(showing(v, same(moved(state, matches.len(), -1), 0)))
    } else if key == Key::Down {
        quiet(showing(v, same(moved(state, matches.len(), 1), 0)))
    } else if key == Key::Char('d') && ctrl {
        quiet(showing(v, same(state, scrolled(scroll, 10))))
    } else if key == Key::Char('u') && ctrl {
        quiet(showing(v, same(state, scrolled(scroll, -10))))
    } else if key == Key::Char('f') && ctrl {
        resuming(showing(v, ModalView::Closed), chosen(matches, state), true)
    } else if key == Key::Enter {
        resuming(showing(v, ModalView::Closed), chosen(matches, state), false)
    } else {
        match key {
            Key::Char(c) => quiet(searched(v, filter.push(c))),
            Key::Backspace => quiet(searched(v, without_last(filter))),
            _ => quiet(v),
        }
    }
}

/// The page of a stack entry: its pull request, failing that GitHub's comparison.
pub open spec fn entry_page(
    e: StackEntryView,
    stack: StackView,
    prs: Map<Seq<char>, PrInfoView>,
) -> Option<Seq<char>> {
    if prs.contains_key(e.branch) && prs[e.branch].url.len() > 0 {
        Some(prs[e.branch].url)
    } else {
        match stack.slug {
            Some(slug) => Some(
                "https://github.com/"@ + slug + "/compare/"@ + e.parent + "..."@ + e.branch,
            ),
            None => None,
        }
    }
}

/// What a key does in the stack view.
pub open spec fn stack_key(
    v: AppView,
    repo: Seq<char>,
    dir: Seq<char>,
    stack: StackView,
    prs: Map<Seq<char>, PrInfoView>,
    prs_loading: bool,
    state: ListState,
    key: Key,
) -> (AppView, EffectView) {
    let entry = chosen(stack.entries, state);
    if key == Key::Esc || key == Key::Char('q') {
        quiet(AppView { pr_wait: None, modal: ModalView::Closed, ..v })
    } else if is_up(key) || is_down(key) {
        let to = moved(
            state,
            stack.entries.len(),
            if is_up(key) {
                -1
            } else {
                1
            },
        );
        quiet(showing(v, ModalView::Stack { repo, dir, stack, prs, prs_loading, state: to }))
    } else if key == Key::Enter && entry is Some {
        match entry_page(entry->0, stack, prs) {
            Some(url) => asking(v, RequestView::OpenUrl { url }),
            None => quiet(said(v, "origin is not a GitHub remote"@)),
        }
    } else if key == Key::Char('d') && entry is Some {
        let (branch, parent) = (entry->0.branch, entry->0.parent);
        if v.delta_ok {
            (v, EffectView::Diff { repo, dir, parent, branch })
        } else {
            asking(v, RequestView::LayerDiff { repo, dir, branch, parent })
        }
    } else {
        quiet(v)
    }
}

/// How far a key scrolls a diff.
pub open spec fn diff_scroll(key: Key, ctrl: bool) -> int {
    if is_up(key) {
        -1
    } else if is_down(key) {
        1
    } else if key == Key::Char('u') && ctrl {
        -20
    } else if key == Key::Char('d') && ctrl {
        20
    } else if key == Key::PageUp {
        -40
    } else if key == Key::PageDown {
        40
    } else {
        0
    }
}

/// What a key does where a modal is open.
pub open spec fn modal_key(v: AppView, key: Key, ctrl: bool) -> (AppView, EffectView) {
    match v.modal {
        ModalView::Closed => quiet(v),
        ModalView::Input { kind, buffer } => input_key(v, kind, buffer, key),
        ModalView::RepoPicker { all, candidates, filter, state } => picker_key(
            v,
            all,
            candidates,
            filter,
            state,
            key,
        ),
        ModalView::ConvoSearch { filter, matches, state, preview_scroll } => search_key(
            v,
            filter,
            matches,
            state,
            preview_scroll,
            key,
            ctrl,
        ),
        ModalView::ConfirmDeleteSpace { name } => {
            let closed = showing(v, ModalView::Closed);
            match space_chosen(v) {
                Some(s) => if key == Key::Char('y') {
                    asking(closed, RequestView::DeleteSpace { space: s.path })
                } else {
                    quiet(closed)
                },
                None => quiet(closed),
            }
        },
        ModalView::ConfirmRepo { kind, repo, branch } => {
            let closed = showing(v, ModalView::Closed);
            if key == Key::Char('y') {
                match kind {
                    RepoConfirm::Remove => remove_chosen(closed),
                    RepoConfirm::ToSymlink => revert_chosen(closed),
                }
            } else {
                quiet(closed)
            }
        },
        ModalView::PullResults { space, results } => quiet(showing(v, ModalView::Closed)),
        ModalView::Stack { repo, dir, stack, prs, prs_loading, state } => stack_key(
            v,
            repo,
            dir,
            stack,
            prs,
            prs_loading,
            state,
            key,
        ),
        ModalView::StackDiff { repo, dir, branch, parent, lines, truncated, scroll } => {
            if key == Key::Esc || key == Key::Char('q') {
                asking(showing(v, ModalView::Closed), RequestView::OpenStack { repo, dir })
            } else {
                quiet(
                    showing(
                        v,
                        ModalView::StackDiff {
                            repo,
                            dir,
                            branch,
                            parent,
                            lines,
                            truncated,
                            scroll: scrolled(scroll, diff_scroll(key, ctrl)),
                        },
                    ),
                )
            }
        },
    }
}

/// What a key does.
pub open spec fn key_step(v: AppView, key: Key, ctrl: bool) -> (AppView, EffectView) {
    let cleared = AppView { status: None, ..v };
    match v.modal {
        ModalView::Closed => plain_key(cleared, key),
        _ => modal_key(cleared, key, ctrl),
    }
}

// ---- handling keys ---------------------------------------------------------------------------------

fn ask(request: Request) -> (r: Effect)
    ensures
        r.deep_view() == (EffectView::Ask { request: request.deep_view() }),
{
    Effect::Ask { request }
}

/// Whether a space has a member of this name.
fn is_member(repos: &Vec<SpaceRepo>, name: &str) -> (r: bool)
    ensures
        r == has_member(repos.deep_view(), name@),
{
    for i in 0..repos.len()
        invariant
            forall|j: int| 0 <= j < i ==> (#[trigger] repos.deep_view()[j]).name != name@,
    {
        assert(repos.deep_view()[i as int].name == repos@[i as int].name@);
        if same(repos[i].name.as_str(), name) {
            return true;
        }
    }
    false
}

fn copy_items(items: &Vec<PickerItem>) -> (r: Vec<PickerItem>)
    ensures
        r.deep_view() == items.deep_view(),
{
    let mut out: Vec<PickerItem> = Vec::new();
    let ghost view = items.deep_view();
    for i in 0..items.len()
        invariant
            view == items.deep_view(),
            out.deep_view() == view.take(i as int),
    {
        let ghost before = out.deep_view();
        let item = PickerItem { name: items[i].name.clone(), added: items[i].added };
        out.push(item);
        assert(out.deep_view() == before.push(item.deep_view()));
        assert(view[i as int] == item.deep_view());
    }
    assert(view.take(items@.len() as int) == view);
    out
}

fn make_rows(pool: &Vec<PoolRepo>, repos: &Vec<SpaceRepo>) -> (r: Vec<PickerItem>)
    ensures
        r.deep_view() == picker_rows(pool.deep_view(), repos.deep_view()),
{
    let ghost all = pool.deep_view();
    let ghost rv = repos.deep_view();
    let ghost want = all.map_values(|p: PoolRepoView| picker_row(p, rv));
    let mut out: Vec<PickerItem> = Vec::new();
    for i in 0..pool.len()
        invariant
            all == pool.deep_view(),
            rv == repos.deep_view(),
            want == all.map_values(|p: PoolRepoView| picker_row(p, rv)),
            out.deep_view() == want.take(i as int),
    {
        let ghost before = out.deep_view();
        let parts = split(pool[i].name.as_str(), '/');
        let n = parts.len();
        assert(parts.deep_view()[n - 1] == parts@[n - 1]@);
        let item = PickerItem {
            name: pool[i].name.clone(),
            added: is_member(repos, parts[n - 1].as_str()),
        };
        out.push(item);
        assert(out.deep_view() == before.push(item.deep_view()));
        assert(all[i as int] == pool@[i as int].deep_view());
        assert(want[i as int] == item.deep_view());
        assert(want.take(i + 1) == want.take(i as int).push(want[i as int]));
    }
    assert(want.take(pool@.len() as int) == want);
    sort(&mut out);
    out
}

fn filter_rows(all: &Vec<PickerItem>, filter: &str) -> (r: Vec<PickerItem>)
    ensures
        r.deep_view() == filtered(all.deep_view(), filter@),
{
    let needle = to_lower(filter);
    let ghost view = all.deep_view();
    let mut out: Vec<PickerItem> = Vec::new();
    assert(view.take(0) == Seq::<PickerItemView>::empty());
    assert(out.deep_view() == Seq::<PickerItemView>::empty());
    for i in 0..all.len()
        invariant
            view == all.deep_view(),
            needle@ == lowercase(filter@),
            out.deep_view() == filtered(view.take(i as int), filter@),
    {
        let ghost before = out.deep_view();
        assert(view.take(i + 1).drop_last() == view.take(i as int));
        assert(view.take(i + 1).last() == all@[i as int].deep_view());
        let low = to_lower(all[i].name.as_str());
        if holds(low.as_str(), needle.as_str()) {
            let item = PickerItem { name: all[i].name.clone(), added: all[i].added };
            out.push(item);
            assert(out.deep_view() == before.push(item.deep_view()));
        }
    }
    assert(view.take(all@.len() as int) == view);
    out
}

/// Case-insensitive substring filter; keeps the selection on a valid row.
fn refilter_picker(all: Vec<PickerItem>, filter: String, state: ListState) -> (r: Modal)
    ensures
        r.deep_view() == refiltered(all.deep_view(), filter@, state),
{
    let candidates = filter_rows(&all, filter.as_str());
    let state = keep_inside(state, candidates.len());
    Modal::RepoPicker { all, candidates, filter, state }
}

/// How a member that the tool did not make fares in a pull.
pub fn skipped() -> (r: String)
    ensures
        r@ == "not space-managed, skipped"@,
{
    "not space-managed, skipped".to_owned()
}

fn make_jobs(space: &Space) -> (r: Vec<PullJob>)
    ensures
        r.deep_view() == pull_jobs(space.deep_view()),
{
    let ghost want = pull_jobs(space.deep_view());
    let mut out: Vec<PullJob> = Vec::new();
    for i in 0..space.repos.len()
        invariant
            want == pull_jobs(space.deep_view()),
            out.deep_view() == want.take(i as int),
    {
        let ghost before = out.deep_view();
        let repo = &space.repos[i];
        let foreign = match &repo.state {
            RepoState::Foreign => true,
            _ => false,
        };
        let job = PullJob {
            repo: repo.name.clone(),
            dir: join(space.path.as_str(), repo.name.as_str()),
            foreign,
        };
        out.push(job);
        assert(out.deep_view() == before.push(job.deep_view()));
        assert(space.deep_view().repos[i as int] == repo.deep_view());
        assert(want[i as int] == job.deep_view());
        assert(want.take(i + 1) == want.take(i as int).push(want[i as int]));
    }
    assert(want.take(space.repos@.len() as int) == want);
    out
}

fn scroll_by(at: u16, by: i32) -> (r: u16)
    requires
        -100 <= by <= 100,
    ensures
        r == scrolled(at, by as int),
{
    let to: i32 = at as i32 + by;
    if to < 0 {
        0
    } else if to > 65535 {
        65535
    } else {
        to as u16
    }
}

impl App {
    /// The selected space.
    pub fn selected_space(&self) -> (r: Option<&Space>)
        ensures
            match r {
                Some(s) => space_chosen(self.deep_view()) == Some(s.deep_view()),
                None => space_chosen(self.deep_view()) is None,
            },
    {
        let r = pick(&self.spaces, self.space_state);
        proof {
            if r is Some {
                let i = self.space_state.selected->0 as int;
                assert(self.spaces.deep_view()[i] == self.spaces@[i].deep_view());
            }
        }
        r
    }

    /// The selected member of the selected space.
    pub fn selected_repo(&self) -> (r: Option<&SpaceRepo>)
        ensures
            match r {
                Some(x) => repo_chosen(self.deep_view()) == Some(x.deep_view()) && space_chosen(
                    self.deep_view(),
                ) is Some,
                None => repo_chosen(self.deep_view()) is None,
            },
    {
        match self.selected_space() {
            Some(space) => {
                let r = pick(&space.repos, self.repo_state);
                proof {
                    if r is Some {
                        let i = self.repo_state.selected->0 as int;
                        assert(space.repos.deep_view()[i] == space.repos@[i].deep_view());
                    }
                }
                r
            },
            None => None,
        }
    }

    fn repo_len(&self) -> (r: usize)
        ensures
            r == repo_count(self.deep_view()),
    {
        match self.selected_space() {
            Some(s) => s.repos.len(),
            None => 0,
        }
    }

    fn clamp_repo_selection(&mut self)
        ensures
            final(self).deep_view() == repo_clamped(old(self).deep_view()),
    {
        let n = self.repo_len();
        self.repo_state = keep_inside(self.repo_state, n);
    }

    fn backend_ok(&self, b: Backend) -> (r: bool)
        ensures
            r == can_run(self.deep_view(), b),
    {
        match b {
            Backend::Claude => self.claude_ok,
            Backend::Codex => self.codex_ok,
        }
    }

    /// Indices (into `sessions`) of conversations whose cwd is inside `space`.
    pub fn space_session_indices(&self, space: &Space) -> (r: Vec<usize>)
        ensures
            r@ == rows(self.deep_view().sessions, held_in(space.path@)),
    {
        sessions_under(&self.sessions, space.path.as_str())
    }

    fn convo_rows(&self) -> (r: Vec<usize>)
        ensures
            r@ == convos(self.deep_view()),
    {
        match self.selected_space() {
            Some(s) => self.space_session_indices(s),
            None => Vec::new(),
        }
    }

    fn selected_space_session_index(&self) -> (r: Option<usize>)
        ensures
            r == convo_chosen(self.deep_view()),
    {
        let all = self.convo_rows();
        match pick(&all, self.convo_state) {
            Some(i) => Some(*i),
            None => None,
        }
    }

    /// The conversation highlighted in the selected space's pane.
    pub fn selected_space_session(&self) -> (r: Option<&Session>)
        ensures
            match convo_chosen(self.deep_view()) {
                Some(i) => r matches Some(s) && i < self.sessions@.len() && s.deep_view()
                    == self.deep_view().sessions[i as int],
                None => r is None,
            },
    {
        match self.selected_space_session_index() {
            Some(i) => {
                let n = self.sessions.len();
                proof {
                    let v = self.deep_view();
                    let s = space_chosen(v)->0;
                    assert(v.sessions.len() == n);
                    lemma_rows_inside(
                        v.sessions,
                        held_in(s.path),
                        self.convo_state.selected->0 as int,
                    );
                }
                assert(self.deep_view().sessions[i as int] == self.sessions@[i as int].deep_view());
                Some(&self.sessions[i])
            },
            None => None,
        }
    }

    fn say(&mut self, message: String)
        ensures
            final(self).deep_view() == said(old(self).deep_view(), message@),
    {
        self.status = Some(message);
    }

    fn launch(&mut self, backend: Backend) -> (r: Effect)
        ensures
            (final(self).deep_view(), r.deep_view()) == launching(old(self).deep_view(), backend),
    {
        if !self.backend_ok(backend) {
            let message = cat(backend.label(&self.names), " is not on PATH");
            self.say(message);
            return Effect::Nothing;
        }
        let cwd = match self.selected_space() {
            Some(space) => Some(space.path.clone()),
            None => None,
        };
        match cwd {
            Some(cwd) => Effect::LaunchNew { backend, cwd },
            None => {
                self.say("no space selected".to_owned());
                Effect::Nothing
            },
        }
    }

    fn resume_index(&mut self, idx: Option<usize>, fork: bool) -> (r: Effect)
        ensures
            (final(self).deep_view(), r.deep_view()) == resuming(old(self).deep_view(), idx, fork),
    {
        let i = match idx {
            Some(i) => i,
            None => {
                return Effect::Nothing;
            },
        };
        if i >= self.sessions.len() {
            return Effect::Nothing;
        }
        assert(self.deep_view().sessions[i as int] == self.sessions@[i as int].deep_view());
        let backend = self.sessions[i].backend;
        let cwd = self.sessions[i].cwd.clone();
        let id = self.sessions[i].id.clone();
        if !self.backend_ok(backend) {
            let message = cat(backend.label(&self.names), " is not on PATH, cannot resume");
            self.say(message);
            return Effect::Nothing;
        }
        Effect::Resume { backend, cwd, id, fork }
    }

    fn open_convo_search(&mut self)
        ensures
            final(self).deep_view() == search_opened(old(self).deep_view()),
    {
        let filter = String::new();
        let matches = search_matches(&self.sessions, filter.as_str());
        let state = first_of(matches.len());
        self.modal = Modal::ConvoSearch { filter, matches, state, preview_scroll: 0 };
    }

    fn open_repo_picker(&mut self)
        ensures
            final(self).deep_view() == picker_opened(old(self).deep_view()),
    {
        let all = match self.selected_space() {
            Some(space) => if self.pool.len() == 0 {
                None
            } else {
                Some(make_rows(&self.pool, &space.repos))
            },
            None => {
                self.say("create a space first (n)".to_owned());
                return;
            },
        };
        match all {
            Some(all) => {
                let candidates = copy_items(&all);
                self.modal = Modal::RepoPicker {
                    all,
                    candidates,
                    filter: String::new(),
                    state: selected0(),
                };
            },
            None => {
                self.say(cat3("no repos in ", pool_display(&self.layout).as_str(), " to add"));
            },
        }
    }

    fn start_pull(&mut self) -> (r: Effect)
        ensures
            (final(self).deep_view(), r.deep_view()) == pull_started(old(self).deep_view()),
    {
        if self.pull_active {
            self.say("a pull is already running".to_owned());
            return Effect::Nothing;
        }
        let start = match self.selected_space() {
            Some(space) => (space.name.clone(), make_jobs(space)),
            None => {
                self.say("no space selected".to_owned());
                return Effect::Nothing;
            },
        };
        let (name, jobs) = start;
        assert(jobs.deep_view().len() == jobs@.len());
        if jobs.len() == 0 {
            self.say("space has no repos".to_owned());
            return Effect::Nothing;
        }
        self.pull_active = true;
        self.pull_space = name;
        self.pull_total = jobs.len();
        self.pull_results = Vec::new();
        assert(results_view(self.pull_results@) == Seq::<
            (Seq<char>, Result<Seq<char>, Seq<char>>),
        >::empty());
        ask(Request::Pull { jobs })
    }

    fn space_and_repo(&self) -> (r: Option<(String, String)>)
        ensures
            match r {
                Some((path, name)) => space_chosen(self.deep_view()) is Some && repo_chosen(
                    self.deep_view(),
                ) is Some && path@ == space_chosen(self.deep_view())->0.path && name@
                    == repo_chosen(self.deep_view())->0.name,
                None => repo_chosen(self.deep_view()) is None,
            },
    {
        match (self.selected_space(), self.selected_repo()) {
            (Some(space), Some(repo)) => Some((space.path.clone(), repo.name.clone())),
            _ => None,
        }
    }

    fn remove_selected_repo(&mut self) -> (r: Effect)
        ensures
            (final(self).deep_view(), r.deep_view()) == remove_chosen(old(self).deep_view()),
    {
        match self.space_and_repo() {
            Some((space, repo)) => ask(Request::Remove { space, repo }),
            None => Effect::Nothing,
        }
    }

    fn revert_selected_repo(&mut self) -> (r: Effect)
        ensures
            (final(self).deep_view(), r.deep_view()) == revert_chosen(old(self).deep_view()),
    {
        let worktree = match self.selected_repo() {
            Some(repo) => match &repo.state {
                RepoState::Worktree { .. } => true,
                _ => false,
            },
            None => false,
        };
        match self.space_and_repo() {
            Some((space, repo)) => {
                if worktree {
                    ask(Request::Revert { space, repo })
                } else {
                    self.say("that repo is not a worktree".to_owned());
                    Effect::Nothing
                }
            },
            None => Effect::Nothing,
        }
    }

    fn open_stack(&mut self) -> (r: Effect)
        ensures
            (final(self).deep_view(), r.deep_view()) == stack_chosen(old(self).deep_view()),
    {
        let foreign = match self.selected_repo() {
            Some(repo) => match &repo.state {
                RepoState::Foreign => true,
                _ => false,
            },
            None => false,
        };
        match self.space_and_repo() {
            Some((space, repo)) => {
                if foreign {
                    self.say("not a repo".to_owned());
                    Effect::Nothing
                } else {
                    let dir = join(space.as_str(), repo.as_str());
                    ask(Request::OpenStack { repo, dir })
                }
            },
            None => Effect::Nothing,
        }
    }

    fn move_space(&mut self, up: bool)
        ensures
            final(self).deep_view() == space_moved(
                old(self).deep_view(),
                if up {
                    -1
                } else {
                    1
                },
            ),
    {
        self.space_state = move_list(self.space_state, self.spaces.len(), up);
        self.repo_state = selected0();
        self.convo_state = selected0();
        self.clamp_repo_selection();
    }

    fn on_spaces_key(&mut self, key: Key) -> (r: Effect)
        ensures
            (final(self).deep_view(), r.deep_view()) == spaces_key(old(self).deep_view(), key),
    {
        match key {
            Key::Down | Key::Char('j') => self.move_space(false),
            Key::Up | Key::Char('k') => self.move_space(true),
            Key::Right | Key::Char('l') => {
                if self.repo_len() > 0 {
                    self.pane = Pane::Repos;
                }
            },
            Key::Enter => {
                let cwd = match self.selected_space() {
                    Some(s) => Some(s.path.clone()),
                    None => None,
                };
                match cwd {
                    Some(cwd) => {
                        return Effect::Shell { cwd };
                    },
                    None => {},
                }
            },
            _ => {},
        }
        Effect::Nothing
    }

    /// The name of the selected member, and its branch where it is a worktree.
    fn repo_and_branch(&self) -> (r: Option<(String, Option<String>)>)
        ensures
            match r {
                Some((name, branch)) => repo_chosen(self.deep_view()) matches Some(x) && name@
                    == x.name && match branch {
                    Some(b) => x.state == (RepoStateView::Worktree { branch: b@ }),
                    None => !(x.state is Worktree),
                },
                None => repo_chosen(self.deep_view()) is None,
            },
    {
        match self.selected_repo() {
            Some(r) => match &r.state {
                RepoState::Worktree { branch } => Some((r.name.clone(), Some(branch.clone()))),
                _ => Some((r.name.clone(), None)),
            },
            None => None,
        }
    }

    fn on_repos_key(&mut self, key: Key) -> (r: Effect)
        ensures
            (final(self).deep_view(), r.deep_view()) == repos_key(old(self).deep_view(), key),
    {
        match key {
            Key::Down | Key::Char('j') => {
                self.repo_state = move_list(self.repo_state, self.repo_len(), false);
            },
            Key::Up | Key::Char('k') => {
                self.repo_state = move_list(self.repo_state, self.repo_len(), true);
            },
            Key::Left | Key::Char('h') => {
                self.pane = Pane::Spaces;
            },
            Key::Char('w') => {
                // Any managed member works: a new `<repo>-<branch>` worktree is
                // added beside it (parallel worktrees are fine).
                let managed = match self.selected_repo() {
                    Some(r) => match &r.state {
                        RepoState::Foreign => false,
                        _ => true,
                    },
                    None => false,
                };
                if managed {
                    self.modal = Modal::Input { kind: InputKind::Branch, buffer: String::new() };
                } else {
                    self.say("select a repo to add a worktree for".to_owned());
                }
            },
            Key::Char('s') => {
                return self.open_stack();
            },
            Key::Char('u') => match self.repo_and_branch() {
                Some((repo, Some(branch))) => {
                    self.modal = Modal::ConfirmRepo { kind: RepoConfirm::ToSymlink, repo, branch };
                },
                Some((_, None)) => {
                    self.say("that repo is not a worktree".to_owned());
                },
                None => {},
            },
            // Removing a symlink is trivially reversible; worktrees confirm.
            Key::Char('x') => match self.repo_and_branch() {
                Some((repo, Some(branch))) => {
                    self.modal = Modal::ConfirmRepo { kind: RepoConfirm::Remove, repo, branch };
                },
                Some((_, None)) => {
                    return self.remove_selected_repo();
                },
                None => {},
            },
            Key::Enter => match self.space_and_repo() {
                Some((space, repo)) => {
                    return Effect::Shell { cwd: join(space.as_str(), repo.as_str()) };
                },
                None => {},
            },
            _ => {},
        }
        Effect::Nothing
    }

    fn on_convos_key(&mut self, key: Key) -> (r: Effect)
        ensures
            (final(self).deep_view(), r.deep_view()) == convos_key(old(self).deep_view(), key),
    {
        match key {
            Key::Down | Key::Char('j') => {
                let n = self.convo_rows().len();
                self.convo_state = move_list(self.convo_state, n, false);
            },
            Key::Up | Key::Char('k') => {
                let n = self.convo_rows().len();
                self.convo_state = move_list(self.convo_state, n, true);
            },
            Key::Left | Key::Char('h') => {
                self.pane = Pane::Spaces;
            },
            Key::Enter => {
                let idx = self.selected_space_session_index();
                return self.resume_index(idx, false);
            },
            Key::Char('f') => {
                let idx = self.selected_space_session_index();
                return self.resume_index(idx, true);
            },
            _ => {},
        }
        Effect::Nothing
    }
}

/// The positions that a filter of the sessions leaves are positions of sessions.
proof fn lemma_rows_inside(
    sessions: Seq<SessionView>,
    keep: spec_fn(SessionView) -> bool,
    k: int,
)
    requires
        0 <= k < rows(sessions, keep).len(),
        sessions.len() <= usize::MAX,
    ensures
        rows(sessions, keep)[k] < sessions.len(),
        keep(sessions[rows(sessions, keep)[k] as int]),
    decreases sessions.len(),
{
    let before = rows(sessions.drop_last(), keep);
    if k < before.len() {
        lemma_rows_inside(sessions.drop_last(), keep, k);
        assert(sessions.drop_last()[before[k] as int] == sessions[before[k] as int]);
    }
}

impl App {
    fn close(&mut self)
        ensures
            final(self).deep_view() == showing(old(self).deep_view(), ModalView::Closed),
    {
        self.modal = Modal::Closed;
    }

    /// A key while text is typed; the modal itself has been taken out of the state.
    fn on_input_key(&mut self, kind: InputKind, buffer: String, key: Key) -> (r: Effect)
        ensures
            (final(self).deep_view(), r.deep_view()) == input_key(
                showing(old(self).deep_view(), ModalView::Input { kind, buffer: buffer@ }),
                kind,
                buffer@,
                key,
            ),
    {
        let mut buffer = buffer;
        match key {
            Key::Esc => {
                self.close();
                return Effect::Nothing;
            },
            Key::Backspace => {
                buffer.pop();
            },
            Key::Char(c) => {
                buffer.push(c);
            },
            Key::Enter => {
                return self.commit_input(kind, buffer);
            },
            _ => {},
        }
        self.modal = Modal::Input { kind, buffer };
        Effect::Nothing
    }

    fn commit_input(&mut self, kind: InputKind, buffer: String) -> (r: Effect)
        ensures
            (final(self).deep_view(), r.deep_view()) == input_key(
                showing(old(self).deep_view(), ModalView::Input { kind, buffer: buffer@ }),
                kind,
                buffer@,
                Key::Enter,
            ),
    {
        let copy = buffer.clone();
        self.modal = Modal::Input { kind, buffer };
        match kind {
            InputKind::NewSpace => ask(Request::CreateSpace { name: copy }),
            InputKind::Branch => match self.space_and_repo() {
                Some((space, repo)) => ask(Request::Promote { space, repo, branch: copy }),
                None => {
                    self.close();
                    ask(Request::Reload)
                },
            },
        }
    }

    /// A key in the picker; the modal itself has been taken out of the state.
    fn on_picker_key(
        &mut self,
        all: Vec<PickerItem>,
        candidates: Vec<PickerItem>,
        filter: String,
        state: ListState,
        key: Key,
    ) -> (r: Effect)
        ensures
            (final(self).deep_view(), r.deep_view()) == picker_key(
                showing(
                    old(self).deep_view(),
                    ModalView::RepoPicker {
                        all: all.deep_view(),
                        candidates: candidates.deep_view(),
                        filter: filter@,
                        state,
                    },
                ),
                all.deep_view(),
                candidates.deep_view(),
                filter@,
                state,
                key,
            ),
    {
        let mut filter = filter;
        let mut state = state;
        match key {
            Key::Esc => {
                self.close();
                return Effect::Nothing;
            },
            Key::Up => {
                state = move_list(state, candidates.len(), true);
            },
            Key::Down => {
                state = move_list(state, candidates.len(), false);
            },
            Key::Enter => {
                return self.commit_picker(all, candidates, filter, state);
            },
            // Printable keys type into the filter; navigate with the arrows.
            Key::Char(c) => {
                filter.push(c);
                self.modal = refilter_picker(all, filter, state);
                return Effect::Nothing;
            },
            Key::Backspace => {
                filter.pop();
                self.modal = refilter_picker(all, filter, state);
                return Effect::Nothing;
            },
            _ => {},
        }
        self.modal = Modal::RepoPicker { all, candidates, filter, state };
        Effect::Nothing
    }

    fn commit_picker(
        &mut self,
        all: Vec<PickerItem>,
        candidates: Vec<PickerItem>,
        filter: String,
        state: ListState,
    ) -> (r: Effect)
        ensures
            (final(self).deep_view(), r.deep_view()) == picker_key(
                showing(
                    old(self).deep_view(),
                    ModalView::RepoPicker {
                        all: all.deep_view(),
                        candidates: candidates.deep_view(),
                        filter: filter@,
                        state,
                    },
                ),
                all.deep_view(),
                candidates.deep_view(),
                filter@,
                state,
                Key::Enter,
            ),
    {
        let picked = match pick(&candidates, state) {
            Some(item) => {
                let ghost i = state.selected->0 as int;
                assert(candidates.deep_view()[i] == item.deep_view());
                Some((item.name.clone(), item.added))
            },
            None => None,
        };
        let keep = filter.clone();
        self.modal = Modal::RepoPicker { all, candidates, filter, state };
        match picked {
            Some((repo, added)) => {
                if added {
                    self.say(cat(repo.as_str(), " is already in this space"));
                    return Effect::Nothing;
                }
                let space = match self.selected_space() {
                    Some(space) => Some(space.path.clone()),
                    None => None,
                };
                match space {
                    Some(space) => ask(Request::AddRepo { space, repo, filter: keep }),
                    None => Effect::Nothing,
                }
            },
            None => Effect::Nothing,
        }
    }

    /// A key in the search; the modal itself has been taken out of the state.
    fn on_search_key(
        &mut self,
        filter: String,
        matches: Vec<usize>,
        state: ListState,
        preview_scroll: u16,
        key: Key,
        ctrl: bool,
    ) -> (r: Effect)
        ensures
            (final(self).deep_view(), r.deep_view()) == search_key(
                showing(
                    old(self).deep_view(),
                    ModalView::ConvoSearch {
                        filter: filter@,
                        matches: matches@,
                        state,
                        preview_scroll,
                    },
                ),
                filter@,
                matches@,
                state,
                preview_scroll,
                key,
                ctrl,
            ),
    {
        let mut filter = filter;
        let mut state = state;
        let mut preview_scroll = preview_scroll;
        match key {
            Key::Esc => {
                self.close();
                return Effect::Nothing;
            },
            Key::Up => {
                state = move_list(state, matches.len(), true);
                preview_scroll = 0;
            },
            Key::Down => {
                state = move_list(state, matches.len(), false);
                preview_scroll = 0;
            },
            Key::Char('d') if ctrl => {
                preview_scroll = scroll_by(preview_scroll, 10);
            },
            Key::Char('u') if ctrl => {
                preview_scroll = scroll_by(preview_scroll, -10);
            },
            Key::Char('f') if ctrl => {
                let idx = match pick(&matches, state) {
                    Some(i) => Some(*i),
                    None => None,
                };
                self.close();
                return self.resume_index(idx, true);
            },
            Key::Enter => {
                let idx = match pick(&matches, state) {
                    Some(i) => Some(*i),
                    None => None,
                };
                self.close();
                return self.resume_index(idx, false);
            },
            Key::Char(c) => {
                filter.push(c);
                self.search(filter);
                return Effect::Nothing;
            },
            Key::Backspace => {
                filter.pop();
                self.search(filter);
                return Effect::Nothing;
            },
            _ => {},
        }
        self.modal = Modal::ConvoSearch { filter, matches, state, preview_scroll };
        Effect::Nothing
    }

    fn search(&mut self, filter: String)
        ensures
            final(self).deep_view() == searched(old(self).deep_view(), filter@),
    {
        let matches = search_matches(&self.sessions, filter.as_str());
        let state = first_of(matches.len());
        self.modal = Modal::ConvoSearch { filter, matches, state, preview_scroll: 0 };
    }

    /// A key in the stack view; the modal itself has been taken out of the state.
    fn on_stack_key(
        &mut self,
        repo: String,
        dir: String,
        stack: Stack,
        prs: StringHashMap<PrInfo>,
        prs_loading: bool,
        state: ListState,
        key: Key,
    ) -> (r: Effect)
        ensures
            (final(self).deep_view(), r.deep_view()) == stack_key(
                showing(
                    old(self).deep_view(),
                    ModalView::Stack {
                        repo: repo@,
                        dir: dir@,
                        stack: stack.deep_view(),
                        prs: prs_view(prs@),
                        prs_loading,
                        state,
                    },
                ),
                repo@,
                dir@,
                stack.deep_view(),
                prs_view(prs@),
                prs_loading,
                state,
                key,
            ),
    {
        let mut state = state;
        let mut effect = Effect::Nothing;
        match key {
            Key::Esc | Key::Char('q') => {
                self.pr_wait = None;
                self.close();
                return Effect::Nothing;
            },
            Key::Up | Key::Char('k') => {
                state = move_list(state, stack.entries.len(), true);
            },
            Key::Down | Key::Char('j') => {
                state = move_list(state, stack.entries.len(), false);
            },
            Key::Enter => match pick(&stack.entries, state) {
                Some(e) => {
                    let ghost i = state.selected->0 as int;
                    assert(stack.entries.deep_view()[i] == e.deep_view());
                    match page_of(e, &stack, &prs) {
                        Some(url) => {
                            effect = ask(Request::OpenUrl { url });
                        },
                        None => {
                            self.say("origin is not a GitHub remote".to_owned());
                        },
                    }
                },
                None => {},
            },
            Key::Char('d') => match pick(&stack.entries, state) {
                Some(e) => {
                    let ghost i = state.selected->0 as int;
                    assert(stack.entries.deep_view()[i] == e.deep_view());
                    let branch = e.branch.clone();
                    let parent = e.parent.clone();
                    let (repo, dir) = (repo.clone(), dir.clone());
                    // With delta there is a real pager with the user's own config
                    // (side-by-side, syntax highlighting); the event loop suspends the TUI.
                    if self.delta_ok {
                        effect = Effect::Diff { repo, dir, parent, branch };
                    } else {
                        effect = ask(Request::LayerDiff { repo, dir, branch, parent });
                    }
                },
                None => {},
            },
            _ => {},
        }
        self.modal = Modal::Stack { repo, dir, stack, prs, prs_loading, state };
        effect
    }

    fn on_modal_key(&mut self, key: Key, ctrl: bool) -> (r: Effect)
        ensures
            (final(self).deep_view(), r.deep_view()) == modal_key(
                old(self).deep_view(),
                key,
                ctrl,
            ),
    {
        let mut modal = Modal::Closed;
        std::mem::swap(&mut modal, &mut self.modal);
        match modal {
            Modal::Closed => Effect::Nothing,
            Modal::Input { kind, buffer } => self.on_input_key(kind, buffer, key),
            Modal::RepoPicker { all, candidates, filter, state } => self.on_picker_key(
                all,
                candidates,
                filter,
                state,
                key,
            ),
            Modal::ConvoSearch { filter, matches, state, preview_scroll } => self.on_search_key(
                filter,
                matches,
                state,
                preview_scroll,
                key,
                ctrl,
            ),
            Modal::ConfirmDeleteSpace { .. } => {
                let space = match self.selected_space() {
                    Some(s) => Some(s.path.clone()),
                    None => None,
                };
                match (key, space) {
                    (Key::Char('y'), Some(space)) => ask(Request::DeleteSpace { space }),
                    _ => Effect::Nothing,
                }
            },
            Modal::ConfirmRepo { kind, .. } => match key {
                Key::Char('y') => match kind {
                    RepoConfirm::Remove => self.remove_selected_repo(),
                    RepoConfirm::ToSymlink => self.revert_selected_repo(),
                },
                _ => Effect::Nothing,
            },
            Modal::PullResults { .. } => Effect::Nothing,
            Modal::Stack { repo, dir, stack, prs, prs_loading, state } => self.on_stack_key(
                repo,
                dir,
                stack,
                prs,
                prs_loading,
                state,
                key,
            ),
            Modal::StackDiff { repo, dir, branch, parent, lines, truncated, scroll } => {
                let by: i32 = match key {
                    // Back to the stack view for the same repo dir.
                    Key::Esc | Key::Char('q') => {
                        return ask(Request::OpenStack { repo, dir });
                    },
                    Key::Up | Key::Char('k') => -1,
                    Key::Down | Key::Char('j') => 1,
                    Key::Char('u') if ctrl => -20,
                    Key::Char('d') if ctrl => 20,
                    Key::PageUp => -40,
                    Key::PageDown => 40,
                    _ => 0,
                };
                let scroll = scroll_by(scroll, by);
                self.modal = Modal::StackDiff {
                    repo,
                    dir,
                    branch,
                    parent,
                    lines,
                    truncated,
                    scroll,
                };
                Effect::Nothing
            },
        }
    }

    /// What a key does to the state, and what the event loop has to do for it.
    pub fn on_key(&mut self, key: Key, ctrl: bool) -> (r: Effect)
        ensures
            (final(self).deep_view(), r.deep_view()) == key_step(old(self).deep_view(), key, ctrl),
    {
        self.status = None;
        match &self.modal {
            Modal::Closed => {},
            _ => {
                return self.on_modal_key(key, ctrl);
            },
        }
        match key {
            Key::Char('q') | Key::Esc => {
                return Effect::Quit;
            },
            Key::Tab => {
                self.pane = match self.pane {
                    Pane::Spaces => Pane::Repos,
                    Pane::Repos => Pane::Convos,
                    Pane::Convos => Pane::Spaces,
                };
            },
            Key::Char('/') => self.open_convo_search(),
            Key::Char('n') => {
                self.modal = Modal::Input { kind: InputKind::NewSpace, buffer: String::new() };
            },
            Key::Char('a') => self.open_repo_picker(),
            Key::Char('p') => {
                return self.start_pull();
            },
            Key::Char('c') => {
                return self.launch(Backend::Claude);
            },
            Key::Char('o') => {
                return self.launch(Backend::Codex);
            },
            Key::Char('D') => {
                let name = match self.selected_space() {
                    Some(s) => Some(s.name.clone()),
                    None => None,
                };
                match name {
                    Some(name) => {
                        self.modal = Modal::ConfirmDeleteSpace { name };
                    },
                    None => {},
                }
            },
            _ => {
                return match self.pane {
                    Pane::Spaces => self.on_spaces_key(key),
                    Pane::Repos => self.on_repos_key(key),
                    Pane::Convos => self.on_convos_key(key),
                };
            },
        }
        Effect::Nothing
    }
}

/// The page of a stack entry: PR url when one exists, otherwise the GitHub compare page.
fn page_of(
    e: &crate::stack::StackEntry,
    stack: &Stack,
    prs: &StringHashMap<PrInfo>,
) -> (r: Option<String>)
    ensures
        r.deep_view() == entry_page(e.deep_view(), stack.deep_view(), prs_view(prs@)),
{
    match prs.get(e.branch.as_str()) {
        Some(pr) => {
            if !pr.url.as_str().is_empty() {
                return Some(pr.url.clone());
            }
        },
        None => {},
    }
    match &stack.slug {
        Some(slug) => Some(compare_url(slug.as_str(), e.parent.as_str(), e.branch.as_str())),
        None => None,
    }
}

// ---- outcomes --------------------------------------------------------------------------------------

/// The state at the start: the first space selected, sessions still loading.
pub open spec fn started(
    names: AgentNamesView,
    layout: LayoutView,
    claude_ok: bool,
    codex_ok: bool,
    delta_ok: bool,
    now: i64,
    spaces: Seq<SpaceView>,
    pool: Seq<PoolRepoView>,
) -> AppView {
    reloaded(
        AppView {
            names,
            layout,
            pane: Pane::Spaces,
            modal: ModalView::Closed,
            status: None,
            now,
            claude_ok,
            codex_ok,
            delta_ok,
            spaces: Seq::empty(),
            pool: Seq::empty(),
            space_state: ListState { selected: Some(0) },
            repo_state: ListState { selected: Some(0) },
            convo_state: ListState { selected: Some(0) },
            sessions: Seq::empty(),
            loading: true,
            pull_active: false,
            pull_space: Seq::empty(),
            pull_total: 0,
            pull_results: Seq::empty(),
            pr_wait: None,
            pr_cache: Map::empty(),
        },
        spaces,
        pool,
    )
}

/// The state with another session, the newest first; an open search follows.
pub open spec fn session_added(v: AppView, s: SessionView) -> AppView {
    let sessions = sorted_stably(v.sessions.push(s), newest_first());
    AppView {
        sessions,
        modal: match v.modal {
            ModalView::ConvoSearch { filter, matches, state, preview_scroll } =>
                ModalView::ConvoSearch {
                filter,
                matches: found(sessions, filter),
                state,
                preview_scroll,
            },
            other => other,
        },
        ..v
    }
}

/// The outcomes among the messages of a pull.
pub open spec fn outcomes(msgs: Seq<PullMsg>) -> Seq<(Seq<char>, Result<Seq<char>, Seq<char>>)>
    decreases msgs.len(),
{
    if msgs.len() == 0 {
        Seq::empty()
    } else {
        match msgs.last() {
            PullMsg::One { repo, result } => outcomes(msgs.drop_last()).push(
                (repo@, reply_view(result)),
            ),
            PullMsg::Done => outcomes(msgs.drop_last()),
        }
    }
}

/// The state after messages of a pull: the outcomes gather, and at the end they are shown.
pub open spec fn pull_polled(v: AppView, msgs: Seq<PullMsg>) -> AppView {
    let results = v.pull_results + outcomes(msgs);
    if !v.pull_active {
        v
    } else if msgs.contains(PullMsg::Done) {
        AppView {
            pull_active: false,
            pull_space: Seq::empty(),
            pull_results: Seq::empty(),
            modal: ModalView::PullResults { space: v.pull_space, results },
            ..v
        }
    } else {
        AppView { pull_results: results, ..v }
    }
}

/// Pull requests by head branch, those of `list` added; the first per branch counts.
pub open spec fn first_wins(
    prs: Map<Seq<char>, PrInfoView>,
    list: Seq<(Seq<char>, PrInfoView)>,
) -> Map<Seq<char>, PrInfoView>
    decreases list.len(),
{
    if list.len() == 0 {
        prs
    } else {
        let before = first_wins(prs, list.drop_last());
        if before.contains_key(list.last().0) {
            before
        } else {
            before.insert(list.last().0, list.last().1)
        }
    }
}

/// Whether the metadata of a slug is in the cache and still fresh.
pub open spec fn is_fresh(cache: Map<Seq<char>, CachedPrsView>, slug: Seq<char>, clock: u64) -> bool {
    cache.contains_key(slug) && clock - cache[slug].at < PR_CACHE_TTL
}

/// The state with a stack view, or with why there is none; and the slug whose metadata is
/// to be fetched, where it is not cached.
pub open spec fn stack_opened(
    v: AppView,
    repo: Seq<char>,
    dir: Seq<char>,
    outcome: Result<StackView, Seq<char>>,
    clock: u64,
) -> (AppView, Option<Seq<char>>) {
    let state = ListState { selected: Some(0) };
    match outcome {
        Ok(stack) => match stack.slug {
            Some(slug) => if is_fresh(v.pr_cache, slug, clock) {
                let prs = first_wins(Map::empty(), v.pr_cache[slug].list);
                (
                    showing(
                        v,
                        ModalView::Stack { repo, dir, stack, prs, prs_loading: false, state },
                    ),
                    None,
                )
            } else {
                (
                    AppView {
                        pr_wait: Some(slug),
                        modal: ModalView::Stack {
                            repo,
                            dir,
                            stack,
                            prs: Map::empty(),
                            prs_loading: true,
                            state,
                        },
                        ..v
                    },
                    Some(slug),
                )
            },
            None => (
                showing(
                    v,
                    ModalView::Stack {
                        repo,
                        dir,
                        stack,
                        prs: Map::empty(),
                        prs_loading: false,
                        state,
                    },
                ),
                None,
            ),
        },
        Err(report) => (said(v, report), None),
    }
}

/// The state after the metadata that was waited for has come.
pub open spec fn prs_polled(
    v: AppView,
    result: Option<Seq<(Seq<char>, PrInfoView)>>,
    clock: u64,
) -> AppView {
    match v.pr_wait {
        Some(slug) => AppView {
            pr_wait: None,
            pr_cache: match result {
                Some(list) => v.pr_cache.insert(slug, CachedPrsView { at: clock, list }),
                None => v.pr_cache,
            },
            modal: match v.modal {
                ModalView::Stack { repo, dir, stack, prs, prs_loading, state } => ModalView::Stack {
                    repo,
                    dir,
                    stack,
                    prs: match result {
                        Some(list) => first_wins(prs, list),
                        None => prs,
                    },
                    prs_loading: false,
                    state,
                },
                other => other,
            },
            ..v
        },
        None => v,
    }
}

/// A scan of spaces and pool over text.
pub open spec fn scan_view(scan: (Vec<Space>, Vec<PoolRepo>)) -> (
    Seq<SpaceView>,
    Seq<PoolRepoView>,
) {
    (scan.0.deep_view(), scan.1.deep_view())
}

/// The state after a repo was added, or was not.
pub open spec fn repo_added(
    v: AppView,
    outcome: Result<(Seq<SpaceView>, Seq<PoolRepoView>), Seq<char>>,
    keep: Seq<char>,
) -> AppView {
    match outcome {
        Ok((spaces, pool)) => {
            let w = picker_opened(reloaded(v, spaces, pool));
            match w.modal {
                ModalView::RepoPicker { all, candidates, filter, state } => showing(
                    w,
                    refiltered(all, keep, state),
                ),
                _ => w,
            }
        },
        Err(report) => showing(said(v, report), ModalView::Closed),
    }
}

/// The state with the failure of an action in the status bar, where it failed.
pub open spec fn reported(v: AppView, failure: Option<Seq<char>>) -> AppView {
    match failure {
        Some(report) => said(v, report),
        None => v,
    }
}

/// The state after a member was removed, or was not.
pub open spec fn repo_removed(
    v: AppView,
    failure: Option<Seq<char>>,
    spaces: Seq<SpaceView>,
    pool: Seq<PoolRepoView>,
) -> AppView {
    let w = reloaded(reported(v, failure), spaces, pool);
    if repo_count(w) == 0 {
        AppView { pane: Pane::Spaces, ..w }
    } else {
        w
    }
}

fn copy_pr(pr: &PrInfo) -> (r: PrInfo)
    ensures
        r.deep_view() == pr.deep_view(),
{
    PrInfo {
        number: pr.number,
        url: pr.url.clone(),
        state: pr.state.clone(),
        title: pr.title.clone(),
    }
}

fn copy_prs(list: &Vec<(String, PrInfo)>) -> (r: Vec<(String, PrInfo)>)
    ensures
        r.deep_view() == list.deep_view(),
{
    let mut out: Vec<(String, PrInfo)> = Vec::new();
    let ghost view = list.deep_view();
    for i in 0..list.len()
        invariant
            view == list.deep_view(),
            out.deep_view() == view.take(i as int),
    {
        let ghost before = out.deep_view();
        let pair = (list[i].0.clone(), copy_pr(&list[i].1));
        out.push(pair);
        assert(out.deep_view() == before.push((pair.0@, pair.1.deep_view())));
        assert(view[i as int] == (pair.0@, pair.1.deep_view()));
    }
    assert(view.take(list@.len() as int) == view);
    out
}

/// Keep the first (most recent) PR per head branch.
fn merge_prs(prs: &mut StringHashMap<PrInfo>, list: &Vec<(String, PrInfo)>)
    ensures
        prs_view(final(prs)@) == first_wins(prs_view(old(prs)@), list.deep_view()),
{
    let ghost start = prs_view(prs@);
    let ghost view = list.deep_view();
    assert(view.take(0) == Seq::<(Seq<char>, PrInfoView)>::empty());
    for i in 0..list.len()
        invariant
            view == list.deep_view(),
            prs_view(prs@) == first_wins(start, view.take(i as int)),
    {
        let ghost had = prs@;
        assert(view.take(i + 1).drop_last() == view.take(i as int));
        assert(view.take(i + 1).last() == (list@[i as int].0@, list@[i as int].1.deep_view()));
        if !prs.contains_key(list[i].0.as_str()) {
            let info = copy_pr(&list[i].1);
            prs.insert(list[i].0.clone(), info);
            assert(prs_view(prs@) == prs_view(had).insert(list@[i as int].0@, info.deep_view()));
        }
    }
    assert(view.take(list@.len() as int) == view);
}

fn find_space(spaces: &Vec<Space>, name: &str) -> (r: Option<usize>)
    ensures
        match r {
            Some(i) => i < spaces@.len() && space_from(spaces.deep_view(), name@, 0) == Some(
                i as int,
            ),
            None => space_from(spaces.deep_view(), name@, 0) is None,
        },
{
    let ghost view = spaces.deep_view();
    let mut i: usize = 0;
    while i < spaces.len()
        invariant
            i <= spaces@.len(),
            view == spaces.deep_view(),
            space_from(view, name@, 0) == space_from(view, name@, i as int),
        decreases spaces@.len() - i,
    {
        assert(view[i as int] == spaces@[i as int].deep_view());
        if same(spaces[i].name.as_str(), name) {
            return Some(i);
        }
        i = i + 1;
    }
    None
}

impl App {
    /// The state at the start, over what a scan of spaces and pool found; `now` is the time
    /// in epoch seconds.
    pub fn new(
        names: AgentNames,
        layout: Layout,
        claude_ok: bool,
        codex_ok: bool,
        delta_ok: bool,
        now: i64,
        spaces: Vec<Space>,
        pool: Vec<PoolRepo>,
    ) -> (r: App)
        ensures
            r.deep_view() == started(
                names.deep_view(),
                layout.deep_view(),
                claude_ok,
                codex_ok,
                delta_ok,
                now,
                spaces.deep_view(),
                pool.deep_view(),
            ),
    {
        let mut app = App {
            names,
            layout,
            pane: Pane::Spaces,
            modal: Modal::Closed,
            status: None,
            now,
            claude_ok,
            codex_ok,
            delta_ok,
            spaces: Vec::new(),
            pool: Vec::new(),
            space_state: selected0(),
            repo_state: selected0(),
            convo_state: selected0(),
            sessions: Vec::new(),
            loading: true,
            pull_active: false,
            pull_space: String::new(),
            pull_total: 0,
            pull_results: Vec::new(),
            pr_wait: None,
            pr_cache: StringHashMap::new(),
        };
        assert(app.spaces.deep_view() == Seq::<SpaceView>::empty());
        assert(app.pool.deep_view() == Seq::<PoolRepoView>::empty());
        assert(app.sessions.deep_view() == Seq::<SessionView>::empty());
        assert(results_view(app.pull_results@) == Seq::<
            (Seq<char>, Result<Seq<char>, Seq<char>>),
        >::empty());
        assert(cache_view(app.pr_cache@) == Map::<Seq<char>, CachedPrsView>::empty());
        app.reload_spaces(spaces, pool);
        app
    }

    /// Take over a re-scan of spaces + pool, preserving the selected space by name.
    pub fn reload_spaces(&mut self, spaces: Vec<Space>, pool: Vec<PoolRepo>)
        ensures
            final(self).deep_view() == reloaded(
                old(self).deep_view(),
                spaces.deep_view(),
                pool.deep_view(),
            ),
    {
        let at = match self.selected_space() {
            Some(s) => find_space(&spaces, s.name.as_str()),
            None => None,
        };
        assert(spaces.deep_view().len() == spaces@.len());
        self.space_state = ListState {
            selected: if spaces.len() == 0 {
                None
            } else {
                match at {
                    Some(i) => Some(i),
                    None => Some(0),
                }
            },
        };
        self.spaces = spaces;
        self.pool = pool;
        self.clamp_repo_selection();
    }

    /// Take over a session that was loaded.
    pub fn add_session(&mut self, s: Session)
        ensures
            final(self).deep_view() == session_added(old(self).deep_view(), s.deep_view()),
    {
        let ghost before = self.sessions.deep_view();
        self.sessions.push(s);
        assert(self.sessions.deep_view() == before.push(s.deep_view()));
        sort(&mut self.sessions);
        // Keep an open search consistent while sessions stream in.
        let mut modal = Modal::Closed;
        std::mem::swap(&mut modal, &mut self.modal);
        self.modal = match modal {
            Modal::ConvoSearch { filter, matches, state, preview_scroll } => {
                let matches = search_matches(&self.sessions, filter.as_str());
                Modal::ConvoSearch { filter, matches, state, preview_scroll }
            },
            other => other,
        };
    }

    /// Whether a pull is in flight.
    pub fn pulling(&self) -> (r: bool)
        ensures
            r == self.deep_view().pull_active,
    {
        self.pull_active
    }

    /// Status-bar text while a pull is in flight.
    pub fn pull_progress(&self) -> (r: Option<String>)
        ensures
            r.deep_view() == ({
                let v = self.deep_view();
                if v.pull_active {
                    Some(
                        "pulling "@ + v.pull_space + " "@ + decimal_of(v.pull_results.len()) + "/"@
                            + decimal_of(v.pull_total as nat),
                    )
                } else {
                    None
                }
            }),
    {
        if self.pull_active {
            let done = decimal(self.pull_results.len() as u64);
            let total = decimal(self.pull_total as u64);
            Some(
                cat6(
                    "pulling ",
                    self.pull_space.as_str(),
                    " ",
                    done.as_str(),
                    "/",
                    total.as_str(),
                ),
            )
        } else {
            None
        }
    }

    /// Take over pull progress; called every frame by the event loop.
    pub fn poll_pull(&mut self, msgs: Vec<PullMsg>)
        ensures
            final(self).deep_view() == pull_polled(old(self).deep_view(), msgs@),
    {
        if !self.pull_active {
            return;
        }
        let ghost start = self.deep_view();
        let ghost all = msgs@;
        let mut msgs = msgs;
        let mut done = false;
        let n = msgs.len();
        let mut i: usize = 0;
        assert(all.take(0) == Seq::<PullMsg>::empty());
        assert(start.pull_results + outcomes(all.take(0)) == start.pull_results);
        assert(all.skip(0) == all);
        while i < n
            invariant
                i <= n,
                n == all.len(),
                msgs@ == all.skip(i as int),
                self.deep_view() == (AppView {
                    pull_results: start.pull_results + outcomes(all.take(i as int)),
                    ..start
                }),
                done == all.take(i as int).contains(PullMsg::Done),
            decreases n - i,
        {
            let ghost had = self.pull_results@;
            assert(all.take(i + 1).drop_last() == all.take(i as int));
            assert(all.take(i + 1).last() == all[i as int]);
            assert(all.take(i + 1) == all.take(i as int).push(all[i as int]));
            proof {
                lemma_push_contains(all.take(i as int), all[i as int], PullMsg::Done);
            }
            let msg = msgs.remove(0);
            assert(msgs@ == all.skip(i + 1));
            match msg {
                PullMsg::One { repo, result } => {
                    let pair = (repo, result);
                    self.pull_results.push(pair);
                    assert(results_view(self.pull_results@) == results_view(had).push(
                        (repo@, reply_view(result)),
                    ));
                },
                PullMsg::Done => {
                    done = true;
                },
            }
            assert(self.deep_view().pull_results == start.pull_results + outcomes(
                all.take(i + 1),
            ));
            i = i + 1;
        }
        assert(all.take(n as int) == all);
        if done {
            self.pull_active = false;
            let mut space = String::new();
            let mut results: Vec<(String, Result<String, String>)> = Vec::new();
            std::mem::swap(&mut space, &mut self.pull_space);
            std::mem::swap(&mut results, &mut self.pull_results);
            assert(results_view(self.pull_results@) == Seq::<
                (Seq<char>, Result<Seq<char>, Seq<char>>),
            >::empty());
            self.modal = Modal::PullResults { space, results };
        }
    }

    /// Show the branch stack of a repo, or why there is none. Hands out the slug whose PR
    /// metadata is to be fetched; `clock` is the time in nanoseconds of a clock that never
    /// goes back.
    pub fn open_stack_at(
        &mut self,
        repo: String,
        dir: String,
        outcome: Result<Stack, String>,
        clock: u64,
    ) -> (r: Option<String>)
        ensures
            (final(self).deep_view(), r.deep_view()) == stack_opened(
                old(self).deep_view(),
                repo@,
                dir@,
                match outcome {
                    Ok(stack) => Ok(stack.deep_view()),
                    Err(e) => Err(e@),
                },
                clock,
            ),
    {
        let stack = match outcome {
            Ok(stack) => stack,
            Err(e) => {
                self.say(e);
                return None;
            },
        };
        let mut prs: StringHashMap<PrInfo> = StringHashMap::new();
        assert(prs_view(prs@) == Map::<Seq<char>, PrInfoView>::empty());
        let mut fetch: Option<String> = None;
        match &stack.slug {
            Some(slug) => {
                let cached = match self.pr_cache.get(slug.as_str()) {
                    Some(c) => {
                        let fresh = if clock >= c.at {
                            clock - c.at < PR_CACHE_TTL
                        } else {
                            true
                        };
                        if fresh {
                            merge_prs(&mut prs, &c.list);
                        }
                        fresh
                    },
                    None => false,
                };
                if !cached {
                    fetch = Some(slug.clone());
                }
            },
            None => {},
        }
        let prs_loading = fetch.is_some();
        match &fetch {
            Some(slug) => {
                self.pr_wait = Some(slug.clone());
            },
            None => {},
        }
        self.modal = Modal::Stack { repo, dir, stack, prs, prs_loading, state: selected0() };
        fetch
    }

    /// Take over PR metadata that was waited for.
    pub fn poll_prs(&mut self, result: Option<Vec<(String, PrInfo)>>, clock: u64)
        ensures
            final(self).deep_view() == prs_polled(
                old(self).deep_view(),
                result.deep_view(),
                clock,
            ),
    {
        let mut wait: Option<String> = None;
        std::mem::swap(&mut wait, &mut self.pr_wait);
        let slug = match wait {
            Some(slug) => slug,
            None => {
                return;
            },
        };
        match &result {
            Some(list) => {
                let ghost had = self.pr_cache@;
                let ghost key = slug@;
                let entry = CachedPrs { at: clock, list: copy_prs(list) };
                self.pr_cache.insert(slug, entry);
                assert(cache_view(self.pr_cache@) == cache_view(had).insert(
                    key,
                    entry.deep_view(),
                ));
            },
            None => {},
        }
        let mut modal = Modal::Closed;
        std::mem::swap(&mut modal, &mut self.modal);
        self.modal = match modal {
            Modal::Stack { repo, dir, stack, prs, prs_loading, state } => {
                let mut prs = prs;
                match &result {
                    Some(list) => merge_prs(&mut prs, list),
                    None => {},
                }
                Modal::Stack { repo, dir, stack, prs, prs_loading: false, state }
            },
            other => other,
        };
    }

    /// A page was opened in the browser, or was not.
    pub fn url_opened(&mut self, url: &str, failure: Option<&str>)
        ensures
            final(self).deep_view() == said(
                old(self).deep_view(),
                match failure {
                    Some(e) => "failed to open browser: "@ + e@,
                    None => "opened "@ + url@,
                },
            ),
    {
        match failure {
            Some(e) => self.say(cat("failed to open browser: ", e)),
            None => self.say(cat("opened ", url)),
        }
    }

    /// A layer was diffed, or was not.
    pub fn diff_done(
        &mut self,
        repo: String,
        dir: String,
        branch: String,
        parent: String,
        outcome: Result<(Vec<String>, usize), String>,
    )
        ensures
            final(self).deep_view() == match outcome {
                Ok((lines, truncated)) => showing(
                    old(self).deep_view(),
                    ModalView::StackDiff {
                        repo: repo@,
                        dir: dir@,
                        branch: branch@,
                        parent: parent@,
                        lines: lines.deep_view(),
                        truncated,
                        scroll: 0,
                    },
                ),
                Err(e) => said(old(self).deep_view(), e@),
            },
    {
        match outcome {
            Ok((lines, truncated)) => {
                self.modal = Modal::StackDiff {
                    repo,
                    dir,
                    branch,
                    parent,
                    lines,
                    truncated,
                    scroll: 0,
                };
            },
            Err(e) => self.say(e),
        }
    }

    /// A space was created or a worktree added, and spaces and pool were re-scanned; or it
    /// failed.
    pub fn input_done(&mut self, outcome: Result<(Vec<Space>, Vec<PoolRepo>), String>)
        ensures
            final(self).deep_view() == match outcome {
                Ok(scan) => reloaded(
                    showing(old(self).deep_view(), ModalView::Closed),
                    scan_view(scan).0,
                    scan_view(scan).1,
                ),
                Err(e) => showing(said(old(self).deep_view(), e@), ModalView::Closed),
            },
    {
        self.close();
        match outcome {
            Ok((spaces, pool)) => self.reload_spaces(spaces, pool),
            Err(e) => self.say(e),
        }
    }

    /// A repo was added, and spaces and pool were re-scanned; or it failed.
    /// The picker reopens with a fresh candidate list (and the filter kept) so
    /// several repos can be added in a row.
    pub fn add_done(
        &mut self,
        outcome: Result<(Vec<Space>, Vec<PoolRepo>), String>,
        filter: String,
    )
        ensures
            final(self).deep_view() == repo_added(
                old(self).deep_view(),
                match outcome {
                    Ok(scan) => Ok(scan_view(scan)),
                    Err(e) => Err(e@),
                },
                filter@,
            ),
    {
        match outcome {
            Ok((spaces, pool)) => {
                self.reload_spaces(spaces, pool);
                self.open_repo_picker();
                let mut modal = Modal::Closed;
                std::mem::swap(&mut modal, &mut self.modal);
                self.modal = match modal {
                    Modal::RepoPicker { all, candidates, filter: _, state } => refilter_picker(
                        all,
                        filter,
                        state,
                    ),
                    other => other,
                };
            },
            Err(e) => {
                self.say(e);
                self.close();
            },
        }
    }

    fn report(&mut self, failure: Option<String>)
        ensures
            final(self).deep_view() == reported(old(self).deep_view(), failure.deep_view()),
    {
        match failure {
            Some(e) => self.say(e),
            None => {},
        }
    }

    /// A member was removed, or was not; spaces and pool were re-scanned.
    pub fn remove_done(
        &mut self,
        failure: Option<String>,
        spaces: Vec<Space>,
        pool: Vec<PoolRepo>,
    )
        ensures
            final(self).deep_view() == repo_removed(
                old(self).deep_view(),
                failure.deep_view(),
                spaces.deep_view(),
                pool.deep_view(),
            ),
    {
        self.report(failure);
        self.reload_spaces(spaces, pool);
        if self.repo_len() == 0 {
            self.pane = Pane::Spaces;
        }
    }

    /// A worktree was closed, or was not; spaces and pool were re-scanned.
    pub fn revert_done(
        &mut self,
        failure: Option<String>,
        spaces: Vec<Space>,
        pool: Vec<PoolRepo>,
    )
        ensures
            final(self).deep_view() == reloaded(
                reported(old(self).deep_view(), failure.deep_view()),
                spaces.deep_view(),
                pool.deep_view(),
            ),
    {
        self.report(failure);
        self.reload_spaces(spaces, pool);
    }

    /// A space was deleted, or was not; spaces and pool were re-scanned.
    pub fn delete_done(
        &mut self,
        failure: Option<String>,
        spaces: Vec<Space>,
        pool: Vec<PoolRepo>,
    )
        ensures
            final(self).deep_view() == reloaded(
                AppView {
                    pane: Pane::Spaces,
                    ..reported(old(self).deep_view(), failure.deep_view())
                },
                spaces.deep_view(),
                pool.deep_view(),
            ),
    {
        self.report(failure);
        self.pane = Pane::Spaces;
        self.reload_spaces(spaces, pool);
    }
}

proof fn lemma_push_contains<T>(s: Seq<T>, x: T, y: T)
    ensures
        s.push(x).contains(y) <==> s.contains(y) || x == y,
{
    if s.contains(y) {
        let i = choose|i: int| 0 <= i < s.len() && s[i] == y;
        assert(s.push(x)[i] == y);
    }
    if x == y {
        assert(s.push(x)[s.len() as int] == y);
    }
    if s.push(x).contains(y) {
        let i = choose|i: int| 0 <= i < s.push(x).len() && s.push(x)[i] == y;
        if i < s.len() {
            assert(s[i] == y);
        }
    }
}

// ---- what holds of every state -----------------------------------------------------------------------

/// Whether what is selected is there: a space of the list, a member of the selected space.
pub open spec fn selections_valid(v: AppView) -> bool {
    &&& v.space_state.selected matches Some(i) ==> i < v.spaces.len()
    &&& v.repo_state.selected matches Some(j) ==> j < repo_count(v)
}

/// Whether the lists have lengths that fit the machine.
pub open spec fn lists_fit(v: AppView) -> bool {
    &&& v.spaces.len() <= usize::MAX
    &&& forall|i: int|
        0 <= i < v.spaces.len() ==> (#[trigger] v.spaces[i]).repos.len() <= usize::MAX
}

/// Whether two states list the same spaces with the same rows selected.
spec fn same_rows(a: AppView, b: AppView) -> bool {
    &&& a.spaces == b.spaces
    &&& a.space_state == b.space_state
    &&& a.repo_state == b.repo_state
}

/// Whether the effect takes something apart.
spec fn dismantles(e: EffectView) -> bool {
    e matches EffectView::Ask { request } && (request is DeleteSpace || request is Revert
        || request is Remove)
}

proof fn lemma_spaces_key(v: AppView, key: Key)
    requires
        selections_valid(v),
        lists_fit(v),
    ensures
        selections_valid(spaces_key(v, key).0),
{
    let down = space_moved(v, 1);
    let up = space_moved(v, -1);
    match down.space_state.selected {
        Some(i) => {
            assert(v.spaces[i as int].repos.len() <= usize::MAX);
        },
        None => {},
    }
    match up.space_state.selected {
        Some(i) => {
            assert(v.spaces[i as int].repos.len() <= usize::MAX);
        },
        None => {},
    }
}

proof fn lemma_spaces_key_effect(v: AppView, key: Key)
    ensures
        !dismantles(spaces_key(v, key).1),
{
}

proof fn lemma_repos_key(v: AppView, key: Key)
    requires
        selections_valid(v),
        lists_fit(v),
    ensures
        selections_valid(repos_key(v, key).0),
{
    match v.space_state.selected {
        Some(i) => {
            assert(v.spaces[i as int].repos.len() <= usize::MAX);
        },
        None => {},
    }
}

proof fn lemma_repos_key_effect(v: AppView, key: Key)
    ensures
        dismantles(repos_key(v, key).1) ==> repos_key(v, key).1->request is Remove && repo_chosen(
            v,
        ) is Some && !(repo_chosen(v)->0.state is Worktree),
{
}

proof fn lemma_convos_key(v: AppView, key: Key)
    ensures
        same_rows(convos_key(v, key).0, v),
        !dismantles(convos_key(v, key).1),
{
}

proof fn lemma_input_key(v: AppView, kind: InputKind, buffer: Seq<char>, key: Key)
    ensures
        same_rows(input_key(v, kind, buffer, key).0, v),
        !dismantles(input_key(v, kind, buffer, key).1),
{
}

proof fn lemma_picker_key(
    v: AppView,
    all: Seq<PickerItemView>,
    candidates: Seq<PickerItemView>,
    filter: Seq<char>,
    state: ListState,
    key: Key,
)
    ensures
        same_rows(picker_key(v, all, candidates, filter, state, key).0, v),
        !dismantles(picker_key(v, all, candidates, filter, state, key).1),
{
}

proof fn lemma_search_key(
    v: AppView,
    filter: Seq<char>,
    matches: Seq<usize>,
    state: ListState,
    scroll: u16,
    key: Key,
    ctrl: bool,
)
    ensures
        same_rows(search_key(v, filter, matches, state, scroll, key, ctrl).0, v),
        !dismantles(search_key(v, filter, matches, state, scroll, key, ctrl).1),
{
}

proof fn lemma_stack_key(
    v: AppView,
    repo: Seq<char>,
    dir: Seq<char>,
    stack: StackView,
    prs: Map<Seq<char>, PrInfoView>,
    loading: bool,
    state: ListState,
    key: Key,
)
    ensures
        same_rows(stack_key(v, repo, dir, stack, prs, loading, state, key).0, v),
        !dismantles(stack_key(v, repo, dir, stack, prs, loading, state, key).1),
{
}

proof fn lemma_modal_key(v: AppView, key: Key, ctrl: bool)
    ensures
        same_rows(modal_key(v, key, ctrl).0, v),
        dismantles(modal_key(v, key, ctrl).1) ==> key == Key::Char('y') && match modal_key(
            v,
            key,
            ctrl,
        ).1->request {
            RequestView::DeleteSpace { .. } => v.modal is ConfirmDeleteSpace,
            RequestView::Revert { .. } => v.modal matches ModalView::ConfirmRepo { kind, .. }
                && kind == RepoConfirm::ToSymlink,
            RequestView::Remove { .. } => v.modal matches ModalView::ConfirmRepo { kind, .. }
                && kind == RepoConfirm::Remove,
            _ => true,
        },
{
    match v.modal {
        ModalView::Input { kind, buffer } => {
            lemma_input_key(v, kind, buffer, key);
        },
        ModalView::RepoPicker { all, candidates, filter, state } => {
            lemma_picker_key(v, all, candidates, filter, state, key);
        },
        ModalView::ConvoSearch { filter, matches, state, preview_scroll } => {
            lemma_search_key(v, filter, matches, state, preview_scroll, key, ctrl);
        },
        ModalView::Stack { repo, dir, stack, prs, prs_loading, state } => {
            lemma_stack_key(v, repo, dir, stack, prs, prs_loading, state, key);
        },
        _ => {},
    }
}

/// Every key leaves a valid selection valid.
pub proof fn law_keys_keep_selections_valid(v: AppView, key: Key, ctrl: bool)
    requires
        selections_valid(v),
        lists_fit(v),
    ensures
        selections_valid(key_step(v, key, ctrl).0),
{
    let c = AppView { status: None, ..v };
    assert(space_chosen(c) == space_chosen(v));
    if v.modal is Closed {
        lemma_spaces_key(c, key);
        lemma_repos_key(c, key);
        lemma_convos_key(c, key);
    } else {
        lemma_modal_key(c, key, ctrl);
    }
}

/// Every re-scan makes the selection valid, whatever it was.
pub proof fn law_rescan_makes_selections_valid(
    v: AppView,
    spaces: Seq<SpaceView>,
    pool: Seq<PoolRepoView>,
)
    requires
        lists_fit(AppView { spaces, ..v }),
    ensures
        selections_valid(reloaded(v, spaces, pool)),
        space_chosen(v) matches Some(s) && space_from(spaces, s.name, 0) is Some ==> space_chosen(
            reloaded(v, spaces, pool),
        ) is Some && space_chosen(reloaded(v, spaces, pool))->0.name == space_chosen(v)->0.name,
{
    let w = reloaded(v, spaces, pool);
    match space_chosen(v) {
        Some(s) => {
            lemma_space_from(spaces, s.name, 0);
        },
        None => {},
    }
    match w.space_state.selected {
        Some(i) => {
            assert(AppView { spaces, ..v }.spaces[i as int].repos.len() <= usize::MAX);
        },
        None => {},
    }
}

proof fn lemma_space_from(spaces: Seq<SpaceView>, name: Seq<char>, i: int)
    requires
        0 <= i,
    ensures
        space_from(spaces, name, i) matches Some(k) ==> i <= k < spaces.len() && spaces[k].name
            == name,
    decreases spaces.len() - i,
{
    if i < spaces.len() && spaces[i].name != name {
        lemma_space_from(spaces, name, i + 1);
    }
}

/// Nothing is dismantled by a single key: a space is deleted, a worktree removed or closed,
/// only by `y` in the confirmation that names it so.
pub proof fn law_dismantling_is_confirmed(v: AppView, key: Key, ctrl: bool)
    ensures
        key_step(v, key, ctrl).1 matches EffectView::Ask { request } ==> match request {
            RequestView::DeleteSpace { .. } => v.modal is ConfirmDeleteSpace && key == Key::Char(
                'y',
            ),
            RequestView::Revert { .. } => v.modal matches ModalView::ConfirmRepo { kind, .. }
                && kind == RepoConfirm::ToSymlink && key == Key::Char('y'),
            RequestView::Remove { .. } => (repo_chosen(v) matches Some(r) && r.state is Worktree)
                ==> (v.modal matches ModalView::ConfirmRepo { kind, .. } && kind
                == RepoConfirm::Remove && key == Key::Char('y')),
            _ => true,
        },
{
    let c = AppView { status: None, ..v };
    assert(space_chosen(c) == space_chosen(v));
    assert(repo_chosen(c) == repo_chosen(v));
    if v.modal is Closed {
        lemma_spaces_key_effect(c, key);
        lemma_repos_key_effect(c, key);
        lemma_convos_key(c, key);
    } else {
        lemma_modal_key(c, key, ctrl);
    }
}

/// A message in the status bar lasts until the next key, which does not depend on it.
pub proof fn law_messages_last_one_key(v: AppView, other: Option<Seq<char>>, key: Key, ctrl: bool)
    ensures
        key_step(v, key, ctrl) == key_step(AppView { status: other, ..v }, key, ctrl),
{
    let w = AppView { status: other, ..v };
    assert((AppView { status: None, ..v }) == (AppView { status: None, ..w }));
}

/// Moving a selection never leaves the list and never wraps around.
pub proof fn law_moving_stays_inside(state: ListState, len: nat, delta: int)
    requires
        0 < len <= usize::MAX,
        state.selected is Some,
        state.selected->0 < len,
        delta == 1 || delta == -1,
    ensures
        moved(state, len, delta).selected is Some,
        moved(state, len, delta).selected->0 < len,
        delta == -1 && state.selected->0 == 0 ==> moved(state, len, delta) == state,
        delta == 1 && state.selected->0 == len - 1 ==> moved(state, len, delta) == state,
{
}

/// The sessions are kept the newest first, and none is lost.
pub proof fn law_sessions_newest_first(v: AppView, s: SessionView)
    ensures
        is_sorted(session_added(v, s).sessions, newest_first()),
        session_added(v, s).sessions.to_multiset() == v.sessions.push(s).to_multiset(),
{
    law_sorting_sorts(v.sessions.push(s), newest_first());
    law_sorting_keeps_members(v.sessions.push(s), newest_first());
}

/// A filter over the sessions leaves the positions of just those that it admits, in order.
pub proof fn law_rows_are_exact(
    sessions: Seq<SessionView>,
    keep: spec_fn(SessionView) -> bool,
    i: usize,
)
    requires
        sessions.len() <= usize::MAX,
    ensures
        rows(sessions, keep).contains(i) <==> i < sessions.len() && keep(sessions[i as int]),
        forall|a: int, b: int|
            0 <= a < b < rows(sessions, keep).len() ==> rows(sessions, keep)[a] < rows(
                sessions,
                keep,
            )[b],
    decreases sessions.len(),
{
    let all = rows(sessions, keep);
    if sessions.len() > 0 {
        let front = sessions.drop_last();
        let before = rows(front, keep);
        law_rows_are_exact(front, keep, i);
        if keep(sessions.last()) {
            lemma_push_contains(before, (sessions.len() - 1) as usize, i);
            assert forall|a: int, b: int| 0 <= a < b < all.len() implies all[a] < all[b] by {
                lemma_rows_inside(front, keep, a);
                assert(all[a] == before[a]);
            }
        }
        if i < front.len() {
            assert(front[i as int] == sessions[i as int]);
        }
    }
}

/// Of two pull requests with one head branch the earlier one in the list counts, and what
/// was known stays.
pub proof fn law_first_pr_counts(
    prs: Map<Seq<char>, PrInfoView>,
    list: Seq<(Seq<char>, PrInfoView)>,
    i: int,
)
    requires
        0 <= i < list.len(),
        !prs.contains_key(list[i].0),
        forall|j: int| 0 <= j < i ==> (#[trigger] list[j]).0 != list[i].0,
    ensures
        first_wins(prs, list).contains_key(list[i].0),
        first_wins(prs, list)[list[i].0] == list[i].1,
        forall|k: Seq<char>|
            prs.contains_key(k) ==> #[trigger] first_wins(prs, list).contains_key(k) && first_wins(
                prs,
                list,
            )[k] == prs[k],
    decreases list.len(),
{
    let front = list.drop_last();
    lemma_first_wins_keeps(prs, front);
    if i < list.len() - 1 {
        assert forall|j: int| 0 <= j < i implies (#[trigger] front[j]).0 != front[i].0 by {
            assert(front[j] == list[j]);
        }
        assert(front[i] == list[i]);
        law_first_pr_counts(prs, front, i);
    } else {
        assert forall|j: int| 0 <= j < front.len() implies (#[trigger] front[j]).0
            != list[i].0 by {
            assert(front[j] == list[j]);
        }
        lemma_first_wins_absent(prs, front, list[i].0);
    }
}

proof fn lemma_first_wins_keeps(
    prs: Map<Seq<char>, PrInfoView>,
    list: Seq<(Seq<char>, PrInfoView)>,
)
    ensures
        forall|k: Seq<char>|
            prs.contains_key(k) ==> #[trigger] first_wins(prs, list).contains_key(k) && first_wins(
                prs,
                list,
            )[k] == prs[k],
    decreases list.len(),
{
    if list.len() > 0 {
        lemma_first_wins_keeps(prs, list.drop_last());
        assert forall|k: Seq<char>| prs.contains_key(k) implies #[trigger] first_wins(
            prs,
            list,
        ).contains_key(k) && first_wins(prs, list)[k] == prs[k] by {
            assert(first_wins(prs, list.drop_last()).contains_key(k));
        }
    }
}

proof fn lemma_first_wins_absent(
    prs: Map<Seq<char>, PrInfoView>,
    list: Seq<(Seq<char>, PrInfoView)>,
    k: Seq<char>,
)
    requires
        !prs.contains_key(k),
        forall|j: int| 0 <= j < list.len() ==> (#[trigger] list[j]).0 != k,
    ensures
        !first_wins(prs, list).contains_key(k),
    decreases list.len(),
{
    if list.len() > 0 {
        let front = list.drop_last();
        assert forall|j: int| 0 <= j < front.len() implies (#[trigger] front[j]).0 != k by {
            assert(front[j] == list[j]);
        }
        lemma_first_wins_absent(prs, front, k);
        assert(list[list.len() - 1].0 != k);
    }
}

} // verus!
