use space::app::{
    move_list, selected0, skipped, App, Effect, InputKind, Key, ListState, Modal, Pane, PullMsg,
    RepoConfirm, Request, PR_CACHE_TTL,
};
use space::data::{Backend, Message, Session};
use space::names::AgentNames;
use space::space::{Layout, PoolRepo, RepoState, Space, SpaceRepo};
use space::stack::{PrInfo, Stack, StackEntry};

fn names() -> AgentNames {
    AgentNames {
        label: "Ada".to_string(),
        program: "ada".to_string(),
        home: ".ada".to_string(),
        policy: "ADA.md".to_string(),
    }
}

fn repo(name: &str, state: RepoState) -> SpaceRepo {
    SpaceRepo {
        name: name.to_string(),
        state,
    }
}

fn on(branch: &str) -> RepoState {
    RepoState::Worktree {
        branch: branch.to_string(),
    }
}

fn a_space(name: &str, repos: Vec<SpaceRepo>) -> Space {
    Space {
        name: name.to_string(),
        path: format!("/d/{name}"),
        repos,
    }
}

fn spaces() -> Vec<Space> {
    vec![
        a_space(
            "alpha",
            vec![
                repo("api", RepoState::Symlink),
                repo("api-x", on("x")),
                repo("mine", RepoState::Foreign),
            ],
        ),
        a_space("beta", vec![]),
    ]
}

fn pool() -> Vec<PoolRepo> {
    ["acme/api", "oss/sdk"]
        .iter()
        .map(|n| PoolRepo {
            name: n.to_string(),
            path: format!("/d/repos/{n}"),
        })
        .collect()
}

fn app() -> App {
    App::new(names(), Layout::of_build(None, None), true, true, true, 1_000, spaces(), pool())
}

fn session(id: &str, cwd: &str, at: i64, backend: Backend, words: &str) -> Session {
    Session {
        backend,
        id: id.to_string(),
        title: format!("title {id}"),
        cwd: cwd.to_string(),
        space: "alpha".to_string(),
        last_activity: at,
        msg_count: 1,
        messages: vec![Message {
            role: "user".to_string(),
            text: words.to_string(),
        }],
        search_blob: words.to_string(),
    }
}

fn press(app: &mut App, key: Key) -> Effect {
    app.on_key(key, false)
}

fn typed(app: &mut App, text: &str) {
    for c in text.chars() {
        press(app, Key::Char(c));
    }
}

#[test]
fn lists_move_inside_their_bounds() {
    let at = |i: usize| ListState { selected: Some(i) };
    assert_eq!(selected0(), at(0));
    assert_eq!(move_list(at(0), 3, false), at(1));
    assert_eq!(move_list(at(2), 3, false), at(2));
    assert_eq!(move_list(at(0), 3, true), at(0));
    assert_eq!(move_list(at(7), 3, true), at(2));
    assert_eq!(move_list(at(1), 0, false), ListState { selected: None });
    assert_eq!(move_list(ListState { selected: None }, 2, false), at(1));
}

#[test]
fn panes_cycle_and_quit() {
    let mut a = app();
    assert_eq!(a.pane, Pane::Spaces);
    press(&mut a, Key::Tab);
    assert_eq!(a.pane, Pane::Repos);
    press(&mut a, Key::Tab);
    assert_eq!(a.pane, Pane::Convos);
    press(&mut a, Key::Tab);
    assert_eq!(a.pane, Pane::Spaces);
    press(&mut a, Key::Char('l'));
    assert_eq!(a.pane, Pane::Repos);
    press(&mut a, Key::Left);
    assert_eq!(a.pane, Pane::Spaces);
    assert!(matches!(press(&mut a, Key::Char('q')), Effect::Quit));
    assert!(matches!(press(&mut a, Key::Esc), Effect::Quit));
}

#[test]
fn moving_over_spaces_resets_the_other_panes() {
    let mut a = app();
    a.pane = Pane::Repos;
    press(&mut a, Key::Down);
    assert_eq!(a.selected_repo().unwrap().name, "api-x");
    a.pane = Pane::Spaces;
    press(&mut a, Key::Char('j'));
    assert_eq!(a.selected_space().unwrap().name, "beta");
    assert!(a.selected_repo().is_none());
    // An empty space has no pane of members to go to.
    press(&mut a, Key::Right);
    assert_eq!(a.pane, Pane::Spaces);
    assert!(matches!(press(&mut a, Key::Enter), Effect::Shell { cwd } if cwd == "/d/beta"));
}

#[test]
fn agents_start_in_the_selected_space() {
    let mut a = app();
    assert!(matches!(press(&mut a, Key::Char('c')),
        Effect::LaunchNew { backend: Backend::Claude, cwd } if cwd == "/d/alpha"));
    assert!(matches!(press(&mut a, Key::Char('o')),
        Effect::LaunchNew { backend: Backend::Codex, cwd } if cwd == "/d/alpha"));
    a.claude_ok = false;
    a.codex_ok = false;
    assert!(matches!(press(&mut a, Key::Char('c')), Effect::Nothing));
    assert_eq!(a.status.as_deref(), Some("Ada is not on PATH"));
    press(&mut a, Key::Char('o'));
    assert_eq!(a.status.as_deref(), Some("Codex is not on PATH"));
    let mut none = App::new(names(), Layout::of_build(None, None), true, true, true, 0, vec![], vec![]);
    press(&mut none, Key::Char('c'));
    assert_eq!(none.status.as_deref(), Some("no space selected"));
}

#[test]
fn messages_last_one_key() {
    let mut a = app();
    a.claude_ok = false;
    press(&mut a, Key::Char('c'));
    assert!(a.status.is_some());
    press(&mut a, Key::Char('j'));
    assert!(a.status.is_none());
}

#[test]
fn typing_a_space_name() {
    let mut a = app();
    press(&mut a, Key::Char('n'));
    typed(&mut a, "projx");
    press(&mut a, Key::Backspace);
    assert!(matches!(&a.modal, Modal::Input { kind: InputKind::NewSpace, buffer }
        if buffer == "proj"));
    assert!(matches!(press(&mut a, Key::Enter),
        Effect::Ask { request: Request::CreateSpace { name } } if name == "proj"));
    a.input_done(Err("invalid space name".to_string()));
    assert_eq!(a.status.as_deref(), Some("invalid space name"));
    press(&mut a, Key::Char('n'));
    press(&mut a, Key::Enter);
    let mut more = spaces();
    more.push(a_space("proj", vec![]));
    a.input_done(Ok((more, pool())));
    assert!(matches!(a.modal, Modal::Closed));
    assert_eq!(a.spaces.len(), 3);
    // The selected space stays selected.
    assert_eq!(a.selected_space().unwrap().name, "alpha");
    press(&mut a, Key::Char('n'));
    press(&mut a, Key::Esc);
    assert!(matches!(a.modal, Modal::Closed));
}

#[test]
fn typing_a_branch_name() {
    let mut a = app();
    a.pane = Pane::Repos;
    press(&mut a, Key::Char('w'));
    typed(&mut a, "f/x");
    assert!(matches!(press(&mut a, Key::Enter),
        Effect::Ask { request: Request::Promote { space, repo, branch } }
            if space == "/d/alpha" && repo == "api" && branch == "f/x"));
    let mut a = app();
    a.pane = Pane::Repos;
    press(&mut a, Key::Down);
    press(&mut a, Key::Down);
    press(&mut a, Key::Char('w'));
    assert_eq!(
        a.status.as_deref(),
        Some("select a repo to add a worktree for")
    );
    press(&mut a, Key::Char('s'));
    assert_eq!(a.status.as_deref(), Some("not a repo"));
}

#[test]
fn picking_a_pool_repo() {
    let mut a = app();
    press(&mut a, Key::Char('a'));
    match &a.modal {
        Modal::RepoPicker { all, .. } => {
            // Available repos come first; those linked already are marked.
            let rows: Vec<(&str, bool)> = all.iter().map(|i| (i.name.as_str(), i.added)).collect();
            assert_eq!(rows, [("oss/sdk", false), ("acme/api", true)]);
        }
        _ => panic!("no picker"),
    }
    press(&mut a, Key::Down);
    press(&mut a, Key::Enter);
    assert_eq!(
        a.status.as_deref(),
        Some("acme/api is already in this space")
    );
    typed(&mut a, "SDK");
    assert!(matches!(&a.modal, Modal::RepoPicker { candidates, state, .. }
        if candidates.len() == 1 && state.selected == Some(0)));
    assert!(matches!(press(&mut a, Key::Enter),
        Effect::Ask { request: Request::AddRepo { space, repo, filter } }
            if space == "/d/alpha" && repo == "oss/sdk" && filter == "SDK"));
    a.add_done(Ok((spaces(), pool())), "SDK".to_string());
    assert!(matches!(&a.modal, Modal::RepoPicker { filter, candidates, .. }
        if filter == "SDK" && candidates.len() == 1));
    a.add_done(Err("no".to_string()), "SDK".to_string());
    assert!(matches!(a.modal, Modal::Closed));
    assert_eq!(a.status.as_deref(), Some("no"));
}

#[test]
fn picker_needs_a_space_and_a_pool() {
    let mut a = App::new(names(), Layout::of_build(None, None), true, true, true, 0, vec![], pool());
    press(&mut a, Key::Char('a'));
    assert_eq!(a.status.as_deref(), Some("create a space first (n)"));
    let mut a = App::new(names(), Layout::of_build(None, None), true, true, true, 0, spaces(), vec![]);
    press(&mut a, Key::Char('a'));
    assert_eq!(
        a.status.as_deref(),
        Some("no repos in ~/Desktop/repos to add")
    );
}

#[test]
fn worktrees_are_dismantled_after_a_yes() {
    let mut a = app();
    a.pane = Pane::Repos;
    press(&mut a, Key::Down);
    press(&mut a, Key::Char('x'));
    assert!(matches!(&a.modal, Modal::ConfirmRepo { kind: RepoConfirm::Remove, repo, branch }
        if repo == "api-x" && branch == "x"));
    assert!(matches!(press(&mut a, Key::Char('n')), Effect::Nothing));
    assert!(matches!(a.modal, Modal::Closed));
    press(&mut a, Key::Char('x'));
    assert!(matches!(press(&mut a, Key::Char('y')),
        Effect::Ask { request: Request::Remove { space, repo } }
            if space == "/d/alpha" && repo == "api-x"));
    press(&mut a, Key::Char('u'));
    assert!(matches!(press(&mut a, Key::Char('y')),
        Effect::Ask { request: Request::Revert { repo, .. } } if repo == "api-x"));
    // A symlink is unlinked at once, and is no worktree to close.
    press(&mut a, Key::Up);
    press(&mut a, Key::Char('u'));
    assert_eq!(a.status.as_deref(), Some("that repo is not a worktree"));
    assert!(matches!(press(&mut a, Key::Char('x')),
        Effect::Ask { request: Request::Remove { repo, .. } } if repo == "api"));
}

#[test]
fn removing_the_last_member_leaves_its_pane() {
    let mut a = app();
    a.pane = Pane::Repos;
    a.remove_done(None, vec![a_space("alpha", vec![])], pool());
    assert_eq!(a.pane, Pane::Spaces);
    let mut a = app();
    a.pane = Pane::Repos;
    a.remove_done(Some("stays".to_string()), spaces(), pool());
    assert_eq!(a.pane, Pane::Repos);
    assert_eq!(a.status.as_deref(), Some("stays"));
    a.revert_done(Some("kept".to_string()), spaces(), pool());
    assert_eq!(a.status.as_deref(), Some("kept"));
}

#[test]
fn spaces_are_deleted_after_a_yes() {
    let mut a = app();
    press(&mut a, Key::Char('D'));
    assert!(matches!(&a.modal, Modal::ConfirmDeleteSpace { name } if name == "alpha"));
    assert!(matches!(press(&mut a, Key::Enter), Effect::Nothing));
    press(&mut a, Key::Char('D'));
    assert!(matches!(press(&mut a, Key::Char('y')),
        Effect::Ask { request: Request::DeleteSpace { space } } if space == "/d/alpha"));
    a.pane = Pane::Repos;
    a.delete_done(None, vec![a_space("beta", vec![])], pool());
    assert_eq!(a.pane, Pane::Spaces);
    assert_eq!(a.selected_space().unwrap().name, "beta");
}

#[test]
fn rescans_keep_the_selected_space() {
    let mut a = app();
    press(&mut a, Key::Char('j'));
    let mut more = vec![a_space("aaa", vec![])];
    more.extend(spaces());
    a.reload_spaces(more, pool());
    assert_eq!(a.selected_space().unwrap().name, "beta");
    a.reload_spaces(vec![], vec![]);
    assert!(a.selected_space().is_none());
}

#[test]
fn pulls_gather_their_outcomes() {
    let mut a = app();
    match press(&mut a, Key::Char('p')) {
        Effect::Ask {
            request: Request::Pull { jobs },
        } => {
            assert_eq!(jobs.len(), 3);
            assert_eq!(jobs[0].dir, "/d/alpha/api");
            assert!(!jobs[0].foreign && jobs[2].foreign);
        }
        _ => panic!("no pull"),
    }
    assert!(a.pulling());
    assert_eq!(a.pull_progress().as_deref(), Some("pulling alpha 0/3"));
    press(&mut a, Key::Char('p'));
    assert_eq!(a.status.as_deref(), Some("a pull is already running"));
    let one = |repo: &str, result: Result<String, String>| PullMsg::One {
        repo: repo.to_string(),
        result,
    };
    a.poll_pull(vec![one("api", Ok("already up to date".to_string()))]);
    assert_eq!(a.pull_progress().as_deref(), Some("pulling alpha 1/3"));
    a.poll_pull(vec![
        one("api-x", Err("no".to_string())),
        one("mine", Err(skipped())),
        PullMsg::Done,
    ]);
    assert!(!a.pulling());
    match &a.modal {
        Modal::PullResults { space, results } => {
            assert_eq!(space, "alpha");
            assert_eq!(results.len(), 3);
            assert_eq!(results[2].1, Err("not space-managed, skipped".to_string()));
        }
        _ => panic!("no results"),
    }
    press(&mut a, Key::Other);
    assert!(matches!(a.modal, Modal::Closed));
    press(&mut a, Key::Char('j'));
    press(&mut a, Key::Char('p'));
    assert_eq!(a.status.as_deref(), Some("space has no repos"));
}

#[test]
fn conversations_are_newest_first() {
    let mut a = app();
    a.add_session(session("old", "/d/alpha/api", 10, Backend::Codex, "x"));
    a.add_session(session("new", "/d/alpha", 30, Backend::Claude, "y"));
    a.add_session(session("else", "/d/alphabet", 20, Backend::Codex, "z"));
    let ids: Vec<&str> = a.sessions.iter().map(|s| s.id.as_str()).collect();
    assert_eq!(ids, ["new", "else", "old"]);
    let space = a_space("alpha", vec![]);
    assert_eq!(a.space_session_indices(&space), [0, 2]);
    a.pane = Pane::Convos;
    assert_eq!(a.selected_space_session().unwrap().id, "new");
    press(&mut a, Key::Down);
    assert!(matches!(press(&mut a, Key::Enter),
        Effect::Resume { backend: Backend::Codex, cwd, id, fork: false }
            if cwd == "/d/alpha/api" && id == "old"));
    assert!(matches!(press(&mut a, Key::Char('f')), Effect::Resume { fork: true, .. }));
    a.codex_ok = false;
    press(&mut a, Key::Enter);
    assert_eq!(
        a.status.as_deref(),
        Some("Codex is not on PATH, cannot resume")
    );
}

#[test]
fn searching_conversations() {
    let mut a = app();
    a.add_session(session("one", "/d/alpha", 10, Backend::Codex, "login bug"));
    a.add_session(session("two", "/x", 20, Backend::Claude, "other"));
    press(&mut a, Key::Char('/'));
    assert!(matches!(&a.modal, Modal::ConvoSearch { matches, .. } if *matches == [0, 1]));
    typed(&mut a, "login");
    assert!(matches!(&a.modal, Modal::ConvoSearch { matches, .. } if *matches == [1]));
    // Sessions that stream in while the search is open join it.
    a.add_session(session("three", "/x", 30, Backend::Codex, "login again"));
    assert!(matches!(&a.modal, Modal::ConvoSearch { matches, .. } if *matches == [0, 2]));
    a.on_key(Key::Char('d'), true);
    assert!(matches!(&a.modal, Modal::ConvoSearch { preview_scroll: 10, .. }));
    a.on_key(Key::Char('u'), true);
    a.on_key(Key::Char('u'), true);
    assert!(matches!(&a.modal, Modal::ConvoSearch { preview_scroll: 0, .. }));
    press(&mut a, Key::Down);
    assert!(matches!(a.on_key(Key::Char('f'), true),
        Effect::Resume { id, fork: true, .. } if id == "one"));
    assert!(matches!(a.modal, Modal::Closed));
}

fn stack(slug: Option<&str>) -> Stack {
    let entry = |branch: &str, parent: &str, depth: usize| StackEntry {
        branch: branch.to_string(),
        parent: parent.to_string(),
        commits: 1,
        depth,
    };
    Stack {
        default_branch: "main".to_string(),
        entries: vec![entry("a", "main", 1), entry("b", "a", 2)],
        slug: slug.map(|s| s.to_string()),
    }
}

fn pr(branch: &str, number: u64) -> (String, PrInfo) {
    let info = PrInfo {
        number,
        url: format!("https://github.com/o/r/pull/{number}"),
        state: "OPEN".to_string(),
        title: "t".to_string(),
    };
    (branch.to_string(), info)
}

fn open(a: &mut App, s: Stack, clock: u64) -> Option<String> {
    a.open_stack_at("api".to_string(), "/d/alpha/api".to_string(), Ok(s), clock)
}

#[test]
fn stacks_open_and_lead_to_pages() {
    let mut a = app();
    a.pane = Pane::Repos;
    assert!(matches!(press(&mut a, Key::Char('s')),
        Effect::Ask { request: Request::OpenStack { repo, dir } }
            if repo == "api" && dir == "/d/alpha/api"));
    assert_eq!(open(&mut a, stack(Some("o/r")), 5), Some("o/r".to_string()));
    assert!(matches!(&a.modal, Modal::Stack { prs_loading: true, .. }));
    // Without a pull request, the comparison page.
    assert!(matches!(press(&mut a, Key::Enter),
        Effect::Ask { request: Request::OpenUrl { url } }
            if url == "https://github.com/o/r/compare/main...a"));
    // The first pull request of a branch counts.
    a.poll_prs(Some(vec![pr("b", 7), pr("b", 3)]), 6);
    assert!(matches!(&a.modal, Modal::Stack { prs_loading: false, .. }));
    press(&mut a, Key::Char('j'));
    assert!(matches!(press(&mut a, Key::Enter),
        Effect::Ask { request: Request::OpenUrl { url } }
            if url == "https://github.com/o/r/pull/7"));
    a.url_opened("https://x", None);
    assert_eq!(a.status.as_deref(), Some("opened https://x"));
    a.url_opened("https://x", Some("no browser"));
    assert_eq!(a.status.as_deref(), Some("failed to open browser: no browser"));
    // Within its time the metadata is reused, after that it is fetched again.
    press(&mut a, Key::Esc);
    assert_eq!(open(&mut a, stack(Some("o/r")), 6 + PR_CACHE_TTL - 1), None);
    press(&mut a, Key::Esc);
    assert_eq!(
        open(&mut a, stack(Some("o/r")), 6 + PR_CACHE_TTL),
        Some("o/r".to_string())
    );
}

#[test]
fn stacks_without_github() {
    let mut a = app();
    assert_eq!(open(&mut a, stack(None), 0), None);
    press(&mut a, Key::Enter);
    assert_eq!(a.status.as_deref(), Some("origin is not a GitHub remote"));
    let mut a = app();
    let failed = Err("no main/master branch found".to_string());
    assert_eq!(a.open_stack_at("api".to_string(), "/x".to_string(), failed, 0), None);
    assert_eq!(a.status.as_deref(), Some("no main/master branch found"));
}

#[test]
fn layers_are_diffed() {
    let mut a = app();
    open(&mut a, stack(None), 0);
    press(&mut a, Key::Down);
    assert!(matches!(press(&mut a, Key::Char('d')),
        Effect::Diff { repo, parent, branch, .. }
            if repo == "api" && parent == "a" && branch == "b"));
    a.delta_ok = false;
    assert!(matches!(press(&mut a, Key::Char('d')),
        Effect::Ask { request: Request::LayerDiff { branch, parent, .. } }
            if branch == "b" && parent == "a"));
    let text = |s: &str| s.to_string();
    a.diff_done(
        text("api"),
        text("/d/alpha/api"),
        text("b"),
        text("a"),
        Ok((vec![text("+x")], 0)),
    );
    press(&mut a, Key::PageDown);
    a.on_key(Key::Char('d'), true);
    press(&mut a, Key::Char('k'));
    assert!(matches!(&a.modal, Modal::StackDiff { scroll: 59, .. }));
    assert!(matches!(press(&mut a, Key::Esc),
        Effect::Ask { request: Request::OpenStack { repo, .. } } if repo == "api"));
    a.diff_done(text("api"), text("/x"), text("b"), text("a"), Err(text("bad range")));
    assert_eq!(a.status.as_deref(), Some("bad range"));
}
