use space::app::{App, InputKind, ListState, Pane, PickerItem, RepoConfirm};
use space::data::{Backend, Message, Session};
use space::names::AgentNames;
use space::space::{Layout, PoolRepo, RepoState, Space, SpaceRepo};
use space::ui::{
    backend_color, centered, centered_pct, confirm_panel, convo_pane, delete_confirmation,
    diff_model, diff_offset, hint_row, input_panel, pad, picker_panel, preview_lines, pull_panel,
    repo_confirmation, repo_pane, rpad, search_model, search_row, session_row, shorten_home,
    space_pane, stack_model, Area, Body, Hue, Piece, PREVIEW_MSG_MAX_LINES,
};
use space::stack::{PrInfo, Stack, StackEntry};
use vstd::hash_map::StringHashMap;

fn names() -> AgentNames {
    AgentNames {
        label: "Ada".to_string(),
        program: "ada".to_string(),
        home: ".ada".to_string(),
        policy: "ADA.md".to_string(),
    }
}

fn plain(row: &[Piece]) -> String {
    row.iter().map(|p| p.text.as_str()).collect()
}

fn all_plain(rows: &[Vec<Piece>]) -> Vec<String> {
    rows.iter().map(|r| plain(r)).collect()
}

fn list(body: &Body) -> Vec<String> {
    match body {
        Body::List { rows } => all_plain(rows),
        _ => panic!("not a list"),
    }
}

fn session(id: &str) -> Session {
    Session {
        backend: Backend::Claude,
        id: id.to_string(),
        title: format!("title {id}"),
        cwd: "/h/Desktop/alpha".to_string(),
        space: "alpha".to_string(),
        last_activity: 400,
        messages: vec![],
        msg_count: 2,
        search_blob: "words".to_string(),
    }
}

fn app() -> App {
    let repos = vec![
        SpaceRepo {
            name: "api".to_string(),
            state: RepoState::Symlink,
        },
        SpaceRepo {
            name: "api-x".to_string(),
            state: RepoState::Worktree {
                branch: "x".to_string(),
            },
        },
    ];
    let space = Space {
        name: "alpha".to_string(),
        path: "/h/Desktop/alpha".to_string(),
        repos,
    };
    let pool: Vec<PoolRepo> = vec![];
    App::new(names(), Layout::of_build(None, None), true, true, true, 1_000, vec![space], pool)
}

#[test]
fn columns() {
    assert_eq!(pad("ab", 4), "ab  ");
    assert_eq!(pad("abcd", 4), "abcd");
    assert_eq!(pad("abcde", 4), "abc…");
    assert_eq!(pad("äöü", 5), "äöü  ");
    assert_eq!(rpad("ab", 4), "  ab");
    assert_eq!(rpad("abcde", 4), "abcd");
}

#[test]
fn home_is_shortened() {
    assert_eq!(shorten_home("/h/x", Some("/h")), "~/x");
    assert_eq!(shorten_home("/y", Some("/h")), "/y");
    assert_eq!(shorten_home("/h/x", None), "/h/x");
}

#[test]
fn boxes_are_centered() {
    let screen = Area {
        x: 0,
        y: 0,
        width: 100,
        height: 40,
    };
    let a = centered(50, 10, screen);
    assert_eq!((a.x, a.y, a.width, a.height), (25, 15, 50, 10));
    let a = centered_pct(90, 50, screen);
    assert_eq!((a.x, a.y, a.width, a.height), (5, 10, 90, 20));
    let a = centered(500, 500, screen);
    assert!(a.x + a.width <= 100 && a.y + a.height <= 40);
}

#[test]
fn rows_of_conversations() {
    assert_eq!(backend_color(Backend::Claude), Hue::Magenta);
    assert_eq!(backend_color(Backend::Codex), Hue::Cyan);
    let row = session_row(&session("a"), 1_000, 40, &names());
    assert_eq!(row[0].text, "Ada    ");
    assert_eq!(row[1].text.chars().count(), 22);
    assert_eq!(row[2].text, "  10m ago");
    let row = search_row(&session("a"), 30, &names());
    assert_eq!(row[1].text, "alpha     ");
    assert_eq!(row[2].text, "title a     ");
}

#[test]
fn panes() {
    let mut a = app();
    let p = space_pane(&a);
    assert_eq!(p.title, " spaces (1) ");
    assert!(p.focused);
    assert!(list(&p.body)[0].contains("alpha"));
    let p = repo_pane(&a);
    assert_eq!(p.title, " repos in alpha ");
    assert!(!p.focused);
    let rows = list(&p.body);
    assert!(rows[0].contains("api") && rows[1].contains("x"));
    let p = convo_pane(&a, 40);
    assert_eq!(p.title, " conversations in alpha ");
    assert!(matches!(&p.body, Body::Roomy { rows } if all_plain(rows) == ["loading"]));
    a.loading = false;
    let p = convo_pane(&a, 40);
    assert!(matches!(&p.body, Body::Roomy { rows } if all_plain(rows)
        == ["none yet (c starts ada here, o codex, / searches everywhere)"]));
    a.add_session(session("a"));
    let p = convo_pane(&a, 40);
    assert_eq!(list(&p.body).len(), 1);
    let none = App::new(names(), Layout::of_build(None, None), true, true, true, 0, vec![], vec![]);
    assert!(matches!(&space_pane(&none).body, Body::Lines { rows }
        if all_plain(rows).iter().any(|r| r.contains("no spaces yet"))));
    assert!(matches!(repo_pane(&none).body, Body::Blank));
    assert!(matches!(convo_pane(&none, 40).body, Body::Blank));
}

#[test]
fn previews_cut_long_messages() {
    let mut s = session("a");
    let long: Vec<String> = (0..PREVIEW_MSG_MAX_LINES + 3).map(|i| format!("line {i}")).collect();
    s.messages = vec![
        Message {
            role: "user".to_string(),
            text: "hello".to_string(),
        },
        Message {
            role: "assistant".to_string(),
            text: long.join("\n"),
        },
    ];
    let rows = all_plain(&preview_lines(&s, Some("/h"), &names()));
    assert_eq!(rows[0], "title a");
    assert_eq!(rows[1], "Ada  ~/Desktop/alpha  2 messages");
    assert_eq!(rows[2].chars().count(), 60);
    assert_eq!(rows[3], "● you");
    assert_eq!(rows[4], "  hello");
    assert_eq!(rows[6], "● agent");
    assert!(rows.contains(&"  + 3 more lines".to_string()));
}

#[test]
fn input_and_picker_boxes() {
    let p = input_panel(InputKind::NewSpace, "pro");
    assert_eq!(p.title, " new space ");
    assert_eq!(plain(&p.rows[0]), "pro█");
    assert_eq!(
        plain(&p.rows[1]),
        "folder name under ~/Desktop  Enter confirm  Esc cancel"
    );
    assert_eq!(input_panel(InputKind::Branch, "").title, " new branch ");
    let items = vec![PickerItem {
        name: "oss/sdk".to_string(),
        added: false,
    }];
    let (_, body) = picker_panel(&items, "sdk");
    assert!(list(&body)[0].contains("oss/sdk"));
}

#[test]
fn search_box() {
    let sessions = vec![session("a"), session("b")];
    let at = |i: usize| ListState { selected: Some(i) };
    let none = ListState { selected: None };
    let m = search_model(&sessions, false, "tit", &vec![1], at(0), 40, None, &names());
    assert_eq!(m.title, " search conversations (1) ");
    assert_eq!(m.results.len(), 1);
    assert!(matches!(&m.preview, Ok(rows) if plain(&rows[0]) == "title b"));
    let m = search_model(&sessions, false, "zzz", &vec![], none, 40, None, &names());
    assert!(matches!(&m.preview, Err(row) if plain(row) == "no match"));
    let m = search_model(&sessions, true, "", &vec![], none, 40, None, &names());
    assert!(matches!(&m.preview, Err(row) if plain(row) == "loading"));
}

#[test]
fn stack_box() {
    let stack = Stack {
        default_branch: "main".to_string(),
        entries: vec![StackEntry {
            branch: "a".to_string(),
            parent: "main".to_string(),
            commits: 2,
            depth: 1,
        }],
        slug: None,
    };
    let mut prs: StringHashMap<PrInfo> = StringHashMap::new();
    let m = stack_model("api", &stack, &prs, true);
    assert!(m.title.contains("api"));
    assert!(list(&m.body)[0].contains("2"));
    prs.insert(
        "a".to_string(),
        PrInfo {
            number: 7,
            url: "u".to_string(),
            state: "DRAFT".to_string(),
            title: "t".to_string(),
        },
    );
    let m = stack_model("api", &stack, &prs, false);
    assert!(list(&m.body)[0].contains("#7"));
}

#[test]
fn diff_box() {
    let lines: Vec<String> = ["@@ x", "+a", "-b"].iter().map(|s| s.to_string()).collect();
    let m = diff_model("main", "a", &lines, 4);
    assert_eq!(m.title, " diff main..a ");
    assert_eq!(m.rows.len(), 3);
    assert_eq!(m.rows[1][0].face.hue, Hue::Green);
    assert_eq!(m.rows[2][0].face.hue, Hue::Red);
    assert!(plain(&m.keys).ends_with("(4 lines truncated)"));
    // A diff scrolls no further than its last page.
    assert_eq!(diff_offset(100, 30, 5), 5);
    assert_eq!(diff_offset(100, 30, 90), 70);
    assert_eq!(diff_offset(10, 30, 5), 0);
}

#[test]
fn confirmations() {
    let (title, question, detail) = repo_confirmation(RepoConfirm::Remove, "api-x", "x");
    assert_eq!(title, " remove worktree ");
    assert_eq!(
        question,
        "remove `api-x` (worktree on x) from this space?"
    );
    let p = confirm_panel(&title, &question, &detail, Hue::Yellow);
    assert_eq!(plain(&p.rows[0]), question);
    assert_eq!(plain(&p.rows[1]), detail);
    let (title, question, _) = repo_confirmation(RepoConfirm::ToSymlink, "api-x", "x");
    assert_eq!(title, " back to symlink ");
    assert_eq!(question, "convert `api-x` (worktree on x) back to a symlink?");
    assert!(delete_confirmation("alpha").1.contains("alpha"));
}

#[test]
fn pull_box() {
    let results = vec![
        ("api".to_string(), Ok("already up to date".to_string())),
        ("mine".to_string(), Err("not space-managed, skipped".to_string())),
    ];
    let p = pull_panel("alpha", &results);
    assert!(p.title.contains("alpha"));
    let rows = all_plain(&p.rows);
    assert!(rows[0].contains("already up to date"));
    assert!(rows[1].contains("skipped"));
}

#[test]
fn hint_bar() {
    let mut a = app();
    assert!(plain(&hint_row(&a)).contains("c ada  o codex  D delete"));
    a.pane = Pane::Convos;
    assert!(plain(&hint_row(&a)).contains("f fork"));
    a.claude_ok = false;
    a.codex_ok = false;
    assert!(plain(&hint_row(&a)).ends_with("   (ada, codex not on PATH)"));
    a.pull_active = true;
    a.pull_space = "alpha".to_string();
    a.pull_total = 2;
    assert_eq!(plain(&hint_row(&a)), "pulling alpha 0/2");
    a.status = Some("oops".to_string());
    assert_eq!(plain(&hint_row(&a)), "oops");
}
