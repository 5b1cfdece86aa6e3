use space::dismantle::{Dismantling, DismantlingAnswer, DismantlingAsk};
use space::json::{read_text, Json};
use space::policy::policy_markdown;
use space::space::{
    add_repo, canonical_of_worktree, canonical_source, checked_branch, collect_pool,
    copy_loose_files, create_space, delete_space, desktop_dir, enclosing_space, generated_paths,
    head_path, ignored_args, is_git_worktree, is_space, link_path, linked_worktree_branch, list_pool,
    list_spaces, marker_paths, member_path, members, new_space_path, pool_dir, pool_display,
    pool_for, pool_git_path, pool_source, promote_to_worktree, promotion_path, pull_main,
    read_space, refresh_policy_files, relink, remove_repo, resolve_pool_repo, revert_to_symlink,
    root_display, untracked_args, workspace_filename, workspace_json, worktree_dir_name, write_if_changed,
    write_space_files, Act, Answer, Beside, Found, Generated, Kind, Layout, MemberFact, PoolEntry,
    PoolFact, PullStage, PullStep, Removal, RemovalAsk, Removing, RepoState, RootEntry, Source, SpaceError,
};
use space::worktree::{MakingAsk, NewWorktree};

const POLICY: &str = "ADA.md";

fn layout() -> Layout {
    Layout::of_build(None, None)
}

fn fact(name: &str, kind: Kind) -> MemberFact {
    MemberFact {
        name: name.to_string(),
        kind,
        is_file: kind == Kind::File,
        git_file: None,
        head: None,
    }
}

fn worktree(name: &str, branch: &str) -> MemberFact {
    MemberFact {
        name: name.to_string(),
        kind: Kind::Dir,
        is_file: false,
        git_file: Some("gitdir: /h/Desktop/repos/gw/.git/worktrees/x\n".to_string()),
        head: Some(format!("ref: refs/heads/{branch}\n")),
    }
}

fn found(paths: &[(&str, Kind)]) -> Found {
    Found {
        paths: paths.iter().map(|(p, k)| (p.to_string(), *k)).collect(),
    }
}

fn pool_repo(name: &str) -> PoolEntry {
    PoolEntry {
        fact: PoolFact {
            name: name.to_string(),
            is_dir: true,
            has_git: true,
        },
        inside: vec![],
    }
}

fn pool_group(name: &str, inside: &[&str]) -> PoolEntry {
    PoolEntry {
        fact: PoolFact {
            name: name.to_string(),
            is_dir: true,
            has_git: false,
        },
        inside: inside
            .iter()
            .map(|n| PoolFact {
                name: n.to_string(),
                is_dir: true,
                has_git: true,
            })
            .collect(),
    }
}

fn member<'a>(j: &'a Json, key: &str) -> &'a Json {
    match j {
        Json::Object(fields) => &fields.iter().find(|(k, _)| k == key).unwrap().1,
        _ => panic!("not an object"),
    }
}

fn item(j: &Json, i: usize) -> &Json {
    match j {
        Json::List(items) => &items[i],
        _ => panic!("not an array"),
    }
}

fn text(j: &Json) -> &str {
    match j {
        Json::Text(s) => s,
        _ => panic!("not a text"),
    }
}

#[test]
fn policy_documents_agent_commands() {
    let md = policy_markdown("proj", &layout());
    assert!(md.contains("space wt <repo> <branch>"));
    assert!(md.contains("space pull"));
    assert!(md.contains("space add <repo>"));
    assert!(md.contains("space ls"));
    assert!(md.contains(&pool_display(&layout())));
}

#[test]
fn policy_names_the_space() {
    let md = policy_markdown("proj", &layout());
    assert!(md.starts_with("# Space: proj\n\nThis folder is a **space**"));
    assert!(md.contains("- `proj.code-workspace` here is generated"));
    assert!(md.contains("(`code proj.code-workspace`)"));
    assert!(md.ends_with("first, then proceed as usual.\n"));
}

#[test]
fn where_things_are() {
    let l = layout();
    assert_eq!(root_display(&l), "~/Desktop");
    assert_eq!(pool_display(&l), "~/Desktop/repos");
    assert_eq!(desktop_dir(&l, Some("/h")), Some("/h/Desktop".to_string()));
    assert_eq!(pool_dir(&l, Some("/h")), Some("/h/Desktop/repos".to_string()));
    assert_eq!(desktop_dir(&l, None), None);
    assert_eq!(pool_dir(&l, None), None);
    assert_eq!(
        pool_for("/h/Desktop/proj", &l),
        Some("/h/Desktop/repos".to_string())
    );
    assert_eq!(pool_for("/", &l), None);
    assert_eq!(
        pool_source("/h/Desktop/proj", "acme/api", &l),
        Some("/h/Desktop/repos/acme/api".to_string())
    );
    assert_eq!(
        pool_git_path("/h/Desktop/proj", "api", &l),
        Some("/h/Desktop/repos/api/.git".to_string())
    );
    assert_eq!(
        link_path("/h/Desktop/proj", "acme/api"),
        Some("/h/Desktop/proj/api".to_string())
    );
    assert_eq!(member_path("/s", "api"), "/s/api");
    assert_eq!(workspace_filename("s"), "s.code-workspace");
    assert_eq!(
        generated_paths("/d/s", POLICY),
        (
            "/d/s/ADA.md".to_string(),
            "/d/s/AGENTS.md".to_string(),
            "/d/s/s.code-workspace".to_string()
        )
    );
}

#[test]
fn a_build_may_put_things_elsewhere() {
    let l = Layout::of_build(Some("work/all"), Some("checkouts"));
    assert_eq!(root_display(&l), "~/work/all");
    assert_eq!(pool_display(&l), "~/work/all/checkouts");
    assert_eq!(pool_dir(&l, Some("/h")), Some("/h/work/all/checkouts".to_string()));
    assert_eq!(pool_for("/h/work/all/p", &l), Some("/h/work/all/checkouts".to_string()));
    let refused = |name: &str| {
        create_space(name, Some("/h/work/all"), &found(&[]), POLICY, &l)
            .unwrap_err()
            .message()
    };
    assert_eq!(
        refused("checkouts"),
        "`checkouts` is reserved for the canonical repo pool"
    );
    assert!(create_space("repos", Some("/h/work/all"), &found(&[]), POLICY, &l).is_ok());
    assert!(policy_markdown("p", &l).contains("`~/work/all/checkouts/`"));
    assert_eq!(
        add_repo("/h/work/all/p", "x", Kind::Missing, Kind::Missing, &l)
            .unwrap_err()
            .message(),
        "no repo `x` in ~/work/all/checkouts"
    );
}

#[test]
fn pool_has_flat_and_grouped_repos() {
    let hidden = PoolEntry {
        fact: PoolFact {
            name: ".cache".to_string(),
            is_dir: true,
            has_git: true,
        },
        inside: vec![],
    };
    let file = PoolEntry {
        fact: PoolFact {
            name: "notes".to_string(),
            is_dir: false,
            has_git: false,
        },
        inside: vec![],
    };
    let entries = vec![
        pool_group("oss", &["sdk"]),
        pool_repo("flat-repo"),
        hidden,
        file,
        pool_group("acme", &["api"]),
    ];
    let mut names: Vec<String> = collect_pool("/p", &entries)
        .into_iter()
        .map(|r| r.name)
        .collect();
    names.sort();
    assert_eq!(names, ["acme/api", "flat-repo", "oss/sdk"]);
    let listed = list_pool(Some("/p"), &entries);
    let names: Vec<&str> = listed.iter().map(|r| r.name.as_str()).collect();
    assert_eq!(names, ["acme/api", "flat-repo", "oss/sdk"]);
    assert_eq!(listed[0].path, "/p/acme/api");
    assert!(list_pool(None, &entries).is_empty());
}

#[test]
fn marker_makes_a_space() {
    let f = found(&[("/d/s/.space.toml", Kind::File)]);
    assert!(is_space("/d/s", &f));
    assert!(!is_space("/d", &f));
    assert!(!is_space("/d/s", &found(&[("/d/s/.space.toml", Kind::Dir)])));
    assert_eq!(enclosing_space("/d/s/api/src", &f), Some("/d/s".to_string()));
    assert_eq!(enclosing_space("/d/other", &f), None);
    assert_eq!(
        marker_paths("/d/s"),
        ["/d/s/.space.toml", "/d/.space.toml", "/.space.toml"]
    );
}

#[test]
fn first_report_of_a_path_counts() {
    let f = found(&[("/a", Kind::Link), ("/a", Kind::Dir)]);
    assert_eq!(f.kind_at("/a"), Kind::Link);
    assert_eq!(f.kind_at("/b"), Kind::Missing);
}

#[test]
fn linked_worktrees_are_known_by_their_files() {
    let git = Some("gitdir: /x/.git/worktrees/w\n".to_string());
    let on = |head: &str| linked_worktree_branch(&git, &Some(head.to_string()));
    assert_eq!(on("ref: refs/heads/feature/x\n"), Some("feature/x".to_string()));
    // A detached HEAD shows the short commit id.
    assert_eq!(on("0123456789abcdef\n"), Some("0123456".to_string()));
    assert_eq!(linked_worktree_branch(&git, &None), None);
    assert_eq!(linked_worktree_branch(&None, &Some("x".to_string())), None);
    assert_eq!(
        head_path("gitdir: /x/.git/worktrees/w\n"),
        Some("/x/.git/worktrees/w/HEAD".to_string())
    );
    assert_eq!(head_path("something else"), None);
}

#[test]
fn membership_of_a_space() {
    let facts = vec![
        worktree("gw-feature-x", "feature/x"),
        fact("gw", Kind::Link),
        fact("ADA.md", Kind::File),
        fact("AGENTS.md", Kind::File),
        fact("infra.code-workspace", Kind::File),
        fact(".space.toml", Kind::File),
        fact("NOTES-ROOT.md", Kind::File),
        fact("gone", Kind::Missing),
        fact("clone", Kind::Dir),
    ];
    let s = read_space("/d/infra", &facts, POLICY);
    assert_eq!(s.name, "infra");
    assert_eq!(s.path, "/d/infra");
    let names: Vec<&str> = s.repos.iter().map(|r| r.name.as_str()).collect();
    assert_eq!(names, ["clone", "gw", "gw-feature-x"]);
    assert!(matches!(s.repos[0].state, RepoState::Foreign));
    assert!(matches!(s.repos[1].state, RepoState::Symlink));
    assert!(matches!(&s.repos[2].state, RepoState::Worktree { branch } if branch == "feature/x"));
    assert_eq!(members("/d/infra", &facts, POLICY).len(), 3);
}

#[test]
fn spaces_are_marked_folders() {
    let entry = |name: &str, is_dir: bool, marked: bool| RootEntry {
        name: name.to_string(),
        is_dir,
        marked,
        inside: vec![],
    };
    let entries = vec![
        entry("zeta", true, true),
        entry("repos", true, true),
        entry("plain", true, false),
        entry("file", false, true),
        entry("alpha", true, true),
    ];
    let spaces = list_spaces(Some("/d"), &entries, POLICY, &layout());
    let paths: Vec<&str> = spaces.iter().map(|s| s.path.as_str()).collect();
    assert_eq!(paths, ["/d/alpha", "/d/zeta"]);
    assert!(list_spaces(None, &entries, POLICY, &layout()).is_empty());
}

#[test]
fn creating_a_space_writes_its_files() {
    let (path, acts) = create_space(" proj ", Some("/d"), &found(&[]), POLICY, &layout()).unwrap();
    assert_eq!(path, "/d/proj");
    assert_eq!(new_space_path(" proj ", "/d"), "/d/proj");
    assert_eq!(acts.len(), 5);
    assert!(matches!(&acts[0], Act::MakeDir { path } if path == "/d/proj"));
    assert!(matches!(&acts[1], Act::Write { path, text }
        if path == "/d/proj/.space.toml" && text
            == "# managed by `space`; presence marks this folder as a space\nname = \"proj\"\n"));
    let policy = policy_markdown("proj", &layout());
    assert!(matches!(&acts[2], Act::Write { path, text }
        if path == "/d/proj/ADA.md" && *text == policy));
    assert!(matches!(&acts[3], Act::Write { path, text }
        if path == "/d/proj/AGENTS.md" && *text == policy));
    let workspace = workspace_json(&read_space("/d/proj", &vec![], POLICY));
    assert!(matches!(&acts[4], Act::Replace { path, text, .. }
        if path == "/d/proj/proj.code-workspace" && *text == workspace));
    assert_eq!(acts[0].note(), Some("creating /d/proj".to_string()));
    assert_eq!(write_space_files("/d/proj", "proj", POLICY, &layout()).len(), 3);
}

#[test]
fn names_no_space_can_have() {
    let none = found(&[]);
    let refused = |name: &str, root: Option<&str>, f: &Found| {
        create_space(name, root, f, POLICY, &layout()).unwrap_err().message()
    };
    assert_eq!(refused("  ", Some("/d"), &none), "space name cannot be empty");
    assert_eq!(
        refused("repos", Some("/d"), &none),
        "`repos` is reserved for the canonical repo pool"
    );
    assert_eq!(refused("a/b", Some("/d"), &none), "invalid space name");
    assert_eq!(refused(".a", Some("/d"), &none), "invalid space name");
    assert_eq!(refused("a", None, &none), "cannot locate ~/Desktop");
    assert_eq!(
        refused("a", Some("/d"), &found(&[("/d/a", Kind::File)])),
        "~/Desktop/a already exists"
    );
}

#[test]
fn refresh_writes_only_what_changed() {
    let facts = vec![fact("a-repo", Kind::Link)];
    let fresh = Generated {
        claude: None,
        agents: None,
        workspace: None,
    };
    let acts = refresh_policy_files("/d/s", &facts, &fresh, POLICY, &layout());
    assert_eq!(acts.len(), 3);
    let mut texts = vec![];
    for a in &acts {
        match a {
            Act::Replace { path, tmp, text } => {
                texts.push(text.clone());
                assert!(path.starts_with("/d/s/"));
                assert!(tmp.starts_with("/d/s/.") && tmp.ends_with(".tmp"));
            }
            _ => panic!("not a replacement"),
        }
    }
    // Once everything holds what it should, nothing is written.
    let current = Generated {
        claude: Some(texts[0].clone()),
        agents: Some(texts[1].clone()),
        workspace: Some(texts[2].clone()),
    };
    assert!(refresh_policy_files("/d/s", &facts, &current, POLICY, &layout()).is_empty());
    // A stale policy is replaced, alone.
    let stale = Generated {
        claude: Some("old policy".to_string()),
        agents: Some(texts[1].clone()),
        workspace: Some(texts[2].clone()),
    };
    let acts = refresh_policy_files("/d/s", &facts, &stale, POLICY, &layout());
    assert_eq!(acts.len(), 1);
    assert!(matches!(&acts[0], Act::Replace { path, tmp, text }
        if path == "/d/s/ADA.md" && tmp == "/d/s/.ADA.md.tmp" && *text == texts[1]));
    assert_eq!(acts[0].note(), Some("replacing /d/s/ADA.md".to_string()));
    // So is the workspace when membership changes.
    let more = vec![fact("a-repo", Kind::Link), fact("b-repo", Kind::Link)];
    let acts = refresh_policy_files("/d/s", &more, &current, POLICY, &layout());
    assert_eq!(acts.len(), 1);
    assert!(matches!(&acts[0], Act::Replace { path, text, .. }
        if path == "/d/s/s.code-workspace" && text.contains("b-repo")));
}

#[test]
fn unchanged_text_is_not_written() {
    assert!(write_if_changed("/d/f", "x", Some("x")).is_none());
    assert!(write_if_changed("/d/f", "x", Some("y")).is_some());
    assert!(write_if_changed("/d/f", "x", None).is_some());
}

#[test]
fn workspace_lists_root_and_members() {
    let facts = vec![
        fact("b-repo", Kind::Link),
        fact("a-repo", Kind::Link),
        worktree("a-repo-feature-ws-label", "feature/ws-label"),
        fact("mine", Kind::Dir),
    ];
    let ws = workspace_json(&read_space("/d/s", &facts, POLICY));
    let parsed = read_text(&ws).unwrap();
    let folders = member(&parsed, "folders");
    assert_eq!(text(member(item(folders, 0), "name")), "s (space)");
    let paths: Vec<&str> = (0..4).map(|i| text(member(item(folders, i), "path"))).collect();
    assert_eq!(paths, [".", "a-repo", "a-repo-feature-ws-label", "b-repo"]);
    // Symlinked members carry no label; worktrees are labeled with branch.
    assert!(matches!(item(folders, 1), Json::Object(f) if f.iter().all(|(k, _)| k != "name")));
    assert_eq!(
        text(member(item(folders, 2), "name")),
        "a-repo-feature-ws-label (feature/ws-label)"
    );
    let hidden = member(member(&parsed, "settings"), "files.exclude");
    assert!(matches!(member(hidden, "a-repo"), Json::Bool(true)));
    assert!(!ws.contains("mine"));
}

#[test]
fn workspace_quotes_names() {
    let ws = workspace_json(&read_space("/d/a\"b", &vec![], POLICY));
    let parsed = read_text(&ws).unwrap();
    let name = text(member(item(member(&parsed, "folders"), 0), "name"));
    assert_eq!(name, "a\"b (space)");
}

#[test]
fn pool_repos_by_bare_and_full_name() {
    let entries = vec![
        pool_group("acme", &["api"]),
        pool_group("us", &["go-common"]),
        pool_group("defi", &["go-common"]),
    ];
    let find = |name: &str, direct: bool| {
        resolve_pool_repo("/d/s", name, direct, &entries, &layout())
    };
    assert_eq!(find("api", false).unwrap(), "acme/api");
    assert_eq!(find("acme/api", true).unwrap(), "acme/api");
    assert_eq!(
        find("go-common", false).unwrap_err().message(),
        "`go-common` is ambiguous: us/go-common, defi/go-common"
    );
    assert_eq!(
        find("nope", false).unwrap_err().message(),
        "no repo `nope` in the pool; available: acme/api, us/go-common, defi/go-common"
    );
    assert_eq!(
        resolve_pool_repo("/", "api", false, &entries, &layout())
            .unwrap_err()
            .message(),
        "cannot locate the repo pool"
    );
}

#[test]
fn adding_links_by_base_name() {
    let act = add_repo("/d/proj", "acme/api", Kind::Dir, Kind::Missing, &layout()).unwrap();
    assert!(matches!(&act, Act::Link { target, at, .. }
        if target == "/d/repos/acme/api" && at == "/d/proj/api"));
    let refused = |space: &str, repo: &str, src: Kind, dst: Kind| {
        add_repo(space, repo, src, dst, &layout()).unwrap_err().message()
    };
    // Adding twice is refused, not silently duplicated.
    assert_eq!(
        refused("/d/proj", "api", Kind::Dir, Kind::Link),
        "`api` is already in this space"
    );
    assert_eq!(
        refused("/d/proj", "api", Kind::Missing, Kind::Missing),
        "no repo `api` in ~/Desktop/repos"
    );
    assert_eq!(
        refused("/", "api", Kind::Dir, Kind::Missing),
        "cannot locate the repo pool"
    );
    assert_eq!(
        refused("/d/proj", "..", Kind::Dir, Kind::Missing),
        "invalid repo name `..`"
    );
}

#[test]
fn worktree_names_are_flat() {
    assert_eq!(worktree_dir_name("gw", "feature/x"), "gw-feature-x");
    assert_eq!(worktree_dir_name("gw", "a b/c"), "gw-a-b-c");
}

#[test]
fn promoting_names_the_worktree_after_its_repo() {
    let p = promote_to_worktree("/d/s", "api", " feature/z ", "/d/repos/acme/api", true, Kind::Missing)
        .unwrap();
    assert_eq!(p.name, "api-feature-z");
    assert_eq!(p.dst, "/d/s/api-feature-z");
    assert_eq!(p.create, ["worktree", "add", "/d/s/api-feature-z", "-b", "feature/z"]);
    assert_eq!(p.checkout, ["worktree", "add", "/d/s/api-feature-z", "feature/z"]);
    assert_eq!(
        promotion_path("/d/s", "api", "/d/repos/acme/api", " feature/z "),
        "/d/s/api-feature-z"
    );
    let refused = |branch: &str, has_git: bool, at: Kind| {
        promote_to_worktree("/d/s", "api", branch, "/d/repos/api", has_git, at)
            .unwrap_err()
            .message()
    };
    assert_eq!(refused(" ", true, Kind::Missing), "branch name cannot be empty");
    assert_eq!(
        refused("b", false, Kind::Missing),
        "cannot resolve a canonical repo for `api`"
    );
    assert_eq!(
        refused("b", true, Kind::Dir),
        "`api-b` already exists in this space"
    );
    assert_eq!(checked_branch(" b ").unwrap(), "b");
}

#[test]
fn where_a_canonical_repo_is_found() {
    let git = Some("gitdir: /x/.git/worktrees/w\n".to_string());
    let head = Some("ref: refs/heads/b\n".to_string());
    assert_eq!(canonical_source(Kind::Link, &None, &None), Source::Link);
    assert_eq!(canonical_source(Kind::Dir, &git, &head), Source::Worktree);
    assert_eq!(canonical_source(Kind::Dir, &None, &None), Source::Pool);
    assert_eq!(canonical_source(Kind::Missing, &None, &None), Source::Pool);
}

#[test]
fn canonical_repo_behind_a_worktree() {
    let at = |r: Result<String, String>| canonical_of_worktree("/d/s/w", &r);
    assert_eq!(at(Ok("/d/repos/gw/.git".to_string())).unwrap(), "/d/repos/gw");
    assert_eq!(
        at(Err("git failed".to_string())).unwrap_err().message(),
        "git failed"
    );
    assert_eq!(
        at(Ok("/".to_string())).unwrap_err().message(),
        "cannot resolve canonical repo for worktree"
    );
    assert!(is_git_worktree(&Ok("true".to_string())));
    assert!(!is_git_worktree(&Ok("false".to_string())));
    assert!(!is_git_worktree(&Err("true".to_string())));
}

#[test]
fn removing_members() {
    let common = Ok("/d/repos/gw/.git".to_string());
    let go = |member: MemberFact, worktree: bool| remove_repo("/d/s", &member, worktree, &common);
    assert!(matches!(go(fact("gw", Kind::Link), false),
        Ok(Removing::Unlink { act: Act::RemoveFile { path } }) if path == "/d/s/gw"));
    assert!(matches!(go(worktree("gw", "b"), true), Ok(Removing::Worktree { .. })));
    let message = |r: Result<Removing, SpaceError>| match r {
        Err(e) => e.message(),
        Ok(_) => panic!("not refused"),
    };
    assert_eq!(
        message(go(fact("gw", Kind::Missing), false)),
        "`gw` is not in this space"
    );
    let alone = "`gw` is not a space-managed symlink or worktree; leaving it alone";
    assert_eq!(message(go(fact("gw", Kind::Dir), false)), alone);
    assert_eq!(message(go(fact("gw", Kind::File), true)), alone);
    // A full clone is a work tree to git, and still not the tool's.
    assert_eq!(message(go(fact("gw", Kind::Dir), true)), alone);
    // So is a directory whose `.git` leads nowhere.
    let mut broken = worktree("gw", "b");
    broken.head = None;
    assert_eq!(message(go(broken, true)), alone);
}

fn removal() -> Removal {
    Removal::start(
        "/d/repos/r".to_string(),
        "/d/s/r-b".to_string(),
        "r-b".to_string(),
    )
}

fn said(text: &str) -> Answer {
    Answer::Said(Ok(text.to_string()))
}

fn failed(text: &str) -> Answer {
    Answer::Said(Err(text.to_string()))
}

/// A removal that git has answered on the worktree's status, untracked and ignored files.
fn surveyed(status: &str, untracked: &str, ignored: &str) -> Removal {
    let r = removal().next(said(status)).unwrap();
    let r = r.next(said(untracked)).unwrap();
    r.next(said(ignored)).unwrap()
}

fn removes(r: &Removal) -> bool {
    matches!(r.ask(), RemovalAsk::Git { dir, args }
        if dir == "/d/repos/r" && args == ["worktree", "remove", "/d/s/r-b"])
}

#[test]
fn clean_worktree_is_removed_after_a_look() {
    let r = removal();
    assert!(!r.is_gone() && !r.is_checked());
    assert!(matches!(r.ask(), RemovalAsk::Git { dir, args }
        if dir == "/d/s/r-b" && args == ["status", "--porcelain"]));
    let r = r.next(said("")).unwrap();
    assert!(matches!(r.ask(), RemovalAsk::List { dir, args } if dir == "/d/s/r-b"
        && args == ["ls-files", "--others", "--exclude-standard", "-z"]));
    let r = r.next(said("")).unwrap();
    assert!(!r.is_checked());
    assert!(matches!(r.ask(), RemovalAsk::List { dir, args } if dir == "/d/s/r-b"
        && args == ["ls-files", "--others", "--ignored", "--exclude-standard", "-z"]));
    let r = r.next(said("target/out.bin\0")).unwrap();
    assert!(r.is_checked() && removes(&r));
    let r = r.next(said("")).unwrap();
    assert!(r.is_gone());
    assert!(matches!(r.ask(), RemovalAsk::Nothing));
    assert!(r.next(failed("x")).unwrap().is_gone());
}

#[test]
fn uncommitted_changes_stop_a_removal() {
    let changed = |status: &str| match removal().next(said(status)) {
        Err(e) => e.message(),
        Ok(_) => panic!("not refused"),
    };
    assert_eq!(
        changed(" M README.md"),
        "`r-b` has 1 uncommitted change; commit, stash, or discard first"
    );
    assert_eq!(
        changed("?? new.md\n M README.md\nA  x"),
        "`r-b` has 2 uncommitted changes; commit, stash, or discard first"
    );
    // Where git cannot tell, nothing is removed.
    assert!(removal().next(failed("not a repo")).is_err());
}

#[test]
fn untracked_notes_are_carried_back() {
    let listing = "SCRATCH-NEW.md\0docs/n \u{e9}.md\0";
    let r = surveyed("?? SCRATCH-NEW.md\n?? docs/", listing, "");
    assert!(matches!(r.ask(), RemovalAsk::Copy { from, to, note }
        if from == "/d/s/r-b/SCRATCH-NEW.md" && to == "/d/repos/r/SCRATCH-NEW.md"
            && note == "carrying SCRATCH-NEW.md back to the canonical repo"));
    let r = r.next(said("")).unwrap();
    assert!(matches!(r.ask(), RemovalAsk::Copy { from, .. }
        if from == "/d/s/r-b/docs/n \u{e9}.md"));
    // A note that cannot be carried keeps the worktree.
    assert!(surveyed("?? a", "a\0", "").next(failed("disk full")).is_err());
    let r = r.next(said("")).unwrap();
    assert!(removes(&r));
    // Git would not part with untracked files; they are safe by now.
    let r = r.next(failed("contains modified or untracked files")).unwrap();
    assert!(matches!(r.ask(), RemovalAsk::Git { args, .. }
        if args == ["worktree", "remove", "--force", "/d/s/r-b"]));
    assert!(r.next(said("")).unwrap().is_gone());
}

#[test]
fn ignored_notes_are_compared_before_a_removal() {
    let r = surveyed("", "", "NOTES.md\0build.log\0sub/x.md\0y.md\0");
    assert!(!r.is_checked());
    assert!(matches!(r.ask(), RemovalAsk::Compare { from, to }
        if from == "/d/s/r-b/NOTES.md" && to == "/d/repos/r/NOTES.md"));
    let r = r.next(Answer::Held(Beside::Same)).unwrap();
    assert!(matches!(r.ask(), RemovalAsk::Compare { from, .. } if from == "/d/s/r-b/sub/x.md"));
    // An answer to another question changes nothing.
    let r = r.next(said("")).unwrap();
    assert!(matches!(r.ask(), RemovalAsk::Compare { from, .. } if from == "/d/s/r-b/sub/x.md"));
    let r = r.next(Answer::Held(Beside::Missing)).unwrap();
    assert!(!r.is_checked());
    let r = r.next(Answer::Held(Beside::Same)).unwrap();
    assert!(r.is_checked());
    assert!(matches!(r.ask(), RemovalAsk::Copy { from, to, .. }
        if from == "/d/s/r-b/sub/x.md" && to == "/d/repos/r/sub/x.md"));
    let r = r.next(said("")).unwrap();
    assert!(removes(&r));
}

#[test]
fn a_note_that_differs_stops_a_removal() {
    let r = surveyed("", "a\0", "NOTES.md\0");
    match r.next(Answer::Held(Beside::Differs)) {
        Err(e) => assert_eq!(
            e.message(),
            "`NOTES.md` in `r-b` differs from the canonical repo's; merge the two first"
        ),
        Ok(_) => panic!("not refused"),
    }
}

#[test]
fn untracked_names_are_taken_as_they_are() {
    let r = surveyed("?? \" x\"", " x\0", "");
    assert!(matches!(r.ask(), RemovalAsk::Copy { from, to, .. }
        if from == "/d/s/r-b/ x" && to == "/d/repos/r/ x"));
}

#[test]
fn a_name_that_is_no_text_stops_a_removal() {
    let stopped = |untracked: &str, ignored: &str| {
        let r = removal().next(said("")).unwrap();
        let r = match r.next(said(untracked)) {
            Ok(r) => r.next(said(ignored)),
            Err(e) => Err(e),
        };
        match r {
            Err(e) => e.message(),
            Ok(_) => String::new(),
        }
    };
    let text = "`r-b` has a file whose name is no text; rename it first";
    assert_eq!(stopped("a\u{fffd}\0", ""), text);
    assert_eq!(stopped("", "a\u{fffd}.md\0"), text);
    // One that goes with the worktree anyway does not matter.
    assert_eq!(stopped("", "a\u{fffd}.o\0"), "");
}

#[test]
fn loose_files_follow_into_a_worktree() {
    let untracked = "a.txt\0sub/b.txt\0 \u{e9} \"n\"\n.txt\0";
    let ignored = "NOTES.md\0build.log\0sub/x\u{e9}.md\0";
    let pairs = copy_loose_files("/c", "/w", untracked, ignored);
    let follows = |rel: &str| (format!("/c/{rel}"), format!("/w/{rel}"));
    assert_eq!(
        pairs,
        [
            follows("a.txt"),
            follows("sub/b.txt"),
            follows(" \u{e9} \"n\"\n.txt"),
            follows("NOTES.md"),
            follows("sub/x\u{e9}.md"),
        ]
    );
    assert!(copy_loose_files("/c", "/w", "", "").is_empty());
    assert_eq!(
        untracked_args(),
        ["ls-files", "--others", "--exclude-standard", "-z"]
    );
    assert_eq!(
        ignored_args(),
        ["ls-files", "--others", "--ignored", "--exclude-standard", "-z"]
    );
}

fn new_worktree() -> NewWorktree {
    let p = promote_to_worktree("/d/s", "api", "f/z", "/d/repos/api", true, Kind::Missing);
    NewWorktree::start("/d/repos/api".to_string(), p.unwrap())
}

fn ok(text: &str) -> Result<String, String> {
    Ok(text.to_string())
}

#[test]
fn a_new_branch_comes_before_an_existing_one() {
    let new = new_worktree();
    assert!(matches!(new.ask(), MakingAsk::Git { dir, args } if dir == "/d/repos/api"
        && args == ["worktree", "add", "/d/s/api-f-z", "-b", "f/z"]));
    let old = new.clone().next(Err("exists".to_string())).unwrap();
    assert!(matches!(old.ask(), MakingAsk::Git { dir, args } if dir == "/d/repos/api"
        && args == ["worktree", "add", "/d/s/api-f-z", "f/z"]));
    assert!(matches!(old.clone().next(ok("")).unwrap().ask(), MakingAsk::List { .. }));
    match old.next(Err("checked out elsewhere".to_string())) {
        Err(e) => assert_eq!(e.message(), "checked out elsewhere"),
        Ok(_) => panic!("not refused"),
    }
    let new = new.next(ok("")).unwrap();
    assert!(matches!(new.ask(), MakingAsk::List { dir, args }
        if dir == "/d/repos/api" && args == untracked_args()));
}

#[test]
fn a_new_worktree_gets_the_loose_files() {
    let new = new_worktree().next(ok("")).unwrap();
    assert!(new.clone().next(Err("no".to_string())).is_err());
    let new = new.next(ok(" a\0")).unwrap();
    assert!(matches!(new.ask(), MakingAsk::List { args, .. } if args == ignored_args()));
    let bare = new.clone().next(Err("no".to_string())).unwrap();
    let new = new.next(ok("n.md\0x.log\0")).unwrap();
    assert!(!new.is_made());
    assert!(matches!(new.ask(), MakingAsk::Copy { from, to }
        if from == "/d/repos/api/ a" && to == "/d/s/api-f-z/ a"));
    let new = new.next(Err("gone".to_string())).unwrap();
    assert!(matches!(new.ask(), MakingAsk::Copy { from, to }
        if from == "/d/repos/api/n.md" && to == "/d/s/api-f-z/n.md"));
    let new = new.next(ok("")).unwrap();
    assert!(new.is_made());
    assert!(matches!(new.ask(), MakingAsk::Nothing));
    // Ignored files that git cannot list are none.
    assert!(matches!(bare.ask(), MakingAsk::Copy { from, .. } if from == "/d/repos/api/ a"));
    assert!(bare.next(ok("")).unwrap().is_made());
}

#[test]
fn closing_a_worktree_restores_the_symlink() {
    let common = Ok("/d/repos/gw/.git".to_string());
    assert!(revert_to_symlink("/d/s", &worktree("gw-b", "b"), true, &common).is_ok());
    let refused = |member: MemberFact, worktree: bool| {
        revert_to_symlink("/d/s", &member, worktree, &common)
            .err()
            .unwrap()
            .message()
    };
    assert_eq!(refused(worktree("gw-b", "b"), false), "`gw-b` is not a worktree");
    // Neither a symlink nor a full clone is closed like one.
    assert_eq!(refused(fact("gw-b", Kind::Link), true), "`gw-b` is not a worktree");
    assert_eq!(refused(fact("gw-b", Kind::Dir), true), "`gw-b` is not a worktree");
    let act = relink("/d/s", "gw-b", "/d/repos/gw", Kind::Missing).unwrap();
    assert!(matches!(&act, Act::Link { target, at, .. }
        if target == "/d/repos/gw" && at == "/d/s/gw"));
    assert!(relink("/d/s", "gw-b", "/d/repos/gw", Kind::Link).is_none());
}

#[test]
fn deletion_refuses_before_touching_anything() {
    let marked = found(&[("/d/s/.space.toml", Kind::File)]);
    let inside = |more: Vec<MemberFact>| {
        let mut all: Vec<MemberFact> = [".space.toml", "ADA.md", "AGENTS.md", "s.code-workspace"]
            .iter()
            .map(|n| fact(n, Kind::File))
            .collect();
        all.push(fact("r", Kind::Link));
        all.push(worktree("r-feature-y", "feature/y"));
        all.extend(more);
        all
    };
    let d = delete_space("/d/s", &marked, &inside(vec![]), POLICY).unwrap();
    assert_eq!(d.members, ["r", "r-feature-y"]);
    assert_eq!(
        d.files,
        [
            "/d/s/.space.toml",
            "/d/s/ADA.md",
            "/d/s/AGENTS.md",
            "/d/s/s.code-workspace"
        ]
    );
    let refused = |more: Vec<MemberFact>| {
        delete_space("/d/s", &marked, &inside(more), POLICY)
            .unwrap_err()
            .message()
    };
    assert_eq!(
        refused(vec![
            fact("NOTES-ROOT.md", Kind::File),
            fact("other.code-workspace", Kind::File)
        ]),
        "space contains your files (NOTES-ROOT.md, other.code-workspace); move or delete them first"
    );
    // Hidden files and folders are the user's like others.
    assert_eq!(
        refused(vec![fact(".env", Kind::File)]),
        "space contains your files (.env); move or delete them first"
    );
    assert_eq!(
        refused(vec![fact(".vscode", Kind::Dir)]),
        "space contains your files (.vscode); move or delete them first"
    );
    // So are a link to a file, and a folder that is called like a generated file.
    let mut link = fact("todo", Kind::Link);
    link.is_file = true;
    assert_eq!(
        refused(vec![link]),
        "space contains your files (todo); move or delete them first"
    );
    assert_eq!(
        refused(vec![fact("pipe", Kind::Other)]),
        "`pipe` is not space-managed; remove it by hand first"
    );
    let named = vec![fact(".space.toml", Kind::File), fact("AGENTS.md", Kind::Dir)];
    assert!(delete_space("/d/s", &marked, &named, POLICY).is_err());
    assert_eq!(
        refused(vec![fact("mine", Kind::Dir)]),
        "`mine` is not space-managed; remove it by hand first"
    );
    assert_eq!(
        delete_space("/d/s", &found(&[]), &inside(vec![]), POLICY)
            .unwrap_err()
            .message(),
        "not a space"
    );
    assert_eq!(
        SpaceError::NotEmpty.message(),
        "space not empty after removing managed content; left in place"
    );
}

fn dismantling() -> Dismantling {
    let marked = found(&[("/d/s/.space.toml", Kind::File)]);
    let facts = vec![
        fact(".space.toml", Kind::File),
        fact("a", Kind::Link),
        worktree("b", "x"),
        fact("c", Kind::Link),
    ];
    let plan = delete_space("/d/s", &marked, &facts, POLICY).unwrap();
    Dismantling::start("/d/s".to_string(), plan)
}

fn seen(fact: MemberFact, worktree: bool) -> DismantlingAnswer {
    DismantlingAnswer::Seen {
        fact,
        worktree,
        common: Ok("/d/repos/r/.git".to_string()),
    }
}

fn step(answer: Answer) -> DismantlingAnswer {
    DismantlingAnswer::Step { answer }
}

fn ended(outcome: Result<String, String>) -> DismantlingAnswer {
    DismantlingAnswer::Ended { outcome }
}

#[test]
fn members_are_looked_at_before_the_first_one_goes() {
    let d = dismantling();
    assert!(matches!(d.ask(), DismantlingAsk::Look { name } if name == "a"));
    // A look at another member changes nothing.
    let d = d.next(seen(fact("c", Kind::Link), false)).unwrap();
    assert!(matches!(d.ask(), DismantlingAsk::Look { name } if name == "a"));
    let d = d.next(seen(fact("a", Kind::Link), false)).unwrap();
    assert!(matches!(d.ask(), DismantlingAsk::Look { name } if name == "b"));
    let d = d.next(seen(worktree("b", "x"), true)).unwrap();
    assert!(matches!(d.ask(), DismantlingAsk::Step { ask: RemovalAsk::Git { args, .. } }
        if args == ["status", "--porcelain"]));
    let d = d.next(step(said(""))).unwrap();
    let d = d.next(step(said("n\0"))).unwrap();
    let d = d.next(step(said(""))).unwrap();
    // The worktree is checked; what it asks for next waits for the last member.
    assert!(matches!(d.ask(), DismantlingAsk::Look { name } if name == "c"));
    let d = d.next(seen(fact("c", Kind::Link), false)).unwrap();
    assert!(matches!(d.ask(), DismantlingAsk::Act { act: Act::RemoveFile { path } }
        if path == "/d/s/a"));
    let d = d.next(ended(ok(""))).unwrap();
    assert!(matches!(d.ask(), DismantlingAsk::Step { ask: RemovalAsk::Copy { from, .. } }
        if from == "/d/s/b/n"));
    let d = d.next(step(said(""))).unwrap();
    assert!(matches!(d.ask(), DismantlingAsk::Step { ask: RemovalAsk::Git { args, .. } }
        if args == ["worktree", "remove", "/d/s/b"]));
    let d = d.next(step(said(""))).unwrap();
    let d = d.next(ended(ok(""))).unwrap();
    let mut d = d;
    for f in [".space.toml", "ADA.md", "AGENTS.md", "s.code-workspace"] {
        assert!(matches!(d.ask(), DismantlingAsk::Drop { path } if path == format!("/d/s/{f}")));
        d = d.next(ended(Err("busy".to_string()))).unwrap();
    }
    assert!(matches!(d.ask(), DismantlingAsk::RemoveDir { path } if path == "/d/s"));
    match d.clone().next(ended(Err("full".to_string()))) {
        Err(e) => assert_eq!(
            e.message(),
            "space not empty after removing managed content; left in place"
        ),
        Ok(_) => panic!("not refused"),
    }
    let d = d.next(ended(ok(""))).unwrap();
    assert!(d.is_done());
    assert!(matches!(d.ask(), DismantlingAsk::Nothing));
}

#[test]
fn a_refusal_ends_a_dismantling_with_nothing_done() {
    let d = dismantling().next(seen(fact("a", Kind::Link), false)).unwrap();
    // A worktree with changes.
    let dirty = d.clone().next(seen(worktree("b", "x"), true)).unwrap();
    match dirty.next(step(said(" M f"))) {
        Err(e) => assert_eq!(
            e.message(),
            "`b` has 1 uncommitted change; commit, stash, or discard first"
        ),
        Ok(_) => panic!("not refused"),
    }
    // A member that is not the tool's any more.
    assert!(d.clone().next(seen(fact("b", Kind::Dir), true)).is_err());
    assert!(d.next(seen(fact("b", Kind::Missing), false)).is_err());
}

#[test]
fn a_link_that_stays_is_reported() {
    let d = dismantling().next(seen(fact("a", Kind::Link), false)).unwrap();
    let d = d.next(seen(fact("b", Kind::Link), false)).unwrap();
    let d = d.next(seen(fact("c", Kind::Link), false)).unwrap();
    match d.next(ended(Err("denied".to_string()))) {
        Err(e) => assert_eq!(e.message(), "denied"),
        Ok(_) => panic!("not refused"),
    }
}

/// Runs a pull against given answers of git and tells its outcome.
fn pull(replies: &[Result<&str, &str>]) -> Result<String, String> {
    let mut stage = PullStage::Fetch;
    for reply in replies {
        let reply = match reply {
            Ok(s) => Ok(s.to_string()),
            Err(s) => Err(s.to_string()),
        };
        match pull_main(stage, reply) {
            PullStep::Ask { stage: next } => stage = next,
            PullStep::Done { outcome } => return outcome.map_err(|e| e.message()),
        }
    }
    panic!("the pull asks on")
}

#[test]
fn pulls_merge_only_when_safe() {
    assert_eq!(
        pull(&[Ok(""), Ok(""), Ok("main"), Ok("0")]).unwrap(),
        "already up to date"
    );
    assert_eq!(
        pull(&[Ok(""), Ok(""), Ok("main"), Ok("1"), Ok(""), Ok("")]).unwrap(),
        "updated 1 commit"
    );
    assert_eq!(
        pull(&[Ok(""), Err("no"), Ok(""), Ok("master"), Ok("3"), Ok(""), Ok("")]).unwrap(),
        "updated 3 commits"
    );
    assert_eq!(
        pull(&[Ok(""), Ok(""), Ok("main"), Ok("1"), Ok(" M README.md")]).unwrap_err(),
        "1 commits behind, but working tree has uncommitted changes"
    );
    assert_eq!(
        pull(&[Ok(""), Ok(""), Ok("feature/pull")]).unwrap(),
        "fetched origin/main (on feature/pull, not merged)"
    );
    assert_eq!(
        pull(&[Ok(""), Ok(""), Ok("main"), Ok("2"), Ok(""), Err("no")]).unwrap_err(),
        "2 commits behind, but local main has diverged (no fast-forward)"
    );
    assert_eq!(
        pull(&[Ok(""), Err("no"), Err("no")]).unwrap_err(),
        "origin has neither main nor master"
    );
    assert_eq!(pull(&[Err("offline")]).unwrap_err(), "offline");
}

#[test]
fn pull_stages_ask_git() {
    assert_eq!(PullStage::Fetch.args(), ["fetch", "origin", "--prune"]);
    let behind = PullStage::Behind {
        default: "main".to_string(),
    };
    assert_eq!(behind.args(), ["rev-list", "--count", "HEAD..origin/main"]);
    let merge = PullStage::Merge {
        default: "main".to_string(),
        behind: "1".to_string(),
    };
    assert_eq!(merge.args(), ["merge", "--ff-only", "origin/main"]);
}
