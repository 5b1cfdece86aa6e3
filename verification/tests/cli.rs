use space::app::{Effect, Request};
use space::cli::{
    add_args, add_line, binary_name, current_space, dispatch, exit_line, help_text, launch_argv,
    launch_failed, logical_cwd, ls_lines, pull_line, pull_plan, resume_argv, route, shell_program,
    shell_target, skip_line, stack_dir, stack_lines, strip_handoff, wt_args, wt_line, Command,
    Next, PAGER,
};
use space::data::Backend;
use space::names::AgentNames;
use space::space::{Found, Kind, PoolRepo, RepoState, SpaceRepo};
use space::stack::{PrInfo, Stack, StackEntry};

fn names() -> AgentNames {
    AgentNames {
        label: "Ada".to_string(),
        program: "ada".to_string(),
        home: ".ada".to_string(),
        policy: "ADA.md".to_string(),
    }
}

fn args(list: &[&str]) -> Vec<String> {
    list.iter().map(|s| s.to_string()).collect()
}

#[test]
fn help_names_commands_and_agents() {
    let help = help_text(&names());
    assert!(help.starts_with("space: spaces of repos + agent conversations, in one TUI\n\nUSAGE:"));
    assert!(help.contains("x remove   Enter launch ada   o launch codex"));
    assert!(help.ends_with(
        "~/.ada/projects/**    ~/.codex/sessions/**   (transcripts are never written)"
    ));
}

#[test]
fn handoff_file_is_taken_out() {
    let (file, rest) = strip_handoff(args(&["pull", "--handoff-file", "/tmp/h", "api"])).unwrap();
    assert_eq!(file.as_deref(), Some("/tmp/h"));
    assert_eq!(rest, ["pull", "api"]);
    let (file, rest) = strip_handoff(args(&["ls"])).unwrap();
    assert_eq!(file, None);
    assert_eq!(rest, ["ls"]);
    assert_eq!(
        strip_handoff(args(&["--handoff-file"])).unwrap_err().message(),
        "--handoff-file requires a path"
    );
}

#[test]
fn commands_by_their_first_argument() {
    let run = |list: &[&str]| dispatch(args(list));
    assert!(matches!(run(&[]), Ok(Command::Tui)));
    assert!(matches!(run(&["--help"]), Ok(Command::Help)));
    assert!(matches!(run(&["-h"]), Ok(Command::Help)));
    assert!(matches!(run(&["--init", "zsh"]), Ok(Command::InitZsh)));
    assert_eq!(
        run(&["--init", "fish"]).err().unwrap().message(),
        "unsupported shell \"fish\"; supported: zsh"
    );
    assert!(matches!(run(&["wt", "api", "b"]), Ok(Command::Wt { args }) if args == ["api", "b"]));
    assert!(matches!(run(&["pull"]), Ok(Command::Pull { args }) if args.is_empty()));
    assert!(matches!(run(&["add", "api"]), Ok(Command::Add { args }) if args == ["api"]));
    assert!(matches!(run(&["ls"]), Ok(Command::Ls)));
    assert!(matches!(run(&["stack", "api"]), Ok(Command::Stack { args }) if args == ["api"]));
}

#[test]
fn arguments_of_commands() {
    assert_eq!(
        wt_args(&args(&["api", "b"])).unwrap(),
        ("api".to_string(), "b".to_string())
    );
    assert_eq!(
        wt_args(&args(&["api"])).unwrap_err().message(),
        "usage: space wt <repo> <branch>"
    );
    assert_eq!(add_args(&args(&["api"])).unwrap(), "api");
    assert!(add_args(&args(&[])).unwrap_err().message().starts_with("usage: space add <repo>"));
}

#[test]
fn the_space_around_the_current_directory() {
    let found = Found {
        paths: vec![("/d/s/.space.toml".to_string(), Kind::File)],
    };
    assert_eq!(current_space("/d/s/api/src", &found).unwrap(), "/d/s");
    let e = current_space("/x", &found).unwrap_err().message();
    assert!(e.contains("/x"), "got: {e}");
    // The shell's own path keeps symlinks that the system's would resolve.
    assert_eq!(logical_cwd(Some("/d/s/api")), Some("/d/s/api".to_string()));
    assert_eq!(logical_cwd(Some("d/s")), None);
    assert_eq!(logical_cwd(None), None);
    assert_eq!(stack_dir("/d/s", Some("api"), true, None).unwrap(), "/d/s/api");
    assert!(stack_dir("/d/s", Some("api"), false, None).is_err());
    assert_eq!(stack_dir("/d/s", None, false, Some("/d/s/api")).unwrap(), "/d/s/api");
}

fn members() -> Vec<SpaceRepo> {
    let repo = |name: &str, state: RepoState| SpaceRepo {
        name: name.to_string(),
        state,
    };
    let on = RepoState::Worktree {
        branch: "f/x".to_string(),
    };
    vec![
        repo("api", RepoState::Symlink),
        repo("api-f-x", on),
        repo("mine", RepoState::Foreign),
    ]
}

#[test]
fn pulling_all_or_one() {
    let all = pull_plan(&members(), None).unwrap();
    let rows: Vec<(&str, bool)> = all.iter().map(|i| (i.name.as_str(), i.foreign)).collect();
    assert_eq!(rows, [("api", false), ("api-f-x", false), ("mine", true)]);
    let one = pull_plan(&members(), Some("api-f-x")).unwrap();
    assert_eq!(one.len(), 1);
    assert_eq!(one[0].name, "api-f-x");
    let e = pull_plan(&members(), Some("nope")).unwrap_err().message();
    assert!(e.contains("`nope`"), "got: {e}");
}

#[test]
fn lines_that_commands_print() {
    assert_eq!(
        wt_line("/d/s", "api-b", "b"),
        "added worktree /d/s/api-b on `b`"
    );
    assert_eq!(add_line("acme/api", "/d/s"), "added acme/api to /d/s");
    assert_eq!(
        pull_line("api", &Ok("already up to date".to_string())),
        format!("ok   {:<24} already up to date", "api")
    );
    assert_eq!(
        pull_line("api", &Err("offline".to_string())),
        format!("fail {:<24} offline", "api")
    );
    assert_eq!(
        skip_line("mine"),
        format!("skip {:<24} not space-managed (stray file/dir at the space root)", "mine")
    );
}

#[test]
fn listing_members_and_pool() {
    let pool = vec![PoolRepo {
        name: "oss/sdk".to_string(),
        path: "/d/repos/oss/sdk".to_string(),
    }];
    let lines = ls_lines("/d/s", &members(), &pool);
    assert_eq!(lines[0], "space: /d/s");
    assert!(lines[1].contains("api"));
    assert!(lines[2].contains("f/x"));
    assert!(lines.iter().any(|l| l.contains("oss/sdk")));
}

#[test]
fn printing_a_stack() {
    let entry = |branch: &str, parent: &str, commits: usize, depth: usize| StackEntry {
        branch: branch.to_string(),
        parent: parent.to_string(),
        commits,
        depth,
    };
    let stack = Stack {
        default_branch: "main".to_string(),
        entries: vec![entry("a", "main", 1, 1), entry("b", "a", 2, 2)],
        slug: Some("o/r".to_string()),
    };
    let pr = PrInfo {
        number: 7,
        url: "https://github.com/o/r/pull/7".to_string(),
        state: "OPEN".to_string(),
        title: "t".to_string(),
    };
    let lines = stack_lines(&stack, &vec![("b".to_string(), pr)]);
    assert_eq!(lines.len(), 3);
    assert_eq!(lines[0], "main");
    assert!(lines[1].contains("https://github.com/o/r/compare/main...a"));
    assert!(lines[2].contains("#7"));
}

#[test]
fn agents_are_run_without_prompts() {
    let n = names();
    assert_eq!(binary_name(Backend::Claude, &n), "ada");
    assert_eq!(
        launch_argv(Backend::Claude, &n),
        ["ada", "--dangerously-skip-permissions"]
    );
    assert_eq!(
        launch_argv(Backend::Codex, &n),
        ["codex", "--dangerously-bypass-approvals-and-sandbox"]
    );
    assert_eq!(
        resume_argv(Backend::Claude, "i", true, &n),
        ["ada", "--resume", "i", "--fork-session", "--dangerously-skip-permissions"]
    );
    assert_eq!(
        resume_argv(Backend::Claude, "i", false, &n),
        ["ada", "--resume", "i", "--dangerously-skip-permissions"]
    );
    assert_eq!(
        resume_argv(Backend::Codex, "i", true, &n),
        ["codex", "fork", "i", "--dangerously-bypass-approvals-and-sandbox"]
    );
    assert_eq!(
        resume_argv(Backend::Codex, "i", false, &n),
        ["codex", "resume", "i", "--dangerously-bypass-approvals-and-sandbox"]
    );
}

#[test]
fn how_runs_end() {
    let n = names();
    assert_eq!(exit_line(Backend::Codex, Some(2), &n), "codex exited (2)");
    assert_eq!(
        exit_line(Backend::Claude, Some(i32::MIN), &n),
        "ada exited (-2147483648)"
    );
    assert_eq!(exit_line(Backend::Codex, None, &n), "codex exited (signal)");
    assert_eq!(
        launch_failed(Backend::Claude, "not found", &n),
        "failed to launch ada: not found"
    );
    assert_eq!(shell_target("/d", true), "/d");
    assert_eq!(shell_target("/d", false), "/");
    assert_eq!(shell_target("", true), "/");
    assert_eq!(shell_program(Some("/bin/bash")), "/bin/bash");
    assert_eq!(shell_program(None), "/bin/zsh");
}

#[test]
fn wrapped_effects_are_handed_off() {
    let n = names();
    let launch = || Effect::LaunchNew {
        backend: Backend::Codex,
        cwd: "/d/s".to_string(),
    };
    assert!(matches!(route(launch(), true, &n), Next::HandOff { cwd, argv }
        if cwd == "/d/s" && argv == launch_argv(Backend::Codex, &n)));
    assert!(matches!(route(launch(), false, &n), Next::Agent { backend: Backend::Codex, argv, .. }
        if argv == launch_argv(Backend::Codex, &n)));
    let resume = Effect::Resume {
        backend: Backend::Claude,
        cwd: "/d/s".to_string(),
        id: "i".to_string(),
        fork: false,
    };
    assert!(matches!(route(resume, true, &n), Next::HandOff { argv, .. }
        if argv == resume_argv(Backend::Claude, "i", false, &n)));
    let shell = || Effect::Shell {
        cwd: "/d/s".to_string(),
    };
    assert!(matches!(route(shell(), true, &n), Next::HandOff { argv, .. } if argv.is_empty()));
    assert!(matches!(route(shell(), false, &n), Next::Shell { cwd } if cwd == "/d/s"));
    assert!(matches!(route(Effect::Nothing, true, &n), Next::Stay));
    assert!(matches!(route(Effect::Quit, true, &n), Next::Leave));
    let diff = Effect::Diff {
        repo: "api".to_string(),
        dir: "/d/s/api".to_string(),
        parent: "main".to_string(),
        branch: "a".to_string(),
    };
    assert!(matches!(route(diff, true, &n), Next::Pager { args, repo, .. }
        if repo == "api" && args == ["-c", PAGER, "_", "/d/s/api", "main", "a"]));
    let ask = Effect::Ask {
        request: Request::Reload,
    };
    assert!(matches!(route(ask, true, &n), Next::Ask { request: Request::Reload }));
}
