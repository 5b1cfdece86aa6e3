use space::stack::{
    branch_stack, compare_url, default_branch, fetch_prs, graph_args, layer_diff, origin_args,
    origin_slug, patch_args, pr_args, stat_args, tips_args, StackError,
};

#[test]
fn slug_and_compare_url() {
    assert_eq!(
        compare_url("o/r", "main", "feat/x"),
        "https://github.com/o/r/compare/main...feat/x"
    );
    // origin_slug parsing is exercised via string forms
    for (url, want) in [
        ("git@github.com:acme-corp/api.git", "acme-corp/api"),
        (
            "https://github.com/willzeng274/space.git",
            "willzeng274/space",
        ),
        ("https://github.com/willzeng274/space", "willzeng274/space"),
    ] {
        let rest = url
            .strip_prefix("git@github.com:")
            .or_else(|| url.strip_prefix("https://github.com/"))
            .unwrap();
        assert_eq!(rest.trim_end_matches('/').trim_end_matches(".git"), want);
        assert_eq!(origin_slug(url), Some(want.to_string()));
    }
}

#[test]
fn slug_forms() {
    assert_eq!(
        origin_slug("ssh://git@github.com/o/r.git.git"),
        Some("o/r".to_string())
    );
    assert_eq!(
        origin_slug("https://github.com/o/r//"),
        Some("o/r".to_string())
    );
    // A slash behind `.git` goes first, one before it stays.
    assert_eq!(
        origin_slug("https://github.com/o/r.git/"),
        Some("o/r".to_string())
    );
    assert_eq!(origin_slug("https://gitlab.com/o/r"), None);
}

const HEADS: &str = "feat/a a2\nfeat/b b1\nfeat/solo s1\nmain m0";
const REVS: &str = "b1 a2\na2 a1\na1 m0\ns1 m0";

#[test]
fn linear_stack_and_sibling() {
    let stack = branch_stack(HEADS, REVS, Some("git@github.com:o/r.git")).unwrap();
    assert_eq!(stack.default_branch, "main");
    assert_eq!(stack.slug, Some("o/r".to_string()));
    let get = |b: &str| stack.entries.iter().find(|e| e.branch == b).unwrap();
    assert_eq!(get("feat/a").parent, "main");
    assert_eq!(get("feat/a").commits, 2);
    assert_eq!(get("feat/b").parent, "feat/a");
    assert_eq!(get("feat/b").commits, 1);
    assert_eq!(get("feat/b").depth, 2);
    assert_eq!(get("feat/solo").parent, "main");
    // children directly follow their parent in display order
    let idx = |b: &str| stack.entries.iter().position(|e| e.branch == b).unwrap();
    assert_eq!(idx("feat/b"), idx("feat/a") + 1);
    assert_eq!(stack.entries.len(), 3);
}

#[test]
fn merged_branches_are_left_out() {
    let stack = branch_stack("done m0\nmaster m0\nx x1", "x1 m0", None).unwrap();
    assert_eq!(stack.default_branch, "master");
    assert_eq!(stack.slug, None);
    assert_eq!(stack.entries.len(), 1);
    assert_eq!(stack.entries[0].branch, "x");
    assert_eq!(stack.entries[0].commits, 1);
}

#[test]
fn nearest_branch_is_the_parent() {
    // c is built on b, b on a: the parent of c is b, not a.
    let heads = "a a1\nb b1\nc c1\nmain m0";
    let revs = "c1 b1\nb1 a1\na1 m0";
    let stack = branch_stack(heads, revs, None).unwrap();
    let c = stack.entries.iter().find(|e| e.branch == "c").unwrap();
    assert_eq!(c.parent, "b");
    assert_eq!(c.commits, 1);
    assert_eq!(c.depth, 3);
}

#[test]
fn a_twin_at_the_same_commit_stands_under_the_default() {
    let stack = branch_stack("a x1\nb x1\nmain m0", "x1 m0", None).unwrap();
    assert!(stack.entries.iter().all(|e| e.parent == "main"));
    assert!(stack.entries.iter().all(|e| e.commits == 1));
    assert!(stack.entries.iter().all(|e| e.depth == 1));
}

#[test]
fn twins_above_a_third_branch_stand_on_it() {
    let heads = "feat/a A1\nmain M0\nt1 B1\nt2 B1";
    let revs = "B1 A1\nA1 M0";
    let stack = branch_stack(heads, revs, None).unwrap();
    let shown: Vec<(&str, &str, usize, usize)> = stack
        .entries
        .iter()
        .map(|e| (e.branch.as_str(), e.parent.as_str(), e.commits, e.depth))
        .collect();
    assert_eq!(
        shown,
        [
            ("feat/a", "main", 1, 1),
            ("t1", "feat/a", 1, 2),
            ("t2", "feat/a", 1, 2)
        ]
    );
}

#[test]
fn siblings_come_in_order_of_their_names() {
    let heads = "c c1\na a1\nb b1\nb-two b2\nb-one b3\nmain m0";
    let revs = "c1 m0\na1 m0\nb1 m0\nb2 b1\nb3 b1";
    let stack = branch_stack(heads, revs, None).unwrap();
    let shown: Vec<&str> = stack.entries.iter().map(|e| e.branch.as_str()).collect();
    assert_eq!(shown, ["a", "b", "b-one", "b-two", "c"]);
}

#[test]
fn long_stacks_keep_their_order() {
    // A chain of eighty, the names against the order of the chain, and one beside it.
    let name = |i: usize| format!("n{:02}", 99 - i);
    let mut heads = String::from("main m\nz z1\n");
    let mut revs = String::from("z1 m\n");
    for i in 0..80 {
        heads.push_str(&format!("{} x{i}\n", name(i)));
        let below = if i == 0 { "m".to_string() } else { format!("x{}", i - 1) };
        revs.push_str(&format!("x{i} {below}\n"));
    }
    let stack = branch_stack(&heads, &revs, None).unwrap();
    assert_eq!(stack.entries.len(), 81);
    for i in 0..80 {
        assert_eq!(stack.entries[i].branch, name(i));
        assert_eq!(stack.entries[i].depth, i + 1);
    }
    assert_eq!(stack.entries[80].branch, "z");
}

#[test]
fn merges_count_each_commit_once() {
    // m merges p and q, both on the default branch.
    let heads = "main m0\nq q1\nz m1";
    let revs = "m1 p1 q1\np1 m0\nq1 m0";
    let stack = branch_stack(heads, revs, None).unwrap();
    let z = stack.entries.iter().find(|e| e.branch == "z").unwrap();
    assert_eq!(z.parent, "q");
    assert_eq!(z.commits, 2);
}

#[test]
fn no_default_branch_is_an_error() {
    assert_eq!(
        branch_stack("dev d1", "d1", None).err(),
        Some(StackError::NoDefaultBranch)
    );
    assert_eq!(
        StackError::NoDefaultBranch.message(),
        "no main/master branch"
    );
    assert_eq!(default_branch("main m0\nmaster x"), Ok("main".to_string()));
    assert_eq!(default_branch("master x"), Ok("master".to_string()));
    assert_eq!(default_branch("nothing"), Err(StackError::NoDefaultBranch));
}

#[test]
fn layer_diff_is_capped() {
    let (lines, cut) = layer_diff(" b1 | 1 +\n 1 file changed", "diff --git a/b1 b/b1\n+x");
    assert_eq!(
        lines,
        [
            " b1 | 1 +",
            " 1 file changed",
            "",
            "diff --git a/b1 b/b1",
            "+x"
        ]
    );
    assert_eq!(cut, 0);
    let patch = "x\n".repeat(5001);
    let (lines, cut) = layer_diff("s", &patch);
    assert_eq!(lines.len(), 5000);
    assert_eq!(cut, 3);
}

#[test]
fn git_and_gh_arguments() {
    assert_eq!(
        tips_args(),
        [
            "for-each-ref",
            "--format=%(refname:short) %(objectname)",
            "refs/heads"
        ]
    );
    assert_eq!(
        graph_args("main"),
        ["rev-list", "--parents", "--branches", "--not", "main"]
    );
    assert_eq!(origin_args(), ["remote", "get-url", "origin"]);
    assert_eq!(stat_args("a", "b"), ["diff", "--stat", "a..b"]);
    assert_eq!(patch_args("a", "b"), ["diff", "a..b"]);
    assert_eq!(pr_args("o/r")[3], "o/r");
    assert_eq!(pr_args("o/r").len(), 10);
}

#[test]
fn pull_requests_are_read() {
    let json = br#"[
        {"number":7,"url":"u7","state":"OPEN","title":"t7","headRefName":"a","isDraft":true},
        {"number":8,"url":"u8","state":"MERGED","title":"t8","headRefName":"b","isDraft":true},
        {"headRefName":"c"}
    ]"#;
    let prs = fetch_prs(true, json).unwrap();
    assert_eq!(prs.len(), 3);
    assert_eq!(prs[0].0, "a");
    assert_eq!(prs[0].1.number, 7);
    assert_eq!(prs[0].1.url, "u7");
    assert_eq!(prs[0].1.state, "DRAFT");
    assert_eq!(prs[0].1.title, "t7");
    assert_eq!(prs[1].1.state, "MERGED");
    assert_eq!(prs[2].1.number, 0);
    assert_eq!(prs[2].1.state, "?");
    assert_eq!(prs[2].1.url, "");
}

#[test]
fn pull_requests_that_cannot_be_read() {
    assert!(fetch_prs(false, b"[]").is_none());
    assert!(fetch_prs(true, b"not json").is_none());
    assert!(fetch_prs(true, b"{}").is_none());
    assert!(fetch_prs(true, br#"[{"number":1}]"#).is_none());
    assert_eq!(fetch_prs(true, b"[]").unwrap().len(), 0);
}
