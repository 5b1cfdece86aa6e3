use space::git::{git_listing, git_reply, git_unstarted};
use space::json::{quote, read_bytes, read_text, Json};
use space::names::read_names;
use space::path::{
    ancestors, base_name, extension_is, file_name, file_stem, join, parent, with_name,
};

fn args(list: &[&str]) -> Vec<String> {
    list.iter().map(|s| s.to_string()).collect()
}

#[test]
fn replies_of_git() {
    let a = args(&["status", "--porcelain"]);
    assert_eq!(git_reply(&a, true, b" M x\n", b""), Ok("M x".to_string()));
    // Bytes that are no text are replaced.
    assert_eq!(git_reply(&a, true, b"a\xffb", b""), Ok("a\u{fffd}b".to_string()));
    assert_eq!(
        git_reply(&a, false, b"out", b"fatal: not a repo\n"),
        Err("git status --porcelain failed: fatal: not a repo".to_string())
    );
    assert_eq!(git_unstarted(&a), "running git status --porcelain");
}

#[test]
fn listings_of_git_are_kept_whole() {
    let a = args(&["ls-files", "-z"]);
    assert_eq!(
        git_listing(&a, true, b" note\0b\n\0", b""),
        Ok(" note\0b\n\0".to_string())
    );
    assert_eq!(git_listing(&a, true, b"a\xffb", b""), Ok("a\u{fffd}b".to_string()));
    assert_eq!(
        git_listing(&a, false, b"out", b"fatal: not a repo\n"),
        Err("git ls-files -z failed: fatal: not a repo".to_string())
    );
}

#[test]
fn json_is_read() {
    let j = read_text(r#"{"a": [1, -2, 1.5, "x", true, null], "b": {"c": "d"}}"#).unwrap();
    match j.get("a") {
        Some(Json::List(items)) => {
            assert_eq!(items.len(), 6);
            assert!(matches!(items[0], Json::Number(Some(1))));
            assert!(matches!(items[1], Json::Number(None)));
            assert!(matches!(items[2], Json::Number(None)));
            assert!(matches!(&items[3], Json::Text(s) if s == "x"));
            assert!(matches!(items[4], Json::Bool(true)));
            assert!(matches!(items[5], Json::Null));
        }
        _ => panic!("no list"),
    }
    assert_eq!(j.get("b").unwrap().str_at("c").unwrap(), "d");
    assert!(j.get("z").is_none());
    assert!(read_text("{").is_none());
    assert!(matches!(read_bytes(b"\"t\""), Some(Json::Text(s)) if s == "t"));
    assert!(read_bytes(b"\xff").is_none());
}

#[test]
fn json_text_is_quoted() {
    assert_eq!(quote("a\"b\\c\n"), "\"a\\\"b\\\\c\\n\"");
    assert!(matches!(read_text(&quote("a\"b\u{1}")), Some(Json::Text(s)) if s == "a\"b\u{1}"));
}

#[test]
fn paths() {
    assert_eq!(join("/a", "b"), "/a/b");
    assert_eq!(join("/a/", "b"), "/a/b");
    assert_eq!(join("/a", "/b"), "/b");
    assert_eq!(join("", "b"), "b");
    assert_eq!(parent("/a/b"), Some("/a".to_string()));
    assert_eq!(parent("/"), None);
    assert_eq!(file_name("/a/b/"), Some("b".to_string()));
    assert_eq!(file_name("/a/.."), None);
    assert_eq!(base_name("/a/b"), "b");
    assert_eq!(file_stem("/a/b.tar.gz"), Some("b.tar".to_string()));
    assert!(extension_is("/a/b.md", "md"));
    assert!(!extension_is("/a/.md", "md"));
    assert_eq!(with_name("/a/b", ".b.tmp"), "/a/.b.tmp");
    assert_eq!(ancestors("/a/b"), ["/a/b", "/a", "/"]);
}

#[test]
fn agent_settings() {
    let all = r#"{"label": "Ada", "program": "ada", "home": ".ada", "policy": "ADA.md"}"#;
    let n = read_names(Some(all)).unwrap();
    assert_eq!((n.label.as_str(), n.program.as_str()), ("Ada", "ada"));
    assert_eq!((n.home.as_str(), n.policy.as_str()), (".ada", "ADA.md"));
    let none = |text: &str| read_names(Some(text)).is_none();
    assert!(none(r#"{"label": "Ada", "program": "ada", "home": ".ada"}"#));
    assert!(none(r#"{"label": 1, "program": "a", "home": "b", "policy": "c"}"#));
    assert!(none("label"));
    // Without settings the standard names stand.
    let n = read_names(None).unwrap();
    assert_eq!((n.label.as_str(), n.program.as_str()), ("Agent", "agent"));
    assert_eq!((n.home.as_str(), n.policy.as_str()), (".agent", "AGENT.md"));
}
