use space::data::{parse_iso_epoch, Backend};
use space::json::Json;
use space::names::AgentNames;
use space::parse::{
    claude_records, claude_root, codex_records, codex_root, decode_dir_slug, extract_tag,
    extract_text, file_mtime_epoch, is_jsonl, is_prose, parse_claude_file, parse_codex_file,
    read_lines, truncate_title,
};
use space::space::ROOT_DIR;

#[test]
fn claude_parse_basic() {
    let root = ROOT_DIR;
    let body = format!(
        r#"
{{"type":"mode","mode":"x","sessionId":"abc"}}
{{"type":"user","message":{{"role":"user","content":[{{"type":"text","text":"fix the login bug"}}]}},"cwd":"/Users/me/{root}/proj/app","timestamp":"2026-06-30T19:20:35.301Z"}}
{{"type":"assistant","message":{{"role":"assistant","content":[{{"type":"text","text":"on it"}}]}},"timestamp":"2026-06-30T19:21:00.000Z"}}
{{"type":"ai-title","aiTitle":"Fix login bug","sessionId":"abc"}}
not even json
"#
    );
    let p = "/tmp/space-tests/11111111-2222-3333-4444-555555555555.jsonl";
    let s = parse_claude_file(p, body.as_bytes(), 0).unwrap();
    assert_eq!(s.backend, Backend::Claude);
    assert_eq!(s.id, "11111111-2222-3333-4444-555555555555");
    assert_eq!(s.title, "Fix login bug"); // ai-title wins over first prose
    assert_eq!(s.cwd, format!("/Users/me/{root}/proj/app"));
    assert_eq!(s.space, "proj");
    assert_eq!(s.msg_count, 2);
    assert_eq!(
        s.last_activity,
        parse_iso_epoch("2026-06-30T19:21:00.000Z").unwrap()
    );
    assert!(s.matches("login"));
}

#[test]
fn claude_title_falls_back_to_first_prose() {
    let body = r#"
{"type":"user","message":{"role":"user","content":"just a string message"},"cwd":"/tmp/x","timestamp":"2026-01-01T00:00:00Z"}
"#;
    let p = "/tmp/space-tests/aaaaaaaa-0000-0000-0000-000000000000.jsonl";
    let s = parse_claude_file(p, body.as_bytes(), 0).unwrap();
    assert_eq!(s.title, "just a string message");
}

#[test]
fn codex_parse_env_context_and_response_items() {
    let root = ROOT_DIR;
    let body = format!(
        r#"
{{"timestamp":"2026-05-01T10:00:00Z","type":"session_meta","payload":{{"id":"dead-beef","cwd":"/Users/me/{root}/tools/proj"}}}}
{{"timestamp":"2026-05-01T10:00:01Z","type":"response_item","payload":{{"type":"message","role":"user","content":[{{"type":"input_text","text":"refactor the parser"}}]}}}}
{{"timestamp":"2026-05-01T10:00:05Z","type":"response_item","payload":{{"type":"message","role":"assistant","content":[{{"type":"output_text","text":"done"}}]}}}}
"#
    );
    let p = "/tmp/space-tests/rollout-2026-05-01-dead-beef.jsonl";
    let s = parse_codex_file(p, body.as_bytes(), 0).unwrap();
    assert_eq!(s.backend, Backend::Codex);
    assert_eq!(s.id, "dead-beef");
    assert_eq!(s.cwd, format!("/Users/me/{root}/tools/proj"));
    assert_eq!(s.space, "tools");
    assert_eq!(s.title, "refactor the parser");
    assert_eq!(s.msg_count, 2);
}

#[test]
fn codex_cwd_from_environment_context_tag() {
    let root = ROOT_DIR;
    let body = format!(
        r#"
{{"type":"response_item","payload":{{"type":"message","role":"user","content":[{{"type":"input_text","text":"<environment_context>\n<cwd>/Users/me/{root}/sp/repo</cwd>\n</environment_context>"}}]}}}}
{{"type":"response_item","payload":{{"type":"message","role":"user","content":[{{"type":"input_text","text":"hello there"}}]}}}}
"#
    );
    let p = "/tmp/space-tests/rollout-2026-05-02-cafef00d.jsonl";
    let s = parse_codex_file(p, body.as_bytes(), 0).unwrap();
    assert_eq!(s.cwd, format!("/Users/me/{root}/sp/repo"));
    assert_eq!(s.space, "sp");
    assert_eq!(s.title, "hello there");
}

#[test]
fn tag_extraction() {
    assert_eq!(
        extract_tag("<cwd>/a/b</cwd>", "cwd"),
        Some("/a/b".to_string())
    );
    assert_eq!(extract_tag("no tag here", "cwd"), None);
}

#[test]
fn tag_edges() {
    assert_eq!(
        extract_tag("x <t> a </t> <t>b</t>", "t"),
        Some("a".to_string())
    );
    assert_eq!(extract_tag("</t> <t>b", "t"), None);
    assert_eq!(extract_tag("<t></t>", "t"), Some(String::new()));
}

#[test]
fn roots_under_home() {
    let names = AgentNames {
        label: "Ada".to_string(),
        program: "ada".to_string(),
        home: ".ada".to_string(),
        policy: "ADA.md".to_string(),
    };
    assert_eq!(
        claude_root(Some("/home/u"), &names),
        Some("/home/u/.ada/projects".to_string())
    );
    assert_eq!(
        codex_root(Some("/home/u")),
        Some("/home/u/.codex/sessions".to_string())
    );
    assert_eq!(claude_root(None, &names), None);
    assert_eq!(codex_root(None), None);
}

#[test]
fn transcript_files() {
    assert!(is_jsonl("/a/b.jsonl", true));
    assert!(!is_jsonl("/a/b.jsonl", false));
    assert!(!is_jsonl("/a/b.json", true));
    assert!(!is_jsonl("/a/.jsonl", true));
    assert_eq!(file_mtime_epoch(Some(5)), 5);
    assert_eq!(file_mtime_epoch(None), 0);
}

#[test]
fn lines_that_hold_no_record_are_skipped() {
    let bytes = b"{\"a\":1}\r\n\n  \n\xff\xfe{}\n[1,\n \t\"x\" \nnull";
    let all = read_lines(bytes);
    assert_eq!(all.len(), 3);
    assert!(matches!(&all[0], Json::Object(f) if f.len() == 1 && f[0].0 == "a"
        && matches!(f[0].1, Json::Number(Some(1)))));
    assert!(matches!(&all[1], Json::Text(s) if s == "x"));
    assert!(matches!(&all[2], Json::Null));
}

#[test]
fn titles() {
    assert_eq!(truncate_title("\n  \n  one  \ntwo"), "one");
    assert_eq!(truncate_title(" \n "), "");
    let long = "é".repeat(81);
    let cut = truncate_title(&long);
    assert_eq!(cut.chars().count(), 81);
    assert_eq!(cut, format!("{}…", "é".repeat(80)));
    assert_eq!(truncate_title(&"a".repeat(80)), "a".repeat(80));
}

#[test]
fn prose() {
    assert!(is_prose(" hello "));
    assert!(!is_prose("  "));
    assert!(!is_prose("Caveat: x"));
    assert!(!is_prose(" <local-command-caveat>"));
    assert!(!is_prose("run <command-name>x"));
    assert!(!is_prose("a [Request interrupted by user]"));
}

#[test]
fn content_forms() {
    let part = |kind: &str, t: &str| {
        Json::Object(vec![
            ("type".to_string(), Json::Text(kind.to_string())),
            ("text".to_string(), Json::Text(t.to_string())),
        ])
    };
    assert_eq!(extract_text(&Json::Text("x".to_string())), "x");
    assert_eq!(
        extract_text(&Json::List(vec![
            part("text", "a"),
            part("thinking", "b"),
            part("output_text", "c"),
        ])),
        "a\nc"
    );
    assert_eq!(
        extract_text(&Json::List(vec![
            part("input_text", "a"),
            Json::Object(vec![("image".to_string(), Json::Null)]),
            Json::Object(vec![("text".to_string(), Json::Text("b".to_string()))]),
            part("tool_result", "c"),
            part("text", "d"),
        ])),
        "a\nd"
    );
    assert_eq!(extract_text(&Json::Bool(true)), "");
}

#[test]
fn directory_slug() {
    assert_eq!(
        decode_dir_slug("/h/.ada/projects/-Users-u-Desktop-x/f.jsonl"),
        "/Users/u/Desktop/x"
    );
    assert_eq!(decode_dir_slug("f.jsonl"), "");
}

#[test]
fn claude_fallbacks() {
    let body = br#"{"type":"user","message":{"content":"<command-name>x"}}"#;
    let p = "/h/-tmp-y/abcdefghij.jsonl";
    let s = parse_claude_file(p, body, 42).unwrap();
    assert_eq!(s.title, "(session abcdefgh)");
    assert_eq!(s.cwd, "/tmp/y");
    assert_eq!(s.last_activity, 42);
    assert_eq!(s.msg_count, 0);
    assert_eq!(s.search_blob, "(session abcdefgh)\n/tmp/y\ny");
    assert!(parse_claude_file("/", body, 0).is_none());
}

#[test]
fn short_ids_end_between_characters() {
    // Byte eight falls inside the last character.
    let p = "/x/abcdefg\u{e9}.jsonl";
    let s = parse_claude_file(p, b"", 0).unwrap();
    assert_eq!(s.id, "abcdefg\u{e9}");
    assert_eq!(s.title, "(session abcdefg)");
    let body = br#"{"type":"ai-title","aiTitle":"T"}"#;
    assert_eq!(parse_claude_file(p, body, 0).unwrap().title, "T");
    assert_eq!(parse_codex_file(p, b"", 0).unwrap().title, "(session abcdefg)");
    let body = "{\"id\":\"a\u{e9}\u{e9}\u{e9}\u{e9}\"}";
    let s = parse_codex_file("x.jsonl", body.as_bytes(), 0).unwrap();
    assert_eq!(s.id, "a\u{e9}\u{e9}\u{e9}\u{e9}");
    assert_eq!(s.title, "(session a\u{e9}\u{e9}\u{e9})");
    // One that ends at byte eight is kept up to there.
    let s = parse_codex_file("x.jsonl", br#"{"id":"abcdefghi"}"#, 0).unwrap();
    assert_eq!(s.title, "(session abcdefgh)");
}

#[test]
fn codex_id_from_the_file_name() {
    let p = "/x/rollout-2026-05-02T10-00-00-aaaa-bbbb-cccc-dddd-eeee.jsonl";
    let s = parse_codex_file(p, b"", 7).unwrap();
    assert_eq!(s.id, "aaaa-bbbb-cccc-dddd-eeee");
    assert_eq!(s.title, "(session aaaa-bbb)");
    assert_eq!(s.last_activity, 7);
    assert!(parse_codex_file("/", b"", 0).is_none());
}

#[test]
fn codex_names_and_environment_records() {
    let body = br#"{"type":"environment_context","content":"<cwd> /a/b </cwd>"}
{"payload":{"title":"  Named  ","id":"ID"}}
{"payload":{"name":"Later"}}"#;
    let s = parse_codex_file("/x/y.jsonl", body, 0).unwrap();
    assert_eq!(s.cwd, "/a/b");
    assert_eq!(s.id, "ID");
    assert_eq!(s.title, "Named");
}

#[test]
fn records_of_both_kinds() {
    let records = vec![Json::Object(vec![
        ("type".to_string(), Json::Text("user".to_string())),
        (
            "message".to_string(),
            Json::Object(vec![(
                "content".to_string(),
                Json::Text("Hello WORLD".to_string()),
            )]),
        ),
        ("cwd".to_string(), Json::Text("/w".to_string())),
    ])];
    let s = claude_records("/p/i.jsonl", "i".to_string(), &records, 9);
    assert_eq!(s.messages[0].role, "user");
    assert_eq!(s.messages[0].text, "Hello WORLD");
    assert_eq!(s.search_blob, "hello world\nhello world\n/w\nw");
    let s = codex_records("i".to_string(), &records, 9);
    assert_eq!(s.title, "(session i)");
    assert_eq!(s.cwd, "/w");
    assert_eq!(s.msg_count, 0);
}
