use space::data::{
    days_from_civil, humanize_since, now_epoch, parse_iso_epoch, space_of, Backend, Message, Session,
};
use space::names::AgentNames;

#[test]
fn iso_epoch_known_value() {
    assert_eq!(
        parse_iso_epoch("2026-06-30T19:20:35.301Z"),
        Some(1_782_847_235)
    );
}

#[test]
fn iso_epoch_unix_epoch() {
    assert_eq!(parse_iso_epoch("1970-01-01T00:00:00Z"), Some(0));
}

#[test]
fn iso_epoch_rejects_garbage() {
    assert_eq!(parse_iso_epoch("not-a-date"), None);
    assert_eq!(parse_iso_epoch(""), None);
    assert_eq!(parse_iso_epoch("2026/06/30"), None);
}

#[test]
fn iso_strings_sort_chronologically() {
    let mut v = [
        "2026-06-30T19:20:35.301Z",
        "2024-01-01T00:00:00.000Z",
        "2026-06-30T19:20:36.000Z",
    ];
    v.sort();
    assert_eq!(v[0], "2024-01-01T00:00:00.000Z");
    assert_eq!(v[2], "2026-06-30T19:20:36.000Z");
    // What sorts as text sorts as time.
    assert!(parse_iso_epoch(v[0]) < parse_iso_epoch(v[1]));
    assert!(parse_iso_epoch(v[1]) < parse_iso_epoch(v[2]));
}

#[test]
fn humanize_buckets() {
    assert_eq!(humanize_since(1000, 1030), "just now");
    assert_eq!(humanize_since(1000, 1000 + 120), "2m ago");
    assert_eq!(humanize_since(1000, 1000 + 7200), "2h ago");
    assert_eq!(humanize_since(1000, 1000 + 2 * 86_400), "2d ago");
}

#[test]
fn space_from_desktop_layout() {
    assert_eq!(space_of("/Users/u/Desktop/proj/web"), "proj");
    assert_eq!(space_of("/Users/u/Desktop/tools/space"), "tools");
    assert_eq!(space_of("/Users/u/Desktop/loose-repo"), "loose-repo");
    assert_eq!(space_of("/tmp/whatever/proj"), "proj");
}

#[test]
fn iso_epoch_edges() {
    // Leap days, the blank separator, and the year zero.
    assert_eq!(parse_iso_epoch("2000-02-29T00:00:00Z"), Some(951_782_400));
    assert_eq!(
        parse_iso_epoch("2000-03-01 00:00:00"),
        Some(951_782_400 + 86_400)
    );
    assert_eq!(parse_iso_epoch("1969-12-31T23:59:59Z"), Some(-1));
    assert_eq!(
        parse_iso_epoch("0000-01-01T00:00:00Z"),
        Some(-62_167_219_200)
    );
    // Out of range or not digits.
    assert_eq!(parse_iso_epoch("2026-13-01T00:00:00Z"), None);
    assert_eq!(parse_iso_epoch("2026-00-01T00:00:00Z"), None);
    assert_eq!(parse_iso_epoch("2026-01-32T00:00:00Z"), None);
    assert_eq!(parse_iso_epoch("2026-01-0xT00:00:00Z"), None);
    assert_eq!(parse_iso_epoch("2026-01-01T00:00:0"), None);
    // Days past the end of their month.
    assert_eq!(parse_iso_epoch("2001-02-29T00:00:00Z"), None);
    assert_eq!(parse_iso_epoch("1900-02-29T00:00:00Z"), None);
    assert_eq!(parse_iso_epoch("2026-04-31T00:00:00Z"), None);
    assert_eq!(parse_iso_epoch("2026-01-00T00:00:00Z"), None);
    // Times past the end of the day.
    assert_eq!(parse_iso_epoch("1970-01-01T23:59:59Z"), Some(86_399));
    assert_eq!(parse_iso_epoch("1970-01-01T24:00:00Z"), None);
    assert_eq!(parse_iso_epoch("1970-01-01T25:00:00Z"), None);
    assert_eq!(parse_iso_epoch("1970-01-01T00:60:00Z"), None);
    assert_eq!(parse_iso_epoch("1970-01-01T00:00:60Z"), None);
    assert_eq!(parse_iso_epoch("1970-01-01T23:59:61Z"), None);
    // A leap second counts as the first second of the next day.
    assert_eq!(parse_iso_epoch("2016-12-31T23:59:60Z"), Some(1_483_228_800));
    assert_eq!(
        parse_iso_epoch("2017-01-01T00:00:00Z"),
        Some(1_483_228_800)
    );
}

#[test]
fn humanize_edges() {
    assert_eq!(humanize_since(0, 100), "?");
    assert_eq!(humanize_since(-5, 100), "?");
    assert_eq!(humanize_since(1000, 500), "just now");
    assert_eq!(humanize_since(1000, 1000 + 59), "just now");
    assert_eq!(humanize_since(1000, 1000 + 60), "1m ago");
    assert_eq!(humanize_since(1000, 1000 + 2_592_000), "1mo ago");
    assert_eq!(humanize_since(1000, 1000 + 31_104_000), "12mo ago");
}

#[test]
fn clock_readings() {
    assert_eq!(now_epoch(Some(1_700_000_000)), 1_700_000_000);
    assert_eq!(now_epoch(None), 0);
    assert_eq!(now_epoch(Some(u64::MAX)), -1);
}

#[test]
fn space_edges() {
    assert_eq!(space_of("/Users/u/Desktop"), "Desktop");
    assert_eq!(space_of("/"), "~");
    assert_eq!(space_of(""), "~");
}

#[test]
fn labels_and_matching() {
    let names = AgentNames {
        label: "Ada".to_string(),
        program: "ada".to_string(),
        home: ".ada".to_string(),
        policy: "ADA.md".to_string(),
    };
    assert_eq!(Backend::Claude.label(&names), "Ada");
    assert_eq!(Backend::Codex.label(&names), "Codex");
    let s = Session {
        backend: Backend::Codex,
        id: "i".to_string(),
        title: "T".to_string(),
        cwd: "/x".to_string(),
        space: "x".to_string(),
        last_activity: 1,
        messages: vec![Message {
            role: "user".to_string(),
            text: "hi".to_string(),
        }],
        msg_count: 1,
        search_blob: "t\nhi\n/x\nx".to_string(),
    };
    assert!(s.matches(""));
    assert!(s.matches("hi"));
    assert!(!s.matches("Hi"));
}

#[test]
fn days_follow_one_another() {
    let at = |day: &str| parse_iso_epoch(&format!("{day}T00:00:00Z")).unwrap();
    assert_eq!(at("2023-12-31") + 86_400, at("2024-01-01"));
    assert_eq!(at("2024-02-28") + 86_400, at("2024-02-29"));
    assert_eq!(at("2024-02-29") + 86_400, at("2024-03-01"));
    assert_eq!(at("0000-02-29") + 86_400, at("0000-03-01"));
    assert_eq!(days_from_civil(1970, 1, 1), 0);
    assert_eq!(days_from_civil(1969, 12, 31), -1);
    assert_eq!(days_from_civil(2000, 3, 1), 11_017);
    // Before the year zero too, which is a leap year like every fourth before it.
    assert_eq!(days_from_civil(-1, 12, 31) + 1, days_from_civil(0, 1, 1));
    assert_eq!(days_from_civil(-4, 2, 29) + 1, days_from_civil(-4, 3, 1));
    assert_eq!(days_from_civil(-400, 1, 1) + 146_097, days_from_civil(0, 1, 1));
}
