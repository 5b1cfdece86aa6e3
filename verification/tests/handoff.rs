use space::handoff::{parse, render};

#[test]
fn round_trip_cd_only() {
    let s = render("/Users/u/Desktop/proj", &[]).unwrap();
    assert_eq!(
        parse(&s),
        Some(("/Users/u/Desktop/proj".to_string(), vec![]))
    );
}

#[test]
fn round_trip_agent_launch_with_hostile_path() {
    // Spaces, quotes, dollar signs: all inert because this is data.
    let cwd = "/tmp/my space/$(boom)'\"";
    let argv = vec![
        "ada".to_string(),
        "--resume".to_string(),
        "abc-123".to_string(),
        "--dangerously-skip-permissions".to_string(),
    ];
    let s = render(cwd, &argv).unwrap();
    let (c, a) = parse(&s).unwrap();
    assert_eq!(c, cwd);
    assert_eq!(a, argv);
}

#[test]
fn newline_in_path_is_rejected() {
    assert!(render("/tmp/evil\ndir", &[]).is_err());
    assert!(render("/tmp", &["a\nb".to_string()]).is_err());
}

#[test]
fn empty_file_means_do_nothing() {
    assert_eq!(parse(""), None);
}

#[test]
fn handoff_text_is_one_element_per_line() {
    let argv = vec!["codex".to_string(), "resume".to_string()];
    assert_eq!(render("/tmp", &argv).unwrap(), "/tmp\ncodex\nresume\n");
}

#[test]
fn refused_element_is_named() {
    let e = render("/tmp", &["ok".to_string(), "a\nb".to_string()]).unwrap_err();
    assert_eq!(
        e.message(),
        "handoff element contains a newline: \"a\\nb\""
    );
}

#[test]
fn empty_first_line_means_do_nothing() {
    assert_eq!(parse("\ncodex\n"), None);
}

#[test]
fn elements_keep_their_carriage_returns() {
    let argv = vec!["a\r".to_string(), "\r".to_string()];
    let s = render("/tmp\r", &argv).unwrap();
    assert_eq!(parse(&s), Some(("/tmp\r".to_string(), argv)));
    assert_eq!(
        parse("/tmp\na\r\n"),
        Some(("/tmp".to_string(), vec!["a\r".to_string()]))
    );
}
