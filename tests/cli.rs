use codereport::cli::{find_violations, gitignore_with_block, list_filter_matches, parse_location, text_less};
use codereport::config::default_config;
use codereport::reports::{Author, LineRange, ReportEntry, Reports};

#[test]
fn parse_location_accepts_path_and_range() {
    assert_eq!(parse_location("src/foo.rs:42-88"), Ok(("src/foo.rs".to_string(), 42, 88)));
    assert_eq!(parse_location(" src\\win.rs :1 - 1"), Ok(("src/win.rs".to_string(), 1, 1)));
    assert_eq!(parse_location("c:dir:3--4"), Ok(("c:dir".to_string(), 3, 4)));
}

#[test]
fn parse_location_errors() {
    assert_eq!(parse_location("src/foo.rs"), Err("expected path:start-end".to_string()));
    assert_eq!(parse_location("  :1-2"), Err("path is empty".to_string()));
    assert_eq!(parse_location("a.rs:12"), Err("expected start-end range".to_string()));
    assert_eq!(parse_location("a.rs:x-2"), Err("invalid start line".to_string()));
    assert_eq!(parse_location("a.rs:1-"), Err("invalid end line".to_string()));
    assert_eq!(
        parse_location("a.rs:0-2"),
        Err("invalid range (start >= 1, end >= start)".to_string())
    );
    assert_eq!(
        parse_location("a.rs:5-2"),
        Err("invalid range (start >= 1, end >= start)".to_string())
    );
}

#[test]
fn gitignore_block_added_once() {
    let block = "# codereport (generated dashboard and local blame cache)\n.codereports/html/\n.codereports/.blame-cache\n";
    assert_eq!(gitignore_with_block("").as_deref(), Some(block));
    assert_eq!(gitignore_with_block("  \n").as_deref(), Some(block));
    assert_eq!(
        gitignore_with_block("target/\n\n").unwrap(),
        format!("target/\n{}", block)
    );
    assert_eq!(gitignore_with_block("x\n.codereports/html/\n"), None);
    assert_eq!(gitignore_with_block("# codereport stuff"), None);
}

fn entry(id: &str, tag: &str, status: &str, expires: Option<&str>) -> ReportEntry {
    ReportEntry {
        id: id.to_string(),
        path: "p".to_string(),
        range: LineRange { start: 1, end: 1 },
        tag: tag.to_string(),
        message: "m".to_string(),
        author: Author {
            git: None,
            codeowner: None,
        },
        created_at: "2026-01-01".to_string(),
        expires_at: expires.map(|s| s.to_string()),
        status: status.to_string(),
    }
}

#[test]
fn check_finds_blocking_and_expired_open_notes() {
    let cfg = default_config();
    let reports = Reports {
        version: 1,
        entries: vec![
            entry("CR-1", "critical", "open", None),
            entry("CR-2", "todo", "open", None),
            entry("CR-3", "buggy", "open", Some("2026-01-01")),
            entry("CR-4", "buggy", "open", Some("2026-03-01")),
            entry("CR-5", "critical", "resolved", None),
            entry("CR-6", "unknown", "open", Some("2000-01-01")),
            entry("CR-7", "CRITICAL", "open", None),
        ],
    };
    assert_eq!(find_violations(&cfg, &reports, "2026-02-01"), vec![0, 2, 6]);
}

#[test]
fn text_order_is_lexicographic() {
    assert!(text_less("2026-01-01", "2026-02-01"));
    assert!(!text_less("2026-02-01", "2026-02-01"));
    assert!(text_less("2026", "2026-01"));
    assert!(!text_less("b", "a"));
}

#[test]
fn list_filters_ignore_ascii_case() {
    let e = entry("CR-1", "Todo", "open", None);
    assert!(list_filter_matches(&e, None, None));
    assert!(list_filter_matches(&e, Some("TODO"), Some("Open")));
    assert!(!list_filter_matches(&e, Some("buggy"), None));
    assert!(!list_filter_matches(&e, None, Some("resolved")));
}
