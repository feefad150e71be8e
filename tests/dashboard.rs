use codereport::dashboard::{
    compute_chart_data, compute_stats, days_apart, days_between, escape_attr, escape_html, heat_count, heat_level,
    parse_date_text, tag_slug,
};
use codereport::reports::{Author, LineRange, ReportEntry, Reports};

fn entry(path: &str, tag: &str, status: &str, expires: Option<&str>) -> ReportEntry {
    ReportEntry {
        id: "CR-1".to_string(),
        path: path.to_string(),
        range: LineRange { start: 1, end: 1 },
        tag: tag.to_string(),
        message: "m".to_string(),
        author: Author {
            git: None,
            codeowner: None,
        },
        created_at: "2026-01-01".to_string(),
        expires_at: expires.map(|s| s.to_string()),
        status: status.to_string(),
    }
}

#[test]
fn days_between_dates() {
    assert_eq!(days_between("2026-01-01", "2026-01-08"), 7);
    assert_eq!(days_between("2026-03-01", "2026-02-01"), 28);
    assert_eq!(days_between("2024-02-28", "2024-03-01"), 2);
    assert_eq!(days_between("2026-02-30", "2026-03-01"), 999);
    assert_eq!(days_between("2026/01/01", "2026-01-01"), 999);
    assert_eq!(days_apart(Some(10), Some(3)), 7);
    assert_eq!(days_apart(None, Some(3)), 999);
}

#[test]
fn parse_date_parts() {
    assert_eq!(parse_date_text("2026-01-09"), Some((2026, 1, 9)));
    assert_eq!(parse_date_text("+2026-1-9"), Some((2026, 1, 9)));
    assert_eq!(parse_date_text("2026-01"), None);
    assert_eq!(parse_date_text("2026-01-01-01"), None);
    assert_eq!(parse_date_text("3000000000-01-01"), None);
}

#[test]
fn stats_count_by_status_tag_and_expiry() {
    let reports = Reports {
        version: 1,
        entries: vec![
            entry("a", "critical", "open", Some(" 2026-01-01 ")),
            entry("a", "todo", "OPEN", Some("2026-01-12")),
            entry("b", "Critical", "resolved", Some("2026-01-20")),
            entry("b", "todo", "resolved", Some("   ")),
            entry("c", "buggy", "open", None),
        ],
    };
    let s = compute_stats(&reports, "2026-01-10");
    assert_eq!(s.total, 5);
    assert_eq!(s.open, 3);
    assert_eq!(s.resolved, 2);
    assert_eq!(s.critical, 2);
    assert_eq!(s.expired, 1);
    assert_eq!(s.expiring_soon, 1);
}

#[test]
fn chart_counts_sorted_by_count() {
    let reports = Reports {
        version: 1,
        entries: vec![
            entry("a", "todo", "open", None),
            entry("b", "buggy", "open", None),
            entry("b", "buggy", "open", None),
            entry("b", "todo", "open", None),
            entry("c", "buggy", "open", None),
        ],
    };
    let (tags, files) = compute_chart_data(&reports);
    assert_eq!(tags, vec![("buggy".to_string(), 3), ("todo".to_string(), 2)]);
    assert_eq!(
        files,
        vec![("b".to_string(), 3), ("a".to_string(), 1), ("c".to_string(), 1)]
    );
    assert_eq!(heat_count(&reports, "b", "buggy"), 2);
    assert_eq!(heat_count(&reports, "a", "buggy"), 0);
}

#[test]
fn slugs_and_levels() {
    assert_eq!(tag_slug("CRITICAL"), "critical");
    assert_eq!(tag_slug("Refactor"), "refactor");
    assert_eq!(tag_slug("other"), "todo");
    assert_eq!(heat_level(1), "lo");
    assert_eq!(heat_level(2), "mid");
    assert_eq!(heat_level(5), "hi");
}

#[test]
fn escaping() {
    assert_eq!(escape_html("a<b>&\"c\""), "a&lt;b&gt;&amp;&quot;c&quot;");
    assert_eq!(escape_attr("x&y"), "x&amp;y");
    assert_eq!(escape_html("plain"), "plain");
}
