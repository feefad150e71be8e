use codereport::reports::{author_from_resolved, parse_report_id, Author, LineRange, ReportEntry, Reports};

fn entry(id: &str) -> ReportEntry {
    ReportEntry {
        id: id.to_string(),
        path: "x".to_string(),
        range: LineRange { start: 1, end: 2 },
        tag: "todo".to_string(),
        message: "m".to_string(),
        author: Author {
            git: None,
            codeowner: None,
        },
        created_at: "2026-01-01".to_string(),
        expires_at: None,
        status: "open".to_string(),
    }
}

#[test]
fn next_id_monotonic() {
    let mut r = Reports {
        version: 1,
        entries: vec![],
    };
    assert_eq!(r.next_id(), "CR-000001");
    r.entries.push(ReportEntry {
        id: "CR-000001".to_string(),
        path: "x".to_string(),
        range: LineRange { start: 1, end: 2 },
        tag: "todo".to_string(),
        message: "m".to_string(),
        author: Author {
            git: None,
            codeowner: None,
        },
        created_at: "2026-01-01".to_string(),
        expires_at: None,
        status: "open".to_string(),
    });
    assert_eq!(r.next_id(), "CR-000002");
}

#[test]
fn max_id_skips_foreign_ids() {
    let r = Reports {
        version: 1,
        entries: vec![entry("CR-000042"), entry("XY-9"), entry("CR-7"), entry("CR-abc")],
    };
    assert_eq!(r.max_id(), 42);
    assert_eq!(r.next_id(), "CR-000043");
}

#[test]
fn next_id_grows_past_six_digits() {
    let r = Reports {
        version: 1,
        entries: vec![entry("CR-1234567")],
    };
    assert_eq!(r.next_id(), "CR-1234568");
}

#[test]
fn parse_report_id_forms() {
    assert_eq!(parse_report_id("CR-000042"), Some(42));
    assert_eq!(parse_report_id("CR-+5"), Some(5));
    assert_eq!(parse_report_id("CR-"), None);
    assert_eq!(parse_report_id("CR-4294967295"), Some(4294967295));
    assert_eq!(parse_report_id("CR-4294967296"), None);
    assert_eq!(parse_report_id("cr-1"), None);
    assert_eq!(parse_report_id("CR- 1"), None);
}

#[test]
fn delete_by_id_removes_first_match() {
    let mut r = Reports {
        version: 1,
        entries: vec![entry("CR-000001"), entry("CR-000002"), entry("CR-000003")],
    };
    assert!(r.delete_by_id("CR-000002"));
    assert_eq!(r.entries.len(), 2);
    assert_eq!(r.entries[0].id, "CR-000001");
    assert_eq!(r.entries[1].id, "CR-000003");
    assert!(!r.delete_by_id("CR-000002"));
    assert_eq!(r.entries.len(), 2);
}

#[test]
fn resolve_by_id_sets_status() {
    let mut r = Reports {
        version: 1,
        entries: vec![entry("CR-000001"), entry("CR-000002")],
    };
    assert!(r.resolve_by_id("CR-000002"));
    assert_eq!(r.entries[1].status, "resolved");
    assert_eq!(r.entries[0].status, "open");
    assert!(!r.resolve_by_id("CR-000009"));
}

#[test]
fn by_id_and_add_entry() {
    let mut r = Reports {
        version: 1,
        entries: vec![],
    };
    assert!(r.by_id("CR-000001").is_none());
    r.add_entry(entry("CR-000001"));
    assert_eq!(r.by_id("CR-000001").map(|e| e.path.as_str()), Some("x"));
}

#[test]
fn author_from_resolved_keeps_fields() {
    let a = author_from_resolved(Some("a@x.com".to_string()), None);
    assert_eq!(a.git.as_deref(), Some("a@x.com"));
    assert!(a.codeowner.is_none());
}
