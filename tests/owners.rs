use codereport::owners::{codeowner_for_path, codeowners_pattern_matches, owner_for_path, parse_codeowners};

#[test]
fn last_matching_rule_wins() {
    let content = "service/ @team-a\nservice/utils/ @team-b\n";
    assert_eq!(codeowner_for_path(content, "service/utils/file.go").as_deref(), Some("@team-b"));
    assert_eq!(codeowner_for_path(content, "service/other.go").as_deref(), Some("@team-a"));
}

#[test]
fn star_prefixed_directory_patterns_are_not_globs() {
    let content = "*/service/ @team-a\nutils/ @team-b\n";
    assert_eq!(codeowner_for_path(content, "service/utils/file.go"), None);
    assert_eq!(codeowner_for_path(content, "service/other.go"), None);
}

#[test]
fn no_rule_matches() {
    assert_eq!(codeowner_for_path("docs/ @docwriters", "src/main.go"), None);
}

#[test]
fn comments_blank_lines_and_ownerless_rules_are_skipped() {
    let content = "# owners\n\n   \nsrc/\n  src/   @core  @other\r\n#src/ @commented\n";
    let rules = parse_codeowners(content);
    assert_eq!(rules.len(), 1);
    assert_eq!(rules[0].pattern, "src/");
    assert_eq!(rules[0].owner, "@core");
    assert_eq!(codeowner_for_path(content, "src/lib.rs").as_deref(), Some("@core"));
}

#[test]
fn last_line_without_newline_counts() {
    let rules = parse_codeowners("a @x\nb\t@y");
    assert_eq!(rules.len(), 2);
    assert_eq!(rules[1].pattern, "b");
    assert_eq!(rules[1].owner, "@y");
}

#[test]
fn backslashes_in_path_are_forward_slashes() {
    let rules = parse_codeowners("src/app/ @app");
    assert_eq!(owner_for_path(&rules, "src\\app\\main.rs").as_deref(), Some("@app"));
}

#[test]
fn pattern_strategies() {
    assert!(codeowners_pattern_matches("*", "anything/at/all"));
    assert!(codeowners_pattern_matches("/src/main.rs", "src/main.rs"));
    assert!(codeowners_pattern_matches("docs/", "docs/readme.md"));
    assert!(codeowners_pattern_matches("docs/", "docs"));
    assert!(!codeowners_pattern_matches("docs/", "src/docs/readme.md"));
    assert!(codeowners_pattern_matches("src", "src/lib.rs"));
    assert!(codeowners_pattern_matches(".rs", "src/lib.rs"));
    assert!(codeowners_pattern_matches("lib", "src/lib/mod.rs"));
    assert!(!codeowners_pattern_matches("ib", "src/lib/mod.rs"));
    assert!(!codeowners_pattern_matches("/", "src/lib.rs"));
    assert!(!codeowners_pattern_matches("", "src/lib.rs"));
}
