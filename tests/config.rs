use codereport::config::{
    default_config, expires_days, severity, to_ascii_lowercase, validate_config, validate_tag_for_add, Config,
    Severity, Tag, TagConfig,
};
use std::str::FromStr;

#[test]
fn tag_names_round_trip() {
    for t in Tag::all() {
        assert_eq!(Tag::from_str(t.as_str()), Ok(*t));
    }
    assert_eq!(Tag::all().len(), 4);
}

#[test]
fn tag_parse_ignores_case() {
    assert_eq!(Tag::parse("TODO"), Ok(Tag::Todo));
    assert_eq!(Tag::parse("Critical"), Ok(Tag::Critical));
    assert_eq!(Tag::parse("nope"), Err("unknown tag: nope".to_string()));
    assert_eq!(Tag::from_lowercase("buggy"), Some(Tag::Buggy));
    assert_eq!(Tag::from_lowercase("Buggy"), None);
}

#[test]
fn lowercase_maps_each_character() {
    assert_eq!(to_ascii_lowercase("ReFaCtOr"), "refactor");
    assert_eq!(to_ascii_lowercase("ÄÖ"), "äö");
}

#[test]
fn severity_parse_ignores_case() {
    assert_eq!(Severity::from_str("BLOCKING"), Ok(Severity::Blocking));
    assert_eq!(Severity::parse("Low"), Ok(Severity::Low));
    assert_eq!(Severity::parse("huge"), Err("unknown severity: huge".to_string()));
}

#[test]
fn default_config_settings() {
    let c = default_config();
    assert_eq!(c.version, 1);
    assert_eq!(c.tags.len(), 4);
    assert_eq!(expires_days(&c, Tag::Todo), None);
    assert_eq!(expires_days(&c, Tag::Refactor), Some(180));
    assert_eq!(expires_days(&c, Tag::Buggy), Some(90));
    assert_eq!(expires_days(&c, Tag::Critical), Some(14));
    assert_eq!(severity(&c, Tag::Todo), Ok(Severity::Low));
    assert_eq!(severity(&c, Tag::Refactor), Ok(Severity::Medium));
    assert_eq!(severity(&c, Tag::Buggy), Ok(Severity::High));
    assert_eq!(severity(&c, Tag::Critical), Ok(Severity::Blocking));
    assert_eq!(validate_config(&c), Ok(()));
}

fn config_with(tags: Vec<(&str, bool, &str)>) -> Config {
    Config {
        version: 1,
        tags: tags
            .into_iter()
            .map(|(n, enabled, sev)| {
                (
                    n.to_string(),
                    TagConfig {
                        enabled,
                        severity: sev.to_string(),
                        expires: None,
                    },
                )
            })
            .collect(),
    }
}

#[test]
fn validate_tag_for_add_errors() {
    let c = config_with(vec![("todo", true, "low"), ("buggy", false, "high")]);
    assert_eq!(validate_tag_for_add(&c, "Todo"), Ok(Tag::Todo));
    assert_eq!(
        validate_tag_for_add(&c, "buggy"),
        Err("tag 'buggy' is disabled in config".to_string())
    );
    assert_eq!(
        validate_tag_for_add(&c, "critical"),
        Err("tag 'critical' is not defined in config".to_string())
    );
    assert_eq!(validate_tag_for_add(&c, "what"), Err("unknown tag: what".to_string()));
}

#[test]
fn severity_errors() {
    let c = config_with(vec![("todo", true, "tiny")]);
    assert_eq!(severity(&c, Tag::Todo), Err("unknown severity: tiny".to_string()));
    assert_eq!(severity(&c, Tag::Buggy), Err("tag 'buggy' not in config".to_string()));
    assert_eq!(expires_days(&c, Tag::Buggy), None);
}

#[test]
fn validate_config_errors() {
    let mut c = config_with(vec![("todo", true, "low"), ("buggy", true, "tiny")]);
    assert_eq!(
        validate_config(&c),
        Err("tag 'buggy': unknown severity: tiny".to_string())
    );
    c.version = 2;
    assert_eq!(
        validate_config(&c),
        Err("unsupported config version: 2 (expected 1)".to_string())
    );
}
