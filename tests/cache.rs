use codereport::cache::{BlameCache, BlameCacheEntry, CacheKey};

fn key(oid: &str) -> CacheKey {
    CacheKey {
        path: "src/a.rs".to_string(),
        start: 1,
        end: 5,
        oid: oid.to_string(),
    }
}

#[test]
fn upsert_twice_keeps_one_entry() {
    let mut c = BlameCache::new();
    c.upsert(key("h"), "a@x.com".to_string());
    c.upsert(key("h"), "b@x.com".to_string());
    assert_eq!(c.len(), 1);
    assert_eq!(c.lookup(&key("h")).as_deref(), Some("b@x.com"));
}

#[test]
fn lookup_is_scoped_by_content_hash() {
    let mut c = BlameCache::new();
    c.upsert(key("h1"), "one@x.com".to_string());
    c.upsert(key("h2"), "two@x.com".to_string());
    assert_eq!(c.len(), 2);
    assert_eq!(c.lookup(&key("h1")).as_deref(), Some("one@x.com"));
    assert_eq!(c.lookup(&key("h2")).as_deref(), Some("two@x.com"));
    assert_eq!(c.lookup(&key("h3")), None);
}

#[test]
fn lookup_needs_all_four_fields() {
    let mut c = BlameCache::new();
    c.upsert(key("h"), "a@x.com".to_string());
    let mut other = key("h");
    other.end = 6;
    assert_eq!(c.lookup(&other), None);
    let mut other = key("h");
    other.path = "src/b.rs".to_string();
    assert_eq!(c.lookup(&other), None);
}

#[test]
fn lookup_takes_first_of_duplicates() {
    let e = |email: &str| BlameCacheEntry {
        path: "src/a.rs".to_string(),
        start: 1,
        end: 5,
        oid: "h".to_string(),
        email: email.to_string(),
    };
    let mut c = BlameCache {
        entries: vec![e("first@x.com"), e("second@x.com")],
    };
    assert_eq!(c.lookup(&key("h")).as_deref(), Some("first@x.com"));
    c.upsert(key("h"), "third@x.com".to_string());
    assert_eq!(c.len(), 1);
    assert_eq!(c.lookup(&key("h")).as_deref(), Some("third@x.com"));
}
