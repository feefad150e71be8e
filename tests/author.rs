use codereport::author::{Action, Event, Resolver, Stage};
use codereport::cache::{BlameCache, CacheKey};
use codereport::owners::codeowner_for_path;

fn resolver(owner: Option<&str>) -> Resolver {
    Resolver::new("src/a.rs".to_string(), 1, 5, owner.map(|s| s.to_string()))
}

fn seeded(email: &str) -> BlameCache {
    let mut c = BlameCache::new();
    c.upsert(
        CacheKey {
            path: "src/a.rs".to_string(),
            start: 1,
            end: 5,
            oid: "h".to_string(),
        },
        email.to_string(),
    );
    c
}

#[test]
fn no_repository_and_no_owner_gives_nothing() {
    let owner = codeowner_for_path("docs/ @docs\n", "src/a.rs");
    let mut r = Resolver::new("src/a.rs".to_string(), 1, 5, owner);
    assert_eq!(r.request(), Action::OpenRepo);
    assert_eq!(r.step(Event::RepoOpened(false)), Action::Finish);
    let a = r.result();
    assert!(a.git.is_none());
    assert!(a.codeowner.is_none());
}

#[test]
fn owner_survives_missing_repository_and_file() {
    let mut r = resolver(Some("@core"));
    assert_eq!(r.step(Event::RepoOpened(true)), Action::CheckFile);
    assert_eq!(r.step(Event::FileExists(false)), Action::Finish);
    let a = r.result();
    assert_eq!(a.codeowner.as_deref(), Some("@core"));
    assert!(a.git.is_none());
}

#[test]
fn untracked_file_is_blamed_and_not_cached() {
    let mut r = resolver(None);
    r.step(Event::RepoOpened(true));
    r.step(Event::FileExists(true));
    let next = r.step(Event::HeadBlob(None));
    assert_eq!(
        next,
        Action::RunBlame {
            min_line: 1,
            max_line: 5,
            line: 1
        }
    );
    let before = r.cache.len();
    assert_eq!(r.step(Event::Blamed(Some("dev@x.com".to_string()))), Action::Finish);
    assert_eq!(r.cache.len(), before);
    assert_eq!(r.result().git.as_deref(), Some("dev@x.com"));
}

#[test]
fn seeded_cache_short_circuits_blame() {
    let mut r = resolver(None);
    r.step(Event::RepoOpened(true));
    r.step(Event::FileExists(true));
    assert_eq!(r.step(Event::HeadBlob(Some("h".to_string()))), Action::LoadCache);
    assert_eq!(r.step(Event::CacheLoaded(seeded("old@x.com"))), Action::Finish);
    assert_eq!(r.result().git.as_deref(), Some("old@x.com"));
    assert_eq!(r.stage, Stage::Done);
}

#[test]
fn cache_miss_blames_then_saves() {
    let mut r = resolver(Some("@core"));
    r.step(Event::RepoOpened(true));
    r.step(Event::FileExists(true));
    r.step(Event::HeadBlob(Some("h2".to_string())));
    let next = r.step(Event::CacheLoaded(seeded("old@x.com")));
    assert!(matches!(next, Action::RunBlame { .. }));
    assert_eq!(r.step(Event::Blamed(Some("new@x.com".to_string()))), Action::SaveCache);
    assert_eq!(r.cache.len(), 2);
    let key = CacheKey {
        path: "src/a.rs".to_string(),
        start: 1,
        end: 5,
        oid: "h2".to_string(),
    };
    assert_eq!(r.cache.lookup(&key).as_deref(), Some("new@x.com"));
    assert_eq!(r.step(Event::Saved), Action::Finish);
    let a = r.result();
    assert_eq!(a.git.as_deref(), Some("new@x.com"));
    assert_eq!(a.codeowner.as_deref(), Some("@core"));
}

#[test]
fn failed_blame_gives_no_identity_and_no_save() {
    let mut r = resolver(None);
    r.step(Event::RepoOpened(true));
    r.step(Event::FileExists(true));
    r.step(Event::HeadBlob(Some("h".to_string())));
    r.step(Event::CacheLoaded(BlameCache::new()));
    assert_eq!(r.step(Event::Blamed(None)), Action::Finish);
    assert_eq!(r.cache.len(), 0);
    assert!(r.result().git.is_none());
}

#[test]
fn blame_window_uses_larger_end_and_first_line() {
    let mut r = Resolver::new("f".to_string(), 7, 3, None);
    r.step(Event::RepoOpened(true));
    r.step(Event::FileExists(true));
    assert_eq!(
        r.step(Event::HeadBlob(None)),
        Action::RunBlame {
            min_line: 7,
            max_line: 7,
            line: 7
        }
    );
}

#[test]
fn empty_cached_identity_is_returned_as_is() {
    let mut r = resolver(None);
    r.step(Event::RepoOpened(true));
    r.step(Event::FileExists(true));
    r.step(Event::HeadBlob(Some("h".to_string())));
    assert_eq!(r.step(Event::CacheLoaded(seeded(""))), Action::Finish);
    assert_eq!(r.result().git.as_deref(), Some(""));
}

#[test]
fn unexpected_answer_changes_nothing() {
    let mut r = resolver(None);
    assert_eq!(r.step(Event::Saved), Action::OpenRepo);
    assert_eq!(r.stage, Stage::OpenRepo);
}

#[test]
fn hit_uses_identity_of_own_content_hash() {
    let key = |oid: &str| CacheKey {
        path: "src/a.rs".to_string(),
        start: 1,
        end: 5,
        oid: oid.to_string(),
    };
    let mut store = BlameCache::new();
    store.upsert(key("h1"), "one@x.com".to_string());
    store.upsert(key("h2"), "two@x.com".to_string());
    for (oid, want) in [("h1", "one@x.com"), ("h2", "two@x.com")] {
        let mut r = resolver(None);
        r.step(Event::RepoOpened(true));
        r.step(Event::FileExists(true));
        r.step(Event::HeadBlob(Some(oid.to_string())));
        assert_eq!(r.step(Event::CacheLoaded(store.clone())), Action::Finish);
        assert_eq!(r.result().git.as_deref(), Some(want));
        assert_eq!(r.cache.len(), 2);
    }
}
