//! Author resolution: the declared owner of a path and the identity that blame gives for a
//! line range, served from the cache where the file's content is known.
//!
//! The resolution is a machine that asks its driver for one outside answer at a time (is
//! there a repository, does the file exist, what is its content hash, what is in the cache,
//! what does blame say) and decides from each answer what to ask next. It never fails: every
//! missing answer only leaves a field of the result empty.
use vstd::prelude::*;
use crate::cache::{entry_key, keys_unique, upserted, lookup_in, BlameCache, CacheKey, EntryView, KeyView};
use crate::text::opt_chars;

verus! {

/// Who is responsible for a line range: the identity from version control and the owner
/// that the ownership file declares. Either, both or neither may be known.
#[derive(Debug, Clone, Default)]
pub struct ResolvedAuthor {
    pub git: Option<String>,
    pub codeowner: Option<String>,
}

/// Where a resolution stands: which answer it waits for next.
#[derive(Debug, Clone, Copy, PartialEq, Eq, Structural)]
pub enum Stage {
    OpenRepo,
    CheckFile,
    HeadBlob,
    LoadCache,
    Blame,
    Save,
    Done,
}

/// The outside work that a resolution asks of its driver.
#[derive(Debug, Clone, Copy, PartialEq, Eq, Structural)]
pub enum Action {
    /// Open the repository; answer with `Event::RepoOpened`.
    OpenRepo,
    /// Test whether the file exists on disk; answer with `Event::FileExists`.
    CheckFile,
    /// Read the file's content hash at the current tip; answer with `Event::HeadBlob`.
    ReadHeadBlob,
    /// Load the cache store; answer with `Event::CacheLoaded`.
    LoadCache,
    /// Run blame over lines `min_line..=max_line` and read the identity of line `line`;
    /// answer with `Event::Blamed`.
    RunBlame { min_line: usize, max_line: usize, line: usize },
    /// Write the resolver's cache store back; answer with `Event::Saved`.
    SaveCache,
    /// Nothing is left to do: the result is ready.
    Finish,
}

/// An answer from the driver.
pub enum Event {
    RepoOpened(bool),
    FileExists(bool),
    HeadBlob(Option<String>),
    CacheLoaded(BlameCache),
    Blamed(Option<String>),
    Saved,
}

pub enum EventView {
    RepoOpened(bool),
    FileExists(bool),
    HeadBlob(Option<Seq<char>>),
    CacheLoaded(Seq<EntryView>),
    Blamed(Option<Seq<char>>),
    Saved,
}

impl View for Event {
    type V = EventView;

    open spec fn view(&self) -> EventView {
        match self {
            Event::RepoOpened(b) => EventView::RepoOpened(*b),
            Event::FileExists(b) => EventView::FileExists(*b),
            Event::HeadBlob(o) => EventView::HeadBlob(opt_chars(*o)),
            Event::CacheLoaded(c) => EventView::CacheLoaded(c@),
            Event::Blamed(o) => EventView::Blamed(opt_chars(*o)),
            Event::Saved => EventView::Saved,
        }
    }
}

/// One resolution of `path`, lines `start..=end`, under way.
pub struct Resolver {
    pub path: String,
    pub start: u32,
    pub end: u32,
    pub stage: Stage,
    pub author: ResolvedAuthor,
    pub oid: Option<String>,
    pub cache: BlameCache,
}

pub struct ResolverView {
    pub path: Seq<char>,
    pub start: u32,
    pub end: u32,
    pub stage: Stage,
    pub git: Option<Seq<char>>,
    pub codeowner: Option<Seq<char>>,
    pub oid: Option<Seq<char>>,
    pub cache: Seq<EntryView>,
}

impl View for Resolver {
    type V = ResolverView;

    open spec fn view(&self) -> ResolverView {
        ResolverView {
            path: self.path@,
            start: self.start,
            end: self.end,
            stage: self.stage,
            git: opt_chars(self.author.git),
            codeowner: opt_chars(self.author.codeowner),
            oid: opt_chars(self.oid),
            cache: self.cache@,
        }
    }
}

/// A resolution that has asked nothing yet; the owner is found before any repository work.
pub open spec fn initial(path: Seq<char>, start: u32, end: u32, codeowner: Option<Seq<char>>) -> ResolverView {
    ResolverView {
        path,
        start,
        end,
        stage: Stage::OpenRepo,
        git: None,
        codeowner,
        oid: None,
        cache: Seq::empty(),
    }
}

/// The cache key of this resolution under content hash `oid`.
pub open spec fn key_of(s: ResolverView, oid: Seq<char>) -> KeyView {
    KeyView { path: s.path, start: s.start, end: s.end, oid }
}

/// The blame window: from `start` to the larger of `end` and `start`; the identity is read
/// from its first line, never line 0.
pub open spec fn blame_action(start: u32, end: u32) -> Action {
    Action::RunBlame {
        min_line: start as usize,
        max_line: (if end >= start { end } else { start }) as usize,
        line: (if start >= 1 { start } else { 1 }) as usize,
    }
}

/// What a resolution in state `s` asks for.
pub open spec fn request_of(s: ResolverView) -> Action {
    match s.stage {
        Stage::OpenRepo => Action::OpenRepo,
        Stage::CheckFile => Action::CheckFile,
        Stage::HeadBlob => Action::ReadHeadBlob,
        Stage::LoadCache => Action::LoadCache,
        Stage::Blame => blame_action(s.start, s.end),
        Stage::Save => Action::SaveCache,
        Stage::Done => Action::Finish,
    }
}

/// The state after answer `e` in state `s`. An answer to a question that was not asked
/// changes nothing.
pub open spec fn next_state(s: ResolverView, e: EventView) -> ResolverView {
    match s.stage {
        Stage::OpenRepo => match e {
            EventView::RepoOpened(ok) => ResolverView {
                stage: if ok { Stage::CheckFile } else { Stage::Done },
                ..s
            },
            _ => s,
        },
        Stage::CheckFile => match e {
            EventView::FileExists(ok) => ResolverView {
                stage: if ok { Stage::HeadBlob } else { Stage::Done },
                ..s
            },
            _ => s,
        },
        Stage::HeadBlob => match e {
            EventView::HeadBlob(o) => ResolverView {
                oid: o,
                stage: if o is Some { Stage::LoadCache } else { Stage::Blame },
                ..s
            },
            _ => s,
        },
        Stage::LoadCache => match e {
            EventView::CacheLoaded(c) => match s.oid {
                Some(h) => match lookup_in(c, key_of(s, h)) {
                    Some(id) => ResolverView {
                        cache: c,
                        git: if s.git is None {
                            Some(id)
                        } else {
                            s.git
                        },
                        stage: Stage::Done,
                        ..s
                    },
                    None => ResolverView { cache: c, stage: Stage::Blame, ..s },
                },
                None => ResolverView { cache: c, stage: Stage::Blame, ..s },
            },
            _ => s,
        },
        Stage::Blame => match e {
            EventView::Blamed(b) => {
                let git = if s.git is None && b is Some {
                    b
                } else {
                    s.git
                };
                match (s.oid, b) {
                    (Some(h), Some(id)) => ResolverView {
                        git,
                        cache: upserted(s.cache, key_of(s, h), id),
                        stage: Stage::Save,
                        ..s
                    },
                    _ => ResolverView { git, stage: Stage::Done, ..s },
                }
            },
            _ => s,
        },
        Stage::Save => match e {
            EventView::Saved => ResolverView { stage: Stage::Done, ..s },
            _ => s,
        },
        Stage::Done => s,
    }
}

fn copy_opt(o: &Option<String>) -> (r: Option<String>)
    ensures
        r == *o,
{
    match o {
        Some(s) => Some(s.clone()),
        None => None,
    }
}

impl Resolver {
    /// Starts resolving `path`, lines `start..=end`, whose declared owner is `codeowner`.
    pub fn new(path: String, start: u32, end: u32, codeowner: Option<String>) -> (r: Resolver)
        ensures
            r@ == initial(path@, start, end, opt_chars(codeowner)),
    {
        Resolver {
            path,
            start,
            end,
            stage: Stage::OpenRepo,
            author: ResolvedAuthor { git: None, codeowner },
            oid: None,
            cache: BlameCache::new(),
        }
    }

    /// What this resolution waits for.
    pub fn request(&self) -> (r: Action)
        ensures
            r == request_of(self@),
    {
        match self.stage {
            Stage::OpenRepo => Action::OpenRepo,
            Stage::CheckFile => Action::CheckFile,
            Stage::HeadBlob => Action::ReadHeadBlob,
            Stage::LoadCache => Action::LoadCache,
            Stage::Blame => Action::RunBlame {
                min_line: self.start as usize,
                max_line: (if self.end >= self.start {
                    self.end
                } else {
                    self.start
                }) as usize,
                line: (if self.start >= 1 {
                    self.start
                } else {
                    1
                }) as usize,
            },
            Stage::Save => Action::SaveCache,
            Stage::Done => Action::Finish,
        }
    }

    /// Takes the driver's answer and says what to do next.
    pub fn step(&mut self, ev: Event) -> (r: Action)
        ensures
            final(self)@ == next_state(old(self)@, ev@),
            r == request_of(final(self)@),
    {
        match self.stage {
            Stage::OpenRepo => {
                if let Event::RepoOpened(ok) = ev {
                    self.stage = if ok { Stage::CheckFile } else { Stage::Done };
                }
            },
            Stage::CheckFile => {
                if let Event::FileExists(ok) = ev {
                    self.stage = if ok { Stage::HeadBlob } else { Stage::Done };
                }
            },
            Stage::HeadBlob => {
                if let Event::HeadBlob(o) = ev {
                    self.stage = if o.is_some() { Stage::LoadCache } else { Stage::Blame };
                    self.oid = o;
                }
            },
            Stage::LoadCache => {
                if let Event::CacheLoaded(c) = ev {
                    let mut hit: Option<String> = None;
                    if let Some(h) = &self.oid {
                        let key = CacheKey {
                            path: self.path.clone(),
                            start: self.start,
                            end: self.end,
                            oid: h.clone(),
                        };
                        hit = c.lookup(&key);
                    }
                    self.cache = c;
                    match hit {
                        Some(id) => {
                            if self.author.git.is_none() {
                                self.author.git = Some(id);
                            }
                            self.stage = Stage::Done;
                        },
                        None => {
                            self.stage = Stage::Blame;
                        },
                    }
                }
            },
            Stage::Blame => {
                if let Event::Blamed(b) = ev {
                    if self.author.git.is_none() && b.is_some() {
                        self.author.git = copy_opt(&b);
                    }
                    match (copy_opt(&self.oid), b) {
                        (Some(h), Some(id)) => {
                            let key = CacheKey {
                                path: self.path.clone(),
                                start: self.start,
                                end: self.end,
                                oid: h,
                            };
                            self.cache.upsert(key, id);
                            self.stage = Stage::Save;
                        },
                        _ => {
                            self.stage = Stage::Done;
                        },
                    }
                }
            },
            Stage::Save => {
                if let Event::Saved = ev {
                    self.stage = Stage::Done;
                }
            },
            Stage::Done => {},
        }
        self.request()
    }

    /// The result so far: final once the resolution asks for `Action::Finish`.
    pub fn result(&self) -> (r: ResolvedAuthor)
        ensures
            opt_chars(r.git) == self@.git,
            opt_chars(r.codeowner) == self@.codeowner,
    {
        ResolvedAuthor { git: copy_opt(&self.author.git), codeowner: copy_opt(&self.author.codeowner) }
    }
}

/// A file without a content hash is blamed and never cached: the answer "no hash" leads
/// straight to blame, and whatever blame gives, the resolution ends with the store as it was
/// and asks for no save; an identity that blame gives is the result.
pub proof fn lemma_untracked_never_cached(s: ResolverView, blamed: Option<Seq<char>>)
    requires
        s.stage == Stage::HeadBlob,
        s.git is None,
    ensures
        next_state(s, EventView::HeadBlob(None)).stage == Stage::Blame,
        request_of(next_state(s, EventView::HeadBlob(None))) == blame_action(s.start, s.end),
        next_state(next_state(s, EventView::HeadBlob(None)), EventView::Blamed(blamed)).cache
            == s.cache,
        next_state(next_state(s, EventView::HeadBlob(None)), EventView::Blamed(blamed)).stage
            == Stage::Done,
        next_state(next_state(s, EventView::HeadBlob(None)), EventView::Blamed(blamed)).git
            == blamed,
{
}

/// Without a repository the resolution ends at once with no identity, and keeps the owner
/// that the ownership file gives; where no rule covers the path, both fields are empty.
pub proof fn lemma_no_repository(path: Seq<char>, start: u32, end: u32, codeowner: Option<Seq<char>>)
    ensures
        next_state(initial(path, start, end, codeowner), EventView::RepoOpened(false)).stage
            == Stage::Done,
        next_state(initial(path, start, end, codeowner), EventView::RepoOpened(false)).git
            is None,
        next_state(initial(path, start, end, codeowner), EventView::RepoOpened(false)).codeowner
            == codeowner,
{
}

/// A cache hit ends the resolution without blame: the identity stored under the exact key is
/// the result, whatever blame would now say.
pub proof fn lemma_cache_hit_skips_blame(s: ResolverView, store: Seq<EntryView>, h: Seq<char>, id: Seq<char>)
    requires
        s.stage == Stage::LoadCache,
        s.oid == Some(h),
        s.git is None,
        lookup_in(store, key_of(s, h)) == Some(id),
    ensures
        next_state(s, EventView::CacheLoaded(store)).stage == Stage::Done,
        request_of(next_state(s, EventView::CacheLoaded(store))) == Action::Finish,
        next_state(s, EventView::CacheLoaded(store)).git == Some(id),
        next_state(s, EventView::CacheLoaded(store)).cache == store,
{
}

/// A store seeded with an identity under the resolution's key gives that identity back,
/// and blame is not run.
pub proof fn lemma_seeded_cache_wins(s: ResolverView, seed: Seq<EntryView>, h: Seq<char>, id: Seq<char>)
    requires
        s.stage == Stage::LoadCache,
        s.oid == Some(h),
        s.git is None,
    ensures
        next_state(s, EventView::CacheLoaded(upserted(seed, key_of(s, h), id))).git == Some(id),
        next_state(s, EventView::CacheLoaded(upserted(seed, key_of(s, h), id))).stage
            == Stage::Done,
{
    crate::cache::lemma_upsert_then_lookup(seed, key_of(s, h), id);
}

/// With a store of one entry per key, the resolution of a file whose content hash is `h`
/// takes the identity stored under `h`, and none stored under another hash of the same range.
pub proof fn lemma_hit_uses_own_hash(s: ResolverView, store: Seq<EntryView>, i: int)
    requires
        s.stage == Stage::LoadCache,
        s.git is None,
        keys_unique(store),
        0 <= i < store.len(),
        s.oid == Some(store[i].oid),
        store[i].path == s.path,
        store[i].start == s.start,
        store[i].end == s.end,
    ensures
        next_state(s, EventView::CacheLoaded(store)).git == Some(store[i].email),
        next_state(s, EventView::CacheLoaded(store)).cache == store,
        next_state(s, EventView::CacheLoaded(store)).stage == Stage::Done,
{
    crate::cache::lemma_lookup_finds_entry(store, i);
    assert(key_of(s, store[i].oid) == entry_key(store[i]));
}

} // verus!
