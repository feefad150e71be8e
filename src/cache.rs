//! The store of earlier blame results, keyed by path, line range and content hash.
use vstd::prelude::*;
use crate::text::opt_chars;

verus! {

/// What a cached identity is valid for: a path, a line range and the content hash of the file.
#[derive(Debug, Clone)]
pub struct CacheKey {
    pub path: String,
    pub start: u32,
    pub end: u32,
    pub oid: String,
}

/// One stored result: its key and the identity that blame gave.
#[derive(Debug, Clone)]
pub struct BlameCacheEntry {
    pub path: String,
    pub start: u32,
    pub end: u32,
    pub oid: String,
    pub email: String,
}

/// All stored results, in the order they were added.
#[derive(Debug, Clone, Default)]
pub struct BlameCache {
    pub entries: Vec<BlameCacheEntry>,
}

pub struct KeyView {
    pub path: Seq<char>,
    pub start: u32,
    pub end: u32,
    pub oid: Seq<char>,
}

pub struct EntryView {
    pub path: Seq<char>,
    pub start: u32,
    pub end: u32,
    pub oid: Seq<char>,
    pub email: Seq<char>,
}

impl View for CacheKey {
    type V = KeyView;

    open spec fn view(&self) -> KeyView {
        KeyView { path: self.path@, start: self.start, end: self.end, oid: self.oid@ }
    }
}

impl View for BlameCacheEntry {
    type V = EntryView;

    open spec fn view(&self) -> EntryView {
        EntryView {
            path: self.path@,
            start: self.start,
            end: self.end,
            oid: self.oid@,
            email: self.email@,
        }
    }
}

impl View for BlameCache {
    type V = Seq<EntryView>;

    open spec fn view(&self) -> Seq<EntryView> {
        self.entries@.map_values(|e: BlameCacheEntry| e@)
    }
}

/// All four parts of the key are equal.
pub open spec fn has_key(e: EntryView, k: KeyView) -> bool {
    e.path == k.path && e.start == k.start && e.end == k.end && e.oid == k.oid
}

pub open spec fn entry_of(k: KeyView, email: Seq<char>) -> EntryView {
    EntryView { path: k.path, start: k.start, end: k.end, oid: k.oid, email }
}

/// The identity of the first entry with key `k`.
pub open spec fn lookup_in(s: Seq<EntryView>, k: KeyView) -> Option<Seq<char>>
    decreases s.len(),
{
    if s.len() == 0 {
        None
    } else {
        match lookup_in(s.drop_last(), k) {
            Some(e) => Some(e),
            None => if has_key(s.last(), k) {
                Some(s.last().email)
            } else {
                None
            },
        }
    }
}

/// The entries without those that have key `k`, in order.
pub open spec fn without_key(s: Seq<EntryView>, k: KeyView) -> Seq<EntryView>
    decreases s.len(),
{
    if s.len() == 0 {
        s
    } else if has_key(s.last(), k) {
        without_key(s.drop_last(), k)
    } else {
        without_key(s.drop_last(), k).push(s.last())
    }
}

/// How many entries have key `k`.
pub open spec fn key_count(s: Seq<EntryView>, k: KeyView) -> nat
    decreases s.len(),
{
    if s.len() == 0 {
        0
    } else if has_key(s.last(), k) {
        key_count(s.drop_last(), k) + 1
    } else {
        key_count(s.drop_last(), k)
    }
}

/// The store after an upsert: any entry with the key removed, then the new entry appended.
pub open spec fn upserted(s: Seq<EntryView>, k: KeyView, email: Seq<char>) -> Seq<EntryView> {
    without_key(s, k).push(entry_of(k, email))
}

/// The key an entry is stored under.
pub open spec fn entry_key(e: EntryView) -> KeyView {
    KeyView { path: e.path, start: e.start, end: e.end, oid: e.oid }
}

/// At most one entry per key, as every store built by upserts has.
pub open spec fn keys_unique(s: Seq<EntryView>) -> bool {
    forall|i: int, j: int| 0 <= i < j < s.len() ==> !has_key(#[trigger] s[j], entry_key(#[trigger] s[i]))
}

impl BlameCacheEntry {
    pub fn copy(&self) -> (r: BlameCacheEntry)
        ensures
            r@ == self@,
    {
        BlameCacheEntry {
            path: self.path.clone(),
            start: self.start,
            end: self.end,
            oid: self.oid.clone(),
            email: self.email.clone(),
        }
    }

    pub fn matches_key(&self, key: &CacheKey) -> (r: bool)
        ensures
            r == has_key(self@, key@),
    {
        self.path == key.path && self.start == key.start && self.end == key.end && self.oid
            == key.oid
    }
}

impl BlameCache {
    pub fn new() -> (r: BlameCache)
        ensures
            r@ == Seq::<EntryView>::empty(),
    {
        let r = BlameCache { entries: Vec::new() };
        assert(r@ =~= Seq::<EntryView>::empty());
        r
    }

    pub fn len(&self) -> (r: usize)
        ensures
            r == self@.len(),
    {
        self.entries.len()
    }

    /// The identity stored for exactly this key, if any.
    pub fn lookup(&self, key: &CacheKey) -> (r: Option<String>)
        ensures
            opt_chars(r) == lookup_in(self@, key@),
    {
        let mut found: Option<String> = None;
        let mut i: usize = 0;
        while i < self.entries.len()
            invariant
                i <= self.entries@.len(),
                opt_chars(found) == lookup_in(self@.take(i as int), key@),
            decreases self.entries.len() - i,
        {
            proof {
                assert(self@.take(i + 1).drop_last() =~= self@.take(i as int));
            }
            if found.is_none() && self.entries[i].matches_key(key) {
                found = Some(self.entries[i].email.clone());
            }
            i = i + 1;
        }
        assert(self@.take(self@.len() as int) =~= self@);
        found
    }

    /// Removes any entry with this key, then appends the new one.
    pub fn upsert(&mut self, key: CacheKey, email: String)
        ensures
            final(self)@ == upserted(old(self)@, key@, email@),
            keys_unique(old(self)@) ==> keys_unique(final(self)@),
    {
        proof {
            if keys_unique(self@) {
                lemma_upsert_keeps_keys_unique(self@, key@, email@);
            }
        }
        let ghost k = key@;
        let mut kept: Vec<BlameCacheEntry> = Vec::new();
        let mut i: usize = 0;
        while i < self.entries.len()
            invariant
                i <= self.entries@.len(),
                k == key@,
                kept@.map_values(|e: BlameCacheEntry| e@) == without_key(self@.take(i as int), k),
            decreases self.entries.len() - i,
        {
            proof {
                assert(self@.take(i + 1).drop_last() =~= self@.take(i as int));
            }
            if !self.entries[i].matches_key(&key) {
                let ghost before = kept@;
                kept.push(self.entries[i].copy());
                assert(kept@.map_values(|e: BlameCacheEntry| e@) =~= before.map_values(
                    |e: BlameCacheEntry| e@,
                ).push(self.entries@[i as int]@));
            }
            i = i + 1;
        }
        assert(self@.take(self@.len() as int) =~= self@);
        let ghost before = kept@;
        let entry = BlameCacheEntry {
            path: key.path,
            start: key.start,
            end: key.end,
            oid: key.oid,
            email,
        };
        kept.push(entry);
        assert(kept@.map_values(|e: BlameCacheEntry| e@) =~= before.map_values(
            |e: BlameCacheEntry| e@,
        ).push(entry_of(k, email@)));
        self.entries = kept;
    }
}

proof fn lemma_without_key_has_none(s: Seq<EntryView>, k: KeyView)
    ensures
        lookup_in(without_key(s, k), k) is None,
        key_count(without_key(s, k), k) == 0,
    decreases s.len(),
{
    if s.len() > 0 {
        lemma_without_key_has_none(s.drop_last(), k);
        if !has_key(s.last(), k) {
            let w = without_key(s.drop_last(), k);
            assert(w.push(s.last()).drop_last() =~= w);
        }
    }
}

proof fn lemma_without_other_key(s: Seq<EntryView>, k: KeyView, other: KeyView)
    requires
        k != other,
    ensures
        lookup_in(without_key(s, other), k) == lookup_in(s, k),
    decreases s.len(),
{
    if s.len() > 0 {
        lemma_without_other_key(s.drop_last(), k, other);
        if !has_key(s.last(), other) {
            let w = without_key(s.drop_last(), other);
            assert(w.push(s.last()).drop_last() =~= w);
        } else {
            assert(!has_key(s.last(), k));
        }
    }
}

/// After an upsert the store holds exactly one entry for the key, and a lookup of the key
/// gives the identity just stored.
pub proof fn lemma_upsert_then_lookup(s: Seq<EntryView>, k: KeyView, email: Seq<char>)
    ensures
        lookup_in(upserted(s, k, email), k) == Some(email),
        key_count(upserted(s, k, email), k) == 1,
{
    lemma_without_key_has_none(s, k);
    let w = without_key(s, k);
    assert(w.push(entry_of(k, email)).drop_last() =~= w);
}

/// Two upserts of one key leave one entry for it, holding the second identity.
pub proof fn lemma_upsert_twice(s: Seq<EntryView>, k: KeyView, first: Seq<char>, second: Seq<char>)
    ensures
        key_count(upserted(upserted(s, k, first), k, second), k) == 1,
        lookup_in(upserted(upserted(s, k, first), k, second), k) == Some(second),
{
    lemma_upsert_then_lookup(upserted(s, k, first), k, second);
}

/// An upsert under one key leaves what a lookup of any other key gives unchanged: entries
/// that differ in content hash alone never stand in for each other.
pub proof fn lemma_upsert_other_key(s: Seq<EntryView>, k: KeyView, other: KeyView, email: Seq<char>)
    requires
        k != other,
    ensures
        lookup_in(upserted(s, other, email), k) == lookup_in(s, k),
{
    lemma_without_other_key(s, k, other);
    let w = without_key(s, other);
    assert(w.push(entry_of(other, email)).drop_last() =~= w);
    assert(!has_key(entry_of(other, email), k));
}

proof fn lemma_without_key_shape(s: Seq<EntryView>, k: KeyView)
    ensures
        forall|i: int| 0 <= i < without_key(s, k).len() ==> !has_key(#[trigger] without_key(s, k)[i], k),
        forall|i: int| 0 <= i < without_key(s, k).len() ==> exists|j: int|
            0 <= j < s.len() && #[trigger] without_key(s, k)[i] == s[j],
        keys_unique(s) ==> keys_unique(without_key(s, k)),
    decreases s.len(),
{
    if s.len() > 0 {
        let d = s.drop_last();
        lemma_without_key_shape(d, k);
        let w = without_key(d, k);
        assert forall|i: int| 0 <= i < w.len() implies exists|j: int|
            0 <= j < s.len() && #[trigger] w[i] == s[j] by {
            let j = choose|j: int| 0 <= j < d.len() && #[trigger] w[i] == d[j];
            assert(s[j] == d[j]);
        }
        if keys_unique(s) {
            assert(keys_unique(d)) by {
                assert forall|a: int, b: int| 0 <= a < b < d.len() implies !has_key(
                    #[trigger] d[b],
                    entry_key(#[trigger] d[a]),
                ) by {
                    assert(d[a] == s[a] && d[b] == s[b]);
                }
            }
        }
        if !has_key(s.last(), k) {
            let w2 = w.push(s.last());
            assert forall|i: int| 0 <= i < w2.len() implies exists|j: int|
                0 <= j < s.len() && #[trigger] w2[i] == s[j] by {
                if i == w.len() {
                    assert(w2[i] == s[s.len() - 1]);
                } else {
                    assert(w2[i] == w[i]);
                }
            }
            if keys_unique(s) {
                assert forall|a: int, b: int| 0 <= a < b < w2.len() implies !has_key(
                    #[trigger] w2[b],
                    entry_key(#[trigger] w2[a]),
                ) by {
                    if b == w.len() {
                        let j = choose|j: int| 0 <= j < d.len() && #[trigger] w[a] == d[j];
                        assert(d[j] == s[j]);
                        assert(!has_key(s[s.len() - 1], entry_key(s[j])));
                    } else {
                        assert(w2[a] == w[a] && w2[b] == w[b]);
                    }
                }
            }
        }
    }
}

/// Upserting keeps a store with one entry per key so.
pub proof fn lemma_upsert_keeps_keys_unique(s: Seq<EntryView>, k: KeyView, email: Seq<char>)
    requires
        keys_unique(s),
    ensures
        keys_unique(upserted(s, k, email)),
{
    lemma_without_key_shape(s, k);
    let w = without_key(s, k);
    let u = w.push(entry_of(k, email));
    assert forall|a: int, b: int| 0 <= a < b < u.len() implies !has_key(
        #[trigger] u[b],
        entry_key(#[trigger] u[a]),
    ) by {
        if b == w.len() {
            assert(!has_key(w[a], k));
            assert(u[a] == w[a]);
        } else {
            assert(u[a] == w[a] && u[b] == w[b]);
        }
    }
}

proof fn lemma_lookup_absent(s: Seq<EntryView>, k: KeyView)
    requires
        forall|j: int| 0 <= j < s.len() ==> !has_key(#[trigger] s[j], k),
    ensures
        lookup_in(s, k) is None,
    decreases s.len(),
{
    if s.len() > 0 {
        let d = s.drop_last();
        assert forall|j: int| 0 <= j < d.len() implies !has_key(#[trigger] d[j], k) by {
            assert(d[j] == s[j]);
        }
        lemma_lookup_absent(d, k);
        assert(!has_key(s[s.len() - 1], k));
    }
}

/// In a store with one entry per key, a lookup under an entry's key gives that entry's
/// identity.
pub proof fn lemma_lookup_finds_entry(s: Seq<EntryView>, i: int)
    requires
        keys_unique(s),
        0 <= i < s.len(),
    ensures
        lookup_in(s, entry_key(s[i])) == Some(s[i].email),
    decreases s.len(),
{
    let d = s.drop_last();
    assert(keys_unique(d)) by {
        assert forall|a: int, b: int| 0 <= a < b < d.len() implies !has_key(
            #[trigger] d[b],
            entry_key(#[trigger] d[a]),
        ) by {
            assert(d[a] == s[a] && d[b] == s[b]);
        }
    }
    if i < s.len() - 1 {
        assert(d[i] == s[i]);
        lemma_lookup_finds_entry(d, i);
    } else {
        assert forall|j: int| 0 <= j < d.len() implies !has_key(#[trigger] d[j], entry_key(s[i])) by {
            assert(d[j] == s[j]);
            assert(!has_key(s[i], entry_key(s[j])));
        }
        lemma_lookup_absent(d, entry_key(s[i]));
    }
}

/// Entries that differ in content hash alone never stand in for each other: in a store with
/// one entry per key, a lookup under either hash gives the identity stored under that hash.
pub proof fn lemma_hash_scoped_lookup(s: Seq<EntryView>, i: int, j: int)
    requires
        keys_unique(s),
        0 <= i < s.len(),
        0 <= j < s.len(),
        s[i].path == s[j].path,
        s[i].start == s[j].start,
        s[i].end == s[j].end,
        s[i].oid != s[j].oid,
    ensures
        lookup_in(s, entry_key(s[i])) == Some(s[i].email),
        lookup_in(s, entry_key(s[j])) == Some(s[j].email),
        s[i].email != s[j].email ==> lookup_in(s, entry_key(s[i])) != Some(s[j].email),
{
    lemma_lookup_finds_entry(s, i);
    lemma_lookup_finds_entry(s, j);
}

/// A lookup only ever gives the identity of an entry whose key is the one asked for.
pub proof fn lemma_lookup_from_own_key(s: Seq<EntryView>, k: KeyView)
    ensures
        lookup_in(s, k) matches Some(id) ==> exists|i: int|
            0 <= i < s.len() && has_key(#[trigger] s[i], k) && s[i].email == id,
    decreases s.len(),
{
    if s.len() > 0 {
        lemma_lookup_from_own_key(s.drop_last(), k);
        if lookup_in(s.drop_last(), k) is Some {
            let id = lookup_in(s.drop_last(), k)->0;
            let i = choose|i: int|
                0 <= i < s.drop_last().len() && has_key(#[trigger] s.drop_last()[i], k)
                    && s.drop_last()[i].email == id;
            assert(s[i] == s.drop_last()[i]);
        } else if has_key(s.last(), k) {
            assert(has_key(s[s.len() - 1], k));
        }
    }
}

} // verus!
