//! Ownership declarations: which owner a path belongs to.
use vstd::prelude::*;
use crate::text::{
    chars_of, contains_run, forward_slashes, forward_slashes_vec, has_prefix, has_suffix, is_space,
    is_space_char, occurs_in, opt_chars, same_chars, strip_leading, strip_leading_vec, strip_trailing,
    strip_trailing_vec,
};

verus! {

/// One line of an ownership file: a path pattern and the first owner named for it.
#[derive(Debug, Clone)]
pub struct OwnershipRule {
    pub pattern: String,
    pub owner: String,
}

pub struct RuleView {
    pub pattern: Seq<char>,
    pub owner: Seq<char>,
}

impl View for OwnershipRule {
    type V = RuleView;

    open spec fn view(&self) -> RuleView {
        RuleView { pattern: self.pattern@, owner: self.owner@ }
    }
}

pub open spec fn rules_view(rules: Seq<OwnershipRule>) -> Seq<RuleView> {
    rules.map_values(|r: OwnershipRule| r@)
}

/// The pattern `*`, which every path matches.
pub open spec fn is_wildcard_all(pat: Seq<char>) -> bool {
    pat == seq!['*']
}

/// A pattern ending in `/` names a directory: the path lies under it.
pub open spec fn directory_prefix_match(pat: Seq<char>, path: Seq<char>) -> bool {
    pat.is_prefix_of(path) || strip_trailing(pat, '/').is_prefix_of(path)
}

/// Any other pattern: the path starts or ends with it, equals it, or holds it as a full segment.
pub open spec fn segment_match(pat: Seq<char>, path: Seq<char>) -> bool {
    ||| pat.is_prefix_of(path)
    ||| path == pat
    ||| pat.is_suffix_of(path)
    ||| occurs_in(seq!['/'] + pat, path)
}

/// Whether `pattern` covers `path`; leading slashes of both are ignored.
pub open spec fn pattern_covers(pattern: Seq<char>, path: Seq<char>) -> bool {
    let pat = strip_leading(pattern, '/');
    let p = strip_leading(path, '/');
    if pat.len() == 0 {
        false
    } else if is_wildcard_all(pat) || p == pat {
        true
    } else if pat.last() == '/' {
        directory_prefix_match(pat, p)
    } else {
        segment_match(pat, p)
    }
}

/// The owner of the last rule whose pattern covers `path`.
pub open spec fn last_owner(rules: Seq<RuleView>, path: Seq<char>) -> Option<Seq<char>>
    decreases rules.len(),
{
    if rules.len() == 0 {
        None
    } else if pattern_covers(rules.last().pattern, path) {
        Some(rules.last().owner)
    } else {
        last_owner(rules.drop_last(), path)
    }
}

/// The first position from `i` on, before `hi`, that is not whitespace (or `hi`).
pub open spec fn skip_space(s: Seq<char>, i: int, hi: int) -> int
    decreases hi - i,
{
    if i >= hi {
        hi
    } else if is_space(s[i]) {
        skip_space(s, i + 1, hi)
    } else {
        i
    }
}

/// The first position from `i` on, before `hi`, that is whitespace (or `hi`).
pub open spec fn word_end(s: Seq<char>, i: int, hi: int) -> int
    decreases hi - i,
{
    if i >= hi {
        hi
    } else if is_space(s[i]) {
        i
    } else {
        word_end(s, i + 1, hi)
    }
}

/// The rule that the line `s[lo..hi)` declares: its first word is the pattern and its second
/// the owner. A blank line, a comment (`#`) or a line with one word declares none.
pub open spec fn rule_of_line(s: Seq<char>, lo: int, hi: int) -> Option<RuleView> {
    let a = skip_space(s, lo, hi);
    let b = word_end(s, a, hi);
    let c = skip_space(s, b, hi);
    let d = word_end(s, c, hi);
    if a < hi && s[a] != '#' && c < hi {
        Some(RuleView { pattern: s.subrange(a, b), owner: s.subrange(c, d) })
    } else {
        None
    }
}

/// The rules of the text `s` from position `i` on, where the current line began at `start`.
pub open spec fn rules_from(s: Seq<char>, start: int, i: int) -> Seq<RuleView>
    decreases s.len() - i,
{
    if i >= s.len() {
        if start < s.len() {
            match rule_of_line(s, start, s.len() as int) {
                Some(r) => seq![r],
                None => seq![],
            }
        } else {
            seq![]
        }
    } else if s[i] == '\n' {
        let rest = rules_from(s, i + 1, i + 1);
        match rule_of_line(s, start, i) {
            Some(r) => seq![r] + rest,
            None => rest,
        }
    } else {
        rules_from(s, start, i + 1)
    }
}

/// The rules that an ownership file declares, in file order.
pub open spec fn rules_of(content: Seq<char>) -> Seq<RuleView> {
    rules_from(content, 0, 0)
}

/// The owner that an ownership file gives `path`, the last covering rule winning.
pub open spec fn owner_in(content: Seq<char>, path: Seq<char>) -> Option<Seq<char>> {
    last_owner(rules_of(content), forward_slashes(path))
}

fn pattern_covers_chars(pattern: &Vec<char>, path: &Vec<char>) -> (r: bool)
    ensures
        r == pattern_covers(pattern@, path@),
{
    let pat = strip_leading_vec(pattern, '/');
    let p = strip_leading_vec(path, '/');
    if pat.len() == 0 {
        return false;
    }
    let star = pat.len() == 1 && pat[0] == '*';
    assert(star == is_wildcard_all(pat@)) by {
        if pat@.len() == 1 && pat@[0] == '*' {
            assert(pat@ =~= seq!['*']);
        }
    }
    if star || same_chars(&p, &pat) {
        return true;
    }
    if pat[pat.len() - 1] == '/' {
        let base = strip_trailing_vec(&pat, '/');
        return has_prefix(&p, &pat) || has_prefix(&p, &base);
    }
    let mut slashed: Vec<char> = Vec::new();
    slashed.push('/');
    let mut i: usize = 0;
    while i < pat.len()
        invariant
            i <= pat@.len(),
            slashed@ == seq!['/'] + pat@.subrange(0, i as int),
        decreases pat.len() - i,
    {
        slashed.push(pat[i]);
        i = i + 1;
        assert(slashed@ =~= seq!['/'] + pat@.subrange(0, i as int));
    }
    assert(pat@.subrange(0, pat@.len() as int) =~= pat@);
    has_prefix(&p, &pat) || same_chars(&p, &pat) || has_suffix(&p, &pat) || contains_run(
        &p,
        &slashed,
    )
}

/// Whether an ownership pattern covers a path: the pattern `*`, an exact match, a directory
/// (pattern ending in `/`) that the path lies under, or else a prefix, a suffix or a full
/// segment of the path. Leading slashes are ignored on both.
pub fn codeowners_pattern_matches(pattern: &str, path: &str) -> (r: bool)
    ensures
        r == pattern_covers(pattern@, path@),
{
    let pat = chars_of(pattern);
    let p = chars_of(path);
    pattern_covers_chars(&pat, &p)
}

fn skip_space_at(s: &Vec<char>, i: usize, hi: usize) -> (r: usize)
    requires
        i <= hi <= s@.len(),
    ensures
        r == skip_space(s@, i as int, hi as int),
        i <= r <= hi,
        r < hi ==> !is_space(s@[r as int]),
{
    let mut j: usize = i;
    while j < hi && is_space_char(s[j])
        invariant
            i <= j <= hi <= s@.len(),
            skip_space(s@, j as int, hi as int) == skip_space(s@, i as int, hi as int),
        decreases hi - j,
    {
        j = j + 1;
    }
    j
}

fn word_end_at(s: &Vec<char>, i: usize, hi: usize) -> (r: usize)
    requires
        i <= hi <= s@.len(),
    ensures
        r == word_end(s@, i as int, hi as int),
        i <= r <= hi,
{
    let mut j: usize = i;
    while j < hi && !is_space_char(s[j])
        invariant
            i <= j <= hi <= s@.len(),
            word_end(s@, j as int, hi as int) == word_end(s@, i as int, hi as int),
        decreases hi - j,
    {
        j = j + 1;
    }
    j
}

fn rule_in_line(content: &str, s: &Vec<char>, lo: usize, hi: usize) -> (r: Option<OwnershipRule>)
    requires
        s@ == content@,
        lo <= hi <= s@.len(),
    ensures
        match r {
            Some(rule) => rule_of_line(s@, lo as int, hi as int) == Some(rule@),
            None => rule_of_line(s@, lo as int, hi as int) is None,
        },
{
    let a = skip_space_at(s, lo, hi);
    let b = word_end_at(s, a, hi);
    let c = skip_space_at(s, b, hi);
    let d = word_end_at(s, c, hi);
    if a < hi && s[a] != '#' && c < hi {
        let pattern = content.substring_char(a, b).to_string();
        let owner = content.substring_char(c, d).to_string();
        Some(OwnershipRule { pattern, owner })
    } else {
        None
    }
}

/// The rules of an ownership file, in file order: one for each line that holds a pattern and
/// at least one owner, skipping blank lines and `#` comments.
pub fn parse_codeowners(content: &str) -> (r: Vec<OwnershipRule>)
    ensures
        rules_view(r@) == rules_of(content@),
{
    let s = chars_of(content);
    let n = s.len();
    let mut out: Vec<OwnershipRule> = Vec::new();
    let mut start: usize = 0;
    let mut i: usize = 0;
    while i < n
        invariant
            s@ == content@,
            n == s@.len(),
            start <= i <= n,
            rules_view(out@) + rules_from(s@, start as int, i as int) == rules_of(content@),
        decreases n - i,
    {
        if s[i] == '\n' {
            let ghost before = rules_view(out@);
            let found = rule_in_line(content, &s, start, i);
            match found {
                Some(rule) => {
                    out.push(rule);
                    assert(rules_view(out@) =~= before.push(rule@));
                    assert(before.push(rule@) + rules_from(s@, (i + 1) as int, (i + 1) as int)
                        =~= before + (seq![rule@] + rules_from(
                        s@,
                        (i + 1) as int,
                        (i + 1) as int,
                    )));
                },
                None => {},
            }
            start = i + 1;
        }
        i = i + 1;
    }
    if start < n {
        let ghost before = rules_view(out@);
        let found = rule_in_line(content, &s, start, n);
        match found {
            Some(rule) => {
                out.push(rule);
                assert(rules_view(out@) =~= before.push(rule@));
                assert(before + seq![rule@] =~= before.push(rule@));
            },
            None => {
                assert(before + seq![] =~= before);
            },
        }
    } else {
        assert(rules_view(out@) + seq![] =~= rules_view(out@));
    }
    out
}

/// The owner of the last rule, in order, whose pattern covers `path`; backslashes in `path`
/// count as forward slashes.
pub fn owner_for_path(rules: &Vec<OwnershipRule>, path: &str) -> (r: Option<String>)
    ensures
        opt_chars(r) == last_owner(rules_view(rules@), forward_slashes(path@)),
{
    let raw = chars_of(path);
    let p = forward_slashes_vec(&raw);
    let mut best: Option<String> = None;
    let mut k: usize = 0;
    while k < rules.len()
        invariant
            k <= rules@.len(),
            p@ == forward_slashes(path@),
            opt_chars(best) == last_owner(rules_view(rules@).take(k as int), p@),
        decreases rules.len() - k,
    {
        let pat = chars_of(rules[k].pattern.as_str());
        proof {
            let taken = rules_view(rules@).take(k + 1);
            assert(taken.drop_last() =~= rules_view(rules@).take(k as int));
            assert(taken.last() == rules@[k as int]@);
        }
        if pattern_covers_chars(&pat, &p) {
            best = Some(rules[k].owner.clone());
        }
        k = k + 1;
    }
    assert(rules_view(rules@).take(rules@.len() as int) =~= rules_view(rules@));
    best
}

/// The owner that an ownership file's text gives `path`: among the rules that cover it, the
/// one that comes last in the file decides; `None` where no rule covers it.
pub fn codeowner_for_path(content: &str, path: &str) -> (r: Option<String>)
    ensures
        opt_chars(r) == owner_in(content@, path@),
{
    let rules = parse_codeowners(content);
    owner_for_path(&rules, path)
}

/// Of two rule lists, the second extending the first by one rule: that rule decides where it
/// covers the path, and otherwise the owner is the one the first list gives.
pub proof fn lemma_last_rule_wins(rules: Seq<RuleView>, rule: RuleView, path: Seq<char>)
    ensures
        last_owner(rules.push(rule), path) == if pattern_covers(rule.pattern, path) {
            Some(rule.owner)
        } else {
            last_owner(rules, path)
        },
{
    assert(rules.push(rule).drop_last() =~= rules);
}

} // verus!
