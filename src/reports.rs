//! The list of review notes and the operations on it by id.
use vstd::prelude::*;
use crate::text::{same_text, append_digits, decimal, decimal_chars, is_digit, lemma_decimal_digits};

verus! {

pub const REPORTS_VERSION: u32 = 1;

/// A review note on a line range of a file.
#[derive(Debug, Clone)]
pub struct ReportEntry {
    pub id: String,
    pub path: String,
    pub range: LineRange,
    pub tag: String,
    pub message: String,
    pub author: Author,
    pub created_at: String,
    pub expires_at: Option<String>,
    pub status: String,
}

/// Lines `start..=end` of a file, counted from 1.
#[derive(Debug, Clone, Copy, PartialEq, Eq, Structural)]
pub struct LineRange {
    pub start: u32,
    pub end: u32,
}

/// Who a note was attributed to when it was added.
#[derive(Debug, Clone)]
pub struct Author {
    pub git: Option<String>,
    pub codeowner: Option<String>,
}

/// All notes of a repository, in the order they were added.
#[derive(Debug, Clone)]
pub struct Reports {
    pub version: u32,
    pub entries: Vec<ReportEntry>,
}

/// The number that a run of decimal digits spells.
pub open spec fn digits_value(s: Seq<char>) -> nat
    decreases s.len(),
{
    if s.len() == 0 {
        0
    } else {
        digits_value(s.drop_last()) * 10 + ((s.last() as u32 - '0' as u32) as nat)
    }
}

/// `s` without one leading `+`.
pub open spec fn without_plus(s: Seq<char>) -> Seq<char> {
    if s.len() > 0 && s[0] == '+' {
        s.drop_first()
    } else {
        s
    }
}

pub open spec fn all_digits(d: Seq<char>) -> bool {
    forall|i: int| 0 <= i < d.len() ==> is_digit(#[trigger] d[i])
}

/// What `u32::from_str` accepts: an optional `+`, then one or more decimal digits whose value
/// fits in 32 bits.
pub open spec fn parse_u32(s: Seq<char>) -> Option<u32> {
    let d = without_plus(s);
    if d.len() > 0 && all_digits(d) && digits_value(d) <= u32::MAX {
        Some(digits_value(d) as u32)
    } else {
        None
    }
}

/// The number in an id of the form `CR-<number>`.
pub open spec fn report_number(id: Seq<char>) -> Option<u32> {
    if id.len() >= 3 && id[0] == 'C' && id[1] == 'R' && id[2] == '-' {
        parse_u32(id.skip(3))
    } else {
        None
    }
}

/// The largest number among the ids of `s`, or 0.
pub open spec fn max_number(s: Seq<ReportEntry>) -> u32
    decreases s.len(),
{
    if s.len() == 0 {
        0
    } else {
        let m = max_number(s.drop_last());
        match report_number(s.last().id@) {
            Some(n) => if n > m {
                n
            } else {
                m
            },
            None => m,
        }
    }
}

/// `d` with zeros in front up to `width` characters.
pub open spec fn zero_padded(d: Seq<char>, width: nat) -> Seq<char> {
    if d.len() < width {
        Seq::new((width - d.len()) as nat, |i: int| '0') + d
    } else {
        d
    }
}

/// The id `CR-` followed by `n` in at least six digits.
pub open spec fn id_text(n: nat) -> Seq<char> {
    seq!['C', 'R', '-'] + zero_padded(decimal(n), 6)
}

/// The position of the first entry whose id is `id`, or -1.
pub open spec fn index_of_id(s: Seq<ReportEntry>, id: Seq<char>) -> int
    decreases s.len(),
{
    if s.len() == 0 {
        -1
    } else {
        let p = index_of_id(s.drop_last(), id);
        if p >= 0 {
            p
        } else if s.last().id@ == id {
            s.len() - 1
        } else {
            -1
        }
    }
}

proof fn lemma_index_of_id_range(s: Seq<ReportEntry>, id: Seq<char>)
    ensures
        -1 <= index_of_id(s, id) < s.len(),
        index_of_id(s, id) >= 0 ==> s[index_of_id(s, id)].id@ == id,
        index_of_id(s, id) < 0 ==> forall|j: int| 0 <= j < s.len() ==> (#[trigger] s[j]).id@ != id,
    decreases s.len(),
{
    if s.len() > 0 {
        lemma_index_of_id_range(s.drop_last(), id);
        if index_of_id(s, id) < 0 {
            assert forall|j: int| 0 <= j < s.len() implies (#[trigger] s[j]).id@ != id by {
                if j < s.len() - 1 {
                    assert(s[j] == s.drop_last()[j]);
                }
            }
        }
    }
}

/// Parses decimal digits as `u32::from_str` does.
pub fn parse_u32_text(s: &str) -> (r: Option<u32>)
    ensures
        r == parse_u32(s@),
{
    let n = s.unicode_len();
    let mut i: usize = 0;
    if n > 0 && s.get_char(0) == '+' {
        i = 1;
    }
    let ghost d = without_plus(s@);
    assert(d =~= s@.subrange(i as int, n as int));
    if i == n {
        return None;
    }
    let first = i;
    let mut value: u64 = 0;
    while i < n
        invariant
            n == s@.len(),
            first <= i <= n,
            d == s@.subrange(first as int, n as int),
            d == without_plus(s@),
            forall|j: int| first <= j < i ==> is_digit(#[trigger] s@[j]),
            value == if digits_value(s@.subrange(first as int, i as int)) > u32::MAX {
                u32::MAX as nat + 1
            } else {
                digits_value(s@.subrange(first as int, i as int))
            },
        decreases n - i,
    {
        let c = s.get_char(i);
        if c < '0' || c > '9' {
            assert(d[i - first] == c);
            assert(!is_digit(d[i - first]));
            assert(!all_digits(d));
            return None;
        }
        let ghost before = s@.subrange(first as int, i as int);
        let digit = (c as u32 - '0' as u32) as u64;
        let ghost dv = digits_value(before);
        assert(s@.subrange(first as int, i + 1).drop_last() =~= before);
        value = value * 10 + digit;
        if value > u32::MAX as u64 {
            value = u32::MAX as u64 + 1;
        }
        assert(dv > u32::MAX ==> dv * 10 + digit > u32::MAX) by (nonlinear_arith);
        i = i + 1;
    }
    assert(s@.subrange(first as int, n as int) == d);
    if value > u32::MAX as u64 {
        None
    } else {
        Some(value as u32)
    }
}

/// The number in a report id `CR-<number>`, if it has that form.
pub fn parse_report_id(id: &str) -> (r: Option<u32>)
    ensures
        r == report_number(id@),
{
    let n = id.unicode_len();
    if n >= 3 && id.get_char(0) == 'C' && id.get_char(1) == 'R' && id.get_char(2) == '-' {
        let rest = id.substring_char(3, n);
        assert(rest@ =~= id@.skip(3));
        parse_u32_text(rest)
    } else {
        None
    }
}

/// The id with number `n`: `CR-` followed by `n` in at least six digits.
pub fn format_report_id(n: u32) -> (r: String)
    ensures
        r@ == id_text(n as nat),
{
    let digits = decimal_chars(n);
    proof {
        reveal_strlit("CR-");
    }
    let mut r = "CR-".to_string();
    let mut pad: usize = digits.len();
    while pad < 6
        invariant
            digits@ == decimal(n as nat),
            digits@.len() <= pad <= if digits@.len() < 6 { 6 } else { digits@.len() },
            r@ == seq!['C', 'R', '-'] + Seq::new((pad - digits@.len()) as nat, |i: int| '0'),
        decreases 6 - pad,
    {
        proof {
            reveal_strlit("0");
        }
        r.append("0");
        pad = pad + 1;
        assert(r@ =~= seq!['C', 'R', '-'] + Seq::new((pad - digits@.len()) as nat, |i: int| '0'));
    }
    proof {
        lemma_decimal_digits(n as nat);
    }
    append_digits(&mut r, &digits);
    assert(r@ =~= id_text(n as nat));
    r
}

impl Reports {
    /// The largest number among the ids `CR-<number>`, or 0 where there is none.
    pub fn max_id(&self) -> (r: u32)
        ensures
            r == max_number(self.entries@),
    {
        let mut m: u32 = 0;
        let mut i: usize = 0;
        while i < self.entries.len()
            invariant
                i <= self.entries@.len(),
                m == max_number(self.entries@.take(i as int)),
            decreases self.entries.len() - i,
        {
            proof {
                assert(self.entries@.take(i + 1).drop_last() =~= self.entries@.take(i as int));
            }
            match parse_report_id(self.entries[i].id.as_str()) {
                Some(n) => {
                    if n > m {
                        m = n;
                    }
                },
                None => {},
            }
            i = i + 1;
        }
        assert(self.entries@.take(self.entries@.len() as int) =~= self.entries@);
        m
    }

    /// The id for a new note: one past the largest number in use, in six digits or more.
    pub fn next_id(&self) -> (r: String)
        requires
            max_number(self.entries@) < u32::MAX,
        ensures
            r@ == id_text((max_number(self.entries@) + 1) as nat),
    {
        let n = self.max_id() + 1;
        format_report_id(n)
    }

    pub fn add_entry(&mut self, entry: ReportEntry)
        ensures
            final(self).version == old(self).version,
            final(self).entries@ == old(self).entries@.push(entry),
    {
        self.entries.push(entry);
    }

    fn position_of(&self, id: &str) -> (r: Option<usize>)
        ensures
            match r {
                Some(i) => i as int == index_of_id(self.entries@, id@) && i < self.entries@.len(),
                None => index_of_id(self.entries@, id@) < 0,
            },
    {
        proof {
            lemma_index_of_id_range(self.entries@, id@);
        }
        let mut i: usize = 0;
        while i < self.entries.len()
            invariant
                i <= self.entries@.len(),
                index_of_id(self.entries@.take(i as int), id@) < 0,
            decreases self.entries.len() - i,
        {
            proof {
                assert(self.entries@.take(i + 1).drop_last() =~= self.entries@.take(i as int));
            }
            if same_text(self.entries[i].id.as_str(), id) {
                proof {
                    lemma_prefix_index(self.entries@, id@, i + 1);
                }
                return Some(i);
            }
            i = i + 1;
        }
        assert(self.entries@.take(self.entries@.len() as int) =~= self.entries@);
        None
    }

    /// Removes the first note with this id; `false` where there is none.
    pub fn delete_by_id(&mut self, id: &str) -> (r: bool)
        ensures
            r == (index_of_id(old(self).entries@, id@) >= 0),
            final(self).version == old(self).version,
            r ==> final(self).entries@ == old(self).entries@.remove(
                index_of_id(old(self).entries@, id@),
            ),
            !r ==> final(self).entries@ == old(self).entries@,
    {
        match self.position_of(id) {
            Some(pos) => {
                self.entries.remove(pos);
                true
            },
            None => false,
        }
    }

    /// Marks the first note with this id as resolved; `false` where there is none.
    pub fn resolve_by_id(&mut self, id: &str) -> (r: bool)
        ensures
            r == (index_of_id(old(self).entries@, id@) >= 0),
            final(self).version == old(self).version,
            final(self).entries@.len() == old(self).entries@.len(),
            forall|j: int|
                0 <= j < old(self).entries@.len() && j != index_of_id(old(self).entries@, id@)
                    ==> final(self).entries@[j] == old(self).entries@[j],
            r ==> ({
                let i = index_of_id(old(self).entries@, id@);
                let (a, b) = (final(self).entries@[i], old(self).entries@[i]);
                &&& a.status@ == "resolved"@
                &&& a.id == b.id && a.path == b.path && a.range == b.range && a.tag == b.tag
                &&& a.message == b.message && a.created_at == b.created_at
                &&& a.expires_at == b.expires_at
                &&& a.author.git == b.author.git && a.author.codeowner == b.author.codeowner
            }),
    {
        match self.position_of(id) {
            Some(pos) => {
                self.entries[pos].status = "resolved".to_string();
                true
            },
            None => false,
        }
    }

    /// The first note with this id.
    pub fn by_id(&self, id: &str) -> (r: Option<&ReportEntry>)
        ensures
            match r {
                Some(e) => index_of_id(self.entries@, id@) >= 0 && *e == self.entries@[index_of_id(
                    self.entries@,
                    id@,
                )],
                None => index_of_id(self.entries@, id@) < 0,
            },
    {
        match self.position_of(id) {
            Some(pos) => Some(&self.entries[pos]),
            None => None,
        }
    }
}

proof fn lemma_prefix_index(s: Seq<ReportEntry>, id: Seq<char>, k: int)
    requires
        0 < k <= s.len(),
        index_of_id(s.take(k), id) >= 0,
    ensures
        index_of_id(s, id) == index_of_id(s.take(k), id),
    decreases s.len(),
{
    if k < s.len() {
        assert(s.drop_last().take(k) =~= s.take(k));
        lemma_prefix_index(s.drop_last(), id, k);
    } else {
        assert(s.take(k) =~= s);
    }
}

/// The author record of a note, from what resolution found.
pub fn author_from_resolved(git: Option<String>, codeowner: Option<String>) -> (r: Author)
    ensures
        r.git == git,
        r.codeowner == codeowner,
{
    Author { git, codeowner }
}

} // verus!
