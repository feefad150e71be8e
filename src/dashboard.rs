//! The figures the dashboard shows: counts by status, tag and file, and expiry dates.
use vstd::prelude::*;
use crate::config::{lowercase, to_ascii_lowercase};
use crate::reports::{parse_u32, parse_u32_text, ReportEntry, Reports};
use crate::text::{chars_of, first_index_from, first_index_from_at, lex_less, same_text, trim, trim_range};
use crate::cli::{eq_ignore_case, text_less};
use chrono::Datelike;

verus! {

/// Leap years of the proleptic Gregorian calendar.
pub open spec fn is_leap(y: int) -> bool {
    (y % 4 == 0 && y % 100 != 0) || y % 400 == 0
}

/// The number of days in month `m` of year `y`.
pub open spec fn month_days(y: int, m: int) -> int {
    if m == 2 {
        if is_leap(y) {
            29
        } else {
            28
        }
    } else if m == 4 || m == 6 || m == 9 || m == 11 {
        30
    } else {
        31
    }
}

/// The days of year `y` before month `m`.
pub open spec fn days_before_month(y: int, m: int) -> int
    decreases m,
{
    if m <= 1 {
        0
    } else {
        days_before_month(y, m - 1) + month_days(y, m - 1)
    }
}

/// The days from 1 January of year 1 to 1 January of year `y` (negative before it).
pub open spec fn days_before_year(y: int) -> int {
    365 * (y - 1) + (y - 1) / 4 - (y - 1) / 100 + (y - 1) / 400
}

/// The day number of a date of the proleptic Gregorian calendar, 1 January of year 1 being
/// day 1, where the date exists and its year lies in chrono's range (-262143 to 262142).
pub open spec fn ce_day(year: i32, month: u32, day: u32) -> Option<i32> {
    if -262143 <= year <= 262142 && 1 <= month <= 12 && 1 <= day <= month_days(
        year as int,
        month as int,
    ) {
        Some((days_before_year(year as int) + days_before_month(year as int, month as int)
            + day) as i32)
    } else {
        None
    }
}

/// Relies on `chrono::NaiveDate::from_ymd_opt`, which gives the date where it exists and its
/// year is in range (`None` otherwise), and `Datelike::num_days_from_ce`, its day number.
#[verifier::external_body]
fn day_number(year: i32, month: u32, day: u32) -> (r: Option<i32>)
    ensures
        r == ce_day(year, month, day),
{
    match chrono::NaiveDate::from_ymd_opt(year, month, day) {
        Some(d) => Some(d.num_days_from_ce()),
        None => None,
    }
}

/// Counts of notes for the dashboard's header.
#[derive(Debug, Clone, Copy, PartialEq, Eq, Structural)]
pub struct DashboardStats {
    pub total: usize,
    pub open: usize,
    pub resolved: usize,
    pub critical: usize,
    pub expired: usize,
    pub expiring_soon: usize,
}

/// What `i32::from_str` gives for text without a minus sign: an optional `+`, then digits
/// whose value fits.
pub open spec fn parse_i32_unsigned(p: Seq<char>) -> Option<i32> {
    match parse_u32(p) {
        Some(v) => if v <= i32::MAX {
            Some(v as i32)
        } else {
            None
        },
        None => None,
    }
}

/// The year, month and day of `Y-M-D`: exactly three parts between dashes, each a number.
pub open spec fn parse_date(s: Seq<char>) -> Option<(i32, u32, u32)> {
    let a = first_index_from(s, '-', 0);
    let b = first_index_from(s, '-', a + 1);
    if a < 0 || b < 0 || first_index_from(s, '-', b + 1) >= 0 {
        None
    } else {
        match (
            parse_i32_unsigned(s.subrange(0, a)),
            parse_u32(s.subrange(a + 1, b)),
            parse_u32(s.subrange(b + 1, s.len() as int)),
        ) {
            (Some(y), Some(m), Some(d)) => Some((y, m, d)),
            _ => None,
        }
    }
}

/// The day number of the date that `s` spells, if it spells one.
pub open spec fn date_day(s: Seq<char>) -> Option<i32> {
    match parse_date(s) {
        Some((y, m, d)) => ce_day(y, m, d),
        None => None,
    }
}

/// The number of days between two day numbers, or 999 where either is missing.
pub open spec fn days_apart_spec(first: Option<i32>, second: Option<i32>) -> int {
    match (first, second) {
        (Some(p), Some(q)) => if q >= p {
            q - p
        } else {
            p - q
        },
        _ => 999,
    }
}

/// The number of days between two day numbers, or 999 where either date was not one.
pub fn days_apart(first: Option<i32>, second: Option<i32>) -> (r: i64)
    ensures
        r == days_apart_spec(first, second),
{
    match (first, second) {
        (Some(p), Some(q)) => {
            let d = q as i64 - p as i64;
            if d >= 0 {
                d
            } else {
                -d
            }
        },
        _ => 999,
    }
}

/// Splits `Y-M-D` and reads its three numbers.
pub fn parse_date_text(s: &str) -> (r: Option<(i32, u32, u32)>)
    ensures
        r == parse_date(s@),
{
    let cs = chars_of(s);
    let n = cs.len();
    let a = match first_index_from_at(&cs, '-', 0) {
        Some(k) => k,
        None => return None,
    };
    let b = match first_index_from_at(&cs, '-', a + 1) {
        Some(k) => k,
        None => return None,
    };
    if first_index_from_at(&cs, '-', b + 1).is_some() {
        return None;
    }
    let y = match parse_u32_text(s.substring_char(0, a)) {
        Some(v) => {
            if v <= 2147483647 {
                v as i32
            } else {
                return None;
            }
        },
        None => return None,
    };
    let m = match parse_u32_text(s.substring_char(a + 1, b)) {
        Some(v) => v,
        None => return None,
    };
    let d = match parse_u32_text(s.substring_char(b + 1, n)) {
        Some(v) => v,
        None => return None,
    };
    Some((y, m, d))
}

/// The day number of the date that `s` spells.
fn date_number(s: &str) -> (r: Option<i32>)
    ensures
        r == date_day(s@),
{
    match parse_date_text(s) {
        Some((y, m, d)) => day_number(y, m, d),
        None => None,
    }
}

/// The absolute number of days between two `Y-M-D` dates, or 999 where either is not one.
pub fn days_between(a: &str, b: &str) -> (r: i64)
    ensures
        r == days_apart_spec(date_day(a@), date_day(b@)),
{
    days_apart(date_number(a), date_number(b))
}

/// The class name that styles a tag, from the tag's lowercase name; unknown tags look like
/// `todo`.
pub open spec fn slug_of(lower: Seq<char>) -> Seq<char> {
    if lower == "critical"@ {
        "critical"@
    } else if lower == "buggy"@ {
        "buggy"@
    } else if lower == "refactor"@ {
        "refactor"@
    } else {
        "todo"@
    }
}

/// The class name for a tag whose name is already in lowercase.
pub fn slug_of_lowercase(lower: &str) -> (r: &'static str)
    ensures
        r@ == slug_of(lower@),
{
    if same_text(lower, "critical") {
        "critical"
    } else if same_text(lower, "buggy") {
        "buggy"
    } else if same_text(lower, "refactor") {
        "refactor"
    } else {
        "todo"
    }
}

/// The class name that styles a tag, in any case.
pub fn tag_slug(tag: &str) -> (r: &'static str)
    ensures
        r@ == slug_of(lowercase(tag@)),
{
    let lower = to_ascii_lowercase(tag);
    slug_of_lowercase(lower.as_str())
}

/// `s` with `&`, `<`, `>` and `"` written as HTML entities.
pub open spec fn escaped(s: Seq<char>) -> Seq<char>
    decreases s.len(),
{
    if s.len() == 0 {
        Seq::empty()
    } else {
        escaped(s.drop_last()) + entity_of(s.last())
    }
}

pub open spec fn entity_of(c: char) -> Seq<char> {
    if c == '&' {
        "&amp;"@
    } else if c == '<' {
        "&lt;"@
    } else if c == '>' {
        "&gt;"@
    } else if c == '"' {
        "&quot;"@
    } else {
        seq![c]
    }
}

fn escape_text(s: &str) -> (r: String)
    ensures
        r@ == escaped(s@),
{
    let n = s.unicode_len();
    let mut r = String::new();
    let mut i: usize = 0;
    while i < n
        invariant
            n == s@.len(),
            i <= n,
            r@ == escaped(s@.subrange(0, i as int)),
        decreases n - i,
    {
        let c = s.get_char(i);
        if c == '&' {
            r.append("&amp;");
        } else if c == '<' {
            r.append("&lt;");
        } else if c == '>' {
            r.append("&gt;");
        } else if c == '"' {
            r.append("&quot;");
        } else {
            let one = s.substring_char(i, i + 1);
            assert(one@ =~= seq![c]);
            r.append(one);
        }
        assert(s@.subrange(0, i + 1).drop_last() =~= s@.subrange(0, i as int));
        i = i + 1;
    }
    assert(s@.subrange(0, n as int) =~= s@);
    r
}

/// Text made safe to stand in HTML.
pub fn escape_html(s: &str) -> (r: String)
    ensures
        r@ == escaped(s@),
{
    escape_text(s)
}

/// Text made safe to stand in an HTML attribute.
pub fn escape_attr(s: &str) -> (r: String)
    ensures
        r@ == escaped(s@),
{
    escape_text(s)
}

/// How strongly a heat-map cell is coloured for `count` notes.
pub open spec fn heat_level_of(count: u32) -> Seq<char> {
    if count >= 3 {
        "hi"@
    } else if count >= 2 {
        "mid"@
    } else {
        "lo"@
    }
}

pub fn heat_level(count: u32) -> (r: &'static str)
    ensures
        r@ == heat_level_of(count),
{
    if count >= 3 {
        "hi"
    } else if count >= 2 {
        "mid"
    } else {
        "lo"
    }
}

pub open spec fn is_open(e: ReportEntry) -> bool {
    crate::text::eq_ignore_ascii_case(e.status@, "open"@)
}

pub open spec fn is_critical(e: ReportEntry) -> bool {
    crate::text::eq_ignore_ascii_case(e.tag@, "critical"@)
}

/// The expiry date with surrounding whitespace removed, where one is set and not blank.
pub open spec fn expiry_of(e: ReportEntry) -> Option<Seq<char>> {
    match e.expires_at {
        Some(x) => if trim(x@).len() > 0 {
            Some(trim(x@))
        } else {
            None
        },
        None => None,
    }
}

/// The expiry date lies before today.
pub open spec fn is_expired(e: ReportEntry, today: Seq<char>) -> bool {
    expiry_of(e) matches Some(x) && lex_less(x, today)
}

/// The expiry date lies today or later, at most a week away.
pub open spec fn is_expiring_soon(e: ReportEntry, today: Seq<char>) -> bool {
    expiry_of(e) matches Some(x) && !lex_less(x, today) && days_apart_spec(
        date_day(today),
        date_day(x),
    ) <= 7
}

/// How many notes of `s` satisfy `f`.
pub open spec fn count_where(s: Seq<ReportEntry>, f: spec_fn(ReportEntry) -> bool) -> nat
    decreases s.len(),
{
    if s.len() == 0 {
        0
    } else {
        count_where(s.drop_last(), f) + if f(s.last()) {
            1nat
        } else {
            0nat
        }
    }
}

proof fn lemma_count_bound(s: Seq<ReportEntry>, f: spec_fn(ReportEntry) -> bool)
    ensures
        count_where(s, f) <= s.len(),
    decreases s.len(),
{
    if s.len() > 0 {
        lemma_count_bound(s.drop_last(), f);
    }
}

/// The expiry date of a note, trimmed, where it is set and not blank.
fn trimmed_expiry(e: &ReportEntry) -> (r: Option<String>)
    ensures
        crate::text::opt_chars(r) == expiry_of(*e),
{
    match &e.expires_at {
        Some(x) => {
            let cs = chars_of(x.as_str());
            let (a, b) = trim_range(&cs, 0, cs.len());
            assert(cs@.subrange(0, cs@.len() as int) =~= cs@);
            if a < b {
                Some(x.as_str().substring_char(a, b).to_string())
            } else {
                None
            }
        },
        None => None,
    }
}

/// The dashboard's counts on day `today` (`YYYY-MM-DD`): all notes, open ones (status `open`
/// in any ASCII case) and the rest, `critical` ones, those expired and those expiring within
/// a week.
pub fn compute_stats(reports: &Reports, today: &str) -> (r: DashboardStats)
    ensures
        r.total == reports.entries@.len(),
        r.open == count_where(reports.entries@, |e: ReportEntry| is_open(e)),
        r.resolved == count_where(reports.entries@, |e: ReportEntry| !is_open(e)),
        r.critical == count_where(reports.entries@, |e: ReportEntry| is_critical(e)),
        r.expired == count_where(reports.entries@, |e: ReportEntry| is_expired(e, today@)),
        r.expiring_soon == count_where(
            reports.entries@,
            |e: ReportEntry| is_expiring_soon(e, today@),
        ),
{
    let ghost s = reports.entries@;
    let ghost f_open = |e: ReportEntry| is_open(e);
    let ghost f_resolved = |e: ReportEntry| !is_open(e);
    let ghost f_critical = |e: ReportEntry| is_critical(e);
    let ghost f_expired = |e: ReportEntry| is_expired(e, today@);
    let ghost f_soon = |e: ReportEntry| is_expiring_soon(e, today@);
    let mut open: usize = 0;
    let mut resolved: usize = 0;
    let mut critical: usize = 0;
    let mut expired: usize = 0;
    let mut expiring_soon: usize = 0;
    let mut i: usize = 0;
    while i < reports.entries.len()
        invariant
            s == reports.entries@,
            i <= s.len(),
            f_open == (|e: ReportEntry| is_open(e)),
            f_resolved == (|e: ReportEntry| !is_open(e)),
            f_critical == (|e: ReportEntry| is_critical(e)),
            f_expired == (|e: ReportEntry| is_expired(e, today@)),
            f_soon == (|e: ReportEntry| is_expiring_soon(e, today@)),
            open == count_where(s.take(i as int), f_open),
            resolved == count_where(s.take(i as int), f_resolved),
            critical == count_where(s.take(i as int), f_critical),
            expired == count_where(s.take(i as int), f_expired),
            expiring_soon == count_where(s.take(i as int), f_soon),
        decreases s.len() - i,
    {
        let ghost t = s.take(i + 1);
        proof {
            assert(t.drop_last() =~= s.take(i as int));
            assert(t.last() == s[i as int]);
            lemma_count_bound(s.take(i as int), f_open);
            lemma_count_bound(s.take(i as int), f_resolved);
            lemma_count_bound(s.take(i as int), f_critical);
            lemma_count_bound(s.take(i as int), f_expired);
            lemma_count_bound(s.take(i as int), f_soon);
        }
        let e = &reports.entries[i];
        if eq_ignore_case(e.status.as_str(), "open") {
            open = open + 1;
        } else {
            resolved = resolved + 1;
        }
        if eq_ignore_case(e.tag.as_str(), "critical") {
            critical = critical + 1;
        }
        match trimmed_expiry(e) {
            Some(x) => {
                if text_less(x.as_str(), today) {
                    expired = expired + 1;
                } else if days_between(today, x.as_str()) <= 7 {
                    expiring_soon = expiring_soon + 1;
                }
            },
            None => {},
        }
        i = i + 1;
    }
    assert(s.take(s.len() as int) =~= s);
    DashboardStats {
        total: reports.entries.len(),
        open,
        resolved,
        critical,
        expired,
        expiring_soon,
    }
}

/// Keys with the number of times each occurs, in the order each first occurs.
pub open spec fn key_counts(keys: Seq<Seq<char>>) -> Seq<(Seq<char>, nat)>
    decreases keys.len(),
{
    if keys.len() == 0 {
        Seq::empty()
    } else {
        let prev = key_counts(keys.drop_last());
        let p = key_index(prev, keys.last());
        if p >= 0 {
            prev.update(p, (keys.last(), prev[p].1 + 1))
        } else {
            prev.push((keys.last(), 1nat))
        }
    }
}

/// The first position of key `k` in `s`, or -1.
pub open spec fn key_index(s: Seq<(Seq<char>, nat)>, k: Seq<char>) -> int
    decreases s.len(),
{
    if s.len() == 0 {
        -1
    } else {
        let p = key_index(s.drop_last(), k);
        if p >= 0 {
            p
        } else if s.last().0 == k {
            s.len() - 1
        } else {
            -1
        }
    }
}

pub open spec fn counts_view(v: Seq<(String, u32)>) -> Seq<(Seq<char>, nat)> {
    v.map_values(|p: (String, u32)| (p.0@, p.1 as nat))
}

/// Counts never grow along `s`.
pub open spec fn sorted_by_count(s: Seq<(Seq<char>, nat)>) -> bool {
    forall|i: int, j: int| 0 <= i < j < s.len() ==> #[trigger] s[i].1 >= #[trigger] s[j].1
}

pub open spec fn tags_of(s: Seq<ReportEntry>) -> Seq<Seq<char>> {
    s.map_values(|e: ReportEntry| e.tag@)
}

pub open spec fn paths_of(s: Seq<ReportEntry>) -> Seq<Seq<char>> {
    s.map_values(|e: ReportEntry| e.path@)
}

proof fn lemma_key_index(s: Seq<(Seq<char>, nat)>, k: Seq<char>)
    ensures
        -1 <= key_index(s, k) < s.len(),
        key_index(s, k) >= 0 ==> s[key_index(s, k)].0 == k,
    decreases s.len(),
{
    if s.len() > 0 {
        lemma_key_index(s.drop_last(), k);
    }
}

proof fn lemma_key_counts_bound(keys: Seq<Seq<char>>)
    ensures
        forall|i: int| 0 <= i < key_counts(keys).len() ==> (#[trigger] key_counts(keys)[i]).1
            <= keys.len(),
    decreases keys.len(),
{
    if keys.len() > 0 {
        lemma_key_counts_bound(keys.drop_last());
        lemma_key_index(key_counts(keys.drop_last()), keys.last());
    }
}

fn find_key(v: &Vec<(String, u32)>, k: &str) -> (r: Option<usize>)
    ensures
        match r {
            Some(p) => p as int == key_index(counts_view(v@), k@) && p < v@.len(),
            None => key_index(counts_view(v@), k@) < 0,
        },
{
    let mut i: usize = 0;
    while i < v.len()
        invariant
            i <= v@.len(),
            key_index(counts_view(v@).take(i as int), k@) < 0,
        decreases v.len() - i,
    {
        proof {
            assert(counts_view(v@).take(i + 1).drop_last() =~= counts_view(v@).take(i as int));
        }
        if same_text(v[i].0.as_str(), k) {
            proof {
                lemma_key_index_prefix(counts_view(v@), k@, i + 1);
            }
            return Some(i);
        }
        i = i + 1;
    }
    assert(counts_view(v@).take(v@.len() as int) =~= counts_view(v@));
    None
}

proof fn lemma_key_index_prefix(s: Seq<(Seq<char>, nat)>, k: Seq<char>, n: int)
    requires
        0 < n <= s.len(),
        key_index(s.take(n), k) >= 0,
    ensures
        key_index(s, k) == key_index(s.take(n), k),
    decreases s.len(),
{
    if n < s.len() {
        assert(s.drop_last().take(n) =~= s.take(n));
        lemma_key_index_prefix(s.drop_last(), k, n);
    } else {
        assert(s.take(n) =~= s);
    }
}

/// Counts `keys` in the order each first occurs.
fn count_keys(keys: &Vec<String>) -> (r: Vec<(String, u32)>)
    requires
        keys@.len() <= u32::MAX,
    ensures
        counts_view(r@) == key_counts(keys@.map_values(|k: String| k@)),
{
    let ghost ks = keys@.map_values(|k: String| k@);
    let mut out: Vec<(String, u32)> = Vec::new();
    let mut i: usize = 0;
    assert(counts_view(out@) =~= key_counts(ks.take(0)));
    while i < keys.len()
        invariant
            ks == keys@.map_values(|k: String| k@),
            keys@.len() <= u32::MAX,
            i <= keys@.len(),
            counts_view(out@) == key_counts(ks.take(i as int)),
        decreases keys.len() - i,
    {
        let ghost t = ks.take(i + 1);
        proof {
            assert(t.drop_last() =~= ks.take(i as int));
            assert(t.last() == keys@[i as int]@);
            lemma_key_counts_bound(ks.take(i as int));
            lemma_key_index(counts_view(out@), keys@[i as int]@);
        }
        match find_key(&out, keys[i].as_str()) {
            Some(p) => {
                let ghost before = out@;
                assert(counts_view(before)[p as int].1 <= i);
                let c = out[p].1 + 1;
                let name = out[p].0.clone();
                out.set(p, (name, c));
                assert(counts_view(out@) =~= counts_view(before).update(
                    p as int,
                    (keys@[i as int]@, counts_view(before)[p as int].1 + 1),
                ));
            },
            None => {
                let ghost before = out@;
                out.push((keys[i].clone(), 1));
                assert(counts_view(out@) =~= counts_view(before).push((keys@[i as int]@, 1nat)));
            },
        }
        i = i + 1;
    }
    assert(ks.take(keys@.len() as int) =~= ks);
    out
}

/// The same pairs, largest count first; pairs of equal count keep their order.
fn sort_by_count(v: &Vec<(String, u32)>) -> (r: Vec<(String, u32)>)
    ensures
        counts_view(r@).to_multiset() == counts_view(v@).to_multiset(),
        sorted_by_count(counts_view(r@)),
{
    let mut out: Vec<(String, u32)> = Vec::new();
    let mut i: usize = 0;
    assert(counts_view(v@).take(0) =~= Seq::<(Seq<char>, nat)>::empty());
    assert(counts_view(out@) =~= Seq::<(Seq<char>, nat)>::empty());
    while i < v.len()
        invariant
            i <= v@.len(),
            out@.len() == i,
            counts_view(out@).to_multiset() == counts_view(v@).take(i as int).to_multiset(),
            sorted_by_count(counts_view(out@)),
        decreases v.len() - i,
    {
        let c = v[i].1;
        let mut pos: usize = 0;
        while pos < out.len() && out[pos].1 >= c
            invariant
                pos <= out@.len(),
                forall|j: int| 0 <= j < pos ==> (#[trigger] out@[j]).1 >= c,
            decreases out.len() - pos,
        {
            pos = pos + 1;
        }
        let ghost before = out@;
        let item = (v[i].0.clone(), c);
        out.insert(pos, item);
        proof {
            let cv = counts_view(before);
            let x = (v@[i as int].0@, c as nat);
            assert(counts_view(out@) =~= cv.insert(pos as int, x));
            assert(counts_view(v@).take(i + 1) =~= counts_view(v@).take(i as int).push(x));
            vstd::seq_lib::to_multiset_insert(cv, pos as int, x);
            vstd::seq_lib::to_multiset_build(counts_view(v@).take(i as int), x);
            assert forall|a: int, b: int| 0 <= a < b < counts_view(out@).len() implies #[trigger] counts_view(
                out@,
            )[a].1 >= #[trigger] counts_view(out@)[b].1 by {
                if pos < before.len() {
                    assert(before[pos as int].1 < c);
                }
                if b > pos && pos < before.len() {
                    assert(cv[pos as int].1 >= cv[b - 1].1 || b - 1 == pos);
                }
            }
        }
        i = i + 1;
    }
    assert(counts_view(v@).take(v@.len() as int) =~= counts_view(v@));
    out
}

/// Notes per tag and notes per file: each key once with its count, the largest count first.
pub fn compute_chart_data(reports: &Reports) -> (r: (Vec<(String, u32)>, Vec<(String, u32)>))
    requires
        reports.entries@.len() <= u32::MAX,
    ensures
        counts_view(r.0@).to_multiset() == key_counts(tags_of(reports.entries@)).to_multiset(),
        sorted_by_count(counts_view(r.0@)),
        counts_view(r.1@).to_multiset() == key_counts(paths_of(reports.entries@)).to_multiset(),
        sorted_by_count(counts_view(r.1@)),
{
    let mut tags: Vec<String> = Vec::new();
    let mut paths: Vec<String> = Vec::new();
    let mut i: usize = 0;
    while i < reports.entries.len()
        invariant
            i <= reports.entries@.len(),
            tags@.map_values(|k: String| k@) == tags_of(reports.entries@).take(i as int),
            paths@.map_values(|k: String| k@) == paths_of(reports.entries@).take(i as int),
            tags@.len() == i,
            paths@.len() == i,
        decreases reports.entries.len() - i,
    {
        tags.push(reports.entries[i].tag.clone());
        paths.push(reports.entries[i].path.clone());
        i = i + 1;
        assert(tags@.map_values(|k: String| k@) =~= tags_of(reports.entries@).take(i as int));
        assert(paths@.map_values(|k: String| k@) =~= paths_of(reports.entries@).take(i as int));
    }
    assert(tags_of(reports.entries@).take(i as int) =~= tags_of(reports.entries@));
    assert(paths_of(reports.entries@).take(i as int) =~= paths_of(reports.entries@));
    let tag_counts = count_keys(&tags);
    let file_counts = count_keys(&paths);
    (sort_by_count(&tag_counts), sort_by_count(&file_counts))
}

/// How many notes are on file `path` with tag `tag`.
pub fn heat_count(reports: &Reports, path: &str, tag: &str) -> (r: u32)
    requires
        reports.entries@.len() <= u32::MAX,
    ensures
        r == count_where(reports.entries@, |e: ReportEntry| e.path@ == path@ && e.tag@ == tag@),
{
    let ghost f = |e: ReportEntry| e.path@ == path@ && e.tag@ == tag@;
    let ghost s = reports.entries@;
    let mut n: u32 = 0;
    let mut i: usize = 0;
    while i < reports.entries.len()
        invariant
            s == reports.entries@,
            s.len() <= u32::MAX,
            f == (|e: ReportEntry| e.path@ == path@ && e.tag@ == tag@),
            i <= s.len(),
            n == count_where(s.take(i as int), f),
        decreases s.len() - i,
    {
        proof {
            assert(s.take(i + 1).drop_last() =~= s.take(i as int));
            lemma_count_bound(s.take(i as int), f);
        }
        if same_text(reports.entries[i].path.as_str(), path) && same_text(
            reports.entries[i].tag.as_str(),
            tag,
        ) {
            n = n + 1;
        }
        i = i + 1;
    }
    assert(s.take(s.len() as int) =~= s);
    n
}

} // verus!
