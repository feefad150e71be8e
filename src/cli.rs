//! The command line's data and the rules its commands apply.
use vstd::prelude::*;
use crate::config::{
    find_tag, lowercase, severity, severity_named, tag_name, tag_named, Config, Severity, Tag,
};
use crate::reports::{parse_u32, parse_u32_text, ReportEntry, Reports};
use crate::text::{
    chars_of, contains_run, eq_ignore_ascii_case, first_index_from, first_index_from_at,
    forward_slashes, forward_slashes_str, last_index_before, last_index_of, lex_less, occurs_in,
    opt_chars, same_text, skip_leading, strip_leading, strip_trailing, strip_trailing_vec, trim,
    trim_range,
};

verus! {

/// The parsed command line.
#[derive(Debug)]
pub struct Cli {
    pub command: Command,
}

/// The commands and their arguments.
#[derive(Debug)]
pub enum Command {
    /// Initialize .codereports/ with config and schema
    Init,
    /// Add a new report at `path:start-end`
    Add { location: String, tag: String, message: String },
    /// List reports with optional filters
    List { tag: Option<String>, status: Option<String> },
    /// Delete a report by ID
    Delete { id: String },
    /// Mark a report as resolved
    Resolve { id: String },
    /// CI check: fail if blocking or expired open reports
    Check,
    /// Generate HTML dashboard
    Html { no_open: bool },
}

/// What `path:start-end` names: the path (trimmed, with forward slashes) and the line range,
/// or the message of the first rule it breaks.
pub open spec fn location_of(s: Seq<char>) -> Result<(Seq<char>, u32, u32), Seq<char>> {
    let colon = last_index_before(s, ':', s.len() as int);
    if colon < 0 {
        Err("expected path:start-end"@)
    } else {
        let path = trim(s.subrange(0, colon));
        let dash = first_index_from(s, '-', colon + 1);
        if path.len() == 0 {
            Err("path is empty"@)
        } else if dash < 0 {
            Err("expected start-end range"@)
        } else {
            match parse_u32(trim(s.subrange(colon + 1, dash))) {
                None => Err("invalid start line"@),
                Some(start) => match parse_u32(
                    trim(strip_leading(s.subrange(dash, s.len() as int), '-')),
                ) {
                    None => Err("invalid end line"@),
                    Some(end) => if start == 0 || end < start {
                        Err("invalid range (start >= 1, end >= start)"@)
                    } else {
                        Ok((forward_slashes(path), start, end))
                    },
                },
            }
        }
    }
}

/// Parses `path:start-end`: the path before the last colon, then two line numbers with
/// `start >= 1` and `end >= start`.
pub fn parse_location(location: &str) -> (r: Result<(String, u32, u32), String>)
    ensures
        match r {
            Ok((p, a, b)) => location_of(location@) == Ok::<(Seq<char>, u32, u32), Seq<char>>(
                (p@, a, b),
            ),
            Err(e) => location_of(location@) == Err::<(Seq<char>, u32, u32), Seq<char>>(e@),
        },
{
    let s = chars_of(location);
    let n = s.len();
    let colon = match last_index_of(&s, ':') {
        Some(c) => c,
        None => return Err("expected path:start-end".to_string()),
    };
    let (pa, pb) = trim_range(&s, 0, colon);
    if pa == pb {
        return Err("path is empty".to_string());
    }
    let path = forward_slashes_str(location.substring_char(pa, pb));
    let dash = match first_index_from_at(&s, '-', colon + 1) {
        Some(d) => d,
        None => return Err("expected start-end range".to_string()),
    };
    let (sa, sb) = trim_range(&s, colon + 1, dash);
    let start = match parse_u32_text(location.substring_char(sa, sb)) {
        Some(v) => v,
        None => return Err("invalid start line".to_string()),
    };
    let e0 = skip_leading(&s, '-', dash, n);
    let (ea, eb) = trim_range(&s, e0, n);
    let end = match parse_u32_text(location.substring_char(ea, eb)) {
        Some(v) => v,
        None => return Err("invalid end line".to_string()),
    };
    if start == 0 || end < start {
        return Err("invalid range (start >= 1, end >= start)".to_string());
    }
    Ok((path, start, end))
}

/// The lines that a repository's `.gitignore` gets.
pub open spec fn ignore_block() -> Seq<char> {
    "# codereport (generated dashboard and local blame cache)\n.codereports/html/\n.codereports/.blame-cache\n"@
}

/// The new `.gitignore` text, or `None` where it already mentions the tool.
pub open spec fn gitignore_update(content: Seq<char>) -> Option<Seq<char>> {
    if occurs_in(".codereports/html/"@, content) || occurs_in("# codereport"@, content) {
        None
    } else if trim(content).len() == 0 {
        Some(ignore_block())
    } else {
        Some(strip_trailing(content, '\n') + "\n"@ + ignore_block())
    }
}

/// The `.gitignore` text with the tool's lines added at its end, or `None` where it already
/// has them.
pub fn gitignore_with_block(content: &str) -> (r: Option<String>)
    ensures
        opt_chars(r) == gitignore_update(content@),
{
    let block = "# codereport (generated dashboard and local blame cache)\n.codereports/html/\n.codereports/.blame-cache\n";
    let s = chars_of(content);
    let html = chars_of(".codereports/html/");
    let marker = chars_of("# codereport");
    if contains_run(&s, &html) || contains_run(&s, &marker) {
        return None;
    }
    let (a, b) = trim_range(&s, 0, s.len());
    assert(s@.subrange(0, s@.len() as int) =~= s@);
    if a == b {
        return Some(block.to_string());
    }
    let kept = strip_trailing_vec(&s, '\n');
    proof {
        lemma_strip_trailing_prefix(s@, '\n');
    }
    let mut r = content.substring_char(0, kept.len()).to_string();
    r.append("\n");
    r.append(block);
    Some(r)
}

proof fn lemma_strip_trailing_prefix(s: Seq<char>, c: char)
    ensures
        strip_trailing(s, c).len() <= s.len(),
        strip_trailing(s, c) == s.subrange(0, strip_trailing(s, c).len() as int),
    decreases s.len(),
{
    if s.len() > 0 && s.last() == c {
        lemma_strip_trailing_prefix(s.drop_last(), c);
        assert(s.drop_last().subrange(0, strip_trailing(s, c).len() as int) =~= s.subrange(
            0,
            strip_trailing(s, c).len() as int,
        ));
    } else {
        assert(s.subrange(0, s.len() as int) =~= s);
    }
}

/// An open note fails the check where its tag's severity is blocking or its expiry date
/// (`YYYY-MM-DD`) lies before `today`. Notes with an unknown tag, or a tag the configuration
/// gives no known severity, are passed over.
pub open spec fn is_violation(cfg: Config, e: ReportEntry, today: Seq<char>) -> bool {
    &&& e.status@ == "open"@
    &&& tag_named(lowercase(e.tag@)) matches Some(t)
    &&& find_tag(cfg.tags@, tag_name(t)) matches Some(tc)
    &&& severity_named(lowercase(tc.severity@)) matches Some(sev)
    &&& (sev == Severity::Blocking || (e.expires_at matches Some(d) && lex_less(d@, today)))
}

/// The positions of the notes that fail the check, in order.
pub open spec fn violations_in(cfg: Config, s: Seq<ReportEntry>, today: Seq<char>) -> Seq<int>
    decreases s.len(),
{
    if s.len() == 0 {
        Seq::empty()
    } else if is_violation(cfg, s.last(), today) {
        violations_in(cfg, s.drop_last(), today).push(s.len() - 1)
    } else {
        violations_in(cfg, s.drop_last(), today)
    }
}

/// Whether `a` comes before `b` in the order of `str`.
pub fn text_less(a: &str, b: &str) -> (r: bool)
    ensures
        r == lex_less(a@, b@),
{
    let x = chars_of(a);
    let y = chars_of(b);
    let mut i: usize = 0;
    assert(x@.subrange(0, x@.len() as int) =~= x@);
    assert(y@.subrange(0, y@.len() as int) =~= y@);
    while i < x.len() && i < y.len() && x[i] == y[i]
        invariant
            i <= x@.len() && i <= y@.len(),
            lex_less(x@.subrange(i as int, x@.len() as int), y@.subrange(i as int, y@.len() as int))
                == lex_less(x@, y@),
        decreases x.len() - i,
    {
        assert(x@.subrange(i as int, x@.len() as int).drop_first() =~= x@.subrange(
            i + 1,
            x@.len() as int,
        ));
        assert(y@.subrange(i as int, y@.len() as int).drop_first() =~= y@.subrange(
            i + 1,
            y@.len() as int,
        ));
        i = i + 1;
    }
    if i == y.len() {
        false
    } else if i == x.len() {
        true
    } else {
        (x[i] as u32) < (y[i] as u32)
    }
}

/// Whether an open note fails the check: see `is_violation`.
pub fn violates(cfg: &Config, e: &ReportEntry, today: &str) -> (r: bool)
    ensures
        r == is_violation(*cfg, *e, today@),
{
    if !same_text(e.status.as_str(), "open") {
        return false;
    }
    let tag = match Tag::parse(e.tag.as_str()) {
        Ok(t) => t,
        Err(_) => return false,
    };
    let sev = match severity(cfg, tag) {
        Ok(s) => s,
        Err(_) => return false,
    };
    let blocking = sev == Severity::Blocking;
    let expired = match &e.expires_at {
        Some(d) => text_less(d.as_str(), today),
        None => false,
    };
    blocking || expired
}

/// The positions of the notes that fail the check, in order; the check passes where there
/// are none.
pub fn find_violations(cfg: &Config, reports: &Reports, today: &str) -> (r: Vec<usize>)
    ensures
        r@.map_values(|i: usize| i as int) == violations_in(*cfg, reports.entries@, today@),
{
    let mut out: Vec<usize> = Vec::new();
    let mut i: usize = 0;
    while i < reports.entries.len()
        invariant
            i <= reports.entries@.len(),
            out@.map_values(|k: usize| k as int) == violations_in(
                *cfg,
                reports.entries@.take(i as int),
                today@,
            ),
        decreases reports.entries.len() - i,
    {
        proof {
            assert(reports.entries@.take(i + 1).drop_last() =~= reports.entries@.take(i as int));
        }
        if violates(cfg, &reports.entries[i], today) {
            let ghost before = out@;
            out.push(i);
            assert(out@.map_values(|k: usize| k as int) =~= before.map_values(|k: usize| k as int).push(
                i as int,
            ));
        }
        i = i + 1;
    }
    assert(reports.entries@.take(reports.entries@.len() as int) =~= reports.entries@);
    out
}

/// Whether `text` equals `wanted` ignoring ASCII case.
pub fn eq_ignore_case(text: &str, wanted: &str) -> (r: bool)
    ensures
        r == eq_ignore_ascii_case(text@, wanted@),
{
    let a = chars_of(text);
    let b = chars_of(wanted);
    if a.len() != b.len() {
        return false;
    }
    let mut i: usize = 0;
    while i < a.len()
        invariant
            a@ == text@,
            b@ == wanted@,
            a@.len() == b@.len(),
            i <= a@.len(),
            forall|j: int| 0 <= j < i ==> crate::text::ascii_lower(#[trigger] a@[j])
                == crate::text::ascii_lower(b@[j]),
        decreases a.len() - i,
    {
        if ascii_lower_char(a[i]) != ascii_lower_char(b[i]) {
            assert(crate::text::ascii_lower(a@[i as int]) != crate::text::ascii_lower(b@[i as int]));
            return false;
        }
        i = i + 1;
    }
    true
}

fn ascii_lower_char(c: char) -> (r: char)
    ensures
        r == crate::text::ascii_lower(c),
{
    if 'A' <= c && c <= 'Z' {
        ((c as u8) + 32) as char
    } else {
        c
    }
}

/// A listing shows a note where its tag and its status equal the filters given, ignoring
/// ASCII case; a filter left out lets every note through.
pub open spec fn listed(e: ReportEntry, tag: Option<Seq<char>>, status: Option<Seq<char>>) -> bool {
    &&& (tag matches Some(t) ==> eq_ignore_ascii_case(e.tag@, t))
    &&& (status matches Some(s) ==> eq_ignore_ascii_case(e.status@, s))
}

/// Whether a listing with these filters shows the note.
pub fn list_filter_matches(e: &ReportEntry, tag: Option<&str>, status: Option<&str>) -> (r: bool)
    ensures
        r == listed(
            *e,
            match tag {
                Some(t) => Some(t@),
                None => None,
            },
            match status {
                Some(s) => Some(s@),
                None => None,
            },
        ),
{
    let tag_ok = match tag {
        Some(t) => eq_ignore_case(e.tag.as_str(), t),
        None => true,
    };
    let status_ok = match status {
        Some(s) => eq_ignore_case(e.status.as_str(), s),
        None => true,
    };
    tag_ok && status_ok
}

} // verus!
