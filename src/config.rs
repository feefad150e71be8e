//! The tag set, severities and per-tag settings of a repository.
use vstd::prelude::*;
use crate::text::{decimal, decimal_string, same_text};

verus! {

pub const CONFIG_VERSION: u32 = 1;

/// The fixed set of tags a note can carry.
#[derive(Debug, Clone, Copy, PartialEq, Eq, Structural, Hash)]
pub enum Tag {
    Todo,
    Refactor,
    Buggy,
    Critical,
}

/// How much an open note of a tag matters.
#[derive(Debug, Clone, Copy, PartialEq, Eq, Structural)]
pub enum Severity {
    Low,
    Medium,
    High,
    Blocking,
}

/// The settings of one tag.
#[derive(Debug, Clone)]
pub struct TagConfig {
    pub enabled: bool,
    pub severity: String,
    pub expires: Option<u32>,
}

/// The settings of a repository: a version and the settings of each tag by name. Names are
/// unique in a well-formed configuration.
#[derive(Debug, Clone)]
pub struct Config {
    pub version: u32,
    pub tags: Vec<(String, TagConfig)>,
}

/// The lowercase form of one character, as `char::to_lowercase` gives it.
pub uninterp spec fn char_lowercase(c: char) -> Seq<char>;

/// Relies on `char::to_lowercase`: the lowercase mapping of a character, which depends on the
/// character alone.
#[verifier::external_body]
fn lowercase_char(c: char) -> (r: String)
    ensures
        r@ == char_lowercase(c),
{
    c.to_lowercase().collect()
}

/// Each character of `s` in lowercase, one after the other.
pub open spec fn lowercase(s: Seq<char>) -> Seq<char>
    decreases s.len(),
{
    if s.len() == 0 {
        Seq::empty()
    } else {
        lowercase(s.drop_last()) + char_lowercase(s.last())
    }
}

/// `s` with each character in lowercase.
pub fn to_ascii_lowercase(s: &str) -> (r: String)
    ensures
        r@ == lowercase(s@),
{
    let n = s.unicode_len();
    let mut r = String::new();
    let mut i: usize = 0;
    while i < n
        invariant
            n == s@.len(),
            i <= n,
            r@ == lowercase(s@.subrange(0, i as int)),
        decreases n - i,
    {
        let low = lowercase_char(s.get_char(i));
        r.append(low.as_str());
        assert(s@.subrange(0, i + 1).drop_last() =~= s@.subrange(0, i as int));
        i = i + 1;
    }
    assert(s@.subrange(0, n as int) =~= s@);
    r
}

pub open spec fn tag_name(t: Tag) -> Seq<char> {
    match t {
        Tag::Todo => "todo"@,
        Tag::Refactor => "refactor"@,
        Tag::Buggy => "buggy"@,
        Tag::Critical => "critical"@,
    }
}

/// The tag whose name is exactly `name`.
pub open spec fn tag_named(name: Seq<char>) -> Option<Tag> {
    if name == "todo"@ {
        Some(Tag::Todo)
    } else if name == "refactor"@ {
        Some(Tag::Refactor)
    } else if name == "buggy"@ {
        Some(Tag::Buggy)
    } else if name == "critical"@ {
        Some(Tag::Critical)
    } else {
        None
    }
}

/// The severity whose name is exactly `name`.
pub open spec fn severity_named(name: Seq<char>) -> Option<Severity> {
    if name == "low"@ {
        Some(Severity::Low)
    } else if name == "medium"@ {
        Some(Severity::Medium)
    } else if name == "high"@ {
        Some(Severity::High)
    } else if name == "blocking"@ {
        Some(Severity::Blocking)
    } else {
        None
    }
}

/// The settings of the first tag named `name`.
pub open spec fn find_tag(tags: Seq<(String, TagConfig)>, name: Seq<char>) -> Option<TagConfig>
    decreases tags.len(),
{
    if tags.len() == 0 {
        None
    } else {
        match find_tag(tags.drop_last(), name) {
            Some(tc) => Some(tc),
            None => if tags.last().0@ == name {
                Some(tags.last().1)
            } else {
                None
            },
        }
    }
}

pub open spec fn names_unique(tags: Seq<(String, TagConfig)>) -> bool {
    forall|i: int, j: int| 0 <= i < j < tags.len() ==> #[trigger] tags[i].0@ != #[trigger] tags[j].0@
}

/// The message for a name that no tag has.
pub open spec fn unknown_tag_message(s: Seq<char>) -> Seq<char> {
    "unknown tag: "@ + s
}

pub open spec fn unknown_severity_message(s: Seq<char>) -> Seq<char> {
    "unknown severity: "@ + s
}

pub open spec fn not_defined_message(key: Seq<char>) -> Seq<char> {
    "tag '"@ + key + "' is not defined in config"@
}

pub open spec fn disabled_message(key: Seq<char>) -> Seq<char> {
    "tag '"@ + key + "' is disabled in config"@
}

pub open spec fn missing_message(key: Seq<char>) -> Seq<char> {
    "tag '"@ + key + "' not in config"@
}

/// The text `a`, then `b`.
fn joined(a: &str, b: &str) -> (r: String)
    ensures
        r@ == a@ + b@,
{
    let mut r = a.to_string();
    r.append(b);
    r
}

/// The text `a`, then `b`, then `c`.
fn joined3(a: &str, b: &str, c: &str) -> (r: String)
    ensures
        r@ == a@ + b@ + c@,
{
    let mut r = a.to_string();
    r.append(b);
    r.append(c);
    r
}

impl Tag {
    pub fn as_str(&self) -> (r: &'static str)
        ensures
            r@ == tag_name(*self),
    {
        match self {
            Tag::Todo => "todo",
            Tag::Refactor => "refactor",
            Tag::Buggy => "buggy",
            Tag::Critical => "critical",
        }
    }

    /// Every tag, in a fixed order.
    pub fn all() -> (r: &'static [Tag])
        ensures
            r@ == seq![Tag::Todo, Tag::Refactor, Tag::Buggy, Tag::Critical],
    {
        let r: &'static [Tag] = &[Tag::Todo, Tag::Refactor, Tag::Buggy, Tag::Critical];
        assert(r@ =~= seq![Tag::Todo, Tag::Refactor, Tag::Buggy, Tag::Critical]);
        r
    }

    /// The tag whose name is `lower`, a name already in lowercase.
    pub fn from_lowercase(lower: &str) -> (r: Option<Tag>)
        ensures
            r == tag_named(lower@),
    {
        if same_text(lower, "todo") {
            Some(Tag::Todo)
        } else if same_text(lower, "refactor") {
            Some(Tag::Refactor)
        } else if same_text(lower, "buggy") {
            Some(Tag::Buggy)
        } else if same_text(lower, "critical") {
            Some(Tag::Critical)
        } else {
            None
        }
    }

    /// The tag named `s`, in any case.
    pub fn parse(s: &str) -> (r: Result<Tag, String>)
        ensures
            match r {
                Ok(t) => tag_named(lowercase(s@)) == Some(t),
                Err(e) => tag_named(lowercase(s@)) is None && e@ == unknown_tag_message(s@),
            },
    {
        let lower = to_ascii_lowercase(s);
        match Tag::from_lowercase(lower.as_str()) {
            Some(t) => Ok(t),
            None => Err(joined("unknown tag: ", s)),
        }
    }
}

impl std::str::FromStr for Tag {
    type Err = String;

    fn from_str(s: &str) -> Result<Self, Self::Err> {
        Tag::parse(s)
    }
}

impl Severity {
    /// The severity whose name is `lower`, a name already in lowercase.
    pub fn from_lowercase(lower: &str) -> (r: Option<Severity>)
        ensures
            r == severity_named(lower@),
    {
        if same_text(lower, "low") {
            Some(Severity::Low)
        } else if same_text(lower, "medium") {
            Some(Severity::Medium)
        } else if same_text(lower, "high") {
            Some(Severity::High)
        } else if same_text(lower, "blocking") {
            Some(Severity::Blocking)
        } else {
            None
        }
    }

    /// The severity named `s`, in any case.
    pub fn parse(s: &str) -> (r: Result<Severity, String>)
        ensures
            match r {
                Ok(v) => severity_named(lowercase(s@)) == Some(v),
                Err(e) => severity_named(lowercase(s@)) is None && e@ == unknown_severity_message(
                    s@,
                ),
            },
    {
        let lower = to_ascii_lowercase(s);
        match Severity::from_lowercase(lower.as_str()) {
            Some(v) => Ok(v),
            None => Err(joined("unknown severity: ", s)),
        }
    }
}

impl std::str::FromStr for Severity {
    type Err = String;

    fn from_str(s: &str) -> Result<Self, Self::Err> {
        Severity::parse(s)
    }
}

fn copy_tag_config(tc: &TagConfig) -> (r: TagConfig)
    ensures
        r == *tc,
{
    TagConfig { enabled: tc.enabled, severity: tc.severity.clone(), expires: tc.expires }
}

/// The settings of the first tag named `name`.
pub fn lookup_tag(config: &Config, name: &str) -> (r: Option<TagConfig>)
    ensures
        r == find_tag(config.tags@, name@),
{
    let mut found: Option<TagConfig> = None;
    let mut i: usize = 0;
    while i < config.tags.len()
        invariant
            i <= config.tags@.len(),
            found == find_tag(config.tags@.take(i as int), name@),
        decreases config.tags.len() - i,
    {
        proof {
            assert(config.tags@.take(i + 1).drop_last() =~= config.tags@.take(i as int));
        }
        if found.is_none() && same_text(config.tags[i].0.as_str(), name) {
            found = Some(copy_tag_config(&config.tags[i].1));
        }
        i = i + 1;
    }
    assert(config.tags@.take(config.tags@.len() as int) =~= config.tags@);
    found
}

fn tag_entry(name: &str, severity: &str, expires: Option<u32>) -> (r: (String, TagConfig))
    ensures
        r.0@ == name@,
        r.1.enabled,
        r.1.severity@ == severity@,
        r.1.expires == expires,
{
    (name.to_string(), TagConfig { enabled: true, severity: severity.to_string(), expires })
}

/// The settings a repository starts with: every tag enabled; `todo` low and never expiring,
/// `refactor` medium expiring after 180 days, `buggy` high after 90, `critical` blocking
/// after 14.
pub fn default_config() -> (r: Config)
    ensures
        r.version == CONFIG_VERSION,
        r.tags@.len() == 4,
        names_unique(r.tags@),
        r.tags@[0].0@ == "todo"@ && r.tags@[0].1.severity@ == "low"@ && r.tags@[0].1.expires
            is None,
        r.tags@[1].0@ == "refactor"@ && r.tags@[1].1.severity@ == "medium"@
            && r.tags@[1].1.expires == Some(180u32),
        r.tags@[2].0@ == "buggy"@ && r.tags@[2].1.severity@ == "high"@ && r.tags@[2].1.expires
            == Some(90u32),
        r.tags@[3].0@ == "critical"@ && r.tags@[3].1.severity@ == "blocking"@
            && r.tags@[3].1.expires == Some(14u32),
        forall|i: int| 0 <= i < 4 ==> (#[trigger] r.tags@[i]).1.enabled,
{
    let mut tags: Vec<(String, TagConfig)> = Vec::new();
    tags.push(tag_entry("todo", "low", None));
    tags.push(tag_entry("refactor", "medium", Some(180)));
    tags.push(tag_entry("buggy", "high", Some(90)));
    tags.push(tag_entry("critical", "blocking", Some(14)));
    proof {
        reveal_strlit("todo");
        reveal_strlit("refactor");
        reveal_strlit("buggy");
        reveal_strlit("critical");
        assert forall|i: int, j: int| 0 <= i < j < tags@.len() implies #[trigger] tags@[i].0@
            != #[trigger] tags@[j].0@ by {
            if i == 1 && j == 3 {
                assert(tags@[i].0@[0] != tags@[j].0@[0]);
            } else {
                assert(tags@[i].0@.len() != tags@[j].0@.len());
            }
        }
    }
    Config { version: CONFIG_VERSION, tags }
}

/// A tag that a new note may carry: its name must be a known tag, defined in the
/// configuration and enabled there.
pub fn validate_tag_for_add(config: &Config, tag_str: &str) -> (r: Result<Tag, String>)
    ensures
        match tag_named(lowercase(tag_str@)) {
            None => r matches Err(e) && e@ == unknown_tag_message(tag_str@),
            Some(t) => match find_tag(config.tags@, tag_name(t)) {
                None => r matches Err(e) && e@ == not_defined_message(tag_name(t)),
                Some(tc) => if tc.enabled {
                    r == Ok::<Tag, String>(t)
                } else {
                    r matches Err(e) && e@ == disabled_message(tag_name(t))
                },
            },
        },
{
    let tag = match Tag::parse(tag_str) {
        Ok(t) => t,
        Err(e) => return Err(e),
    };
    let key = tag.as_str();
    match lookup_tag(config, key) {
        None => Err(joined3("tag '", key, "' is not defined in config")),
        Some(tc) => {
            if !tc.enabled {
                Err(joined3("tag '", key, "' is disabled in config"))
            } else {
                Ok(tag)
            }
        },
    }
}

/// The number of days after which a note of this tag expires, if the tag sets one.
pub fn expires_days(config: &Config, tag: Tag) -> (r: Option<u32>)
    ensures
        r == match find_tag(config.tags@, tag_name(tag)) {
            Some(tc) => tc.expires,
            None => None,
        },
{
    match lookup_tag(config, tag.as_str()) {
        Some(tc) => tc.expires,
        None => None,
    }
}

/// The severity that the configuration gives this tag.
pub fn severity(config: &Config, tag: Tag) -> (r: Result<Severity, String>)
    ensures
        match find_tag(config.tags@, tag_name(tag)) {
            None => r matches Err(e) && e@ == missing_message(tag_name(tag)),
            Some(tc) => match severity_named(lowercase(tc.severity@)) {
                Some(v) => r == Ok::<Severity, String>(v),
                None => r matches Err(e) && e@ == unknown_severity_message(tc.severity@),
            },
        },
{
    let key = tag.as_str();
    match lookup_tag(config, key) {
        None => Err(joined3("tag '", key, "' not in config")),
        Some(tc) => Severity::parse(tc.severity.as_str()),
    }
}

/// The message for a configuration of another version.
pub open spec fn version_message(v: u32) -> Seq<char> {
    "unsupported config version: "@ + decimal(v as nat) + " (expected 1)"@
}

/// The first tag, in order, whose severity is not a known one.
pub open spec fn first_bad_severity(tags: Seq<(String, TagConfig)>) -> int
    decreases tags.len(),
{
    if tags.len() == 0 {
        -1
    } else {
        let p = first_bad_severity(tags.drop_last());
        if p >= 0 {
            p
        } else if severity_named(lowercase(tags.last().1.severity@)) is None {
            tags.len() - 1
        } else {
            -1
        }
    }
}

/// Checks a configuration just read: its version must be the current one and every tag's
/// severity a known one.
pub fn validate_config(config: &Config) -> (r: Result<(), String>)
    ensures
        config.version != CONFIG_VERSION ==> (r matches Err(e) && e@ == version_message(
            config.version,
        )),
        config.version == CONFIG_VERSION && first_bad_severity(config.tags@) < 0 ==> r is Ok,
        config.version == CONFIG_VERSION && first_bad_severity(config.tags@) >= 0 ==> ({
            let i = first_bad_severity(config.tags@);
            r matches Err(e) && e@ == "tag '"@ + config.tags@[i].0@ + "': "@
                + unknown_severity_message(config.tags@[i].1.severity@)
        }),
{
    if config.version != CONFIG_VERSION {
        let v = decimal_string(config.version);
        return Err(joined3("unsupported config version: ", v.as_str(), " (expected 1)"));
    }
    let mut i: usize = 0;
    while i < config.tags.len()
        invariant
            i <= config.tags@.len(),
            config.version == CONFIG_VERSION,
            first_bad_severity(config.tags@.take(i as int)) < 0,
        decreases config.tags.len() - i,
    {
        proof {
            assert(config.tags@.take(i + 1).drop_last() =~= config.tags@.take(i as int));
        }
        match Severity::parse(config.tags[i].1.severity.as_str()) {
            Ok(_) => {},
            Err(e) => {
                proof {
                    lemma_first_bad_prefix(config.tags@, i + 1);
                }
                return Err(joined3("tag '", config.tags[i].0.as_str(), joined("': ", e.as_str()).as_str()));
            },
        }
        i = i + 1;
    }
    assert(config.tags@.take(config.tags@.len() as int) =~= config.tags@);
    Ok(())
}

proof fn lemma_first_bad_prefix(s: Seq<(String, TagConfig)>, k: int)
    requires
        0 < k <= s.len(),
        first_bad_severity(s.take(k)) >= 0,
    ensures
        first_bad_severity(s) == first_bad_severity(s.take(k)),
    decreases s.len(),
{
    if k < s.len() {
        assert(s.drop_last().take(k) =~= s.take(k));
        lemma_first_bad_prefix(s.drop_last(), k);
    } else {
        assert(s.take(k) =~= s);
    }
}

} // verus!
