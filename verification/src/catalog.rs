//! The pattern catalog: for each supported version range, the regexes,
//! timestamp grammar, level vocabulary and event table that its log format
//! uses. Ranges partition a covered interval of version space; a version
//! outside it is unsupported.
use vstd::prelude::*;

use crate::Version;
use crate::version::{range_contains, version_le, version_lt, version_le_value, version_lt_value};

verus! {

/// How one named capture turns into a field of the event's data.
#[derive(Clone, Copy)]
pub enum CaptureType {
    /// A decimal integer: zero is false, anything else true. Required.
    Bool,
    /// A single character. Required.
    Char,
    /// A decimal integer, signed 64-bit. Required.
    Int,
    /// A base-16 integer, stored as signed 64-bit. Required.
    HexInt,
    /// A decimal number with an optional fraction, kept as written. Required.
    Float,
    /// Free text. Required.
    Text,
    /// A decimal integer, or null when absent; present text that is no
    /// integer is a hard error.
    OptionalInt,
    /// Free text, or null when absent or empty.
    OptionalText,
    /// A decimal integer, or the given default when absent or unparseable.
    DefaultedInt(i64),
    /// A decimal number kept as written, or the given default's decimal
    /// text when absent or not a number (this crate keeps no floating
    /// point, so the default stands as text).
    DefaultedFloat(&'static str),
    /// Free text, or the given default when absent.
    DefaultedText(&'static str),
}

/// One recognizable event shape: its key, its regex, its captures in
/// declared order, and whether matching lines are deliberately dropped.
pub struct EventSpec {
    pub key: &'static str,
    pub regex: &'static str,
    pub captures: Vec<(&'static str, CaptureType)>,
    pub ignore: bool,
}

/// The level vocabulary of one platform's log format.
#[derive(Clone, Copy)]
pub struct LevelNames {
    pub error: &'static str,
    pub warn: &'static str,
    pub info: &'static str,
    pub verbose: &'static str,
    pub debug: &'static str,
}

/// A timestamp grammar, in the order parsing tries them.
#[derive(Clone, Copy)]
pub enum TimestampFormat {
    /// `YYYY-MM-DDTHH:MM:SS` with an optional fraction.
    IsoMicroT,
    /// `YYYY-MM-DD HH:MM:SS` with an optional fraction.
    IsoMicroSpace,
    /// `HH:MM:SS` with an optional fraction: a wall-clock time.
    ClockMicro,
}

/// One platform sub-variant of a pattern set.
pub struct PlatformPattern {
    pub version_regex: &'static str,
    pub timestamp_regex: &'static str,
    pub full_timestamp: bool,
    pub timestamp_formats: Vec<TimestampFormat>,
    pub domain_regex: &'static str,
    pub level_regex: Option<&'static str>,
    pub level_names: LevelNames,
}

/// All patterns of one version range.
pub struct PatternSet {
    pub object_regex: &'static str,
    pub platforms: Vec<PlatformPattern>,
    pub events: Vec<EventSpec>,
}

/// One catalog row: the half-open version range `[from, to)` and its set.
pub struct CatalogEntry {
    pub from: Version,
    pub to: Version,
    pub set: PatternSet,
}

/// Ranges are nonempty and strictly ordered, so they never overlap.
pub open spec fn catalog_wf(c: Seq<CatalogEntry>) -> bool {
    &&& forall|i: int| 0 <= i < c.len() ==> version_lt((#[trigger] c[i]).from, c[i].to)
    &&& forall|i: int|
        0 <= i && i + 1 < c.len() ==> version_le((#[trigger] c[i]).to, c[i + 1].from)
}

/// No version lies in two ranges of a well-formed catalog.
#[verifier::rlimit(50)]
pub proof fn lemma_catalog_ranges_disjoint(c: Seq<CatalogEntry>, i: int, j: int, v: Version)
    requires
        catalog_wf(c),
        0 <= i < c.len(),
        0 <= j < c.len(),
        range_contains(c[i].from, c[i].to, v),
        range_contains(c[j].from, c[j].to, v),
    ensures
        i == j,
{
    if i < j {
        lemma_disjoint_ordered(c, i, j, v);
    } else if j < i {
        lemma_disjoint_ordered(c, j, i, v);
    }
}

/// A version inside an earlier range lies outside every later one.
#[verifier::rlimit(50)]
proof fn lemma_disjoint_ordered(c: Seq<CatalogEntry>, i: int, j: int, v: Version)
    requires
        catalog_wf(c),
        0 <= i < j < c.len(),
        range_contains(c[i].from, c[i].to, v),
    ensures
        !range_contains(c[j].from, c[j].to, v),
{
    if range_contains(c[j].from, c[j].to, v) {
        lemma_catalog_to_from(c, i + 1, j);
        assert(version_le(c[i].to, c[i + 1].from));
        crate::version::lemma_version_order(c[i].to, c[i + 1].from, c[j].from);
        assert(version_le(c[i].to, c[j].from));
        crate::version::lemma_version_order(v, c[i].to, c[j].from);
        assert(version_le(v, c[j].from));
        assert(version_le(c[j].from, v));
        crate::version::lemma_version_order(v, c[j].from, v);
        assert(v == c[j].from);
        crate::version::lemma_version_order(v, c[i].to, v);
        assert(v == c[i].to);
    }
}

proof fn lemma_catalog_to_from(c: Seq<CatalogEntry>, a: int, b: int)
    requires
        catalog_wf(c),
        0 <= a <= b < c.len(),
    ensures
        version_le(c[a].from, c[b].from),
    decreases b - a,
{
    if a < b {
        lemma_catalog_to_from(c, a + 1, b);
        crate::version::lemma_version_order(c[a].from, c[a].to, c[a + 1].from);
        crate::version::lemma_version_order(c[a].from, c[a + 1].from, c[b].from);
    }
}

/// The index of the one range that holds `v`, or the unsupported-version
/// error when none does.
pub fn patterns_for_version(catalog: &Vec<CatalogEntry>, v: &Version) -> (r: Result<
    usize,
    crate::Error,
>)
    ensures
        match r {
            Ok(i) => i < catalog@.len() && range_contains(
                catalog@[i as int].from,
                catalog@[i as int].to,
                *v,
            ),
            Err(e) => (e matches crate::Error::UnsupportedVersion(u) && u == v) && forall|i: int|
                0 <= i < catalog@.len() ==> !range_contains(
                    (#[trigger] catalog@[i]).from,
                    catalog@[i].to,
                    *v,
                ),
        },
{
    let mut i: usize = 0;
    while i < catalog.len()
        invariant
            i <= catalog@.len(),
            forall|k: int|
                0 <= k < i ==> !range_contains((#[trigger] catalog@[k]).from, catalog@[k].to, *v),
        decreases catalog@.len() - i,
    {
        let e = &catalog[i];
        if version_le_value(&e.from, v) && version_lt_value(v, &e.to) {
            return Ok(i);
        }
        i = i + 1;
    }
    Err(crate::Error::UnsupportedVersion(*v))
}

/// In a well-formed catalog, every covered version has exactly one set:
/// the lookup finds an index, and no other index contains the version.
pub proof fn lemma_patterns_for_version_unique(c: Seq<CatalogEntry>, i: int, v: Version)
    requires
        catalog_wf(c),
        0 <= i < c.len(),
        range_contains(c[i].from, c[i].to, v),
    ensures
        forall|j: int|
            0 <= j < c.len() && range_contains((#[trigger] c[j]).from, c[j].to, v) ==> j == i,
{
    assert forall|j: int|
        0 <= j < c.len() && range_contains((#[trigger] c[j]).from, c[j].to, v) implies j == i by {
        lemma_catalog_ranges_disjoint(c, i, j, v);
    }
}

// ---------------------------------------------------------------------------
// event names and the event-type table
// ---------------------------------------------------------------------------

/// The upper-case form of one ASCII letter; anything else stands as is.
pub open spec fn ascii_upper(c: char) -> char {
    if 'a' <= c && c <= 'z' {
        ((c as u32 - 32) as u8) as char
    } else {
        c
    }
}

fn ascii_upper_of(c: char) -> (r: char)
    ensures
        r == ascii_upper(c),
{
    if 'a' <= c && c <= 'z' {
        let code = (c as u32) - 32;
        (code as u8) as char
    } else {
        c
    }
}

/// A snake-case key as a display name: underscores dropped, each word's
/// first letter upper-cased.
pub open spec fn pascal_of(s: Seq<char>, word_start: bool) -> Seq<char>
    decreases s.len(),
{
    if s.len() == 0 {
        Seq::empty()
    } else if s[0] == '_' {
        pascal_of(s.drop_first(), true)
    } else if word_start {
        seq![ascii_upper(s[0])] + pascal_of(s.drop_first(), false)
    } else {
        seq![s[0]] + pascal_of(s.drop_first(), false)
    }
}

pub fn pascal_name(s: &str) -> (r: Vec<char>)
    ensures
        r@ == pascal_of(s@, true),
{
    let chars = crate::text::chars_of(s);
    let mut out: Vec<char> = Vec::new();
    let mut word_start = true;
    let mut i: usize = 0;
    proof {
        assert(s@.skip(0) =~= s@);
    }
    while i < chars.len()
        invariant
            i <= chars@.len(),
            chars@ == s@,
            pascal_of(s@, true) == out@ + pascal_of(s@.skip(i as int), word_start),
        decreases chars@.len() - i,
    {
        let ghost pre = s@.skip(i as int);
        proof {
            assert(pre.drop_first() =~= s@.skip(i + 1));
        }
        let c = chars[i];
        assert(pre[0] == c);
        if c == '_' {
            word_start = true;
        } else if word_start {
            out.push(ascii_upper_of(c));
            word_start = false;
        } else {
            out.push(c);
            word_start = false;
        }
        i = i + 1;
    }
    proof {
        assert(s@.skip(s@.len() as int) =~= Seq::<char>::empty());
        assert(out@ + Seq::<char>::empty() =~= out@);
    }
    out
}

/// A name table extended by one name: a fresh one goes at the end; a
/// known one changes nothing.
pub open spec fn names_after(acc: Seq<Seq<char>>, name: Seq<char>) -> Seq<Seq<char>> {
    if acc.contains(name) {
        acc
    } else {
        acc.push(name)
    }
}

/// The display names after walking the first `e` catalog rows whole plus
/// the first `k` events of row `e`, each distinct name kept once at its
/// first occurrence.
pub open spec fn event_names_upto(catalog: Seq<CatalogEntry>, e: int, k: int) -> Seq<Seq<char>>
    decreases e, k,
{
    if e < 0 || k < 0 {
        Seq::empty()
    } else if k == 0 {
        if e == 0 {
            Seq::empty()
        } else {
            event_names_upto(catalog, e - 1, catalog[e - 1].set.events@.len() as int)
        }
    } else {
        names_after(
            event_names_upto(catalog, e, k - 1),
            pascal_of(catalog[e].set.events@[k - 1].key@, true),
        )
    }
}

/// The full event-name table a catalog yields: every event key's display
/// name, in declaration order across the catalog, first occurrence only.
pub open spec fn spec_event_names(catalog: Seq<CatalogEntry>) -> Seq<Seq<char>> {
    event_names_upto(catalog, catalog.len() as int, 0)
}

/// The event-type table: each distinct display name once, in declaration
/// order across the whole catalog; an event type's id is its index here.
pub fn event_type_names(catalog: &Vec<CatalogEntry>) -> (r: Vec<String>)
    ensures
        r@.map(|i: int, s: String| s@) == spec_event_names(catalog@),
        forall|i: int, j: int| 0 <= i < j < r@.len() ==> (#[trigger] r@[i])@ != (#[trigger] r@[j])@,
{
    let mut names: Vec<String> = Vec::new();
    let mut e: usize = 0;
    proof {
        assert(names@.map(|i: int, s: String| s@) =~= Seq::<Seq<char>>::empty());
    }
    while e < catalog.len()
        invariant
            e <= catalog@.len(),
            names@.map(|i: int, s: String| s@) == event_names_upto(catalog@, e as int, 0),
            forall|i: int, j: int|
                0 <= i < j < names@.len() ==> (#[trigger] names@[i])@ != (#[trigger] names@[j])@,
        decreases catalog@.len() - e,
    {
        let set = &catalog[e].set;
        let mut k: usize = 0;
        while k < set.events.len()
            invariant
                e < catalog@.len(),
                k <= set.events@.len(),
                set == &catalog@[e as int].set,
                names@.map(|i: int, s: String| s@) == event_names_upto(catalog@, e as int, k as int),
                forall|i: int, j: int|
                    0 <= i < j < names@.len() ==> (#[trigger] names@[i])@ != (#[trigger] names@[j])@,
            decreases set.events@.len() - k,
        {
            let ghost acc = names@.map(|i: int, s: String| s@);
            let name = crate::text::string_from_chars(&pascal_name(set.events[k].key));
            if !contains_name(&names, &name) {
                proof {
                    // absent from the table means absent from its view
                    assert(!acc.contains(name@)) by {
                        if acc.contains(name@) {
                            let w = choose|w: int| 0 <= w < acc.len() && acc[w] == name@;
                            assert(names@[w]@ == name@);
                        }
                    }
                }
                names.push(name);
                proof {
                    assert(names@.map(|i: int, s: String| s@) =~= acc.push(name@));
                }
            } else {
                proof {
                    let w = choose|w: int|
                        0 <= w < names@.len() && (#[trigger] names@[w])@ == name@;
                    assert(acc[w] == name@);
                    assert(acc.contains(name@));
                }
            }
            proof {
                assert(names@.map(|i: int, s: String| s@) =~= names_after(acc, name@));
            }
            k = k + 1;
        }
        e = e + 1;
        proof {
            assert(event_names_upto(catalog@, e as int, 0) == event_names_upto(
                catalog@,
                e - 1,
                catalog@[e - 1].set.events@.len() as int,
            ));
        }
    }
    names
}

/// The id of a display name in the table, when it is there.
pub fn name_id(names: &Vec<String>, name: &Vec<char>) -> (r: Option<usize>)
    ensures
        match r {
            Some(i) => i < names@.len() && names@[i as int]@ == name@,
            None => forall|i: int| 0 <= i < names@.len() ==> (#[trigger] names@[i])@ != name@,
        },
{
    let mut i: usize = 0;
    while i < names.len()
        invariant
            i <= names@.len(),
            forall|k: int| 0 <= k < i ==> (#[trigger] names@[k])@ != name@,
        decreases names@.len() - i,
    {
        if crate::text::chars_eq_str(name, names[i].as_str()) {
            return Some(i);
        }
        i = i + 1;
    }
    None
}

fn contains_name(names: &Vec<String>, name: &String) -> (r: bool)
    ensures
        r == exists|i: int| 0 <= i < names@.len() && (#[trigger] names@[i])@ == name@,
{
    let chars = crate::text::chars_of(name.as_str());
    let mut i: usize = 0;
    while i < names.len()
        invariant
            i <= names@.len(),
            chars@ == name@,
            forall|k: int| 0 <= k < i ==> (#[trigger] names@[k])@ != name@,
        decreases names@.len() - i,
    {
        if crate::text::chars_eq_str(&chars, names[i].as_str()) {
            return true;
        }
        i = i + 1;
    }
    false
}

// ---------------------------------------------------------------------------
// the built-in catalog
// ---------------------------------------------------------------------------

/// Whether the catalog's ranges are nonempty and strictly ordered.
pub fn check_catalog(c: &Vec<CatalogEntry>) -> (r: bool)
    ensures
        r == catalog_wf(c@),
{
    let mut i: usize = 0;
    while i < c.len()
        invariant
            i <= c@.len(),
            forall|k: int| 0 <= k < i ==> version_lt((#[trigger] c@[k]).from, c@[k].to),
            forall|k: int|
                0 <= k < i ==> (k + 1 < c@.len() ==> version_le(
                    (#[trigger] c@[k]).to,
                    c@[k + 1].from,
                )),
        decreases c@.len() - i,
    {
        if !version_lt_value(&c[i].from, &c[i].to) {
            return false;
        }
        if i + 1 < c.len() && !version_le_value(&c[i].to, &c[i + 1].from) {
            return false;
        }
        i = i + 1;
    }
    true
}

fn text_capture(name: &'static str) -> (&'static str, CaptureType) {
    (name, CaptureType::Text)
}

fn event(key: &'static str, regex: &'static str, captures: Vec<(&'static str, CaptureType)>) -> (r:
    EventSpec)
{
    EventSpec { key, regex, captures, ignore: false }
}

fn ignored_event(key: &'static str, regex: &'static str) -> (r: EventSpec) {
    EventSpec { key, regex, captures: Vec::new(), ignore: true }
}

fn shared_events(full: bool) -> Vec<EventSpec> {
    let mut events: Vec<EventSpec> = Vec::new();
    events.push(ignored_event("housekeeper_monitor", "Housekeeping: scheduling"));
    let mut caps: Vec<(&'static str, CaptureType)> = Vec::new();
    caps.push(text_capture("doc_id"));
    caps.push(text_capture("rev_id"));
    caps.push(("sequence", CaptureType::Int));
    events.push(event("db_saved_rev", "Saved '(?<doc_id>[^']+)' rev #(?<rev_id>\\S+) as seq (?<sequence>\\d+)", caps));
    let mut caps: Vec<(&'static str, CaptureType)> = Vec::new();
    caps.push(text_capture("doc_id"));
    caps.push(text_capture("rev_id"));
    events.push(event("incomingrev_received", "Received revision '(?<doc_id>[^']+)' #(?<rev_id>\\S+) \\(seq", caps));
    let mut caps: Vec<(&'static str, CaptureType)> = Vec::new();
    caps.push(("handled", CaptureType::Int));
    caps.push(("pending", CaptureType::OptionalInt));
    events.push(event("puller_handled_revs", "(?<handled>\\d+) revs were provisionally handled(; down to (?<pending>\\d+) active)?", caps));
    if full {
        let mut caps: Vec<(&'static str, CaptureType)> = Vec::new();
        caps.push(text_capture("correlation_id"));
        events.push(event("repl_received_correlation_id", "CorrID=(?<correlation_id>\\w+) Received X-Correlation-Id", caps));
        let mut caps: Vec<(&'static str, CaptureType)> = Vec::new();
        caps.push(("name", CaptureType::Text));
        caps.push(("flags", CaptureType::HexInt));
        events.push(event("db_open", "Opening database (?<name>\\S+), flags=(?<flags>[0-9a-fA-F]+)", caps));
        let mut caps: Vec<(&'static str, CaptureType)> = Vec::new();
        caps.push(("num_conflicts", CaptureType::Int));
        caps.push(("collection", CaptureType::OptionalText));
        events.push(event("repl_conflict_scan", "Found (?<num_conflicts>\\d+) conflicted docs in (?<collection>\\S*)", caps));
        let mut caps: Vec<(&'static str, CaptureType)> = Vec::new();
        caps.push(text_capture("doc_id"));
        caps.push(text_capture("rev_id"));
        events.push(event("pusher_skip_obsolete", "Revision '(?<doc_id>[^']+)' #(?<rev_id>\\S+) is obsolete", caps));
        let mut caps: Vec<(&'static str, CaptureType)> = Vec::new();
        caps.push(text_capture("doc_id"));
        caps.push(text_capture("rev_id"));
        caps.push(text_capture("ancestor"));
        events.push(event("pusher_proposed_conflict", "Proposed rev '(?<doc_id>[^']+)' #(?<rev_id>\\S+) \\(ancestor #(?<ancestor>[^)]+)\\) conflicts with server revision", caps));
        let mut caps: Vec<(&'static str, CaptureType)> = Vec::new();
        caps.push(text_capture("doc_id"));
        caps.push(text_capture("rev_id"));
        events.push(event("pusher_rev_conflict", "Rev '(?<doc_id>[^']+)' #(?<rev_id>\\S+) conflicts with newer server revision", caps));
        let mut caps: Vec<(&'static str, CaptureType)> = Vec::new();
        caps.push(text_capture("doc_id"));
        caps.push(text_capture("rev_id"));
        caps.push(text_capture("ancestor"));
        events.push(event("pusher_proposed_invalid_ancestor", "Proposed rev '(?<doc_id>[^']+)' #(?<rev_id>\\S+) has invalid ancestor (?<ancestor>\\S+)", caps));
        let mut caps: Vec<(&'static str, CaptureType)> = Vec::new();
        caps.push(text_capture("doc_id"));
        caps.push(text_capture("rev_id"));
        caps.push(("sequence", CaptureType::Int));
        caps.push(("status", CaptureType::Int));
        events.push(event("pusher_got_error_response", "Got error response to rev '(?<doc_id>[^']+)' #(?<rev_id>\\S+) \\(seq #(?<sequence>\\d+)\\): HTTP (?<status>\\d+)", caps));
        let mut caps: Vec<(&'static str, CaptureType)> = Vec::new();
        caps.push(text_capture("doc_id"));
        caps.push(text_capture("rev_id"));
        caps.push(text_capture("error"));
        events.push(event("pusher_read_failed", "sendRevision: Couldn't get rev '(?<doc_id>[^']+)' (?<rev_id>\\S+) from db: (?<error>.*)", caps));
        let mut caps: Vec<(&'static str, CaptureType)> = Vec::new();
        caps.push(("bytes", CaptureType::Int));
        caps.push(("writeable", CaptureType::Bool));
        events.push(event("blip_ws_write_end", "Finished writing (?<bytes>\\d+) bytes \\(writeable=(?<writeable>\\d)\\)", caps));
    }
    events
}

/// The built-in catalog, checked well-formed: one pattern set for the
/// wall-clock-timestamp log family, one for the full-timestamp family.
pub fn default_catalog() -> (r: Option<Vec<CatalogEntry>>)
    ensures
        r is Some,
        r matches Some(c) ==> {
            &&& catalog_wf(c@)
            &&& c@.len() == 2
            &&& c@[0].from == (Version { major: 3, minor: 1, patch: 0 })
            &&& c@[0].to == (Version { major: 3, minor: 2, patch: 0 })
            &&& c@[1].from == (Version { major: 3, minor: 2, patch: 0 })
            &&& c@[1].to == (Version { major: 3, minor: 3, patch: 0 })
            &&& c@[0].set.platforms@.len() == 1
            &&& !c@[0].set.platforms@[0].full_timestamp
            &&& c@[0].set.platforms@[0].level_regex is None
            &&& c@[1].set.platforms@.len() == 1
            &&& c@[1].set.platforms@[0].full_timestamp
            &&& c@[1].set.platforms@[0].level_regex is Some
        },
{
    let version_regex = "CouchbaseLite[^/ ]*/(?<ver>\\d+\\.\\d+(\\.\\d+)?)";
    let object_regex = "Obj=(?<obj>\\S*[^\\s/])";
    let domain_regex = "^\\S+ (?<domain>DB|Sync|Query|BLIP|WS|Actor|Changes|Listener|TLS|Zip)\\b";

    let mut formats_partial: Vec<TimestampFormat> = Vec::new();
    formats_partial.push(TimestampFormat::ClockMicro);
    let partial_platform = PlatformPattern {
        version_regex,
        timestamp_regex: "^(?<ts>\\d{2}:\\d{2}:\\d{2}(\\.\\d+)?)",
        full_timestamp: false,
        timestamp_formats: formats_partial,
        domain_regex,
        level_regex: None,
        level_names: LevelNames {
            error: "error",
            warn: "warning",
            info: "info",
            verbose: "verbose",
            debug: "debug",
        },
    };
    let mut partial_platforms: Vec<PlatformPattern> = Vec::new();
    partial_platforms.push(partial_platform);
    let partial_set = PatternSet {
        object_regex,
        platforms: partial_platforms,
        events: shared_events(false),
    };

    let mut formats_full: Vec<TimestampFormat> = Vec::new();
    formats_full.push(TimestampFormat::IsoMicroT);
    formats_full.push(TimestampFormat::IsoMicroSpace);
    let full_platform = PlatformPattern {
        version_regex,
        timestamp_regex: "^(?<ts>\\d{4}-\\d{2}-\\d{2}[T ]\\d{2}:\\d{2}:\\d{2}(\\.\\d+)?)",
        full_timestamp: true,
        timestamp_formats: formats_full,
        domain_regex,
        level_regex: Some("^\\S+ \\w+ (?<level>\\w+)"),
        level_names: LevelNames {
            error: "Error",
            warn: "Warning",
            info: "Info",
            verbose: "Verbose",
            debug: "Debug",
        },
    };
    let mut full_platforms: Vec<PlatformPattern> = Vec::new();
    full_platforms.push(full_platform);
    let full_set = PatternSet {
        object_regex,
        platforms: full_platforms,
        events: shared_events(true),
    };

    let mut catalog: Vec<CatalogEntry> = Vec::new();
    catalog.push(
        CatalogEntry {
            from: Version { major: 3, minor: 1, patch: 0 },
            to: Version { major: 3, minor: 2, patch: 0 },
            set: partial_set,
        },
    );
    catalog.push(
        CatalogEntry {
            from: Version { major: 3, minor: 2, patch: 0 },
            to: Version { major: 3, minor: 3, patch: 0 },
            set: full_set,
        },
    );
    if check_catalog(&catalog) {
        Some(catalog)
    } else {
        None
    }
}

} // verus!
