//! The line parser: one log line in, one typed line out.
//!
//! A line yields its domain, an optional object path, a timestamp, a level
//! and an event. Event probing walks the declared events in order; a
//! matching event with captures serializes them as a JSON object whose
//! field order is the declared capture order.
use vstd::prelude::*;

use crate::Error;
use crate::catalog::{
    CaptureType, CatalogEntry, LevelNames, PatternSet, PlatformPattern, TimestampFormat,
    pascal_name, name_id, pascal_of,
};
use crate::datetime::{
    DateTime, TimeOfDay, spec_parse_datetime, spec_parse_time_at, parse_datetime, parse_time_at,
};
use crate::json::{json_string, push_json_string};
use crate::level::Level;
use crate::patterns::{Pattern, regex_group, regex_matched};
use crate::text::{
    all_dec_digits, chars_of, dec_int, dec_value, parse_dec_i64, parse_hex_i64, parse_i64,
    parse_hex, render_i64, string_from_chars,
};
use crate::version::find_char;

verus! {

/// A line's timestamp: wall-clock only, or a full date and time.
pub enum Timestamp {
    Partial(TimeOfDay),
    Full(DateTime),
}

/// One event of a pattern set, compiled: its table id, its regex, its
/// captures in declared order, and the ignore mark.
pub struct CompiledEvent {
    pub id: u32,
    pub re: Pattern,
    pub captures: Vec<(&'static str, CaptureType)>,
    pub ignore: bool,
}

/// The live form of one platform's patterns, compiled once per file.
pub struct PlatformRuntime {
    pub version: Pattern,
    pub timestamp: Pattern,
    pub full_timestamp: bool,
    pub timestamp_formats: Vec<TimestampFormat>,
    pub domain: Pattern,
    pub level: Option<Pattern>,
    pub level_names: LevelNames,
    pub object: Pattern,
    pub jni: Pattern,
    pub events: Vec<CompiledEvent>,
}

/// A recognized event: its table id and its JSON data, when it has captures.
pub struct Event {
    pub event_type: u32,
    pub data: Option<String>,
}

/// One parsed line, as the store will hold it.
pub struct Line {
    pub file_id: u32,
    pub line_num: u32,
    pub level: Level,
    pub timestamp: DateTime,
    pub domain: String,
    pub event_type: u32,
    pub event_data: Option<String>,
    pub object_path: Option<String>,
}

/// The mangled-object form a JNI runtime logs; its inner class name is the
/// object path.
pub open spec fn jni_pattern_text() -> Seq<char> {
    "N\\d+litecore\\d+(\\w+\\d)?(?<object>\\w+)E"@
}

// ---------------------------------------------------------------------------
// domain and object
// ---------------------------------------------------------------------------

pub open spec fn spec_parse_domain(domain_src: Seq<char>, line: Seq<char>) -> Option<Seq<char>> {
    regex_group(domain_src, line, "domain"@)
}

/// The `domain` capture of the domain regex; a line without one is not a
/// log statement.
pub fn parse_domain(rt: &PlatformRuntime, line: &str) -> (r: Result<String, Error>)
    ensures
        match r {
            Ok(s) => spec_parse_domain(rt.domain.src(), line@) == Some(s@),
            Err(e) => e is NoDomain && spec_parse_domain(rt.domain.src(), line@) is None,
        },
{
    match rt.domain.group(line, "domain") {
        Some(s) => Ok(s),
        None => Err(Error::NoDomain),
    }
}

/// The object path: the `obj` capture when the object regex matches, with
/// a JNI-mangled capture replaced by its inner class name. No match is
/// silent: the path stays empty.
pub open spec fn spec_parse_object(object_src: Seq<char>, line: Seq<char>) -> Option<Seq<char>> {
    match regex_group(object_src, line, "obj"@) {
        None => None,
        Some(o) => match regex_group(jni_pattern_text(), o, "object"@) {
            Some(inner) => Some(inner),
            None => Some(o),
        },
    }
}

pub fn parse_object(rt: &PlatformRuntime, line: &str) -> (r: Option<String>)
    requires
        rt.jni.src() == jni_pattern_text(),
    ensures
        match r {
            Some(s) => spec_parse_object(rt.object.src(), line@) == Some(s@),
            None => spec_parse_object(rt.object.src(), line@) is None,
        },
{
    match rt.object.group(line, "obj") {
        None => None,
        Some(o) => match rt.jni.group(o.as_str(), "object") {
            Some(inner) => Some(inner),
            None => Some(o),
        },
    }
}

// ---------------------------------------------------------------------------
// timestamps
// ---------------------------------------------------------------------------

/// Try the declared formats in order; the first that parses wins. A full
/// timestamp platform takes absolute formats; a partial one, clock formats.
pub open spec fn spec_try_formats(ts: Seq<char>, full: bool, fmts: Seq<TimestampFormat>) -> Option<
    Timestamp,
>
    decreases fmts.len(),
{
    if fmts.len() == 0 {
        None
    } else {
        let attempt: Option<Timestamp> = match fmts[0] {
            TimestampFormat::IsoMicroT => if full {
                match spec_parse_datetime(ts, 'T') {
                    Some(dt) => Some(Timestamp::Full(dt)),
                    None => None,
                }
            } else {
                None
            },
            TimestampFormat::IsoMicroSpace => if full {
                match spec_parse_datetime(ts, ' ') {
                    Some(dt) => Some(Timestamp::Full(dt)),
                    None => None,
                }
            } else {
                None
            },
            TimestampFormat::ClockMicro => if !full {
                match spec_parse_time_at(ts, 0) {
                    Some(t) => Some(Timestamp::Partial(t)),
                    None => None,
                }
            } else {
                None
            },
        };
        if attempt is Some {
            attempt
        } else {
            spec_try_formats(ts, full, fmts.drop_first())
        }
    }
}

fn try_formats(ts: &Vec<char>, full: bool, fmts: &Vec<TimestampFormat>, from: usize) -> (r: Option<
    Timestamp,
>)
    requires
        from <= fmts@.len(),
    ensures
        r == spec_try_formats(ts@, full, fmts@.skip(from as int)),
    decreases fmts@.len() - from,
{
    proof {
        if from < fmts@.len() {
            assert(fmts@.skip(from as int).drop_first() =~= fmts@.skip(from + 1));
            assert(fmts@.skip(from as int)[0] == fmts@[from as int]);
        }
    }
    if from >= fmts.len() {
        return None;
    }
    let attempt: Option<Timestamp> = match fmts[from] {
        TimestampFormat::IsoMicroT => if full {
            match parse_datetime(ts, 'T') {
                Some(dt) => Some(Timestamp::Full(dt)),
                None => None,
            }
        } else {
            None
        },
        TimestampFormat::IsoMicroSpace => if full {
            match parse_datetime(ts, ' ') {
                Some(dt) => Some(Timestamp::Full(dt)),
                None => None,
            }
        } else {
            None
        },
        TimestampFormat::ClockMicro => if !full {
            match parse_time_at(ts, 0) {
                Some(t) => Some(Timestamp::Partial(t)),
                None => None,
            }
        } else {
            None
        },
    };
    match attempt {
        Some(t) => Some(t),
        None => try_formats(ts, full, fmts, from + 1),
    }
}

/// A parsed timestamp is well-formed.
pub proof fn lemma_try_formats_wf(ts: Seq<char>, full: bool, fmts: Seq<TimestampFormat>)
    ensures
        match spec_try_formats(ts, full, fmts) {
            Some(Timestamp::Full(dt)) => dt.wf() && full,
            Some(Timestamp::Partial(t)) => t.wf() && !full,
            None => true,
        },
    decreases fmts.len(),
{
    if fmts.len() > 0 {
        lemma_try_formats_wf(ts, full, fmts.drop_first());
        crate::datetime::lemma_parse_datetime_wf(ts, 'T');
        crate::datetime::lemma_parse_datetime_wf(ts, ' ');
        crate::datetime::lemma_parse_time_wf(ts, 0);
    }
}

/// The line's timestamp: the `ts` capture, read under the first declared
/// format that accepts it.
pub fn parse_timestamp(rt: &PlatformRuntime, line: &str) -> (r: Result<Timestamp, Error>)
    ensures
        match r {
            Ok(t) => regex_group(rt.timestamp.src(), line@, "ts"@) matches Some(ts)
                && spec_try_formats(ts, rt.full_timestamp, rt.timestamp_formats@) == Some(t),
            Err(e) => match e {
                Error::NoTimestamp(l) => l@ == line@ && match regex_group(
                    rt.timestamp.src(),
                    line@,
                    "ts"@,
                ) {
                    Some(ts) => spec_try_formats(ts, rt.full_timestamp, rt.timestamp_formats@)
                        is None,
                    None => !regex_matched(rt.timestamp.src(), line@),
                },
                Error::CannotParse(_) => regex_matched(rt.timestamp.src(), line@) && regex_group(
                    rt.timestamp.src(),
                    line@,
                    "ts"@,
                ) is None,
                _ => false,
            },
        },
{
    match rt.timestamp.group(line, "ts") {
        Some(ts) => {
            let chars = chars_of(ts.as_str());
            proof {
                assert(rt.timestamp_formats@.skip(0) =~= rt.timestamp_formats@);
            }
            match try_formats(&chars, rt.full_timestamp, &rt.timestamp_formats, 0) {
                Some(t) => Ok(t),
                None => Err(Error::NoTimestamp(line.to_owned())),
            }
        },
        None => {
            if rt.timestamp.is_match(line) {
                // the pattern matched but carries no `ts` capture: the
                // pattern specification itself is at fault
                Err(Error::CannotParse(String::from_str("Timestamp pattern has no ts capture")))
            } else {
                Err(Error::NoTimestamp(line.to_owned()))
            }
        },
    }
}

// ---------------------------------------------------------------------------
// levels
// ---------------------------------------------------------------------------

/// The line's level: the file's own level when it has one, else the
/// `level` capture mapped through the platform's vocabulary.
pub fn parse_level(rt: &PlatformRuntime, line: &str, file_level: Option<Level>) -> (r: Result<
    Level,
    Error,
>)
    ensures
        match r {
            Ok(l) => {
                ||| file_level == Some(l)
                ||| (file_level is None && (rt.level matches Some(p) && (regex_group(
                    p.src(),
                    line@,
                    "level"@,
                ) matches Some(t) && Level::spec_from(t, rt.level_names) == Some(l))))
            },
            Err(e) => file_level is None && match e {
                Error::CannotParse(_) => rt.level is None,
                Error::NoLevel => rt.level matches Some(p) && regex_group(
                    p.src(),
                    line@,
                    "level"@,
                ) is None,
                Error::NoSuchLevel(t) => rt.level matches Some(p) && regex_group(
                    p.src(),
                    line@,
                    "level"@,
                ) == Some(t@) && Level::spec_from(t@, rt.level_names) is None,
                _ => false,
            },
        },
{
    match file_level {
        Some(l) => Ok(l),
        None => match &rt.level {
            None => Err(
                Error::CannotParse(
                    String::from_str("File has no log level and the log format has no level pattern"),
                ),
            ),
            Some(p) => match p.group(line, "level") {
                None => Err(Error::NoLevel),
                Some(t) => Level::from_str(t.as_str(), &rt.level_names),
            },
        },
    }
}

// ---------------------------------------------------------------------------
// events and their JSON data
// ---------------------------------------------------------------------------

/// A number kept as written: an optional sign, digits, an optional
/// fraction. Anything else cannot stand in JSON unquoted.
pub open spec fn is_plain_number(s: Seq<char>) -> bool {
    let b: Seq<char> = if s.len() > 0 && s[0] == '-' {
        s.drop_first()
    } else {
        s
    };
    let d = find_char(b, '.', 0);
    if d == b.len() {
        b.len() > 0 && all_dec_digits(b)
    } else {
        &&& d > 0
        &&& d + 1 < b.len()
        &&& all_dec_digits(b.subrange(0, d))
        &&& all_dec_digits(b.subrange(d + 1, b.len() as int))
    }
}

fn plain_number(s: &Vec<char>) -> (r: bool)
    ensures
        r == is_plain_number(s@),
{
    let start: usize = if s.len() > 0 && s[0] == '-' {
        1
    } else {
        0
    };
    let ghost b = if s@.len() > 0 && s@[0] == '-' {
        s@.drop_first()
    } else {
        s@
    };
    proof {
        assert(b =~= s@.subrange(start as int, s@.len() as int));
    }
    let d = crate::version::find_char_at(s, '.', start);
    proof {
        crate::version::lemma_find_char(s@, '.', start as int);
        crate::version::lemma_find_char(b, '.', 0);
        // the dot position in the suffix mirrors the one in the whole
        assert(find_char(b, '.', 0) == d - start) by {
            if d < s@.len() {
                assert(b[d - start] == '.');
                assert(forall|k: int| 0 <= k < d - start ==> b[k] != '.');
                if find_char(b, '.', 0) < d - start {
                    assert(b[find_char(b, '.', 0)] == '.');
                }
            } else {
                assert(forall|k: int| 0 <= k < b.len() ==> b[k] != '.');
                if find_char(b, '.', 0) < b.len() {
                    assert(b[find_char(b, '.', 0)] == '.');
                }
            }
        }
    }
    if d == s.len() {
        if s.len() == start {
            assert(!is_plain_number(s@));
            return false;
        }
        let r = all_digits_range(s, start, s.len());
        assert(b =~= s@.subrange(start as int, s@.len() as int));
        r
    } else {
        if d == start || d + 1 >= s.len() {
            return false;
        }
        let intpart = all_digits_range(s, start, d);
        let frac = all_digits_range(s, d + 1, s.len());
        proof {
            assert(b.subrange(0, d - start) =~= s@.subrange(start as int, d as int));
            assert(b.subrange(d - start + 1, b.len() as int) =~= s@.subrange(
                d + 1,
                s@.len() as int,
            ));
        }
        intpart && frac
    }
}

fn all_digits_range(s: &Vec<char>, from: usize, to: usize) -> (r: bool)
    requires
        from <= to <= s@.len(),
    ensures
        r == all_dec_digits(s@.subrange(from as int, to as int)),
{
    let ghost whole = s@.subrange(from as int, to as int);
    let mut i: usize = from;
    while i < to
        invariant
            from <= i <= to <= s@.len(),
            whole == s@.subrange(from as int, to as int),
            forall|k: int| 0 <= k < i - from ==> crate::text::is_dec_digit(#[trigger] whole[k]),
        decreases to - i,
    {
        if !crate::text::dec_digit(s[i]) {
            assert(whole[i - from] == s@[i as int]);
            return false;
        }
        assert(whole[i - from] == s@[i as int]);
        i = i + 1;
    }
    true
}

/// The JSON fragment one capture contributes, by its type; nothing is a
/// hard error for the event.
pub open spec fn spec_capture_json(ty: CaptureType, g: Option<Seq<char>>) -> Option<Seq<char>> {
    match ty {
        CaptureType::Bool => match g {
            Some(s) => match parse_dec_i64(s) {
                Some(v) => Some(if v != 0 { "true"@ } else { "false"@ }),
                None => None,
            },
            None => None,
        },
        CaptureType::Char => match g {
            Some(s) => if s.len() == 1 {
                Some(json_string(s))
            } else {
                None
            },
            None => None,
        },
        CaptureType::Int => match g {
            Some(s) => match parse_dec_i64(s) {
                Some(v) => Some(dec_int(v as int)),
                None => None,
            },
            None => None,
        },
        CaptureType::HexInt => match g {
            Some(s) => match parse_hex_i64(s) {
                Some(v) => Some(dec_int(v as int)),
                None => None,
            },
            None => None,
        },
        CaptureType::Float => match g {
            Some(s) => if is_plain_number(s) {
                Some(s)
            } else {
                None
            },
            None => None,
        },
        CaptureType::Text => match g {
            Some(s) => Some(json_string(s)),
            None => None,
        },
        CaptureType::OptionalInt => match g {
            Some(s) => match parse_dec_i64(s) {
                Some(v) => Some(dec_int(v as int)),
                None => None,
            },
            None => Some("null"@),
        },
        CaptureType::OptionalText => match g {
            Some(s) => if s.len() > 0 {
                Some(json_string(s))
            } else {
                Some("null"@)
            },
            None => Some("null"@),
        },
        CaptureType::DefaultedInt(d) => match g {
            Some(s) => match parse_dec_i64(s) {
                Some(v) => Some(dec_int(v as int)),
                None => Some(dec_int(d as int)),
            },
            None => Some(dec_int(d as int)),
        },
        CaptureType::DefaultedFloat(d) => match g {
            Some(s) => if is_plain_number(s) {
                Some(s)
            } else {
                Some(d@)
            },
            None => Some(d@),
        },
        CaptureType::DefaultedText(d) => match g {
            Some(s) => Some(json_string(s)),
            None => Some(json_string(d@)),
        },
    }
}

fn capture_json(ty: &CaptureType, g: Option<String>) -> (r: Option<Vec<char>>)
    ensures
        match r {
            Some(v) => spec_capture_json(*ty, spec_opt_view(g)) == Some(v@),
            None => spec_capture_json(*ty, spec_opt_view(g)) is None,
        },
{
    match ty {
        CaptureType::Bool => match g {
            Some(s) => {
                let chars = chars_of(s.as_str());
                match parse_i64(&chars) {
                    Some(v) => {
                        if v != 0 {
                            proof {
                                reveal_strlit("true");
                            }
                            Some(chars_of("true"))
                        } else {
                            proof {
                                reveal_strlit("false");
                            }
                            Some(chars_of("false"))
                        }
                    },
                    None => None,
                }
            },
            None => None,
        },
        CaptureType::Char => match g {
            Some(s) => {
                let chars = chars_of(s.as_str());
                if chars.len() == 1 {
                    let mut out: Vec<char> = Vec::new();
                    push_json_string(&mut out, &chars);
                    assert(out@ =~= json_string(s@));
                    Some(out)
                } else {
                    None
                }
            },
            None => None,
        },
        CaptureType::Int => match g {
            Some(s) => {
                let chars = chars_of(s.as_str());
                match parse_i64(&chars) {
                    Some(v) => Some(render_i64(v)),
                    None => None,
                }
            },
            None => None,
        },
        CaptureType::HexInt => match g {
            Some(s) => {
                let chars = chars_of(s.as_str());
                match parse_hex(&chars) {
                    Some(v) => Some(render_i64(v)),
                    None => None,
                }
            },
            None => None,
        },
        CaptureType::Float => match g {
            Some(s) => {
                let chars = chars_of(s.as_str());
                if plain_number(&chars) {
                    Some(chars)
                } else {
                    None
                }
            },
            None => None,
        },
        CaptureType::Text => match g {
            Some(s) => {
                let chars = chars_of(s.as_str());
                let mut out: Vec<char> = Vec::new();
                push_json_string(&mut out, &chars);
                assert(out@ =~= json_string(s@));
                Some(out)
            },
            None => None,
        },
        CaptureType::OptionalInt => match g {
            Some(s) => {
                let chars = chars_of(s.as_str());
                match parse_i64(&chars) {
                    Some(v) => Some(render_i64(v)),
                    None => None,
                }
            },
            None => {
                proof {
                    reveal_strlit("null");
                }
                Some(chars_of("null"))
            },
        },
        CaptureType::OptionalText => match g {
            Some(s) => {
                let chars = chars_of(s.as_str());
                if chars.len() > 0 {
                    let mut out: Vec<char> = Vec::new();
                    push_json_string(&mut out, &chars);
                    assert(out@ =~= json_string(s@));
                    Some(out)
                } else {
                    proof {
                        reveal_strlit("null");
                    }
                    Some(chars_of("null"))
                }
            },
            None => {
                proof {
                    reveal_strlit("null");
                }
                Some(chars_of("null"))
            },
        },
        CaptureType::DefaultedInt(d) => match g {
            Some(s) => {
                let chars = chars_of(s.as_str());
                match parse_i64(&chars) {
                    Some(v) => Some(render_i64(v)),
                    None => Some(render_i64(*d)),
                }
            },
            None => Some(render_i64(*d)),
        },
        CaptureType::DefaultedFloat(d) => match g {
            Some(s) => {
                let chars = chars_of(s.as_str());
                if plain_number(&chars) {
                    Some(chars)
                } else {
                    Some(chars_of(d))
                }
            },
            None => Some(chars_of(d)),
        },
        CaptureType::DefaultedText(d) => match g {
            Some(s) => {
                let chars = chars_of(s.as_str());
                let mut out: Vec<char> = Vec::new();
                push_json_string(&mut out, &chars);
                assert(out@ =~= json_string(s@));
                Some(out)
            },
            None => {
                let chars = chars_of(d);
                let mut out: Vec<char> = Vec::new();
                push_json_string(&mut out, &chars);
                assert(out@ =~= json_string(d@));
                Some(out)
            },
        },
    }
}

pub open spec fn spec_opt_view(g: Option<String>) -> Option<Seq<char>> {
    match g {
        Some(s) => Some(s@),
        None => None,
    }
}

/// The body of the JSON object: `"name":value` fragments joined by commas,
/// in declared capture order. Nothing if any capture is a hard error.
pub open spec fn spec_fields_json(
    re_src: Seq<char>,
    line: Seq<char>,
    caps: Seq<(&'static str, CaptureType)>,
) -> Option<Seq<char>>
    decreases caps.len(),
{
    if caps.len() == 0 {
        Some(Seq::empty())
    } else {
        let head = spec_capture_json(caps[0].1, regex_group(re_src, line, caps[0].0@));
        let rest = spec_fields_json(re_src, line, caps.drop_first());
        match (head, rest) {
            (Some(h), Some(r)) => {
                let field = json_string(caps[0].0@) + seq![':'] + h;
                if caps.len() == 1 {
                    Some(field)
                } else {
                    Some(field + seq![','] + r)
                }
            },
            _ => None,
        }
    }
}

/// The whole event data text: braces around the fields.
pub open spec fn spec_event_data(
    re_src: Seq<char>,
    line: Seq<char>,
    caps: Seq<(&'static str, CaptureType)>,
) -> Option<Seq<char>> {
    match spec_fields_json(re_src, line, caps) {
        Some(f) => Some(seq!['{'] + f + seq!['}']),
        None => None,
    }
}

fn fields_json(re: &Pattern, line: &str, caps: &Vec<(&'static str, CaptureType)>, from: usize) -> (r:
    Option<Vec<char>>)
    requires
        from <= caps@.len(),
    ensures
        match r {
            Some(v) => spec_fields_json(re.src(), line@, caps@.skip(from as int)) == Some(v@),
            None => spec_fields_json(re.src(), line@, caps@.skip(from as int)) is None,
        },
    decreases caps@.len() - from,
{
    proof {
        if from < caps@.len() {
            assert(caps@.skip(from as int).drop_first() =~= caps@.skip(from + 1));
            assert(caps@.skip(from as int)[0] == caps@[from as int]);
        }
    }
    if from >= caps.len() {
        let empty: Vec<char> = Vec::new();
        assert(empty@ =~= Seq::<char>::empty());
        return Some(empty);
    }
    let (name, ty) = &caps[from];
    let g = re.group(line, name);
    let head = match capture_json(ty, g) {
        Some(h) => h,
        None => {
            return None;
        },
    };
    let rest = match fields_json(re, line, caps, from + 1) {
        Some(r) => r,
        None => {
            return None;
        },
    };
    let name_chars = chars_of(name);
    let mut out: Vec<char> = Vec::new();
    push_json_string(&mut out, &name_chars);
    out.push(':');
    let mut h = head;
    out.append(&mut h);
    if from + 1 < caps.len() {
        out.push(',');
        let mut r = rest;
        out.append(&mut r);
        proof {
            assert(out@ =~= (json_string(name@) + seq![':']
                + spec_capture_json(caps@[from as int].1, regex_group(re.src(), line@, name@))->0)
                + seq![','] + spec_fields_json(re.src(), line@, caps@.skip(from + 1))->0);
        }
        Some(out)
    } else {
        proof {
            assert(caps@.skip(from as int).len() == 1);
            assert(out@ =~= json_string(name@) + seq![':'] + spec_capture_json(
                caps@[from as int].1,
                regex_group(re.src(), line@, name@),
            )->0);
        }
        Some(out)
    }
}

/// How the event table answers one line: a typed event, an ignored line,
/// a capture that would not convert, or no match at all.
pub enum EventOutcome {
    Matched(u32, Option<Seq<char>>),
    Ignored,
    BadCapture,
    Unknown,
}

/// Probe the declared events in order against one line.
pub open spec fn spec_parse_event(events: Seq<CompiledEvent>, line: Seq<char>) -> EventOutcome
    decreases events.len(),
{
    if events.len() == 0 {
        EventOutcome::Unknown
    } else {
        let ev = events[0];
        if regex_matched(ev.re.src(), line) {
            if ev.ignore {
                EventOutcome::Ignored
            } else if ev.captures.len() == 0 {
                EventOutcome::Matched(ev.id, None)
            } else {
                match spec_event_data(ev.re.src(), line, ev.captures@) {
                    Some(t) => EventOutcome::Matched(ev.id, Some(t)),
                    None => EventOutcome::BadCapture,
                }
            }
        } else {
            spec_parse_event(events.drop_first(), line)
        }
    }
}

fn parse_event_from(events: &Vec<CompiledEvent>, line: &str, from: usize) -> (r: Result<
    Event,
    Error,
>)
    requires
        from <= events@.len(),
    ensures
        match r {
            Ok(ev) => spec_parse_event(events@.skip(from as int), line@)
                == EventOutcome::Matched(ev.event_type, spec_opt_view(ev.data)),
            Err(e) => match e {
                Error::IgnoredEvent => spec_parse_event(events@.skip(from as int), line@)
                    is Ignored,
                Error::UnknownEvent => spec_parse_event(events@.skip(from as int), line@)
                    is Unknown,
                Error::CannotParse(_) => spec_parse_event(events@.skip(from as int), line@)
                    is BadCapture,
                _ => false,
            },
        },
    decreases events@.len() - from,
{
    proof {
        if from < events@.len() {
            assert(events@.skip(from as int).drop_first() =~= events@.skip(from + 1));
            assert(events@.skip(from as int)[0] == events@[from as int]);
        }
    }
    if from >= events.len() {
        return Err(Error::UnknownEvent);
    }
    let ev = &events[from];
    if ev.re.is_match(line) {
        if ev.ignore {
            Err(Error::IgnoredEvent)
        } else if ev.captures.len() == 0 {
            Ok(Event { event_type: ev.id, data: None })
        } else {
            match fields_json(&ev.re, line, &ev.captures, 0) {
                Some(f) => {
                    proof {
                        assert(ev.captures@.skip(0) =~= ev.captures@);
                    }
                    let mut out: Vec<char> = Vec::new();
                    out.push('{');
                    let mut body = f;
                    out.append(&mut body);
                    out.push('}');
                    proof {
                        assert(out@ =~= seq!['{'] + spec_fields_json(
                            ev.re.src(),
                            line@,
                            ev.captures@,
                        )->0 + seq!['}']);
                    }
                    let data = string_from_chars(&out);
                    Ok(Event { event_type: ev.id, data: Some(data) })
                },
                None => {
                    proof {
                        assert(ev.captures@.skip(0) =~= ev.captures@);
                    }
                    Err(Error::CannotParse(String::from_str("Event capture did not convert")))
                },
            }
        }
    } else {
        parse_event_from(events, line, from + 1)
    }
}

/// Probe the runtime's events, in declared order, against one line.
pub fn parse_event(rt: &PlatformRuntime, line: &str) -> (r: Result<Event, Error>)
    ensures
        match r {
            Ok(ev) => spec_parse_event(rt.events@, line@) == EventOutcome::Matched(
                ev.event_type,
                spec_opt_view(ev.data),
            ),
            Err(e) => match e {
                Error::IgnoredEvent => spec_parse_event(rt.events@, line@) is Ignored,
                Error::UnknownEvent => spec_parse_event(rt.events@, line@) is Unknown,
                Error::CannotParse(_) => spec_parse_event(rt.events@, line@) is BadCapture,
                _ => false,
            },
        },
{
    proof {
        assert(rt.events@.skip(0) =~= rt.events@);
    }
    parse_event_from(&rt.events, line, 0)
}

// ---------------------------------------------------------------------------
// compiling a platform's patterns, and parsing one whole line
// ---------------------------------------------------------------------------

fn copy_captures(caps: &Vec<(&'static str, CaptureType)>) -> (r: Vec<(&'static str, CaptureType)>)
    ensures
        r@ == caps@,
{
    let mut out: Vec<(&'static str, CaptureType)> = Vec::new();
    let mut i: usize = 0;
    while i < caps.len()
        invariant
            i <= caps@.len(),
            out@ =~= caps@.subrange(0, i as int),
        decreases caps@.len() - i,
    {
        let (n, t) = caps[i];
        out.push((n, t));
        assert(out@ =~= caps@.subrange(0, i + 1 as int));
        i = i + 1;
    }
    assert(out@ =~= caps@);
    out
}

fn copy_formats(fmts: &Vec<TimestampFormat>) -> (r: Vec<TimestampFormat>)
    ensures
        r@ == fmts@,
{
    let mut out: Vec<TimestampFormat> = Vec::new();
    let mut i: usize = 0;
    while i < fmts.len()
        invariant
            i <= fmts@.len(),
            out@ =~= fmts@.subrange(0, i as int),
        decreases fmts@.len() - i,
    {
        out.push(fmts[i]);
        assert(out@ =~= fmts@.subrange(0, i + 1 as int));
        i = i + 1;
    }
    assert(out@ =~= fmts@);
    out
}

fn bad_pattern() -> (e: Error)
    ensures
        e is CannotParse,
{
    Error::CannotParse(String::from_str("Invalid pattern specification"))
}

impl PlatformRuntime {
    /// Whether the runtime is the compiled form of the given declarations,
    /// with every event's id naming its display name in the table.
    pub open spec fn compiled_from(
        self,
        set: &PatternSet,
        platform: &PlatformPattern,
        names: Seq<String>,
    ) -> bool {
        &&& self.version.src() == platform.version_regex@
        &&& self.timestamp.src() == platform.timestamp_regex@
        &&& self.full_timestamp == platform.full_timestamp
        &&& self.timestamp_formats@ == platform.timestamp_formats@
        &&& self.domain.src() == platform.domain_regex@
        &&& match (self.level, platform.level_regex) {
            (Some(p), Some(s)) => p.src() == s@,
            (None, None) => true,
            _ => false,
        }
        &&& self.level_names == platform.level_names
        &&& self.object.src() == set.object_regex@
        &&& self.jni.src() == jni_pattern_text()
        &&& self.events@.len() == set.events@.len()
        &&& forall|i: int|
            0 <= i < self.events@.len() ==> {
                let ev = #[trigger] self.events@[i];
                &&& ev.re.src() == set.events@[i].regex@
                &&& ev.captures@ == set.events@[i].captures@
                &&& ev.ignore == set.events@[i].ignore
                &&& ev.id < names.len()
                &&& names[ev.id as int]@ == pascal_of(set.events@[i].key@, true)
            }
    }

    /// Whether an event key's display name stands in the table.
    pub open spec fn event_name_in_table(key: Seq<char>, names: Seq<String>) -> bool {
        exists|j: int| 0 <= j < names.len() && (#[trigger] names[j])@ == pascal_of(key, true)
    }

    /// Whether the declarations can compile at all: every pattern is a
    /// valid regular expression, every event's display name stands in the
    /// table, and the table is small enough for 32-bit ids.
    pub open spec fn spec_compile_ok(
        set: &PatternSet,
        platform: &PlatformPattern,
        names: Seq<String>,
    ) -> bool {
        &&& crate::patterns::regex_ok(platform.version_regex@)
        &&& crate::patterns::regex_ok(platform.timestamp_regex@)
        &&& crate::patterns::regex_ok(platform.domain_regex@)
        &&& match platform.level_regex {
            Some(s) => crate::patterns::regex_ok(s@),
            None => true,
        }
        &&& crate::patterns::regex_ok(set.object_regex@)
        &&& crate::patterns::regex_ok(jni_pattern_text())
        &&& names.len() < 0xffffffff
        &&& forall|i: int|
            0 <= i < set.events@.len() ==> crate::patterns::regex_ok(
                (#[trigger] set.events@[i]).regex@,
            )
        &&& forall|i: int|
            0 <= i < set.events@.len() ==> Self::event_name_in_table(
                (#[trigger] set.events@[i]).key@,
                names,
            )
    }

    /// Compile one platform of a pattern set. This fails exactly when a
    /// pattern does not compile, an event's name is missing from the
    /// table, or the table is too large: a fault of the pattern
    /// specification itself, never of a log line.
    pub fn compile(set: &PatternSet, platform: &PlatformPattern, names: &Vec<String>) -> (r: Result<
        PlatformRuntime,
        Error,
    >)
        ensures
            r is Ok <==> Self::spec_compile_ok(set, platform, names@),
            match r {
                Ok(rt) => rt.compiled_from(set, platform, names@),
                Err(e) => e is CannotParse,
            },
    {
        if names.len() >= 4294967295 {
            return Err(bad_pattern());
        }
        let version = match Pattern::compile(platform.version_regex) {
            Some(p) => p,
            None => {
                return Err(bad_pattern());
            },
        };
        let timestamp = match Pattern::compile(platform.timestamp_regex) {
            Some(p) => p,
            None => {
                return Err(bad_pattern());
            },
        };
        let domain = match Pattern::compile(platform.domain_regex) {
            Some(p) => p,
            None => {
                return Err(bad_pattern());
            },
        };
        let level = match platform.level_regex {
            Some(s) => match Pattern::compile(s) {
                Some(p) => Some(p),
                None => {
                    return Err(bad_pattern());
                },
            },
            None => None,
        };
        let object = match Pattern::compile(set.object_regex) {
            Some(p) => p,
            None => {
                return Err(bad_pattern());
            },
        };
        let jni = match Pattern::compile("N\\d+litecore\\d+(\\w+\\d)?(?<object>\\w+)E") {
            Some(p) => p,
            None => {
                return Err(bad_pattern());
            },
        };
        let mut events: Vec<CompiledEvent> = Vec::new();
        let mut i: usize = 0;
        while i < set.events.len()
            invariant
                i <= set.events@.len(),
                events@.len() == i,
                names@.len() < 0xffffffff,
                forall|k: int|
                    0 <= k < i ==> crate::patterns::regex_ok((#[trigger] set.events@[k]).regex@),
                forall|k: int|
                    0 <= k < i ==> {
                        let ev = #[trigger] events@[k];
                        &&& ev.re.src() == set.events@[k].regex@
                        &&& ev.captures@ == set.events@[k].captures@
                        &&& ev.ignore == set.events@[k].ignore
                        &&& ev.id < names@.len()
                        &&& names@[ev.id as int]@ == pascal_of(set.events@[k].key@, true)
                    },
            decreases set.events@.len() - i,
        {
            let spec = &set.events[i];
            let re = match Pattern::compile(spec.regex) {
                Some(p) => p,
                None => {
                    return Err(bad_pattern());
                },
            };
            let name = pascal_name(spec.key);
            let id = match name_id(names, &name) {
                Some(id) => id,
                None => {
                    proof {
                        assert(!Self::event_name_in_table(set.events@[i as int].key@, names@)) by {
                            if exists|j: int|
                                0 <= j < names@.len() && (#[trigger] names@[j])@ == pascal_of(
                                    set.events@[i as int].key@,
                                    true,
                                ) {
                                let j = choose|j: int|
                                    0 <= j < names@.len() && (#[trigger] names@[j])@ == pascal_of(
                                        set.events@[i as int].key@,
                                        true,
                                    );
                                assert(names@[j]@ != name@);
                            }
                        }
                    }
                    return Err(bad_pattern());
                },
            };
            events.push(
                CompiledEvent {
                    id: id as u32,
                    re,
                    captures: copy_captures(&spec.captures),
                    ignore: spec.ignore,
                },
            );
            i = i + 1;
        }
        proof {
            assert forall|k: int|
                0 <= k < set.events@.len() implies Self::event_name_in_table(
                (#[trigger] set.events@[k]).key@,
                names@,
            ) by {
                assert(names@[events@[k].id as int]@ == pascal_of(set.events@[k].key@, true));
            }
        }
        Ok(
            PlatformRuntime {
                version,
                timestamp,
                full_timestamp: platform.full_timestamp,
                timestamp_formats: copy_formats(&platform.timestamp_formats),
                domain,
                level,
                level_names: platform.level_names,
                object,
                jni,
                events,
            },
        )
    }
}


/// Whether the line yields a domain under the platform's patterns.
pub open spec fn spec_domain_ok(rt: PlatformRuntime, line: Seq<char>) -> bool {
    spec_parse_domain(rt.domain.src(), line) is Some
}

/// Whether the line yields a timestamp under the platform's formats.
pub open spec fn spec_timestamp_ok(rt: PlatformRuntime, line: Seq<char>) -> bool {
    regex_group(rt.timestamp.src(), line, "ts"@) matches Some(ts) && spec_try_formats(
        ts,
        rt.full_timestamp,
        rt.timestamp_formats@,
    ) is Some
}

/// The timestamp pattern matched but carries no `ts` capture: a fault of
/// the pattern specification itself, not of the line.
pub open spec fn spec_timestamp_pattern_broken(rt: PlatformRuntime, line: Seq<char>) -> bool {
    regex_matched(rt.timestamp.src(), line) && regex_group(rt.timestamp.src(), line, "ts"@) is None
}

/// Whether the line yields a level: the file's own, or its own capture
/// mapped through the platform's vocabulary.
pub open spec fn spec_level_ok(rt: PlatformRuntime, line: Seq<char>, file_level: Option<Level>) -> bool {
    ||| file_level is Some
    ||| (rt.level matches Some(p) && (regex_group(p.src(), line, "level"@) matches Some(t)
        && Level::spec_from(t, rt.level_names) is Some))
}

/// Parse one line: domain, object path, timestamp, level, event.
///
/// A partial timestamp is completed with the base date; a full one stands
/// alone. The level comes from the file when the file has one.
pub fn parse_line(
    rt: &PlatformRuntime,
    line: &str,
    line_num: u32,
    file_id: u32,
    file_level: Option<Level>,
    base_date: &DateTime,
) -> (r: Result<Line, Error>)
    requires
        rt.jni.src() == jni_pattern_text(),
        base_date.wf(),
    ensures
        match r {
            Ok(l) => {
                &&& l.file_id == file_id
                &&& l.line_num == line_num
                &&& l.timestamp.wf()
                &&& spec_parse_domain(rt.domain.src(), line@) == Some(l.domain@)
                &&& match l.object_path {
                    Some(o) => spec_parse_object(rt.object.src(), line@) == Some(o@),
                    None => spec_parse_object(rt.object.src(), line@) is None,
                }
                &&& (regex_group(rt.timestamp.src(), line@, "ts"@) matches Some(ts) && match
                    spec_try_formats(ts, rt.full_timestamp, rt.timestamp_formats@) {
                    Some(Timestamp::Full(dt)) => l.timestamp == dt,
                    Some(Timestamp::Partial(t)) => l.timestamp == (DateTime {
                        time: t,
                        ..*base_date
                    }),
                    None => false,
                })
                &&& (file_level == Some(l.level) || (file_level is None && (
                rt.level matches Some(p) && (regex_group(p.src(), line@, "level"@) matches Some(t)
                    && Level::spec_from(t, rt.level_names) == Some(l.level)))))
                &&& spec_parse_event(rt.events@, line@) == EventOutcome::Matched(
                    l.event_type,
                    spec_opt_view(l.event_data),
                )
            },
            Err(e) => match e {
                Error::NoDomain => !spec_domain_ok(*rt, line@),
                Error::NoTimestamp(l) => {
                    &&& spec_domain_ok(*rt, line@)
                    &&& l@ == line@
                    &&& !spec_timestamp_ok(*rt, line@)
                    &&& !spec_timestamp_pattern_broken(*rt, line@)
                },
                Error::CannotParse(_) => {
                    ||| (spec_domain_ok(*rt, line@) && spec_timestamp_pattern_broken(*rt, line@))
                    ||| (spec_domain_ok(*rt, line@) && spec_timestamp_ok(*rt, line@)
                        && file_level is None && rt.level is None)
                    ||| (spec_domain_ok(*rt, line@) && spec_timestamp_ok(*rt, line@)
                        && spec_level_ok(*rt, line@, file_level) && spec_parse_event(
                        rt.events@,
                        line@,
                    ) is BadCapture)
                },
                Error::NoLevel => {
                    &&& spec_domain_ok(*rt, line@)
                    &&& spec_timestamp_ok(*rt, line@)
                    &&& file_level is None
                    &&& rt.level matches Some(p) && regex_group(p.src(), line@, "level"@) is None
                },
                Error::NoSuchLevel(t) => {
                    &&& spec_domain_ok(*rt, line@)
                    &&& spec_timestamp_ok(*rt, line@)
                    &&& file_level is None
                    &&& rt.level matches Some(p) && (regex_group(p.src(), line@, "level"@)
                        == Some(t@) && Level::spec_from(t@, rt.level_names) is None)
                },
                Error::IgnoredEvent => {
                    &&& spec_domain_ok(*rt, line@)
                    &&& spec_timestamp_ok(*rt, line@)
                    &&& spec_level_ok(*rt, line@, file_level)
                    &&& spec_parse_event(rt.events@, line@) is Ignored
                },
                Error::UnknownEvent => {
                    &&& spec_domain_ok(*rt, line@)
                    &&& spec_timestamp_ok(*rt, line@)
                    &&& spec_level_ok(*rt, line@, file_level)
                    &&& spec_parse_event(rt.events@, line@) is Unknown
                },
                _ => false,
            },
        },
{
    let domain = match parse_domain(rt, line) {
        Ok(d) => d,
        Err(e) => {
            return Err(e);
        },
    };
    let object_path = parse_object(rt, line);
    let timestamp = match parse_timestamp(rt, line) {
        Ok(t) => t,
        Err(e) => {
            return Err(e);
        },
    };
    let timestamp = match timestamp {
        Timestamp::Full(dt) => dt,
        Timestamp::Partial(t) => {
            proof {
                crate::datetime::lemma_parse_time_wf(
                    regex_group(rt.timestamp.src(), line@, "ts"@)->0,
                    0,
                );
            }
            base_date.with_time(t)
        },
    };
    proof {
        lemma_try_formats_wf(
            regex_group(rt.timestamp.src(), line@, "ts"@)->0,
            rt.full_timestamp,
            rt.timestamp_formats@,
        );
    }
    let level = match parse_level(rt, line, file_level) {
        Ok(l) => l,
        Err(e) => {
            return Err(e);
        },
    };
    let event = match parse_event(rt, line) {
        Ok(ev) => ev,
        Err(e) => {
            return Err(e);
        },
    };
    Ok(
        Line {
            file_id,
            line_num,
            level,
            timestamp,
            domain,
            event_type: event.event_type,
            event_data: event.data,
            object_path,
        },
    )
}


// ---------------------------------------------------------------------------
// what the event data's shape guarantees
// ---------------------------------------------------------------------------

/// A JSON object body over parallel name and value lists, in order.
pub open spec fn object_fields_text(names: Seq<Seq<char>>, values: Seq<Seq<char>>) -> Seq<char>
    decreases names.len(),
{
    if names.len() == 0 {
        Seq::empty()
    } else {
        let field = json_string(names[0]) + seq![':'] + values[0];
        if names.len() == 1 {
            field
        } else {
            field + seq![','] + object_fields_text(names.drop_first(), values.drop_first())
        }
    }
}

/// Event data is a JSON object whose fields are exactly the declared
/// capture names, in declared order, each valued by its capture rule:
/// when serialization succeeds, every capture converted, and the text is
/// the object over the declared names and those values.
pub proof fn lemma_event_data_field_order(
    re_src: Seq<char>,
    line: Seq<char>,
    caps: Seq<(&'static str, CaptureType)>,
)
    requires
        spec_fields_json(re_src, line, caps) is Some,
    ensures
        forall|i: int|
            0 <= i < caps.len() ==> spec_capture_json(
                (#[trigger] caps[i]).1,
                regex_group(re_src, line, caps[i].0@),
            ) is Some,
        spec_fields_json(re_src, line, caps)->0 == object_fields_text(
            caps.map(|i: int, c: (&'static str, CaptureType)| c.0@),
            caps.map(
                |i: int, c: (&'static str, CaptureType)|
                    spec_capture_json(c.1, regex_group(re_src, line, c.0@))->0,
            ),
        ),
    decreases caps.len(),
{
    let names = caps.map(|i: int, c: (&'static str, CaptureType)| c.0@);
    let values = caps.map(
        |i: int, c: (&'static str, CaptureType)|
            spec_capture_json(c.1, regex_group(re_src, line, c.0@))->0,
    );
    if caps.len() == 0 {
        assert(object_fields_text(names, values) =~= Seq::<char>::empty());
        assert(spec_fields_json(re_src, line, caps)->0 =~= Seq::<char>::empty());
    } else {
        lemma_event_data_field_order(re_src, line, caps.drop_first());
        assert(forall|i: int|
            0 <= i < caps.drop_first().len() ==> caps.drop_first()[i] == #[trigger] caps[i + 1]);
        assert(names.drop_first() =~= caps.drop_first().map(
            |i: int, c: (&'static str, CaptureType)| c.0@,
        ));
        assert(values.drop_first() =~= caps.drop_first().map(
            |i: int, c: (&'static str, CaptureType)|
                spec_capture_json(c.1, regex_group(re_src, line, c.0@))->0,
        ));
        assert(names[0] == caps[0].0@);
        assert(values[0] == spec_capture_json(caps[0].1, regex_group(re_src, line, caps[0].0@))->0);
        assert forall|i: int| 0 <= i < caps.len() implies spec_capture_json(
            (#[trigger] caps[i]).1,
            regex_group(re_src, line, caps[i].0@),
        ) is Some by {
            if i > 0 {
                assert(caps.drop_first()[i - 1] == caps[i]);
                assert(spec_capture_json(
                    caps.drop_first()[i - 1].1,
                    regex_group(re_src, line, caps.drop_first()[i - 1].0@),
                ) is Some);
            }
        }
    }
}

} // verus!
