//! The file parser: one file's lines in, one `FileOutput` out.
//!
//! The file's own level and start timestamp are recovered from its name
//! where possible. Lines parse independently; per-line failures never abort
//! the file and are counted, with lines that are not log statements and
//! deliberately ignored events counted apart as expected noise. On
//! platforms whose lines carry only wall-clock times, a day-rollover pass
//! restores absolute timestamps across midnight.
use vstd::prelude::*;

use crate::Error;
use crate::datetime::{
    DateTime, MICROS_PER_DAY, TimeOfDay, datetime_from_epoch_micros, datetime_plus_days,
    epoch_micros_limit, epoch_micros_limit_value, epoch_micros_value,
};
use crate::level::Level;
use crate::line_parser::{
    EventOutcome, Line, PlatformRuntime, jni_pattern_text, parse_line, parse_timestamp,
    spec_domain_ok, spec_level_ok, spec_opt_view, spec_parse_domain, spec_parse_event,
    spec_parse_object, spec_timestamp_ok, spec_timestamp_pattern_broken, Timestamp,
};
use crate::patterns::regex_group;
use crate::text::{chars_of, parse_dec_u64, parse_u64_range, string_from_chars};
use crate::version::{find_char, find_char_at};

verus! {

/// One file's identity in the store: id, path, its own level when the
/// whole file has one, and its start timestamp.
pub struct FileMeta {
    pub id: u32,
    pub path: String,
    pub level: Option<Level>,
    pub timestamp: DateTime,
}

/// What parsing one file yields: the file row, its lines in line-number
/// order, and the failure counts.
pub struct FileOutput {
    pub file: FileMeta,
    pub lines: Vec<Line>,
    /// Lines that failed for a real reason.
    pub error_count: u64,
    /// Lines that are no log statements, and events marked ignore.
    pub noise_count: u64,
}

// ---------------------------------------------------------------------------
// header recovery from the file name
// ---------------------------------------------------------------------------

/// The level token of a file name stem shaped `<prefix>_<level>_<epoch_ms>`:
/// the text between the first and second underscore (or the end).
pub open spec fn spec_level_token(s: Seq<char>) -> Option<Seq<char>> {
    let i = find_char(s, '_', 0);
    if i >= s.len() {
        None
    } else {
        let j = find_char(s, '_', i + 1);
        Some(s.subrange(i + 1, j))
    }
}

/// The level the file name carries, under the platform's vocabulary.
pub fn level_from_filename(stem: &str, names: &crate::catalog::LevelNames) -> (r: Option<Level>)
    ensures
        match spec_level_token(stem@) {
            Some(t) => r == Level::spec_from(t, *names),
            None => r is None,
        },
{
    let chars = chars_of(stem);
    let i = find_char_at(&chars, '_', 0);
    if i >= chars.len() {
        return None;
    }
    let j = find_char_at(&chars, '_', i + 1);
    let mut token: Vec<char> = Vec::new();
    let mut k: usize = i + 1;
    while k < j
        invariant
            i + 1 <= k <= j <= chars@.len(),
            token@ =~= chars@.subrange(i + 1, k as int),
        decreases j - k,
    {
        token.push(chars[k]);
        assert(token@ =~= chars@.subrange(i + 1, k + 1 as int));
        k = k + 1;
    }
    assert(token@ =~= chars@.subrange(i + 1, j as int));
    let token_str = string_from_chars(&token);
    match Level::from_str(token_str.as_str(), names) {
        Ok(l) => Some(l),
        Err(_) => None,
    }
}

/// The last position of `c` in `s`, or -1 when absent.
pub open spec fn rfind_char(s: Seq<char>, c: char) -> int
    decreases s.len(),
{
    if s.len() == 0 {
        -1
    } else if s.last() == c {
        s.len() - 1
    } else {
        rfind_char(s.drop_last(), c)
    }
}

fn rfind_char_at(s: &Vec<char>) -> (r: Option<usize>)
    ensures
        match r {
            Some(i) => i < s@.len() && rfind_char(s@, '_') == i,
            None => rfind_char(s@, '_') == -1,
        },
{
    let mut i: usize = s.len();
    proof {
        assert(s@.subrange(0, s@.len() as int) =~= s@);
    }
    while i > 0
        invariant
            i <= s@.len(),
            rfind_char(s@, '_') == rfind_char(s@.subrange(0, i as int), '_'),
        decreases i,
    {
        let ghost pre = s@.subrange(0, i as int);
        proof {
            assert(pre.last() == s@[i - 1]);
            assert(pre.drop_last() =~= s@.subrange(0, i - 1));
        }
        if s[i - 1] == '_' {
            return Some(i - 1);
        }
        i = i - 1;
    }
    proof {
        assert(s@.subrange(0, 0) =~= Seq::<char>::empty());
    }
    None
}

/// The epoch-millisecond token of a file name stem: the text after the
/// last underscore (the whole stem when it has none), read as a decimal.
pub open spec fn spec_stem_millis(s: Seq<char>) -> Option<u64> {
    parse_dec_u64(s.subrange(rfind_char(s, '_') + 1, s.len() as int))
}

/// The absolute microseconds the stem names, when the supported calendar
/// range can hold them.
pub open spec fn spec_stem_micros(s: Seq<char>) -> Option<int> {
    match spec_stem_millis(s) {
        Some(ms) => if ms * 1000 < crate::datetime::epoch_micros_limit() {
            Some(ms * 1000)
        } else {
            None
        },
        None => None,
    }
}

/// The start timestamp the file name carries, when it does and the
/// calendar can hold it.
pub fn timestamp_from_filename(stem: &str) -> (r: Option<DateTime>)
    ensures
        match r {
            Some(dt) => dt.wf() && spec_stem_micros(stem@) == Some(dt.epoch_micros()),
            None => spec_stem_micros(stem@) is None,
        },
{
    let chars = chars_of(stem);
    let clen = chars.len();
    let from: usize = match rfind_char_at(&chars) {
        Some(i) => {
            assert(i < clen);
            i + 1
        },
        None => 0,
    };
    let ms = match parse_u64_range(&chars, from, chars.len()) {
        Some(v) => v,
        None => {
            return None;
        },
    };
    let limit = epoch_micros_limit_value();
    proof {
        // the limit is a whole number of milliseconds, so comparing
        // milliseconds against `limit / 1000` compares microseconds
        crate::datetime::lemma_days_to_year_bounds(10000);
        let dl = crate::datetime::day_limit();
        assert(limit == (dl * 86400000) * 1000) by (nonlinear_arith)
            requires
                limit == dl * 86400000000,
        ;
        vstd::arithmetic::div_mod::lemma_div_multiples_vanish(dl * 86400000, 1000);
        assert(limit / 1000 == dl * 86400000);
    }
    if ms >= limit / 1000 {
        proof {
            assert(ms * 1000 >= limit) by (nonlinear_arith)
                requires
                    ms >= limit / 1000,
                    limit == (limit / 1000) * 1000,
            ;
        }
        return None;
    }
    assert(ms * 1000 < epoch_micros_limit()) by (nonlinear_arith)
        requires
            ms < limit / 1000,
            limit == (limit / 1000) * 1000,
            limit == epoch_micros_limit(),
    ;
    Some(datetime_from_epoch_micros(ms * 1000))
}

// ---------------------------------------------------------------------------
// day rollover
// ---------------------------------------------------------------------------

/// The absolute microsecond timestamps of a run of lines, in order.
pub open spec fn line_epochs(lines: Seq<Line>) -> Seq<int> {
    lines.map(|i: int, l: Line| l.timestamp.epoch_micros())
}

/// The rollover pass over absolute microsecond timestamps, in line order:
/// each timestamp first gains the days accumulated so far; one that still
/// falls before the file's start gains one more day, kept from then on.
pub open spec fn roll(ts: Seq<int>, f: int, d: int) -> Seq<int>
    decreases ts.len(),
{
    if ts.len() == 0 {
        Seq::empty()
    } else {
        let t = ts[0] + d * (MICROS_PER_DAY as int);
        if t < f {
            seq![t + (MICROS_PER_DAY as int)] + roll(ts.drop_first(), f, d + 1)
        } else {
            seq![t] + roll(ts.drop_first(), f, d)
        }
    }
}

/// Once every line is at least a whole day after the base date, the pass
/// only adds the accumulated day.
proof fn lemma_roll_steady(ts: Seq<int>, f: int, base: int)
    requires
        f < base + MICROS_PER_DAY,
        forall|i: int| 0 <= i < ts.len() ==> base <= #[trigger] ts[i],
    ensures
        roll(ts, f, 1) =~= ts.map(|i: int, t: int| t + (MICROS_PER_DAY as int)),
    decreases ts.len(),
{
    if ts.len() > 0 {
        lemma_roll_steady(ts.drop_first(), f, base);
        assert(ts[0] + 1 * (MICROS_PER_DAY as int) >= f);
        assert(roll(ts, f, 1) =~= seq![ts[0] + (MICROS_PER_DAY as int)] + ts.drop_first().map(
            |i: int, t: int| t + (MICROS_PER_DAY as int),
        ));
    }
}

/// The shape of the pass under one midnight crossing: timestamps before
/// the first dip stand; the dip and everything after gain one day.
proof fn lemma_roll_shape(ts: Seq<int>, f: int, base: int, k: int)
    requires
        base <= f < base + MICROS_PER_DAY,
        forall|i: int| 0 <= i < ts.len() ==> base <= #[trigger] ts[i] < base + MICROS_PER_DAY,
        0 <= k <= ts.len(),
        forall|i: int| 0 <= i < k ==> #[trigger] ts[i] >= f,
        k < ts.len() ==> ts[k] < f,
    ensures
        roll(ts, f, 0).len() == ts.len(),
        forall|i: int| 0 <= i < k ==> #[trigger] roll(ts, f, 0)[i] == ts[i],
        forall|i: int|
            k <= i < ts.len() ==> #[trigger] roll(ts, f, 0)[i] == ts[i] + (MICROS_PER_DAY as int),
    decreases ts.len(),
{
    if ts.len() == 0 {
    } else if k == 0 {
        // the first line already dips: everything gains a day
        assert(ts[0] < f);
        lemma_roll_steady(ts.drop_first(), f, base);
        assert(roll(ts, f, 0) =~= seq![ts[0] + (MICROS_PER_DAY as int)] + ts.drop_first().map(
            |i: int, t: int| t + (MICROS_PER_DAY as int),
        ));
    } else {
        assert(ts[0] >= f);
        let rest = ts.drop_first();
        lemma_roll_shape(rest, f, base, k - 1);
        assert(roll(ts, f, 0) =~= seq![ts[0]] + roll(rest, f, 0));
    }
}

/// Day rollover restores monotonic timestamps across one midnight
/// crossing: when the wall-clock times rise up to a single dip below the
/// file's start and rise again after it, the reconciled absolute
/// timestamps are non-decreasing in line order.
pub proof fn lemma_rollover_monotonic(ts: Seq<int>, f: int, base: int, k: int)
    requires
        base <= f < base + MICROS_PER_DAY,
        forall|i: int| 0 <= i < ts.len() ==> base <= #[trigger] ts[i] < base + MICROS_PER_DAY,
        0 <= k <= ts.len(),
        // before the dip every line is at or after the file's start...
        forall|i: int| 0 <= i < k ==> #[trigger] ts[i] >= f,
        k < ts.len() ==> ts[k] < f,
        // ...and each side of the dip is itself in time order
        forall|i: int, j: int| 0 <= i < j < k ==> #[trigger] ts[i] <= #[trigger] ts[j],
        forall|i: int, j: int|
            k <= i < j < ts.len() ==> #[trigger] ts[i] <= #[trigger] ts[j],
    ensures
        forall|i: int, j: int|
            0 <= i < j < ts.len() ==> #[trigger] roll(ts, f, 0)[i] <= #[trigger] roll(
                ts,
                f,
                0,
            )[j],
{
    lemma_roll_shape(ts, f, base, k);
    assert forall|i: int, j: int| 0 <= i < j < ts.len() implies #[trigger] roll(ts, f, 0)[i]
        <= #[trigger] roll(ts, f, 0)[j] by {
        if j < k {
        } else if i >= k {
        } else {
            // across the dip: the earlier line is under a day past the
            // base; the later one gained a whole day
            assert(roll(ts, f, 0)[i] == ts[i]);
            assert(roll(ts, f, 0)[j] == ts[j] + (MICROS_PER_DAY as int));
        }
    }
}

/// Apply the rollover pass to parsed lines, in line order. Fails exactly
/// when some rolled timestamp would leave the supported calendar range.
pub fn reconcile_rollover(lines: Vec<Line>, file_ts: &DateTime) -> (r: Result<Vec<Line>, Error>)
    requires
        file_ts.wf(),
        forall|i: int| 0 <= i < lines@.len() ==> (#[trigger] lines@[i]).timestamp.wf(),
    ensures
        match r {
            Ok(out) => {
                &&& out@.len() == lines@.len()
                &&& forall|i: int|
                    0 <= i < out@.len() ==> {
                        let a = #[trigger] out@[i];
                        let b = lines@[i];
                        a.file_id == b.file_id && a.line_num == b.line_num && a.level == b.level
                            && a.domain == b.domain && a.event_type == b.event_type && a.event_data
                            == b.event_data && a.object_path == b.object_path && a.timestamp.wf()
                    }
                &&& out@.map(|i: int, l: Line| l.timestamp.epoch_micros()) == roll(
                    lines@.map(|i: int, l: Line| l.timestamp.epoch_micros()),
                    file_ts.epoch_micros(),
                    0,
                )
            },
            Err(e) => e is CannotParse && exists|k: int|
                0 <= k < lines@.len() && #[trigger] roll(
                    line_epochs(lines@),
                    file_ts.epoch_micros(),
                    0,
                )[k] >= crate::datetime::epoch_micros_limit(),
        },
{
    let ghost all_ts = line_epochs(lines@);
    let n = lines.len();
    let f = epoch_micros_value(file_ts);
    let mut out: Vec<Line> = Vec::new();
    let mut days: u64 = 0;
    let mut i: usize = 0;
    proof {
        assert(all_ts.skip(0) =~= all_ts);
        assert(out@.map(|k: int, l: Line| l.timestamp.epoch_micros()) =~= Seq::<int>::empty());
    }
    while i < lines.len()
        invariant
            i <= lines@.len(),
            n == lines@.len(),
            days <= i,
            file_ts.wf(),
            f == file_ts.epoch_micros(),
            all_ts == line_epochs(lines@),
            forall|k: int| 0 <= k < lines@.len() ==> (#[trigger] lines@[k]).timestamp.wf(),
            out@.len() == i,
            forall|k: int|
                0 <= k < i ==> {
                    let a = #[trigger] out@[k];
                    let b = lines@[k];
                    a.file_id == b.file_id && a.line_num == b.line_num && a.level == b.level
                        && a.domain == b.domain && a.event_type == b.event_type && a.event_data
                        == b.event_data && a.object_path == b.object_path && a.timestamp.wf()
                },
            roll(all_ts, f as int, 0) =~= out@.map(|k: int, l: Line| l.timestamp.epoch_micros())
                + roll(all_ts.skip(i as int), f as int, days as int),
        decreases lines@.len() - i,
    {
        let line = &lines[i];
        let ghost rest = all_ts.skip(i as int);
        proof {
            assert(rest[0] == line.timestamp.epoch_micros());
            assert(rest.drop_first() =~= all_ts.skip(i + 1));
        }
        proof {
            // the element the pass is at sits where the prefix ends
            assert(roll(all_ts, f as int, 0)[i as int] == roll(rest, f as int, days as int)[0]);
            crate::datetime::lemma_epoch_micros_in_range(*file_ts);
        }
        let shifted = match datetime_plus_days(&line.timestamp, days) {
            Some(dt) => dt,
            None => {
                proof {
                    // without the day bump the rolled value is this sum,
                    // already out of range (so never below the file start)
                    assert(roll(rest, f as int, days as int)[0] == line.timestamp.epoch_micros()
                        + days * (MICROS_PER_DAY as int));
                }
                return Err(
                    Error::CannotParse(String::from_str("Timestamp out of calendar range")),
                );
            },
        };
        let f_cmp = epoch_micros_value(&shifted);
        let (new_line_ts, ghost_rolled): (DateTime, bool) = if f_cmp < f {
            let bumped = match datetime_plus_days(&shifted, 1) {
                Some(dt) => dt,
                None => {
                    proof {
                        assert(roll(rest, f as int, days as int)[0] == shifted.epoch_micros()
                            + (MICROS_PER_DAY as int));
                        assert(shifted.epoch_micros() + 1 * (MICROS_PER_DAY as int)
                            == shifted.epoch_micros() + (MICROS_PER_DAY as int));
                    }
                    return Err(
                        Error::CannotParse(String::from_str("Timestamp out of calendar range")),
                    );
                },
            };
            days = days + 1;
            (bumped, true)
        } else {
            (shifted, false)
        };
        let new_line = Line {
            file_id: line.file_id,
            line_num: line.line_num,
            level: line.level,
            timestamp: new_line_ts,
            domain: line.domain.clone(),
            event_type: line.event_type,
            event_data: match &line.event_data {
                Some(s) => Some(s.clone()),
                None => None,
            },
            object_path: match &line.object_path {
                Some(s) => Some(s.clone()),
                None => None,
            },
        };
        out.push(new_line);
        proof {
            assert(out@.map(|k: int, l: Line| l.timestamp.epoch_micros()) =~= out@.drop_last().map(
                |k: int, l: Line| l.timestamp.epoch_micros(),
            ).push(new_line_ts.epoch_micros()));
            assert((out@.drop_last().map(|k: int, l: Line| l.timestamp.epoch_micros()).push(
                new_line_ts.epoch_micros(),
            )) + roll(all_ts.skip(i + 1), f as int, days as int) =~= out@.drop_last().map(
                |k: int, l: Line| l.timestamp.epoch_micros(),
            ) + (seq![new_line_ts.epoch_micros()] + roll(all_ts.skip(i + 1), f as int, days as int)));
        }
        i = i + 1;
    }
    proof {
        assert(all_ts.skip(lines@.len() as int) =~= Seq::<int>::empty());
        assert(out@.map(|k: int, l: Line| l.timestamp.epoch_micros()) + Seq::<int>::empty() =~= out@.map(
            |k: int, l: Line| l.timestamp.epoch_micros(),
        ));
    }
    Ok(out)
}



// ---------------------------------------------------------------------------
// what one line becomes, and what the file header names
// ---------------------------------------------------------------------------

/// The level a file name stem carries under a platform's vocabulary.
pub open spec fn spec_stem_level(stem: Seq<char>, names: crate::catalog::LevelNames) -> Option<
    Level,
> {
    match spec_level_token(stem) {
        Some(t) => Level::spec_from(t, names),
        None => None,
    }
}

/// The same date at midnight.
pub open spec fn date_floor(dt: DateTime) -> DateTime {
    DateTime { time: TimeOfDay { hour: 0, minute: 0, second: 0, micro: 0 }, ..dt }
}

/// How one line fares: emitted as a typed line; counted as expected noise
/// (no log statement, or a deliberately ignored event); or counted as a
/// real failure.
#[derive(PartialEq, Eq, Structural)]
pub enum LineClass {
    Emitted,
    Noise,
    Failed,
}

pub open spec fn spec_line_class(
    rt: PlatformRuntime,
    line: Seq<char>,
    file_level: Option<Level>,
) -> LineClass {
    if !spec_domain_ok(rt, line) {
        LineClass::Noise
    } else if !spec_timestamp_ok(rt, line) {
        LineClass::Failed
    } else if !spec_level_ok(rt, line, file_level) {
        LineClass::Failed
    } else {
        match spec_parse_event(rt.events@, line) {
            EventOutcome::Matched(_, _) => LineClass::Emitted,
            EventOutcome::Ignored => LineClass::Noise,
            EventOutcome::BadCapture => LineClass::Failed,
            EventOutcome::Unknown => LineClass::Failed,
        }
    }
}

/// How many of the first `n` lines fall in one class.
pub open spec fn class_count(
    rt: PlatformRuntime,
    lines: Seq<String>,
    file_level: Option<Level>,
    n: int,
    c: LineClass,
) -> int
    decreases n,
{
    if n <= 0 {
        0
    } else {
        class_count(rt, lines, file_level, n - 1, c) + if spec_line_class(
            rt,
            lines[n - 1]@,
            file_level,
        ) == c {
            1int
        } else {
            0int
        }
    }
}

/// The 1-based numbers of the emitted lines among the first `n`, in order.
pub open spec fn emitted_nums(
    rt: PlatformRuntime,
    lines: Seq<String>,
    file_level: Option<Level>,
    n: int,
) -> Seq<int>
    decreases n,
{
    if n <= 0 {
        Seq::empty()
    } else {
        emitted_nums(rt, lines, file_level, n - 1) + if spec_line_class(
            rt,
            lines[n - 1]@,
            file_level,
        ) == LineClass::Emitted {
            seq![n]
        } else {
            Seq::empty()
        }
    }
}

/// The timestamp an emitted line parses to, in absolute microseconds: a
/// full timestamp stands alone; a wall-clock one completes the base date.
pub open spec fn spec_line_epoch(rt: PlatformRuntime, line: Seq<char>, base: DateTime) -> int {
    match crate::patterns::regex_group(rt.timestamp.src(), line, "ts"@) {
        Some(ts) => match crate::line_parser::spec_try_formats(
            ts,
            rt.full_timestamp,
            rt.timestamp_formats@,
        ) {
            Some(Timestamp::Full(dt)) => dt.epoch_micros(),
            Some(Timestamp::Partial(t)) => (DateTime { time: t, ..base }).epoch_micros(),
            None => 0,
        },
        None => 0,
    }
}

/// The parsed timestamps of the emitted lines among the first `n`, in order.
pub open spec fn emitted_epochs(
    rt: PlatformRuntime,
    lines: Seq<String>,
    file_level: Option<Level>,
    base: DateTime,
    n: int,
) -> Seq<int>
    decreases n,
{
    if n <= 0 {
        Seq::empty()
    } else {
        emitted_epochs(rt, lines, file_level, base, n - 1) + if spec_line_class(
            rt,
            lines[n - 1]@,
            file_level,
        ) == LineClass::Emitted {
            seq![spec_line_epoch(rt, lines[n - 1]@, base)]
        } else {
            Seq::empty()
        }
    }
}

/// The file start time header recovery names, in absolute microseconds:
/// the stem's epoch milliseconds when it carries them; else the first
/// line's own full timestamp on a full-timestamp platform; else the
/// file's creation time. Nothing when the rule in force fails.
pub open spec fn spec_header_micros(
    rt: PlatformRuntime,
    stem: Seq<char>,
    lines: Seq<String>,
    created_epoch_seconds: Option<u64>,
) -> Option<int> {
    match spec_stem_micros(stem) {
        Some(us) => Some(us),
        None => if rt.full_timestamp {
            if lines.len() > 0 {
                match crate::patterns::regex_group(rt.timestamp.src(), lines[0]@, "ts"@) {
                    Some(ts) => match crate::line_parser::spec_try_formats(
                        ts,
                        true,
                        rt.timestamp_formats@,
                    ) {
                        Some(Timestamp::Full(dt)) => Some(dt.epoch_micros()),
                        _ => None,
                    },
                    None => None,
                }
            } else {
                None
            }
        } else {
            match created_epoch_seconds {
                Some(secs) => if secs * 1000000 < crate::datetime::epoch_micros_limit() {
                    Some(secs * 1000000)
                } else {
                    None
                },
                None => None,
            }
        },
    }
}

/// How one emitted line relates to the text it came from: domain, object
/// path and event all read off the source line under the runtime's
/// patterns, and the level is the file's own or the line's.
pub open spec fn line_matches_source(rt: PlatformRuntime, l: Line, src: Seq<char>, file_level: Option<Level>) -> bool {
    &&& spec_parse_domain(rt.domain.src(), src) == Some(l.domain@)
    &&& match l.object_path {
        Some(o) => spec_parse_object(rt.object.src(), src) == Some(o@),
        None => spec_parse_object(rt.object.src(), src) is None,
    }
    &&& spec_parse_event(rt.events@, src) == EventOutcome::Matched(
        l.event_type,
        spec_opt_view(l.event_data),
    )
    &&& (file_level is Some ==> file_level == Some(l.level))
}

// ---------------------------------------------------------------------------
// parsing one whole file
// ---------------------------------------------------------------------------

/// Parses one file's lines under a compiled platform runtime.
pub struct FileParser {
    pub runtime: PlatformRuntime,
    pub file_id: u32,
}

impl FileParser {
    /// Parse one file.
    ///
    /// `stem` is the file name without its extension; `created_epoch_seconds`
    /// is the file's creation time, for partial-timestamp files whose name
    /// carries no timestamp. Per-line failures are counted, never fatal:
    /// lines that are no log statements and ignored events count as noise,
    /// everything else as errors.
    pub fn parse(
        &self,
        stem: &str,
        path: String,
        lines: &Vec<String>,
        created_epoch_seconds: Option<u64>,
    ) -> (r: Result<FileOutput, Error>)
        requires
            self.runtime.jni.src() == jni_pattern_text(),
            lines@.len() < 0x100000000,
        ensures
            match r {
                Ok(out) => {
                    &&& out.file.id == self.file_id
                    &&& out.file.path@ == path@
                    &&& out.file.level == spec_stem_level(stem@, self.runtime.level_names)
                    &&& out.file.timestamp.wf()
                    &&& spec_header_micros(self.runtime, stem@, lines@, created_epoch_seconds)
                        == Some(out.file.timestamp.epoch_micros())
                    &&& out.lines@.len() + out.error_count + out.noise_count == lines@.len()
                    &&& out.error_count == class_count(
                        self.runtime,
                        lines@,
                        out.file.level,
                        lines@.len() as int,
                        LineClass::Failed,
                    )
                    &&& out.noise_count == class_count(
                        self.runtime,
                        lines@,
                        out.file.level,
                        lines@.len() as int,
                        LineClass::Noise,
                    )
                    &&& out.lines@.map(|k: int, l: Line| l.line_num as int) == emitted_nums(
                        self.runtime,
                        lines@,
                        out.file.level,
                        lines@.len() as int,
                    )
                    &&& line_epochs(out.lines@) == {
                        let raw = emitted_epochs(
                            self.runtime,
                            lines@,
                            out.file.level,
                            date_floor(out.file.timestamp),
                            lines@.len() as int,
                        );
                        if self.runtime.full_timestamp {
                            raw
                        } else {
                            roll(raw, out.file.timestamp.epoch_micros(), 0)
                        }
                    }
                    &&& forall|k: int|
                        0 <= k < out.lines@.len() ==> {
                            let l = #[trigger] out.lines@[k];
                            &&& l.file_id == self.file_id
                            &&& l.timestamp.wf()
                            &&& 1 <= l.line_num <= lines@.len()
                        }
                    &&& forall|i: int, j: int|
                        0 <= i < j < out.lines@.len() ==> (#[trigger] out.lines@[i]).line_num < (
                        #[trigger] out.lines@[j]).line_num
                    &&& forall|k: int|
                        0 <= k < out.lines@.len() ==> line_matches_source(
                            self.runtime,
                            #[trigger] out.lines@[k],
                            lines@[out.lines@[k].line_num - 1]@,
                            out.file.level,
                        )
                },
                Err(e) => {
                    &&& (e is CannotParse || e is NoTimestamp)
                    &&& {
                        ||| (spec_stem_level(stem@, self.runtime.level_names) is None
                            && self.runtime.level is None)
                        ||| spec_header_micros(
                            self.runtime,
                            stem@,
                            lines@,
                            created_epoch_seconds,
                        ) is None
                        ||| (!self.runtime.full_timestamp && exists|ft: DateTime|
                            #[trigger] ft.wf() && spec_header_micros(
                                self.runtime,
                                stem@,
                                lines@,
                                created_epoch_seconds,
                            ) == Some(ft.epoch_micros()) && exists|k: int|
                                0 <= k < emitted_epochs(
                                    self.runtime,
                                    lines@,
                                    spec_stem_level(stem@, self.runtime.level_names),
                                    date_floor(ft),
                                    lines@.len() as int,
                                ).len() && #[trigger] roll(
                                    emitted_epochs(
                                        self.runtime,
                                        lines@,
                                        spec_stem_level(stem@, self.runtime.level_names),
                                        date_floor(ft),
                                        lines@.len() as int,
                                    ),
                                    ft.epoch_micros(),
                                    0,
                                )[k] >= crate::datetime::epoch_micros_limit())
                    }
                },
            },
            // with no level in the file name and no level pattern in the
            // format, the file is always rejected
            (spec_stem_level(stem@, self.runtime.level_names) is None && self.runtime.level
                is None) ==> r is Err,
    {
        let level = level_from_filename(stem, &self.runtime.level_names);
        proof {
            assert(level == spec_stem_level(stem@, self.runtime.level_names));
        }
        let named_ts = timestamp_from_filename(stem);
        if level.is_none() && self.runtime.level.is_none() {
            return Err(
                Error::CannotParse(
                    String::from_str(
                        "File has no log level and the log format specifies no level pattern",
                    ),
                ),
            );
        }
        let file_ts: DateTime = match named_ts {
            Some(t) => t,
            None => {
                if self.runtime.full_timestamp {
                    // fall back to the first line's own timestamp
                    if lines.len() == 0 {
                        return Err(
                            Error::CannotParse(
                                String::from_str("File has no lines to take a timestamp from"),
                            ),
                        );
                    }
                    match parse_timestamp(&self.runtime, lines[0].as_str()) {
                        Ok(Timestamp::Full(dt)) => {
                            proof {
                                crate::line_parser::lemma_try_formats_wf(
                                    crate::patterns::regex_group(
                                        self.runtime.timestamp.src(),
                                        lines@[0]@,
                                        "ts"@,
                                    )->0,
                                    self.runtime.full_timestamp,
                                    self.runtime.timestamp_formats@,
                                );
                            }
                            dt
                        },
                        Ok(Timestamp::Partial(_)) => {
                            // a wall-clock result cannot arise under full
                            // timestamp formats
                            proof {
                                crate::line_parser::lemma_try_formats_wf(
                                    crate::patterns::regex_group(
                                        self.runtime.timestamp.src(),
                                        lines@[0]@,
                                        "ts"@,
                                    )->0,
                                    self.runtime.full_timestamp,
                                    self.runtime.timestamp_formats@,
                                );
                            }
                            return Err(
                                Error::CannotParse(
                                    String::from_str("First line carries no full timestamp"),
                                ),
                            );
                        },
                        Err(Error::NoTimestamp(l)) => {
                            return Err(Error::NoTimestamp(l));
                        },
                        Err(_) => {
                            return Err(
                                Error::CannotParse(
                                    String::from_str("First line carries no full timestamp"),
                                ),
                            );
                        },
                    }
                } else {
                    // fall back to the file's creation time
                    match created_epoch_seconds {
                        Some(secs) => {
                            let limit = epoch_micros_limit_value();
                            proof {
                                // the limit is a whole number of seconds
                                crate::datetime::lemma_days_to_year_bounds(10000);
                                let dl = crate::datetime::day_limit();
                                assert(limit == (dl * 86400) * 1000000) by (nonlinear_arith)
                                    requires
                                        limit == dl * 86400000000,
                                ;
                                vstd::arithmetic::div_mod::lemma_div_multiples_vanish(
                                    dl * 86400,
                                    1000000,
                                );
                                assert(limit / 1000000 == dl * 86400);
                            }
                            if secs >= limit / 1000000 {
                                proof {
                                    assert(secs * 1000000 >= limit) by (nonlinear_arith)
                                        requires
                                            secs >= limit / 1000000,
                                            limit == (limit / 1000000) * 1000000,
                                    ;
                                }
                                return Err(
                                    Error::CannotParse(
                                        String::from_str("Creation time out of calendar range"),
                                    ),
                                );
                            }
                            assert(secs * 1000000 < limit) by (nonlinear_arith)
                                requires
                                    secs < limit / 1000000,
                                    limit == (limit / 1000000) * 1000000,
                            ;
                            datetime_from_epoch_micros(secs * 1000000)
                        },
                        None => {
                            return Err(
                                Error::CannotParse(
                                    String::from_str("Could not get a creation time for the file"),
                                ),
                            );
                        },
                    }
                }
            },
        };
        let base_date = DateTime {
            year: file_ts.year,
            month: file_ts.month,
            day: file_ts.day,
            time: TimeOfDay { hour: 0, minute: 0, second: 0, micro: 0 },
        };
        assert(base_date.wf());
        assert(base_date == date_floor(file_ts));

        let n = lines.len();
        let mut parsed: Vec<Line> = Vec::new();
        let mut error_count: u64 = 0;
        let mut noise_count: u64 = 0;
        let mut i: usize = 0;
        proof {
            assert(parsed@.map(|k: int, l: Line| l.line_num as int) =~= Seq::<int>::empty());
            assert(line_epochs(parsed@) =~= Seq::<int>::empty());
        }
        while i < n
            invariant
                i <= n,
                n == lines@.len(),
                n < 0x100000000,
                base_date.wf(),
                self.runtime.jni.src() == jni_pattern_text(),
                parsed@.len() + error_count + noise_count == i,
                error_count <= i && noise_count <= i,
                error_count == class_count(
                    self.runtime,
                    lines@,
                    level,
                    i as int,
                    LineClass::Failed,
                ),
                noise_count == class_count(self.runtime, lines@, level, i as int, LineClass::Noise),
                parsed@.map(|k: int, l: Line| l.line_num as int) == emitted_nums(
                    self.runtime,
                    lines@,
                    level,
                    i as int,
                ),
                line_epochs(parsed@) == emitted_epochs(
                    self.runtime,
                    lines@,
                    level,
                    base_date,
                    i as int,
                ),
                forall|k: int|
                    0 <= k < parsed@.len() ==> {
                        let l = #[trigger] parsed@[k];
                        &&& l.file_id == self.file_id
                        &&& l.timestamp.wf()
                        &&& 1 <= l.line_num <= i
                        &&& line_matches_source(self.runtime, l, lines@[l.line_num - 1]@, level)
                    },
                forall|a: int, b: int|
                    0 <= a < b < parsed@.len() ==> (#[trigger] parsed@[a]).line_num < (
                    #[trigger] parsed@[b]).line_num,
            decreases n - i,
        {
            let line_num = (i + 1) as u32;
            let ghost cur = lines@[i as int]@;
            match parse_line(
                &self.runtime,
                lines[i].as_str(),
                line_num,
                self.file_id,
                level,
                &base_date,
            ) {
                Ok(l) => {
                    proof {
                        assert(spec_domain_ok(self.runtime, cur));
                        assert(spec_timestamp_ok(self.runtime, cur));
                        assert(spec_level_ok(self.runtime, cur, level));
                        assert(spec_line_class(self.runtime, cur, level) == LineClass::Emitted);
                        assert(l.timestamp.epoch_micros() == spec_line_epoch(
                            self.runtime,
                            cur,
                            base_date,
                        ));
                    }
                    let ghost old_parsed = parsed@;
                    parsed.push(l);
                    proof {
                        assert(parsed@.map(|k: int, l: Line| l.line_num as int) =~= old_parsed.map(
                            |k: int, l: Line| l.line_num as int,
                        ).push(l.line_num as int));
                        assert(emitted_nums(self.runtime, lines@, level, i + 1) =~= emitted_nums(
                            self.runtime,
                            lines@,
                            level,
                            i as int,
                        ).push(i + 1));
                        assert(line_epochs(parsed@) =~= line_epochs(old_parsed).push(
                            l.timestamp.epoch_micros(),
                        ));
                        assert(emitted_epochs(self.runtime, lines@, level, base_date, i + 1)
                            =~= emitted_epochs(self.runtime, lines@, level, base_date, i as int).push(
                            spec_line_epoch(self.runtime, cur, base_date),
                        ));
                    }
                },
                Err(e) => {
                    // a line that is no log statement, or an event marked
                    // ignore, is expected noise; the rest are real failures
                    proof {
                        match e {
                            Error::NoDomain => {
                                assert(spec_line_class(self.runtime, cur, level)
                                    == LineClass::Noise);
                            },
                            Error::IgnoredEvent => {
                                assert(spec_line_class(self.runtime, cur, level)
                                    == LineClass::Noise);
                            },
                            Error::NoTimestamp(_) => {
                                assert(spec_line_class(self.runtime, cur, level)
                                    == LineClass::Failed);
                            },
                            Error::CannotParse(_) => {
                                assert(spec_line_class(self.runtime, cur, level)
                                    == LineClass::Failed);
                            },
                            Error::NoLevel => {
                                assert(spec_line_class(self.runtime, cur, level)
                                    == LineClass::Failed);
                            },
                            Error::NoSuchLevel(_) => {
                                assert(spec_line_class(self.runtime, cur, level)
                                    == LineClass::Failed);
                            },
                            Error::UnknownEvent => {
                                assert(spec_line_class(self.runtime, cur, level)
                                    == LineClass::Failed);
                            },
                            _ => {
                                assert(false);
                            },
                        }
                        assert(emitted_nums(self.runtime, lines@, level, i + 1) =~= emitted_nums(
                            self.runtime,
                            lines@,
                            level,
                            i as int,
                        ));
                        assert(emitted_epochs(self.runtime, lines@, level, base_date, i + 1)
                            =~= emitted_epochs(self.runtime, lines@, level, base_date, i as int));
                    }
                    match e {
                        Error::NoDomain => {
                            noise_count = noise_count + 1;
                        },
                        Error::IgnoredEvent => {
                            noise_count = noise_count + 1;
                        },
                        _ => {
                            error_count = error_count + 1;
                        },
                    }
                },
            }
            i = i + 1;
        }

        // on a wall-clock platform, restore absolute order across midnight
        let final_lines = if self.runtime.full_timestamp {
            parsed
        } else {
            match reconcile_rollover(parsed, &file_ts) {
                Ok(out) => {
                    proof {
                        assert forall|k: int| 0 <= k < out@.len() implies line_matches_source(
                            self.runtime,
                            #[trigger] out@[k],
                            lines@[out@[k].line_num - 1]@,
                            level,
                        ) && 1 <= out@[k].line_num <= lines@.len() && out@[k].file_id
                            == self.file_id by {
                            assert(line_matches_source(
                                self.runtime,
                                parsed@[k],
                                lines@[parsed@[k].line_num - 1]@,
                                level,
                            ));
                        }
                        assert(out@.map(|k: int, l: Line| l.line_num as int) =~= parsed@.map(
                            |k: int, l: Line| l.line_num as int,
                        ));
                        assert(line_epochs(out@) == roll(
                            emitted_epochs(self.runtime, lines@, level, base_date, n as int),
                            file_ts.epoch_micros(),
                            0,
                        ));
                    }
                    out
                },
                Err(e) => {
                    // some rolled timestamp would leave the calendar:
                    // the file's own start time is the witness
                    proof {
                        let raw = emitted_epochs(self.runtime, lines@, level, base_date, n as int);
                        let k = choose|k: int|
                            0 <= k < parsed@.len() && #[trigger] roll(
                                line_epochs(parsed@),
                                file_ts.epoch_micros(),
                                0,
                            )[k] >= crate::datetime::epoch_micros_limit();
                        assert(line_epochs(parsed@) == raw);
                        assert(raw.len() == parsed@.len());
                        assert(0 <= k < raw.len() && roll(raw, file_ts.epoch_micros(), 0)[k]
                            >= crate::datetime::epoch_micros_limit());
                        assert(file_ts.wf() && spec_header_micros(
                            self.runtime,
                            stem@,
                            lines@,
                            created_epoch_seconds,
                        ) == Some(file_ts.epoch_micros()) && 0 <= k < emitted_epochs(
                            self.runtime,
                            lines@,
                            spec_stem_level(stem@, self.runtime.level_names),
                            date_floor(file_ts),
                            lines@.len() as int,
                        ).len() && roll(
                            emitted_epochs(
                                self.runtime,
                                lines@,
                                spec_stem_level(stem@, self.runtime.level_names),
                                date_floor(file_ts),
                                lines@.len() as int,
                            ),
                            file_ts.epoch_micros(),
                            0,
                        )[k] >= crate::datetime::epoch_micros_limit());
                    }
                    return Err(e);
                },
            }
        };

        Ok(
            FileOutput {
                file: FileMeta { id: self.file_id, path, level, timestamp: file_ts },
                lines: final_lines,
                error_count,
                noise_count,
            },
        )
    }
}

// ---------------------------------------------------------------------------
// what the line numbers guarantee
// ---------------------------------------------------------------------------

proof fn lemma_line_nums_lower(lines: Seq<Line>, i: int)
    requires
        forall|k: int| 0 <= k < lines.len() ==> 1 <= (#[trigger] lines[k]).line_num,
        forall|a: int, b: int|
            0 <= a < b < lines.len() ==> (#[trigger] lines[a]).line_num < (
            #[trigger] lines[b]).line_num,
        0 <= i < lines.len(),
    ensures
        lines[i].line_num >= i + 1,
    decreases i,
{
    if i > 0 {
        lemma_line_nums_lower(lines, i - 1);
    }
}

proof fn lemma_line_nums_upper(lines: Seq<Line>, n: int, i: int)
    requires
        forall|k: int| 0 <= k < lines.len() ==> (#[trigger] lines[k]).line_num <= n,
        forall|a: int, b: int|
            0 <= a < b < lines.len() ==> (#[trigger] lines[a]).line_num < (
            #[trigger] lines[b]).line_num,
        0 <= i < lines.len(),
    ensures
        lines[i].line_num <= n - (lines.len() - 1 - i),
    decreases lines.len() - i,
{
    if i < lines.len() - 1 {
        lemma_line_nums_upper(lines, n, i + 1);
    }
}

/// Emitted line numbers are exactly `1..=N`, without gaps or duplicates,
/// when every line of the file parsed: as many lines came out as went in,
/// and strictly increasing numbers within `1..=N` must be the identity.
pub proof fn lemma_line_numbers_exact(lines: Seq<Line>, n: int)
    requires
        lines.len() == n,
        forall|k: int| 0 <= k < lines.len() ==> 1 <= (#[trigger] lines[k]).line_num <= n,
        forall|a: int, b: int|
            0 <= a < b < lines.len() ==> (#[trigger] lines[a]).line_num < (
            #[trigger] lines[b]).line_num,
    ensures
        forall|k: int| 0 <= k < lines.len() ==> (#[trigger] lines[k]).line_num == k + 1,
{
    assert forall|k: int| 0 <= k < lines.len() implies (#[trigger] lines[k]).line_num == k + 1 by {
        lemma_line_nums_lower(lines, k);
        lemma_line_nums_upper(lines, n, k);
    }
}

} // verus!
