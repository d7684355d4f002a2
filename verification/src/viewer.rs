//! The viewer-side vocabulary: typed log objects and events recognized by
//! substring probes, replication configuration parsed from log text, and
//! the small list-selection state the interface drives.
use vstd::prelude::*;

use crate::Error;
use crate::patterns::{Pattern, regex_group, regex_match_text, regex_prefix};
use crate::text::{
    chars_eq_str, chars_of, contains_chars, contains_seq, dec_digits, parse_dec_u64, parse_u64_range,
    render_u64, string_from_chars,
};

verus! {

// ---------------------------------------------------------------------------
// levels, object kinds, event kinds
// ---------------------------------------------------------------------------

/// The viewer's level filter: every level, or one of the five.
#[derive(Clone, Copy, PartialEq, Eq, Structural, Debug, Hash)]
pub enum LogLevel {
    All,
    Info,
    Verbose,
    Debug,
    Warn,
    Error,
}

impl LogLevel {
    /// The level a lowercase token names, if any.
    pub fn from_str(token: &str) -> (r: Option<LogLevel>)
        ensures
            r == spec_log_level(token@),
    {
        let chars = chars_of(token);
        if chars_eq_str(&chars, "info") {
            Some(LogLevel::Info)
        } else if chars_eq_str(&chars, "verbose") {
            Some(LogLevel::Verbose)
        } else if chars_eq_str(&chars, "debug") {
            Some(LogLevel::Debug)
        } else if chars_eq_str(&chars, "warning") {
            Some(LogLevel::Warn)
        } else if chars_eq_str(&chars, "error") {
            Some(LogLevel::Error)
        } else {
            None
        }
    }
}

pub open spec fn spec_log_level(s: Seq<char>) -> Option<LogLevel> {
    if s == "info"@ {
        Some(LogLevel::Info)
    } else if s == "verbose"@ {
        Some(LogLevel::Verbose)
    } else if s == "debug"@ {
        Some(LogLevel::Debug)
    } else if s == "warning"@ {
        Some(LogLevel::Warn)
    } else if s == "error"@ {
        Some(LogLevel::Error)
    } else {
        None
    }
}

/// The kinds of objects the logs speak of.
#[derive(Clone, Copy, PartialEq, Eq, Structural, Debug, Hash)]
pub enum LogObjectType {
    Other,
    DB,
    Repl,
    Puller,
    Pusher,
    Query,
    QueryEnum,
}

/// The display name of an object kind.
pub open spec fn spec_object_type_name(t: LogObjectType) -> Seq<char> {
    match t {
        LogObjectType::Other => "None"@,
        LogObjectType::DB => "DB"@,
        LogObjectType::Repl => "Repl"@,
        LogObjectType::Puller => "Puller"@,
        LogObjectType::Pusher => "Pusher"@,
        LogObjectType::Query => "Query"@,
        LogObjectType::QueryEnum => "QueryEnum"@,
    }
}

pub fn object_type_name(t: &LogObjectType) -> (r: Vec<char>)
    ensures
        r@ == spec_object_type_name(*t),
{
    match t {
        LogObjectType::Other => chars_of("None"),
        LogObjectType::DB => chars_of("DB"),
        LogObjectType::Repl => chars_of("Repl"),
        LogObjectType::Puller => chars_of("Puller"),
        LogObjectType::Pusher => chars_of("Pusher"),
        LogObjectType::Query => chars_of("Query"),
        LogObjectType::QueryEnum => chars_of("QueryEnum"),
    }
}

/// One object a log speaks of: its kind, its unique id, and free-text
/// details gathered while parsing.
pub struct LogObject {
    pub object_type: LogObjectType,
    pub id: u64,
    pub details: String,
}

impl LogObject {
    /// The object's display name: `<Type>#<id>`.
    pub fn name(&self) -> (r: String)
        ensures
            r@ == spec_object_type_name(self.object_type) + seq!['#'] + dec_digits(self.id as nat),
    {
        let mut out = object_type_name(&self.object_type);
        out.push('#');
        let mut digits = render_u64(self.id);
        out.append(&mut digits);
        string_from_chars(&out)
    }

    /// The display name with the details on a second line.
    pub fn details(&self) -> (r: String)
        ensures
            r@ == spec_object_type_name(self.object_type) + seq!['#'] + dec_digits(self.id as nat)
                + seq!['\n'] + self.details@,
    {
        let mut out = object_type_name(&self.object_type);
        out.push('#');
        let mut digits = render_u64(self.id);
        out.append(&mut digits);
        out.push('\n');
        let mut tail = chars_of(self.details.as_str());
        out.append(&mut tail);
        string_from_chars(&out)
    }
}

/// The typed events the viewer distinguishes.
#[derive(Clone, Copy, PartialEq, Eq, Structural, Debug, Hash)]
pub enum DBEvent {
    Opening,
    TransactionBegin,
    TransactionCommit,
    TransactionAbort,
    DocSaved,
    ExpirationUpdate,
    ExpirationSet,
    DocDeleted,
    CheckpointSet,
    HousekeepingUpdate,
}

#[derive(Clone, Copy, PartialEq, Eq, Structural, Debug, Hash)]
pub enum ReplEvent {
    Started,
    Replicated,
    StatusUpdate,
    Checkpoint,
    DocProgress,
    ConflictScan,
    Config,
    RequestCheckpoint,
}

#[derive(Clone, Copy, PartialEq, Eq, Structural, Debug, Hash)]
pub enum PullerEvent {
    Started,
    HandledRevs,
    Checkpoint,
    Progress,
    ActivityUpdate,
    WaitingRevs,
    BackPressure,
}

#[derive(Clone, Copy, PartialEq, Eq, Structural, Debug, Hash)]
pub enum PusherEvent {
    Started,
    FoundChanges,
    CaughtUp,
    Progress,
    ActivityUpdate,
    ChangesResponse,
    QueueRev,
    SendRev,
    CheckpointUpdate,
    CompletedRev,
}

#[derive(Clone, Copy, PartialEq, Eq, Structural, Debug, Hash)]
pub enum QueryEnumEvent {
    ResultEnumerated,
}

#[derive(Clone, Copy, PartialEq, Eq, Structural, Debug, Hash)]
pub enum LogEventType {
    All,
    Created,
    Destroyed,
    Repl(ReplEvent),
    QueryEnum(QueryEnumEvent),
    DB(DBEvent),
    Puller(PullerEvent),
    Pusher(PusherEvent),
}

// ---------------------------------------------------------------------------
// per-object event probes, by substring
// ---------------------------------------------------------------------------

fn has(l: &Vec<char>, p: &str) -> (r: bool)
    ensures
        r == contains_seq(l@, p@),
{
    let pat = chars_of(p);
    contains_chars(l, &pat)
}

/// The database object's events, probed in order by message content.
pub open spec fn spec_db_event(l: Seq<char>) -> Option<LogEventType> {
    if contains_seq(l, "Opening database"@) {
        Some(LogEventType::Created)
    } else if contains_seq(l, "Closed SQLite"@) || contains_seq(l, "Closing database"@) {
        Some(LogEventType::Destroyed)
    } else if contains_seq(l, "Adding the `expiration`"@) || contains_seq(l, "KeyStore(info) set"@) {
        Some(LogEventType::DB(DBEvent::Opening))
    } else if contains_seq(l, "begin transaction"@) {
        Some(LogEventType::DB(DBEvent::TransactionBegin))
    } else if contains_seq(l, "commit transaction"@) {
        Some(LogEventType::DB(DBEvent::TransactionCommit))
    } else if contains_seq(l, "Transaction exiting scope without explicit"@) || contains_seq(
        l,
        "abort transaction"@,
    ) {
        Some(LogEventType::DB(DBEvent::TransactionAbort))
    } else if contains_seq(l, "Saved '"@) {
        Some(LogEventType::DB(DBEvent::DocSaved))
    } else if contains_seq(l, "Deleted '"@) || (contains_seq(l, "KeyStore(del"@) && contains_seq(
        l,
        ") insert"@,
    )) {
        Some(LogEventType::DB(DBEvent::DocDeleted))
    } else if contains_seq(l, "Next expiration time"@) {
        Some(LogEventType::DB(DBEvent::ExpirationUpdate))
    } else if contains_seq(l, "set expiration of"@) {
        Some(LogEventType::DB(DBEvent::ExpirationSet))
    } else if contains_seq(l, "KeyStore(checkpoints) set"@) {
        Some(LogEventType::DB(DBEvent::CheckpointSet))
    } else if contains_seq(l, "Housekeeping: "@) {
        Some(LogEventType::DB(DBEvent::HousekeepingUpdate))
    } else {
        None
    }
}

/// A database object, as a probe over its log lines.
pub struct DB;

impl DB {
    pub fn parse_event(line: &str) -> (r: Option<LogEventType>)
        ensures
            r == spec_db_event(line@),
    {
        let l = chars_of(line);
        if has(&l, "Opening database") {
            Some(LogEventType::Created)
        } else if has(&l, "Closed SQLite") || has(&l, "Closing database") {
            Some(LogEventType::Destroyed)
        } else if has(&l, "Adding the `expiration`") || has(&l, "KeyStore(info) set") {
            Some(LogEventType::DB(DBEvent::Opening))
        } else if has(&l, "begin transaction") {
            Some(LogEventType::DB(DBEvent::TransactionBegin))
        } else if has(&l, "commit transaction") {
            Some(LogEventType::DB(DBEvent::TransactionCommit))
        } else if has(&l, "Transaction exiting scope without explicit") || has(
            &l,
            "abort transaction",
        ) {
            Some(LogEventType::DB(DBEvent::TransactionAbort))
        } else if has(&l, "Saved '") {
            Some(LogEventType::DB(DBEvent::DocSaved))
        } else if has(&l, "Deleted '") || (has(&l, "KeyStore(del") && has(&l, ") insert")) {
            Some(LogEventType::DB(DBEvent::DocDeleted))
        } else if has(&l, "Next expiration time") {
            Some(LogEventType::DB(DBEvent::ExpirationUpdate))
        } else if has(&l, "set expiration of") {
            Some(LogEventType::DB(DBEvent::ExpirationSet))
        } else if has(&l, "KeyStore(checkpoints) set") {
            Some(LogEventType::DB(DBEvent::CheckpointSet))
        } else if has(&l, "Housekeeping: ") {
            Some(LogEventType::DB(DBEvent::HousekeepingUpdate))
        } else {
            None
        }
    }
}

pub open spec fn spec_puller_event(l: Seq<char>) -> Option<LogEventType> {
    if contains_seq(l, "Checkpoint now at '"@) {
        Some(LogEventType::Puller(PullerEvent::Checkpoint))
    } else if contains_seq(l, ") progress +"@) {
        Some(LogEventType::Puller(PullerEvent::Progress))
    } else if contains_seq(l, "Now waiting for "@) {
        Some(LogEventType::Puller(PullerEvent::WaitingRevs))
    } else if contains_seq(l, "revs were provisionally handled"@) {
        Some(LogEventType::Puller(PullerEvent::HandledRevs))
    } else if contains_seq(l, "Starting pull from remote seq"@) {
        Some(LogEventType::Created)
    } else if contains_seq(l, "activityLevel="@) {
        Some(LogEventType::Puller(PullerEvent::ActivityUpdate))
    } else if contains_seq(l, "msg[\"revocations\"]="@) {
        Some(LogEventType::Created)
    } else if contains_seq(l, "now busy"@) {
        Some(LogEventType::Puller(PullerEvent::Started))
    } else if contains_seq(l, "Back pressure"@) {
        Some(LogEventType::Puller(PullerEvent::BackPressure))
    } else if contains_seq(l, "now stopped"@) {
        Some(LogEventType::Destroyed)
    } else {
        None
    }
}

/// A puller object, as a probe over its log lines.
pub struct Puller;

impl Puller {
    pub fn parse_event(line: &str) -> (r: Option<LogEventType>)
        ensures
            r == spec_puller_event(line@),
    {
        let l = chars_of(line);
        if has(&l, "Checkpoint now at '") {
            Some(LogEventType::Puller(PullerEvent::Checkpoint))
        } else if has(&l, ") progress +") {
            Some(LogEventType::Puller(PullerEvent::Progress))
        } else if has(&l, "Now waiting for ") {
            Some(LogEventType::Puller(PullerEvent::WaitingRevs))
        } else if has(&l, "revs were provisionally handled") {
            Some(LogEventType::Puller(PullerEvent::HandledRevs))
        } else if has(&l, "Starting pull from remote seq") {
            Some(LogEventType::Created)
        } else if has(&l, "activityLevel=") {
            Some(LogEventType::Puller(PullerEvent::ActivityUpdate))
        } else if has(&l, "msg[\"revocations\"]=") {
            Some(LogEventType::Created)
        } else if has(&l, "now busy") {
            Some(LogEventType::Puller(PullerEvent::Started))
        } else if has(&l, "Back pressure") {
            Some(LogEventType::Puller(PullerEvent::BackPressure))
        } else if has(&l, "now stopped") {
            Some(LogEventType::Destroyed)
        } else {
            None
        }
    }
}

pub open spec fn spec_pusher_event(l: Seq<char>) -> Option<LogEventType> {
    if contains_seq(l, "Starting push from local seq"@) {
        Some(LogEventType::Created)
    } else if (contains_seq(l, "Found "@) && contains_seq(l, " changes up to"@)) || (contains_seq(
        l,
        "Read "@,
    ) && contains_seq(l, "local changes"@)) {
        Some(LogEventType::Pusher(PusherEvent::FoundChanges))
    } else if contains_seq(l, "Got response for "@) {
        Some(LogEventType::Pusher(PusherEvent::ChangesResponse))
    } else if contains_seq(l, "Caught up"@) {
        Some(LogEventType::Pusher(PusherEvent::CaughtUp))
    } else if contains_seq(l, "activityLevel="@) {
        Some(LogEventType::Pusher(PusherEvent::ActivityUpdate))
    } else if contains_seq(l, "now busy"@) {
        Some(LogEventType::Pusher(PusherEvent::Started))
    } else if contains_seq(l, ") progress +"@) {
        Some(LogEventType::Pusher(PusherEvent::Progress))
    } else if contains_seq(l, "now stopped"@) {
        Some(LogEventType::Destroyed)
    } else if contains_seq(l, "Sending rev '"@) || contains_seq(l, "Transmitting 'rev'"@) {
        Some(LogEventType::Pusher(PusherEvent::SendRev))
    } else if contains_seq(l, "Queueing rev '"@) {
        Some(LogEventType::Pusher(PusherEvent::QueueRev))
    } else if contains_seq(l, "Completed rev"@) {
        Some(LogEventType::Pusher(PusherEvent::CompletedRev))
    } else if contains_seq(l, "Checkpoint now"@) {
        Some(LogEventType::Pusher(PusherEvent::CheckpointUpdate))
    } else {
        None
    }
}

/// A pusher object, as a probe over its log lines.
pub struct Pusher;

impl Pusher {
    pub fn parse_event(line: &str) -> (r: Option<LogEventType>)
        ensures
            r == spec_pusher_event(line@),
    {
        let l = chars_of(line);
        if has(&l, "Starting push from local seq") {
            Some(LogEventType::Created)
        } else if (has(&l, "Found ") && has(&l, " changes up to")) || (has(&l, "Read ") && has(
            &l,
            "local changes",
        )) {
            Some(LogEventType::Pusher(PusherEvent::FoundChanges))
        } else if has(&l, "Got response for ") {
            Some(LogEventType::Pusher(PusherEvent::ChangesResponse))
        } else if has(&l, "Caught up") {
            Some(LogEventType::Pusher(PusherEvent::CaughtUp))
        } else if has(&l, "activityLevel=") {
            Some(LogEventType::Pusher(PusherEvent::ActivityUpdate))
        } else if has(&l, "now busy") {
            Some(LogEventType::Pusher(PusherEvent::Started))
        } else if has(&l, ") progress +") {
            Some(LogEventType::Pusher(PusherEvent::Progress))
        } else if has(&l, "now stopped") {
            Some(LogEventType::Destroyed)
        } else if has(&l, "Sending rev '") || has(&l, "Transmitting 'rev'") {
            Some(LogEventType::Pusher(PusherEvent::SendRev))
        } else if has(&l, "Queueing rev '") {
            Some(LogEventType::Pusher(PusherEvent::QueueRev))
        } else if has(&l, "Completed rev") {
            Some(LogEventType::Pusher(PusherEvent::CompletedRev))
        } else if has(&l, "Checkpoint now") {
            Some(LogEventType::Pusher(PusherEvent::CheckpointUpdate))
        } else {
            None
        }
    }
}

pub open spec fn spec_repl_event(l: Seq<char>) -> Option<LogEventType> {
    if contains_seq(l, "{\"Push\":"@) {
        Some(LogEventType::Created)
    } else if contains_seq(l, "Replicator status"@) || contains_seq(l, "activityLevel="@)
        || contains_seq(l, "pushStatus="@) {
        Some(LogEventType::Repl(ReplEvent::StatusUpdate))
    } else if contains_seq(l, "progress +"@) {
        Some(LogEventType::Repl(ReplEvent::DocProgress))
    } else if contains_seq(l, "Saving remote checkpoint"@) || contains_seq(
        l,
        "Read local checkpoint"@,
    ) || contains_seq(l, "Received remote checkpoint"@) || contains_seq(
        l,
        "Saved remote checkpoint"@,
    ) || contains_seq(l, "Saved local checkpoint"@) || contains_seq(l, "No remote checkpoint"@)
        || contains_seq(l, "No local checkpoint"@) {
        Some(LogEventType::Repl(ReplEvent::Checkpoint))
    } else if contains_seq(l, "now busy"@) || contains_seq(l, "Connected!"@) {
        Some(LogEventType::Repl(ReplEvent::Started))
    } else if contains_seq(l, "Told to stop"@) || contains_seq(l, "now stopped"@) {
        Some(LogEventType::Destroyed)
    } else if contains_seq(l, "Scanning for pre-existing conflicts"@) || contains_seq(
        l,
        "conflicted docs in "@,
    ) {
        Some(LogEventType::Repl(ReplEvent::ConflictScan))
    } else if contains_seq(l, "Remote-DB ID"@) || contains_seq(l, "Ignoring local checkpoint"@) {
        Some(LogEventType::Repl(ReplEvent::Config))
    } else if contains_seq(l, "Requesting remote checkpoint"@) {
        Some(LogEventType::Repl(ReplEvent::RequestCheckpoint))
    } else if contains_seq(l, "Replication complete!"@) || contains_seq(l, "Connection closed"@) {
        Some(LogEventType::Destroyed)
    } else {
        None
    }
}

/// One collection scanned off the front of the remaining line: its name,
/// push and pull modes, and the rest of the line after the match.
pub open spec fn config_step(s: Seq<char>) -> Option<(Seq<char>, ReplMode, ReplMode, Seq<char>)> {
    match regex_match_text(repl_config_pattern_text(), s) {
        None => None,
        Some(m) => {
            if m.len() == 0 || m.len() > s.len() {
                None
            } else {
                match (
                    regex_group(repl_config_pattern_text(), s, "coll"@),
                    regex_group(repl_config_pattern_text(), s, "push"@),
                    regex_group(repl_config_pattern_text(), s, "pull"@),
                ) {
                    (Some(name), Some(pu), Some(pl)) => match (
                        spec_repl_mode(pu),
                        spec_repl_mode(pl),
                    ) {
                        (Some(a), Some(b)) => Some((name, a, b, s.skip(m.len() as int))),
                        _ => None,
                    },
                    _ => None,
                }
            }
        },
    }
}

/// `cs[k..]` are the successive collection matches scanning from `s`,
/// indexed in order, ending with `s2` left over.
pub open spec fn colls_step_to(s: Seq<char>, cs: Seq<ReplCollection>, k: int, s2: Seq<char>) -> bool
    decreases cs.len() - k,
{
    if k < 0 || k >= cs.len() {
        s2 == s
    } else {
        match config_step(s) {
            None => false,
            Some(st) => cs[k].name@ == st.0 && cs[k].push == st.1 && cs[k].pull == st.2
                && cs[k].index == k && colls_step_to(st.3, cs, k + 1, s2),
        }
    }
}

/// Appending one more matching collection extends the scan.
proof fn lemma_colls_snoc(
    s: Seq<char>,
    cs: Seq<ReplCollection>,
    k: int,
    s2: Seq<char>,
    c: ReplCollection,
    s3: Seq<char>,
)
    requires
        0 <= k <= cs.len(),
        colls_step_to(s, cs, k, s2),
        config_step(s2) matches Some(st) && c.name@ == st.0 && c.push == st.1 && c.pull == st.2
            && c.index == cs.len() && st.3 == s3,
    ensures
        colls_step_to(s, cs.push(c), k, s3),
    decreases cs.len() - k,
{
    if k >= cs.len() {
        assert(cs.push(c)[k] == c);
        assert(colls_step_to(s3, cs.push(c), k + 1, s3));
    } else {
        let st = config_step(s)->0;
        assert(cs.push(c)[k] == cs[k]);
        lemma_colls_snoc(st.3, cs, k + 1, s2, c, s3);
    }
}

impl Repl {
    /// The replicator's events, probed in order by message content.
    pub fn parse_event(line: &str) -> (r: Option<LogEventType>)
        ensures
            r == spec_repl_event(line@),
    {
        let l = chars_of(line);
        if has(&l, "{\"Push\":") {
            Some(LogEventType::Created)
        } else if has(&l, "Replicator status") || has(&l, "activityLevel=") || has(
            &l,
            "pushStatus=",
        ) {
            Some(LogEventType::Repl(ReplEvent::StatusUpdate))
        } else if has(&l, "progress +") {
            Some(LogEventType::Repl(ReplEvent::DocProgress))
        } else if has(&l, "Saving remote checkpoint") || has(&l, "Read local checkpoint") || has(
            &l,
            "Received remote checkpoint",
        ) || has(&l, "Saved remote checkpoint") || has(&l, "Saved local checkpoint") || has(
            &l,
            "No remote checkpoint",
        ) || has(&l, "No local checkpoint") {
            Some(LogEventType::Repl(ReplEvent::Checkpoint))
        } else if has(&l, "now busy") || has(&l, "Connected!") {
            Some(LogEventType::Repl(ReplEvent::Started))
        } else if has(&l, "Told to stop") || has(&l, "now stopped") {
            Some(LogEventType::Destroyed)
        } else if has(&l, "Scanning for pre-existing conflicts") || has(
            &l,
            "conflicted docs in ",
        ) {
            Some(LogEventType::Repl(ReplEvent::ConflictScan))
        } else if has(&l, "Remote-DB ID") || has(&l, "Ignoring local checkpoint") {
            Some(LogEventType::Repl(ReplEvent::Config))
        } else if has(&l, "Requesting remote checkpoint") {
            Some(LogEventType::Repl(ReplEvent::RequestCheckpoint))
        } else if has(&l, "Replication complete!") || has(&l, "Connection closed") {
            Some(LogEventType::Destroyed)
        } else {
            None
        }
    }
}

/// The id at the end of a matched object snippet such as `Repl#42`: the
/// digits after the last `#`.
pub fn parse_id(snippet: &str) -> (r: Option<u64>)
    ensures
        r == parse_dec_u64(
            snippet@.skip(crate::file_parser::rfind_char(snippet@, '#') + 1),
        ),
{
    let chars = chars_of(snippet);
    let mut i: usize = chars.len();
    proof {
        assert(chars@.subrange(0, chars@.len() as int) =~= chars@);
    }
    while i > 0
        invariant
            i <= chars@.len(),
            chars@ == snippet@,
            crate::file_parser::rfind_char(snippet@, '#') == crate::file_parser::rfind_char(
                snippet@.subrange(0, i as int),
                '#',
            ),
        decreases i,
    {
        let ghost pre = snippet@.subrange(0, i as int);
        proof {
            assert(pre.last() == snippet@[i - 1]);
            assert(pre.drop_last() =~= snippet@.subrange(0, i - 1));
        }
        if chars[i - 1] == '#' {
            let r = parse_u64_range(&chars, i, chars.len());
            proof {
                assert(snippet@.skip(i as int) =~= snippet@.subrange(
                    i as int,
                    snippet@.len() as int,
                ));
            }
            return r;
        }
        i = i - 1;
    }
    proof {
        assert(snippet@.subrange(0, 0) =~= Seq::<char>::empty());
        assert(snippet@.skip(0) =~= snippet@);
    }
    let r = parse_u64_range(&chars, 0, chars.len());
    r
}

/// Find an object id in a whole line: the object pattern must match, the
/// text just before the match must end in `: {` (the brace that opens an
/// object reference), and the id is the one `parse_id` reads from the
/// matched snippet.
pub fn parse_object_id(re: &Pattern, line: &str) -> (r: Option<u64>)
    ensures
        match (regex_match_text(re.src(), line@), regex_prefix(re.src(), line@)) {
            (Some(m), Some(p)) => {
                if p.len() >= 3 && p.skip(p.len() - 3) == ": {"@ {
                    r == parse_dec_u64(m.skip(crate::file_parser::rfind_char(m, '#') + 1))
                } else {
                    r is None
                }
            },
            _ => r is None,
        },
{
    let m = match re.match_text(line) {
        Some(m) => m,
        None => {
            return None;
        },
    };
    let p = match re.prefix_to_match(line) {
        Some(p) => p,
        None => {
            return None;
        },
    };
    let pc = chars_of(p.as_str());
    let n = pc.len();
    proof {
        reveal_strlit(": {");
    }
    if n >= 3 && pc[n - 3] == ':' && pc[n - 2] == ' ' && pc[n - 1] == '{' {
        proof {
            assert(p@.skip(n - 3) =~= ": {"@);
        }
        parse_id(m.as_str())
    } else {
        proof {
            if n >= 3 && p@.skip(n - 3) == ": {"@ {
                assert(p@.skip(n - 3)[0] == pc@[n - 3]);
                assert(p@.skip(n - 3)[1] == pc@[n - 2]);
                assert(p@.skip(n - 3)[2] == pc@[n - 1]);
                assert(false);
            }
        }
        None
    }
}

// ---------------------------------------------------------------------------
// replication configuration
// ---------------------------------------------------------------------------

/// How one side of a replication runs.
#[derive(Clone, Copy, PartialEq, Eq, Structural, Debug)]
pub enum ReplMode {
    Disabled,
    Passive,
    OneShot,
    Continuous,
}

pub open spec fn spec_repl_mode(s: Seq<char>) -> Option<ReplMode> {
    if s == "disabled"@ {
        Some(ReplMode::Disabled)
    } else if s == "passive"@ {
        Some(ReplMode::Passive)
    } else if s == "one-shot"@ {
        Some(ReplMode::OneShot)
    } else if s == "continuous"@ {
        Some(ReplMode::Continuous)
    } else {
        None
    }
}

impl ReplMode {
    pub fn from_str(s: &str) -> (r: Option<ReplMode>)
        ensures
            r == spec_repl_mode(s@),
    {
        let chars = chars_of(s);
        if chars_eq_str(&chars, "disabled") {
            Some(ReplMode::Disabled)
        } else if chars_eq_str(&chars, "passive") {
            Some(ReplMode::Passive)
        } else if chars_eq_str(&chars, "one-shot") {
            Some(ReplMode::OneShot)
        } else if chars_eq_str(&chars, "continuous") {
            Some(ReplMode::Continuous)
        } else {
            None
        }
    }
}

/// One replicated collection: its name, its position in the config, and
/// its push and pull modes.
pub struct ReplCollection {
    pub name: String,
    pub index: usize,
    pub push: ReplMode,
    pub pull: ReplMode,
}

/// A replicator's configuration: its collections and its destination.
pub struct ReplConfig {
    pub collections: Vec<ReplCollection>,
    pub destination: String,
}

pub open spec fn repl_config_pattern_text() -> Seq<char> {
    "\\{Coll#[0-9]+} \"(?<coll>\\w+)\": \\{\"Push\": (?<push>disabled|one-shot|continuous|passive), \"Pull\": (?<pull>disabled|one-shot|continuous|passive)"@
}

/// A replicator object, as parsed from its configuration lines.
pub struct Repl;

impl Repl {
    /// Parse the collections of a replicator's configuration line: each
    /// match of the collection pattern yields one entry; the scan resumes
    /// past each match's length. At least one collection must parse.
    pub fn parse_config(line: &str) -> (r: Result<ReplConfig, Error>)
        ensures
            match r {
                Ok(c) => {
                    &&& c.collections@.len() >= 1
                    &&& forall|i: int|
                        0 <= i < c.collections@.len() ==> (#[trigger] c.collections@[i]).index
                            == i
                    // the collections are the successive matches of the
                    // collection pattern, names and modes included
                    &&& exists|s2: Seq<char>|
                        #[trigger] colls_step_to(line@, c.collections@, 0, s2)
                },
                Err(e) => e is CannotParse,
            },
    {
        let re = match Pattern::compile(
            "\\{Coll#[0-9]+} \"(?<coll>\\w+)\": \\{\"Push\": (?<push>disabled|one-shot|continuous|passive), \"Pull\": (?<pull>disabled|one-shot|continuous|passive)",
        ) {
            Some(p) => p,
            None => {
                return Err(Error::CannotParse(String::from_str("Invalid collection pattern")));
            },
        };
        let mut rest = chars_of(line);
        let mut collections: Vec<ReplCollection> = Vec::new();
        let mut index: usize = 0;
        loop
            invariant
                index == collections@.len(),
                forall|i: int|
                    0 <= i < collections@.len() ==> (#[trigger] collections@[i]).index == i,
                re.src() == repl_config_pattern_text(),
                colls_step_to(line@, collections@, 0, rest@),
            decreases rest@.len(),
        {
            let ghost rest_h = rest@;
            let ghost cs_pre = collections@;
            let text = string_from_chars(&rest);
            let whole = match re.match_text(text.as_str()) {
                Some(m) => m,
                None => {
                    break ;
                },
            };
            let coll = re.group(text.as_str(), "coll");
            let push_tok = re.group(text.as_str(), "push");
            let pull_tok = re.group(text.as_str(), "pull");
            let (coll, push_tok, pull_tok) = match (coll, push_tok, pull_tok) {
                (Some(a), Some(b), Some(c)) => (a, b, c),
                _ => {
                    return Err(
                        Error::CannotParse(
                            String::from_str("Collection match without its captures"),
                        ),
                    );
                },
            };
            let push = match ReplMode::from_str(push_tok.as_str()) {
                Some(m) => m,
                None => {
                    return Err(Error::CannotParse(String::from_str("Unknown replication mode")));
                },
            };
            let pull = match ReplMode::from_str(pull_tok.as_str()) {
                Some(m) => m,
                None => {
                    return Err(Error::CannotParse(String::from_str("Unknown replication mode")));
                },
            };
            let whole_chars = chars_of(whole.as_str());
            if whole_chars.len() == 0 || whole_chars.len() > rest.len() {
                // an empty or over-long match cannot advance the scan
                break ;
            }
            if index == usize::MAX {
                break ;
            }
            let wlen = whole_chars.len();
            proof {
                assert(whole_chars@ == whole@);
                assert(re.src() == repl_config_pattern_text());
                assert(rest_h == text@);
                assert(regex_match_text(repl_config_pattern_text(), rest_h) == Some(whole@));
                assert(regex_group(repl_config_pattern_text(), rest_h, "coll"@) == Some(coll@));
                assert(regex_group(repl_config_pattern_text(), rest_h, "push"@) == Some(
                    push_tok@,
                ));
                assert(regex_group(repl_config_pattern_text(), rest_h, "pull"@) == Some(
                    pull_tok@,
                ));
                assert(spec_repl_mode(push_tok@) == Some(push));
                assert(spec_repl_mode(pull_tok@) == Some(pull));
                assert(whole@.len() != 0 && whole@.len() <= rest_h.len());
                assert(config_step(rest_h) == Some(
                    (coll@, push, pull, rest_h.skip(wlen as int)),
                ));
            }
            collections.push(ReplCollection { name: coll, index, push, pull });
            index = index + 1;
            let mut advanced: Vec<char> = Vec::new();
            let mut k: usize = wlen;
            let rlen = rest.len();
            while k < rlen
                invariant
                    wlen <= k <= rlen,
                    rlen == rest@.len(),
                    rest@ == rest_h,
                    advanced@ == rest_h.subrange(wlen as int, k as int),
                decreases rlen - k,
            {
                proof {
                    assert(rest_h.subrange(wlen as int, k + 1) =~= rest_h.subrange(
                        wlen as int,
                        k as int,
                    ).push(rest_h[k as int]));
                }
                advanced.push(rest[k]);
                k = k + 1;
            }
            proof {
                assert(advanced@ =~= rest_h.skip(wlen as int));
                assert(wlen >= 1);
                lemma_colls_snoc(
                    line@,
                    cs_pre,
                    0,
                    rest_h,
                    (ReplCollection {
                        name: coll,
                        index: (index - 1) as usize,
                        push,
                        pull,
                    }),
                    rest_h.skip(wlen as int),
                );
                assert(collections@ == cs_pre.push(
                    ReplCollection { name: coll, index: (index - 1) as usize, push, pull },
                ));
            }
            rest = advanced;
        }
        if collections.len() == 0 {
            return Err(
                Error::CannotParse(String::from_str("No collections in configuration line")),
            );
        }
        Ok(ReplConfig { collections, destination: String::new() })
    }

    /// The remote target named on a `Remote-DB ID` line.
    pub fn parse_target(line: &str) -> (r: Result<String, Error>)
        ensures
            match r {
                Ok(t) => regex_group(
                    "Remote-DB ID \\d found for target <(?<target>\\S+)>"@,
                    line@,
                    "target"@,
                ) == Some(t@),
                Err(e) => e is CannotParse,
            },
    {
        let re = match Pattern::compile("Remote-DB ID \\d found for target <(?<target>\\S+)>") {
            Some(p) => p,
            None => {
                return Err(Error::CannotParse(String::from_str("Invalid target pattern")));
            },
        };
        match re.group(line, "target") {
            Some(t) => Ok(t),
            None => Err(Error::CannotParse(String::from_str("No remote target in line"))),
        }
    }

    /// The replicator's own id on a `C4Replicator#<id>` line.
    pub fn parse_c4id(line: &str) -> (r: Result<u64, Error>)
        ensures
            match r {
                Ok(v) => regex_group("\\w*C4Replicator#(?<id>\\d+)"@, line@, "id"@) matches Some(t)
                    && parse_dec_u64(t) == Some(v),
                Err(e) => e is CannotParse,
            },
    {
        let re = match Pattern::compile("\\w*C4Replicator#(?<id>\\d+)") {
            Some(p) => p,
            None => {
                return Err(Error::CannotParse(String::from_str("Invalid id pattern")));
            },
        };
        match re.group(line, "id") {
            Some(t) => {
                let chars = chars_of(t.as_str());
                match crate::text::parse_u64(&chars) {
                    Some(v) => Ok(v),
                    None => Err(Error::CannotParse(String::from_str("Id is not a number"))),
                }
            },
            None => Err(Error::CannotParse(String::from_str("No replicator id in line"))),
        }
    }
}

// ---------------------------------------------------------------------------
// platforms and connection states
// ---------------------------------------------------------------------------

/// The runtime platforms a log banner can name.
#[derive(Clone, Copy, PartialEq, Eq, Structural, Debug)]
pub enum Platform {
    C,
    Swift,
    Java,
    Android,
    DotNET,
}

pub open spec fn spec_platform(s: Seq<char>) -> Option<Platform> {
    if s == ".NET"@ {
        Some(Platform::DotNET)
    } else if s == "Swift"@ {
        Some(Platform::Swift)
    } else if s == "Java"@ {
        Some(Platform::Java)
    } else if s == "Android"@ {
        Some(Platform::Android)
    } else if s == "C"@ {
        Some(Platform::C)
    } else {
        None
    }
}

impl Platform {
    pub fn from_str(s: &str) -> (r: Option<Platform>)
        ensures
            r == spec_platform(s@),
    {
        let chars = chars_of(s);
        if chars_eq_str(&chars, ".NET") {
            Some(Platform::DotNET)
        } else if chars_eq_str(&chars, "Swift") {
            Some(Platform::Swift)
        } else if chars_eq_str(&chars, "Java") {
            Some(Platform::Java)
        } else if chars_eq_str(&chars, "Android") {
            Some(Platform::Android)
        } else if chars_eq_str(&chars, "C") {
            Some(Platform::C)
        } else {
            None
        }
    }
}

/// The states a BLIP connection reports, as their logged discriminants.
#[derive(Clone, Copy, PartialEq, Eq, Structural, Debug)]
pub enum BLIPConnectionState {
    Disconnected,
    Closed,
    Connecting,
    Connected,
    Closing,
}

pub open spec fn spec_blip_state(v: int) -> Option<BLIPConnectionState> {
    if v == -1 {
        Some(BLIPConnectionState::Disconnected)
    } else if v == 0 {
        Some(BLIPConnectionState::Closed)
    } else if v == 1 {
        Some(BLIPConnectionState::Connecting)
    } else if v == 2 {
        Some(BLIPConnectionState::Connected)
    } else if v == 3 {
        Some(BLIPConnectionState::Closing)
    } else {
        None
    }
}

impl BLIPConnectionState {
    /// The state a logged discriminant token names: `-1` through `3`.
    pub fn from_str(s: &str) -> (r: Result<BLIPConnectionState, Error>)
        ensures
            match r {
                Ok(st) => crate::text::parse_dec_i64(s@) matches Some(v) && spec_blip_state(
                    v as int,
                ) == Some(st),
                Err(e) => e is CannotParse && (match crate::text::parse_dec_i64(s@) {
                    Some(v) => spec_blip_state(v as int) is None,
                    None => true,
                }),
            },
    {
        let chars = chars_of(s);
        match crate::text::parse_i64(&chars) {
            Some(v) => {
                if v == -1 {
                    Ok(BLIPConnectionState::Disconnected)
                } else if v == 0 {
                    Ok(BLIPConnectionState::Closed)
                } else if v == 1 {
                    Ok(BLIPConnectionState::Connecting)
                } else if v == 2 {
                    Ok(BLIPConnectionState::Connected)
                } else if v == 3 {
                    Ok(BLIPConnectionState::Closing)
                } else {
                    Err(Error::CannotParse(String::from_str("No such connection state")))
                }
            },
            None => Err(Error::CannotParse(String::from_str("Connection state is not a number"))),
        }
    }
}

// ---------------------------------------------------------------------------
// text helpers the viewer offers
// ---------------------------------------------------------------------------

/// Cut text to a number of characters, on character boundaries.
pub trait Truncate: vstd::view::View<V = Seq<char>> {
    fn truncate(&self, max_len: usize) -> (r: &Self)
        ensures
            r@ == if self@.len() <= max_len {
                self@
            } else {
                self@.subrange(0, max_len as int)
            },
    ;
}

impl Truncate for str {
    fn truncate(&self, max_len: usize) -> (r: &Self) {
        let n = self.unicode_len();
        if n <= max_len {
            proof {
                assert(self@.subrange(0, self@.len() as int) =~= self@);
            }
            self.substring_char(0, n)
        } else {
            self.substring_char(0, max_len)
        }
    }
}

/// What case folding makes of a text. Relies on `str::to_lowercase`: the
/// result depends on the characters alone.
pub uninterp spec fn lower_of(s: Seq<char>) -> Seq<char>;

#[verifier::external_body]
fn lowercase(s: &str) -> (r: String)
    ensures
        r@ == lower_of(s@),
{
    s.to_lowercase()
}

/// Whether a character is lowercase. Relies on `char::is_lowercase`.
pub uninterp spec fn lower_char(c: char) -> bool;

#[verifier::external_body]
fn char_is_lowercase(c: char) -> (r: bool)
    ensures
        r == lower_char(c),
{
    c.is_lowercase()
}

/// Whether a character is alphabetic. Relies on `char::is_alphabetic`.
pub uninterp spec fn alpha_char(c: char) -> bool;

#[verifier::external_body]
fn char_is_alphabetic(c: char) -> (r: bool)
    ensures
        r == alpha_char(c),
{
    c.is_alphabetic()
}

/// A pattern with no uppercase letters in it.
pub open spec fn lowerish(s: Seq<char>) -> bool {
    forall|i: int| 0 <= i < s.len() ==> lower_char(#[trigger] s[i]) || !alpha_char(s[i])
}

/// Substring search that ignores case exactly when the pattern itself is
/// lowercase: a lowercase pattern searches the folded text; any other
/// pattern searches as written.
pub trait ContainsWithCase: vstd::view::View<V = Seq<char>> {
    fn contains_with_case(&self, pattern: &str) -> (r: bool)
        ensures
            r == if lowerish(pattern@) {
                contains_seq(lower_of(self@), pattern@)
            } else {
                contains_seq(self@, pattern@)
            },
    ;
}

impl ContainsWithCase for str {
    fn contains_with_case(&self, pattern: &str) -> (r: bool) {
        let pchars = chars_of(pattern);
        let mut lower_ok = true;
        let mut i: usize = 0;
        while i < pchars.len()
            invariant
                i <= pchars@.len(),
                pchars@ == pattern@,
                lower_ok == (forall|k: int|
                    0 <= k < i ==> lower_char(#[trigger] pchars@[k]) || !alpha_char(pchars@[k])),
            decreases pchars@.len() - i,
        {
            let c = pchars[i];
            let this_ok = char_is_lowercase(c) || !char_is_alphabetic(c);
            proof {
                if !this_ok {
                    assert(!(lower_char(pchars@[i as int]) || !alpha_char(pchars@[i as int])));
                }
            }
            lower_ok = lower_ok && this_ok;
            i = i + 1;
        }
        if lower_ok {
            let folded = lowercase(self);
            let fchars = chars_of(folded.as_str());
            contains_chars(&fchars, &pchars)
        } else {
            let schars = chars_of(self);
            contains_chars(&schars, &pchars)
        }
    }
}

// ---------------------------------------------------------------------------
// the interface's navigation and list state
// ---------------------------------------------------------------------------

/// The menus the interface walks between.
#[derive(Clone, Copy, PartialEq, Eq, Structural, Debug)]
pub enum Menu {
    MainMenu,
    ObjectList,
    ReplList,
    LogView,
}

impl Menu {
    /// The menu one step back in the hierarchy; the main menu stays put.
    pub fn back(&self) -> (r: Menu)
        ensures
            r == match *self {
                Menu::MainMenu => Menu::MainMenu,
                Menu::ObjectList => Menu::MainMenu,
                Menu::ReplList => Menu::ObjectList,
                Menu::LogView => Menu::ReplList,
            },
    {
        match self {
            Menu::MainMenu => Menu::MainMenu,
            Menu::ObjectList => Menu::MainMenu,
            Menu::ReplList => Menu::ObjectList,
            Menu::LogView => Menu::ReplList,
        }
    }

    /// The menu's display title.
    pub fn title(&self) -> (r: String)
        ensures
            r@ == match *self {
                Menu::MainMenu => "Main Menu"@,
                Menu::ObjectList => "Object List"@,
                Menu::ReplList => "Repl Objects"@,
                Menu::LogView => "Log View"@,
            },
    {
        match self {
            Menu::MainMenu => String::from_str("Main Menu"),
            Menu::ObjectList => String::from_str("Object List"),
            Menu::ReplList => String::from_str("Repl Objects"),
            Menu::LogView => String::from_str("Log View"),
        }
    }
}

/// The list widget's selection state.
#[derive(Clone, Debug)]
pub struct ListState {
    pub hovered_option: Option<u64>,
    pub last_selected_index: Option<(u64, u64)>,
}

impl Default for ListState {
    fn default() -> (r: ListState)
        ensures
            r.hovered_option is None && r.last_selected_index is None,
    {
        ListState { hovered_option: None, last_selected_index: None }
    }
}

/// One table row: the item it stands for and its rendered cells.
pub struct Row<T> {
    pub item: T,
    pub cells: Vec<String>,
}

impl<T: Clone> Row<T> {
    /// A row over a clone of the item, with the given cells.
    pub fn new_with(item: &T, cells: Vec<String>) -> (r: Row<T>)
        ensures
            r.cells == cells,
    {
        Row { item: item.clone(), cells }
    }
}

/// A list of items with a movable selection.
pub struct StatefulList<T> {
    pub items: Vec<T>,
    pub selected: Option<usize>,
    pub last_selected: Option<usize>,
}

impl<T> StatefulList<T> {
    pub fn with_items(items: Vec<T>) -> (r: StatefulList<T>)
        ensures
            r.items == items,
            r.selected is None,
            r.last_selected is None,
    {
        StatefulList { items, selected: None, last_selected: None }
    }

    pub fn set_items(&mut self, items: Vec<T>)
        ensures
            final(self).items == items,
            final(self).selected == old(self).selected,
            final(self).last_selected == old(self).last_selected,
    {
        self.items = items;
    }

    /// Move the selection down one row, wrapping at the end; an empty
    /// selection resumes at the last remembered row.
    pub fn next(&mut self)
        ensures
            final(self).items == old(self).items,
            final(self).last_selected == old(self).last_selected,
            final(self).selected == Some(
                match old(self).selected {
                    Some(i) => if i + 1 >= old(self).items@.len() {
                        0usize
                    } else {
                        (i + 1) as usize
                    },
                    None => match old(self).last_selected {
                        Some(j) => j,
                        None => 0usize,
                    },
                },
            ),
    {
        let n = self.items.len();
        let i = match self.selected {
            Some(i) => {
                if n == 0 || i >= n - 1 {
                    0
                } else {
                    i + 1
                }
            },
            None => match self.last_selected {
                Some(j) => j,
                None => 0,
            },
        };
        self.selected = Some(i);
    }

    /// Move the selection up one row, wrapping at the start; an empty
    /// selection resumes at the last remembered row.
    pub fn previous(&mut self)
        requires
            (old(self).selected matches Some(i) && i == 0) ==> old(self).items@.len() >= 1,
        ensures
            final(self).items == old(self).items,
            final(self).last_selected == old(self).last_selected,
            final(self).selected == Some(
                match old(self).selected {
                    Some(i) => if i == 0 {
                        ((old(self).items@.len() as int - 1) as usize)
                    } else {
                        (i - 1) as usize
                    },
                    None => match old(self).last_selected {
                        Some(j) => j,
                        None => 0usize,
                    },
                },
            ),
    {
        let i = match self.selected {
            Some(i) => {
                if i == 0 {
                    self.items.len() - 1
                } else {
                    i - 1
                }
            },
            None => match self.last_selected {
                Some(j) => j,
                None => 0,
            },
        };
        self.selected = Some(i);
    }

    /// Clear the selection, remembering it for the next move.
    pub fn unselect(&mut self)
        ensures
            final(self).items == old(self).items,
            final(self).selected is None,
            final(self).last_selected == old(self).selected,
    {
        self.last_selected = self.selected;
        self.selected = None;
    }
}

/// The database file's name for a given output name: the extension (the
/// part after the last dot, when one stands past the first position)
/// replaced by `sqlite`.
pub open spec fn spec_sqlite_file_name(s: Seq<char>) -> Seq<char> {
    let dot = crate::file_parser::rfind_char(s, '.');
    if dot > 0 {
        s.subrange(0, dot) + ".sqlite"@
    } else {
        s + ".sqlite"@
    }
}

fn rfind_dot(s: &Vec<char>) -> (r: Option<usize>)
    ensures
        match r {
            Some(i) => i < s@.len() && crate::file_parser::rfind_char(s@, '.') == i,
            None => crate::file_parser::rfind_char(s@, '.') == -1,
        },
{
    let mut i: usize = s.len();
    proof {
        assert(s@.subrange(0, s@.len() as int) =~= s@);
    }
    while i > 0
        invariant
            i <= s@.len(),
            crate::file_parser::rfind_char(s@, '.') == crate::file_parser::rfind_char(
                s@.subrange(0, i as int),
                '.',
            ),
        decreases i,
    {
        let ghost pre = s@.subrange(0, i as int);
        proof {
            assert(pre.last() == s@[i - 1]);
            assert(pre.drop_last() =~= s@.subrange(0, i - 1));
        }
        if s[i - 1] == '.' {
            return Some(i - 1);
        }
        i = i - 1;
    }
    proof {
        assert(s@.subrange(0, 0) =~= Seq::<char>::empty());
    }
    None
}

pub fn sqlite_file_name(name: &str) -> (r: String)
    ensures
        r@ == spec_sqlite_file_name(name@),
{
    let chars = chars_of(name);
    let cut: usize = match rfind_dot(&chars) {
        Some(i) if i > 0 => i,
        _ => chars.len(),
    };
    let mut out: Vec<char> = Vec::new();
    let mut k: usize = 0;
    while k < cut
        invariant
            k <= cut <= chars@.len(),
            chars@ == name@,
            out@ =~= name@.subrange(0, k as int),
        decreases cut - k,
    {
        out.push(chars[k]);
        assert(out@ =~= name@.subrange(0, k + 1 as int));
        k = k + 1;
    }
    proof {
        if cut == chars@.len() {
            assert(out@ =~= name@);
        }
    }
    proof {
        reveal_strlit(".sqlite");
    }
    let mut ext = chars_of(".sqlite");
    out.append(&mut ext);
    string_from_chars(&out)
}

} // verus!
