use lumberjack::Version;
use lumberjack::catalog::{default_catalog, event_type_names};
use lumberjack::file_parser::FileParser;
use lumberjack::level::Level;
use lumberjack::line_parser::{Line, PlatformRuntime};
use lumberjack::probe::patterns_for_lines;

const BANNER: &str = "---- CouchbaseLite/3.2.0 (.NET; Microsoft Windows 10.0.22621) Build/1 LiteCore/3.2.0 (1) Commit/86734653b94fa6db+7f0707145d9db2af ----";

fn full_runtime() -> (PlatformRuntime, Vec<String>) {
    let catalog = default_catalog().expect("catalog");
    let names = event_type_names(&catalog);
    let entry = &catalog[1];
    let rt = PlatformRuntime::compile(&entry.set, &entry.set.platforms[0], &names).expect("compile");
    (rt, names)
}

fn partial_runtime() -> (PlatformRuntime, Vec<String>) {
    let catalog = default_catalog().expect("catalog");
    let names = event_type_names(&catalog);
    let entry = &catalog[0];
    let rt = PlatformRuntime::compile(&entry.set, &entry.set.platforms[0], &names).expect("compile");
    (rt, names)
}

fn parse_corpus(data: &[&str]) -> lumberjack::file_parser::FileOutput {
    let (rt, _names) = full_runtime();
    let parser = FileParser { runtime: rt, file_id: 0 };
    let lines: Vec<String> = data.iter().map(|s| s.to_string()).collect();
    parser
        .parse("cbl_1702078763252", "test.cbllog".to_string(), &lines, None)
        .expect("file parse")
}

/// A field of one of the engine's JSON objects, which never hold escapes in
/// these corpora.
fn json_field(json: &str, name: &str) -> Option<String> {
    let needle = format!("\"{}\":", name);
    let at = json.find(&needle)? + needle.len();
    let rest = &json[at..];
    if let Some(stripped) = rest.strip_prefix('"') {
        let end = stripped.find('"')?;
        Some(stripped[..end].to_string())
    } else {
        let end = rest.find(|c| c == ',' || c == '}').unwrap_or(rest.len());
        Some(rest[..end].to_string())
    }
}

fn event_name(names: &[String], line: &Line) -> String {
    names[line.event_type as usize].clone()
}

#[test]
fn find_uninserted_revs() {
    let corpus = [
        BANNER,
        "2023-12-08T23:39:23.252743 Sync Verbose Obj=/IncomingRev#106/ Coll=0 Received revision 'project::9243bc22-9576-4e38-815f-6ee47e3d9032' #2-d57dc7e01da7cc97c114f919c10553cd (seq '\"18074:394\"')",
        "2023-12-08T23:39:23.253369 Sync Verbose Obj=/IncomingRev#107/ Coll=0 Received revision 'administrativegroup::10c751a7-105f-4c3f-9970-97fe5607a4fb' #1-60c2473c82d69822de6eb1737d563168 (seq '\"18074:432\"')",
        "2023-12-08T23:39:23.253493 Sync Verbose Obj=/IncomingRev#108/ Coll=0 Received revision 'project::b2d44c1c-1dd1-4f49-a939-99cbeb388dfc' #2-e9f91077c5126dd7f5bd464ea8b8d7d3 (seq '\"18074:503\"')",
        "2023-12-08T23:39:23.253567 Sync Verbose Obj=/IncomingRev#109/ Coll=0 Received revision 'projectcoordinatorstatistics::923a1bd3-f9a6-4621-8feb-e39651bad366' #26-bca3778f342fe8f57ad708893b181bd6 (seq '\"18074:910\"')",
        "2023-12-08T23:39:23.276472 DB Verbose Obj=/DB#101/ Saved 'project::9243bc22-9576-4e38-815f-6ee47e3d9032' rev #2-d57dc7e01da7cc97c114f919c10553cd as seq 22",
        "2023-12-08T23:39:23.276492 Sync Verbose Obj=/Inserter#100/    {'project::9243bc22-9576-4e38-815f-6ee47e3d9032 (_default)' #2-d57dc7e01da7cc97c114f919c10553cd <- 1-ddcf061cb80d06141f3642c80a856695} seq 22",
        "2023-12-08T23:39:23.276713 DB Verbose Obj=/DB#101/ Saved 'administrativegroup::10c751a7-105f-4c3f-9970-97fe5607a4fb' rev #1-60c2473c82d69822de6eb1737d563168 as seq 23",
        "2023-12-08T23:39:23.276731 Sync Verbose Obj=/Inserter#100/    {'administrativegroup::10c751a7-105f-4c3f-9970-97fe5607a4fb (_default)' #1-60c2473c82d69822de6eb1737d563168 <- } seq 23",
    ];
    let (_, names) = full_runtime();
    let out = parse_corpus(&corpus);

    // all pairs of doc_id and rev_id received but never saved
    let incoming: Vec<(String, String)> = out
        .lines
        .iter()
        .filter(|l| event_name(&names, l) == "IncomingrevReceived")
        .map(|l| {
            let data = l.event_data.as_ref().unwrap();
            (
                json_field(data, "doc_id").unwrap(),
                json_field(data, "rev_id").unwrap(),
            )
        })
        .collect();
    let saved: Vec<String> = out
        .lines
        .iter()
        .filter(|l| event_name(&names, l) == "DbSavedRev")
        .map(|l| json_field(l.event_data.as_ref().unwrap(), "doc_id").unwrap())
        .collect();
    assert_eq!(incoming.len(), 4);
    assert_eq!(saved.len(), 2);

    let results: Vec<(String, String)> = incoming
        .into_iter()
        .filter(|(doc, _)| !saved.contains(doc))
        .collect();

    let expected_results = vec![
        (
            "project::b2d44c1c-1dd1-4f49-a939-99cbeb388dfc".to_string(),
            "2-e9f91077c5126dd7f5bd464ea8b8d7d3".to_string(),
        ),
        (
            "projectcoordinatorstatistics::923a1bd3-f9a6-4621-8feb-e39651bad366".to_string(),
            "26-bca3778f342fe8f57ad708893b181bd6".to_string(),
        ),
    ];
    assert_eq!(expected_results, results);
}

#[test]
fn find_synced_rev() {
    let corpus = [
        BANNER,
        "2024-08-19T12:46:35.661486 Sync Info Obj=/Repl#50/ CorrID=5b2affd2 Received X-Correlation-Id",
        "2024-08-19T12:46:35.661486 Sync Info Obj=/Repl#51/ CorrID=1c05e6b1 Received X-Correlation-Id",
        "2023-12-08T23:39:23.252743 Sync Verbose Obj=/Repl#50/Puller#52/IncomingRev#65/ Coll=0 Received revision 'project::9243bc22-9576-4e38-815f-6ee47e3d9032' #2-d57dc7e01da7cc97c114f919c10553cd (seq '\"18074:394\"')",
        "2023-12-08T23:39:23.253369 Sync Verbose Obj=/Repl#51/Puller#53/IncomingRev#66/ Coll=0 Received revision 'administrativegroup::10c751a7-105f-4c3f-9970-97fe5607a4fb' #1-60c2473c82d69822de6eb1737d563168 (seq '\"18074:432\"')",
    ];
    const REV_ID: &str = "2-d57dc7e01da7cc97c114f919c10553cd";
    let (_, names) = full_runtime();
    let out = parse_corpus(&corpus);

    let object_paths: Vec<String> = out
        .lines
        .iter()
        .filter(|l| {
            event_name(&names, l) == "IncomingrevReceived"
                && json_field(l.event_data.as_ref().unwrap(), "rev_id").as_deref() == Some(REV_ID)
        })
        .map(|l| l.object_path.clone().unwrap())
        .collect();

    let repl_paths: Vec<String> = object_paths
        .into_iter()
        .map(|path| {
            let count = path.split('/').count();
            path.split('/').take(count - 2).collect::<Vec<&str>>().join("/")
        })
        .collect();

    let results: Vec<String> = out
        .lines
        .iter()
        .filter(|l| {
            event_name(&names, l) == "ReplReceivedCorrelationId"
                && repl_paths.iter().any(|p| Some(p.as_str()) == l.object_path.as_deref())
        })
        .map(|l| json_field(l.event_data.as_ref().unwrap(), "correlation_id").unwrap())
        .collect();

    let expected_results = vec!["5b2affd2".to_string()];
    assert_eq!(expected_results, results);
}

#[test]
fn find_failed_pushes() {
    #[derive(Default, Debug, Clone, Copy, PartialEq, Eq)]
    struct RevFailures {
        obsolete: bool,
        proposed_conflict: bool,
        rev_conflict: bool,
        invalid_ancestor: bool,
        error_response: bool,
        read_failed: bool,
    }

    let corpus = [
        BANNER,
        "2023-12-08T23:39:23.252743 Sync Verbose Obj=/Repl#52/Pusher#76/ Coll=0 Revision 'mydoc123' #1-60c2473c82d69822de6eb1737d563168 is obsolete; not sending it",
        "2023-12-08T23:39:38.564871 Sync Verbose Obj=/Repl#52/Pusher#76/ Coll=0 Proposed rev 'accounts773' #3-d57dc7e01da7cc97c114f919c10553cd (ancestor #2-e9f91077c5126dd7f5bd464ea8b8d7d3) conflicts with server revision (#3-bca3778f342fe8f57ad708893b181bd6)",
        "2023-12-08T23:42:11.798165 Sync Verbose Obj=/Repl#52/Pusher#76/ Coll=0 Rev 'customer7b6d' #2-df1818945ea9b968eb49699159950c7b conflicts with newer server revision",
        "2023-12-08T23:43:18.189150 Sync Verbose Obj=/Repl#52/Pusher#76/ Coll=0 Proposed rev 'accounts195' #6-bdccb8fb5edd4640001e42c6dc7bf1c8 has invalid ancestor 8-3d834cf9b9ed4b48ce5c5d64279f3ec5",
        "2023-12-08T23:45:54.968741 Sync Verbose Obj=/Repl#52/Pusher#76/ Coll=0 Got error response to rev 'customer985c' #1-36c17445434db7cac57b84b3373c9b01 (seq #841): HTTP 403 'read_only'",
        "2023-12-08T23:45:54.968741 Sync Verbose Obj=/Repl#52/Pusher#76/ sendRevision: Couldn't get rev 'customer58ba' 5-df45ce2889f7e94226a36beb6754c350 from db: LiteCore CryptoError, \"encryption/decryption error\"",
    ];

    let expected_results: [(&str, RevFailures); 6] = [
        ("1-60c2473c82d69822de6eb1737d563168", RevFailures { obsolete: true, ..Default::default() }),
        ("3-d57dc7e01da7cc97c114f919c10553cd", RevFailures {
            proposed_conflict: true,
            ..Default::default()
        }),
        ("2-df1818945ea9b968eb49699159950c7b", RevFailures {
            rev_conflict: true,
            ..Default::default()
        }),
        ("6-bdccb8fb5edd4640001e42c6dc7bf1c8", RevFailures {
            invalid_ancestor: true,
            ..Default::default()
        }),
        ("1-36c17445434db7cac57b84b3373c9b01", RevFailures {
            error_response: true,
            ..Default::default()
        }),
        ("5-df45ce2889f7e94226a36beb6754c350", RevFailures {
            read_failed: true,
            ..Default::default()
        }),
    ];

    let (_, names) = full_runtime();
    let out = parse_corpus(&corpus);
    assert_eq!(out.error_count, 0);

    let has_event = |event: &str, rev_id: &str| -> bool {
        out.lines.iter().any(|l| {
            event_name(&names, l) == event
                && json_field(l.event_data.as_ref().unwrap(), "rev_id").as_deref() == Some(rev_id)
        })
    };

    for (rev_id, expected) in expected_results {
        let got = RevFailures {
            obsolete: has_event("PusherSkipObsolete", rev_id),
            proposed_conflict: has_event("PusherProposedConflict", rev_id),
            rev_conflict: has_event("PusherRevConflict", rev_id),
            invalid_ancestor: has_event("PusherProposedInvalidAncestor", rev_id),
            error_response: has_event("PusherGotErrorResponse", rev_id),
            read_failed: has_event("PusherReadFailed", rev_id),
        };
        assert_eq!(got, expected);
    }
}

#[test]
fn version_probe_coerces_bare_minor_version() {
    let catalog = default_catalog().expect("catalog");
    let lines: Vec<String> = vec![
        "---- CouchbaseLite/3.2 (.NET; Microsoft Windows 10.0.22621) Build/1 ----".to_string(),
    ];
    let probe = patterns_for_lines(&catalog, &lines, "test.cbllog").expect("probe");
    assert_eq!(probe.version, Version { major: 3, minor: 2, patch: 0 });
    assert_eq!(probe.entry, 1);
}

#[test]
fn version_probe_rejects_uncovered_versions() {
    let catalog = default_catalog().expect("catalog");
    let lines: Vec<String> =
        vec!["---- CouchbaseLite/2.8.0 (Java; Android 13) Build/5 ----".to_string()];
    match patterns_for_lines(&catalog, &lines, "old.cbllog") {
        Err(lumberjack::Error::UnsupportedVersion(v)) => {
            assert_eq!(v, Version { major: 2, minor: 8, patch: 0 });
        }
        other => panic!("expected an unsupported version, got {:?}", other.is_ok()),
    }
}

#[test]
fn version_probe_reports_not_logs() {
    let catalog = default_catalog().expect("catalog");
    let lines: Vec<String> = vec!["just some text".to_string(), "more text".to_string()];
    match patterns_for_lines(&catalog, &lines, "notes.txt") {
        Err(lumberjack::Error::NotLogs(origin)) => assert_eq!(origin, "notes.txt"),
        other => panic!("expected not-logs, got {:?}", other.is_ok()),
    }
}

#[test]
fn patterns_for_version_covers_exactly_the_ranges() {
    let catalog = default_catalog().expect("catalog");
    let v = |major, minor, patch| Version { major, minor, patch };
    assert_eq!(lumberjack::catalog::patterns_for_version(&catalog, &v(3, 1, 0)).unwrap(), 0);
    assert_eq!(lumberjack::catalog::patterns_for_version(&catalog, &v(3, 1, 9)).unwrap(), 0);
    assert_eq!(lumberjack::catalog::patterns_for_version(&catalog, &v(3, 2, 0)).unwrap(), 1);
    assert_eq!(lumberjack::catalog::patterns_for_version(&catalog, &v(3, 2, 5)).unwrap(), 1);
    assert!(matches!(
        lumberjack::catalog::patterns_for_version(&catalog, &v(3, 0, 9)),
        Err(lumberjack::Error::UnsupportedVersion(_))
    ));
    assert!(matches!(
        lumberjack::catalog::patterns_for_version(&catalog, &v(3, 3, 0)),
        Err(lumberjack::Error::UnsupportedVersion(_))
    ));
}

#[test]
fn jni_object_capture_is_demangled() {
    let corpus = [
        BANNER,
        "2023-12-08T23:39:23.252743 Sync Verbose Obj=N9litecore4repl6PullerE Coll=0 Received revision 'a::b' #1-x (seq '\"1:1\"')",
    ];
    let out = parse_corpus(&corpus);
    assert_eq!(out.lines.len(), 1);
    assert_eq!(out.lines[0].object_path.as_deref(), Some("Puller"));
}

#[test]
fn day_rollover_extends_timestamps_past_midnight() {
    // the file starts 2023-12-08 23:59:58 UTC
    let (rt, _names) = partial_runtime();
    let parser = FileParser { runtime: rt, file_id: 7 };
    let lines: Vec<String> = vec![
        "23:59:59.000 DB Verbose Obj=/DB#1/ Saved 'a' rev #1-x as seq 1".to_string(),
        "00:00:00.500 DB Verbose Obj=/DB#1/ Saved 'b' rev #1-y as seq 2".to_string(),
        "00:00:01.000 DB Verbose Obj=/DB#1/ Saved 'c' rev #1-z as seq 3".to_string(),
    ];
    let out = parser
        .parse("cbl_info_1702079998000", "cbl_info_1702079998000.cbllog".to_string(), &lines, None)
        .expect("file parse");
    assert_eq!(out.file.level, Some(Level::Info));
    assert_eq!(out.error_count, 0);
    assert_eq!(out.lines.len(), 3);

    let stamp = |l: &Line| {
        (
            l.timestamp.year,
            l.timestamp.month,
            l.timestamp.day,
            l.timestamp.time.hour,
            l.timestamp.time.minute,
            l.timestamp.time.second,
            l.timestamp.time.micro,
        )
    };
    assert_eq!(stamp(&out.lines[0]), (2023, 12, 8, 23, 59, 59, 0));
    assert_eq!(stamp(&out.lines[1]), (2023, 12, 9, 0, 0, 0, 500000));
    assert_eq!(stamp(&out.lines[2]), (2023, 12, 9, 0, 0, 1, 0));
    assert_eq!(out.lines[0].line_num, 1);
    assert_eq!(out.lines[1].line_num, 2);
    assert_eq!(out.lines[2].line_num, 3);
    assert_eq!(out.lines[0].level, Level::Info);
}

#[test]
fn ignored_event_counts_as_noise_and_yields_no_row() {
    let corpus = [
        BANNER,
        "2023-12-08T23:39:23.252743 DB Verbose Obj=/DB#1/ Housekeeping: scheduling expiration",
        "2023-12-08T23:39:23.276472 DB Verbose Obj=/DB#101/ Saved 'a' rev #1-x as seq 22",
    ];
    let out = parse_corpus(&corpus);
    // the banner and the ignored housekeeping line are expected noise
    assert_eq!(out.noise_count, 2);
    assert_eq!(out.error_count, 0);
    assert_eq!(out.lines.len(), 1);
    assert_eq!(out.lines[0].line_num, 3);
}

#[test]
fn event_data_fields_stand_in_declared_order() {
    let corpus = [
        BANNER,
        "2023-12-08T23:39:23.276472 DB Verbose Obj=/DB#101/ Saved 'doc\"quoted' rev #2-abc as seq 0012",
    ];
    let out = parse_corpus(&corpus);
    assert_eq!(out.lines.len(), 1);
    // declared order: doc_id, rev_id, sequence; strings escaped; numbers canonical
    assert_eq!(
        out.lines[0].event_data.as_deref(),
        Some("{\"doc_id\":\"doc\\\"quoted\",\"rev_id\":\"2-abc\",\"sequence\":12}")
    );
}

#[test]
fn event_ids_reference_the_event_type_table() {
    let catalog = default_catalog().expect("catalog");
    let names = event_type_names(&catalog);
    let rows = lumberjack::ingest::event_type_rows(&names).expect("rows");
    assert_eq!(rows.len(), names.len());
    for (i, row) in rows.iter().enumerate() {
        assert_eq!(row.id as usize, i);
        assert_eq!(row.name, names[i]);
    }
    // names are unique and cover the expected vocabulary
    assert!(names.contains(&"IncomingrevReceived".to_string()));
    assert!(names.contains(&"DbSavedRev".to_string()));
    assert!(names.contains(&"ReplReceivedCorrelationId".to_string()));
    assert!(names.contains(&"PusherSkipObsolete".to_string()));
    assert!(names.contains(&"HousekeeperMonitor".to_string()));
    let corpus = [
        BANNER,
        "2023-12-08T23:39:23.276472 DB Verbose Obj=/DB#101/ Saved 'a' rev #1-x as seq 22",
    ];
    let out = parse_corpus(&corpus);
    for line in &out.lines {
        assert!((line.event_type as usize) < names.len());
    }
}

#[test]
fn capture_types_convert_as_declared() {
    let corpus = [
        BANNER,
        "2023-12-08T23:39:23.276472 DB Verbose Obj=/DB#1/ Opening database mydb.cblite2, flags=1f4",
        "2023-12-08T23:39:23.276473 Sync Verbose Obj=/Repl#1/ Found 3 conflicted docs in scope.coll",
        "2023-12-08T23:39:23.276474 Sync Verbose Obj=/Repl#2/ Found 0 conflicted docs in ",
        "2023-12-08T23:39:23.276475 WS Verbose Obj=/BLIPIO#1/ Finished writing 512 bytes (writeable=1)",
        "2023-12-08T23:39:23.276476 Sync Verbose Obj=/Puller#1/ 17 revs were provisionally handled; down to 4 active",
    ];
    let (_, names) = full_runtime();
    let out = parse_corpus(&corpus);
    assert_eq!(out.error_count, 0);
    assert_eq!(out.lines.len(), 5);
    let data = |i: usize| out.lines[i].event_data.as_deref().unwrap();
    // HexInt 1f4 reads as 500
    assert_eq!(data(0), "{\"name\":\"mydb.cblite2\",\"flags\":500}");
    assert_eq!(data(1), "{\"num_conflicts\":3,\"collection\":\"scope.coll\"}");
    // an empty optional text is null
    assert_eq!(data(2), "{\"num_conflicts\":0,\"collection\":null}");
    // Bool reads a decimal: non-zero is true
    assert_eq!(data(3), "{\"bytes\":512,\"writeable\":true}");
    assert_eq!(data(4), "{\"handled\":17,\"pending\":4}");
    assert_eq!(event_name(&names, &out.lines[4]), "PullerHandledRevs");
}

#[test]
fn line_reduction_normalizes_identifiers() {
    let (rt, _names) = full_runtime();
    let line = "2023-12-08T23:39:23.276472 DB Verbose Saved 'x' doc::aaaabbbb-1111-2222-3333-444455556666 rev 2-d57dc7e01da7cc97c114f919c10553cd cafe97 run 42 times";
    let reduced = lumberjack::reduce::reduce_line(&rt, line).expect("reduce");
    assert_eq!(reduced, "Saved {QUOTED} {DOCID} rev {REVID} {HEX} run {NUMBER} times ");
}

#[test]
fn failing_lines_leave_gaps_in_emitted_line_numbers() {
    let corpus = [
        BANNER,
        "2023-12-08T23:39:23.276472 DB Verbose Obj=/DB#1/ Saved 'a' rev #1-x as seq 1",
        "2023-12-08T23:39:23.276473 DB Verbose Obj=/DB#1/ something unrecognizable",
        "2023-12-08T23:39:23.276474 DB Verbose Obj=/DB#1/ Saved 'b' rev #1-y as seq 2",
    ];
    let out = parse_corpus(&corpus);
    assert_eq!(out.noise_count, 1);
    assert_eq!(out.error_count, 1);
    let nums: Vec<u32> = out.lines.iter().map(|l| l.line_num).collect();
    assert_eq!(nums, vec![2, 4]);
}

#[test]
fn version_capture_with_a_leading_zero_is_no_version() {
    let catalog = default_catalog().expect("catalog");
    let lines: Vec<String> =
        vec!["---- CouchbaseLite/03.2.0 (Java; Android 13) Build/5 ----".to_string()];
    assert!(matches!(
        patterns_for_lines(&catalog, &lines, "x"),
        Err(lumberjack::Error::CannotParse(_))
    ));
}

#[test]
fn database_names_derive_from_the_output_name() {
    assert_eq!(lumberjack::viewer::sqlite_file_name("logs.cbllog"), "logs.sqlite");
    assert_eq!(lumberjack::viewer::sqlite_file_name("archive.tar.gz"), "archive.tar.sqlite");
    assert_eq!(lumberjack::viewer::sqlite_file_name("plain"), "plain.sqlite");
    assert_eq!(lumberjack::viewer::sqlite_file_name(".hidden"), ".hidden.sqlite");
}

#[test]
fn range_names_encode_half_open_version_ranges() {
    let v = |major, minor, patch| Version { major, minor, patch };
    assert_eq!(
        lumberjack::version::range_from_stem("3-1-0_3-2-0"),
        Some((v(3, 1, 0), v(3, 2, 0)))
    );
    assert_eq!(lumberjack::version::range_from_stem("3-1-0"), None);
    assert_eq!(lumberjack::version::range_from_stem("3-1_3-2-0"), None);
    assert_eq!(lumberjack::version::range_from_stem("3-01-0_3-2-0"), None);
}
