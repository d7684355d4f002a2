use lumberjack::Error;
use lumberjack::catalog::{default_catalog, event_type_names};
use lumberjack::datetime::{
    DateTime, TimeOfDay, datetime_from_epoch_micros, epoch_micros_value, parse_datetime,
    render_datetime_chars,
};
use lumberjack::decoder::{DecodedEntry, decode_entries, is_encoded, render_entry};
use lumberjack::file_parser::FileParser;
use lumberjack::level::Level;
use lumberjack::stream::ByteStream;

fn varint(mut value: u64) -> Vec<u8> {
    let mut out = Vec::new();
    loop {
        let byte = (value & 0x7f) as u8;
        value >>= 7;
        if value == 0 {
            out.push(byte);
            return out;
        }
        out.push(byte | 0x80);
    }
}

fn cstring(s: &str) -> Vec<u8> {
    let mut out: Vec<u8> = s.bytes().collect();
    out.push(0);
    out
}

/// An encoded file: magic, format version 1, pointer size 8, start time.
fn header(start_seconds: u64) -> Vec<u8> {
    let mut data = vec![0xcf, 0xb2, 0xab, 0x1b, 1, 8];
    data.extend(varint(start_seconds));
    data
}

#[test]
fn is_encoded_looks_only_at_the_magic() {
    assert!(is_encoded(&vec![0xcf, 0xb2, 0xab, 0x1b]));
    assert!(is_encoded(&header(0)));
    assert!(!is_encoded(&vec![0xcf, 0xb2, 0xab]));
    assert!(!is_encoded(&vec![0x2d, 0x2d, 0x2d, 0x2d, 0x20, 0x43]));
    assert!(!is_encoded(&vec![]));
}

#[test]
fn wrong_format_version_is_rejected_at_offset_zero() {
    let mut data = vec![0xcf, 0xb2, 0xab, 0x1b, 2, 8];
    data.extend(varint(1702078763));
    match decode_entries(data) {
        Err(Error::InvalidBinaryLogs(_, offset)) => assert_eq!(offset, 0),
        other => panic!("expected a binary-logs error, got ok={}", other.is_ok()),
    }
}

#[test]
fn bad_pointer_size_is_rejected() {
    let mut data = vec![0xcf, 0xb2, 0xab, 0x1b, 1, 3];
    data.extend(varint(1702078763));
    assert!(matches!(decode_entries(data), Err(Error::InvalidBinaryLogs(_, _))));
}

#[test]
fn varint_reads_little_endian_base_128() {
    let mut s = ByteStream::new(vec![0x7f]);
    assert_eq!(lumberjack::varint::read(&mut s).unwrap(), 127);
    let mut s = ByteStream::new(vec![0x80, 0x01]);
    assert_eq!(lumberjack::varint::read(&mut s).unwrap(), 128);
    let mut s = ByteStream::new(vec![0xac, 0x02, 0x55]);
    assert_eq!(lumberjack::varint::read(&mut s).unwrap(), 300);
    assert_eq!(lumberjack::varint::read(&mut s).unwrap(), 0x55);
    // ten continuation bytes never finish
    let mut s = ByteStream::new(vec![0x80; 10]);
    assert!(matches!(lumberjack::varint::read(&mut s), Err(Error::InvalidVarint)));
    // a truncated varint is invalid too
    let mut s = ByteStream::new(vec![0x80]);
    assert!(matches!(lumberjack::varint::read(&mut s), Err(Error::InvalidVarint)));
}

/// One entry: a timestamp delta, a level byte, a tokenized domain, an
/// object reference, and a tokenized format string with its arguments.
fn entry_bytes(parts: &[&[u8]]) -> Vec<u8> {
    let mut out = Vec::new();
    for p in parts {
        out.extend_from_slice(p);
    }
    out
}

#[test]
fn decoder_replays_tokens_objects_and_conversions() {
    let start = 1702078763u64; // 2023-12-08T23:39:23
    let mut data = header(start);
    // first entry: intern the domain, the object and a format string that
    // copies a tokenized string through
    data.extend(entry_bytes(&[
        &varint(252743),          // +252743 microseconds
        &[3],                     // Info
        &varint(0),               // token 0: new
        &cstring("Sync"),
        &varint(1),               // object 1: new
        &cstring("/Repl#50/"),
        &varint(1),               // token 1: new (the format string)
        &cstring("CorrID=%-s Received X-Correlation-Id"),
        &varint(2),               // token 2: new (the %-s argument)
        &cstring("5b2affd2"),
    ]));
    // second entry: reuse the domain token and the object; numeric
    // conversions; literal percent
    data.extend(entry_bytes(&[
        &varint(1000000),         // one second later
        &[5],                     // Error
        &varint(0),               // token 0: replayed
        &varint(1),               // object 1: replayed
        &varint(3),               // token 3: new format string
        &cstring("seq %u flags %x d %d c %c done %%"),
        &varint(18074),           // %u
        &varint(31),              // %x -> 1f
        &[1],                     // %d sign: negative
        &varint(5),               // %d magnitude
        &[0],                     // %c sign: positive
        &varint(65),              // %c value: 'A'
    ]));

    let entries = decode_entries(data).expect("decode");
    assert_eq!(entries.len(), 2);

    let no_floats: Vec<String> = vec![];
    let line0 = render_entry(&entries[0], &no_floats);
    assert_eq!(
        line0,
        "2023-12-08T23:39:23.252743 Sync Info Obj=/Repl#50/ CorrID=5b2affd2 Received X-Correlation-Id"
    );
    let line1 = render_entry(&entries[1], &no_floats);
    assert_eq!(
        line1,
        "2023-12-08T23:39:24.252743 Sync Error Obj=/Repl#50/ seq 18074 flags 1f d -5 c A done %"
    );

    // the same token id read twice is byte-for-byte the same text
    let d0: String = entries[0].domain.iter().collect();
    let d1: String = entries[1].domain.iter().collect();
    assert_eq!(d0, d1);
    // the same object id read twice means the same object
    let o0: String = entries[0].object.as_ref().unwrap().iter().collect();
    let o1: String = entries[1].object.as_ref().unwrap().iter().collect();
    assert_eq!(o0, o1);
}

#[test]
fn rendered_entries_parse_back_to_equivalent_lines() {
    let start = 1702078763u64;
    let mut data = header(start);
    data.extend(entry_bytes(&[
        &varint(252743),
        &[3],
        &varint(0),
        &cstring("Sync"),
        &varint(1),
        &cstring("/Repl#50/"),
        &varint(1),
        &cstring("CorrID=%-s Received X-Correlation-Id"),
        &varint(2),
        &cstring("5b2affd2"),
    ]));
    let entries = decode_entries(data).expect("decode");
    let no_floats: Vec<String> = vec![];
    let rendered = render_entry(&entries[0], &no_floats);

    let catalog = default_catalog().expect("catalog");
    let names = event_type_names(&catalog);
    let entry = &catalog[1];
    let rt = lumberjack::line_parser::PlatformRuntime::compile(
        &entry.set,
        &entry.set.platforms[0],
        &names,
    )
    .expect("compile");
    let base = datetime_from_epoch_micros(start * 1_000_000);
    let line =
        lumberjack::line_parser::parse_line(&rt, rendered.as_str(), 1, 9, None, &base).expect("parse");

    // the stored fields mirror what the encoder wrote
    assert_eq!(line.timestamp, entries[0].timestamp);
    assert_eq!(line.domain, "Sync");
    assert_eq!(line.level, Level::Info);
    assert_eq!(line.object_path.as_deref(), Some("/Repl#50"));
    assert_eq!(names[line.event_type as usize], "ReplReceivedCorrelationId");
    assert_eq!(line.event_data.as_deref(), Some("{\"correlation_id\":\"5b2affd2\"}"));
}

#[test]
fn double_conversions_come_back_as_raw_bits_to_splice() {
    let start = 1702078763u64;
    let mut data = header(start);
    let bits: u64 = 2.5f64.to_bits();
    data.extend(entry_bytes(&[
        &varint(0),
        &[2],                     // Verbose
        &varint(0),
        &cstring("Query"),
        &varint(0),               // no object
        &varint(1),
        &cstring("took %f ms"),
        &bits.to_le_bytes(),
    ]));
    let entries = decode_entries(data).expect("decode");
    assert_eq!(entries.len(), 1);
    assert!(entries[0].object.is_none());
    // the double's text is the caller's to supply
    let floats = vec![2.5f64.to_string()];
    let line = render_entry(&entries[0], &floats);
    assert_eq!(line, "2023-12-08T23:39:23.000000 Query Verbose took 2.5 ms");
}

#[test]
fn hex_string_and_pointer_conversions_render() {
    let start = 0u64;
    let mut data = header(start);
    let pointer: u64 = 0x1a2b;
    data.extend(entry_bytes(&[
        &varint(0),
        &[1],                     // Debug
        &varint(0),
        &cstring("DB"),
        &varint(0),
        &varint(1),
        &cstring("raw %-.*s text %s ptr %p"),
        &varint(2),               // %-.*s: length-prefixed, hex-encoded
        &[0xde, 0xad],
        &varint(2),               // %s: length-prefixed, plain
        b"ok",
        &pointer.to_le_bytes(),
    ]));
    let entries = decode_entries(data).expect("decode");
    let no_floats: Vec<String> = vec![];
    let line = render_entry(&entries[0], &no_floats);
    assert_eq!(
        line,
        "1970-01-01T00:00:00.000000 DB Debug raw dead text ok ptr 0x0000000000001a2b"
    );
}

#[test]
fn unknown_specifier_fails_the_decode() {
    let mut data = header(0);
    data.extend(entry_bytes(&[
        &varint(0),
        &[1],
        &varint(0),
        &cstring("DB"),
        &varint(0),
        &varint(1),
        &cstring("bad %y"),
    ]));
    assert!(matches!(decode_entries(data), Err(Error::InvalidBinaryLogs(_, _))));
}

#[test]
fn out_of_range_token_id_fails_the_decode() {
    let mut data = header(0);
    data.extend(entry_bytes(&[
        &varint(0),
        &[1],
        &varint(7),               // token 7 with an empty table
    ]));
    assert!(matches!(decode_entries(data), Err(Error::InvalidBinaryLogs(_, _))));
}

#[test]
fn timestamps_render_and_parse_back_exactly() {
    let dt = DateTime {
        year: 2023,
        month: 12,
        day: 8,
        time: TimeOfDay { hour: 23, minute: 59, second: 58, micro: 1 },
    };
    let rendered = render_datetime_chars(&dt, 'T');
    let text: String = rendered.iter().collect();
    assert_eq!(text, "2023-12-08T23:59:58.000001");
    let parsed = parse_datetime(&rendered, 'T').expect("parse");
    assert_eq!(parsed, dt);

    // a short fraction scales to microseconds
    let clock: Vec<char> = "2023-12-08 06:07:08.25".chars().collect();
    let parsed = parse_datetime(&clock, ' ').expect("parse");
    assert_eq!(parsed.time.micro, 250000);

    // the epoch value round-trips through the civil form
    let us = epoch_micros_value(&dt);
    assert_eq!(datetime_from_epoch_micros(us), dt);
    let epoch_start = datetime_from_epoch_micros(0);
    assert_eq!(
        epoch_start,
        DateTime {
            year: 1970,
            month: 1,
            day: 1,
            time: TimeOfDay { hour: 0, minute: 0, second: 0, micro: 0 },
        }
    );
}

#[test]
fn calendar_rejects_invalid_dates() {
    let bad: Vec<char> = "2023-13-01T00:00:00".chars().collect();
    assert!(parse_datetime(&bad, 'T').is_none());
    let bad: Vec<char> = "2023-02-29T00:00:00".chars().collect();
    assert!(parse_datetime(&bad, 'T').is_none());
    let good: Vec<char> = "2024-02-29T00:00:00".chars().collect();
    assert!(parse_datetime(&good, 'T').is_some());
}

#[test]
fn level_vocabulary_maps_and_encodes() {
    let catalog = default_catalog().expect("catalog");
    let names = &catalog[1].set.platforms[0].level_names;
    assert_eq!(Level::from_str("Error", names).unwrap(), Level::Error);
    assert_eq!(Level::from_str("Warning", names).unwrap(), Level::Warning);
    assert_eq!(Level::from_str("Info", names).unwrap(), Level::Info);
    assert_eq!(Level::from_str("Verbose", names).unwrap(), Level::Verbose);
    assert_eq!(Level::from_str("Debug", names).unwrap(), Level::Debug);
    assert!(matches!(
        Level::from_str("Chatty", names),
        Err(Error::NoSuchLevel(s)) if s == "Chatty"
    ));
    assert_eq!(Level::Error.as_code(), 0);
    assert_eq!(Level::Warning.as_code(), 1);
    assert_eq!(Level::Info.as_code(), 2);
    assert_eq!(Level::Verbose.as_code(), 3);
    assert_eq!(Level::Debug.as_code(), 4);
    assert_eq!(Level::from_code(4), Some(Level::Debug));
    assert_eq!(Level::from_code(5), None);
}

#[test]
fn entries_needing_floats_keep_their_piece_structure() {
    let start = 0u64;
    let mut data = header(start);
    let bits: u64 = 0.1f64.to_bits();
    data.extend(entry_bytes(&[
        &varint(0),
        &[4],
        &varint(0),
        &cstring("DB"),
        &varint(0),
        &varint(1),
        &cstring("a %f b"),
        &bits.to_le_bytes(),
    ]));
    let entries = decode_entries(data).expect("decode");
    let e: &DecodedEntry = &entries[0];
    assert_eq!(e.pieces.len(), 3);
}

#[test]
fn level_byte_outside_the_vocabulary_renders_empty() {
    let mut data = header(0);
    data.extend(entry_bytes(&[
        &varint(0),
        &[0],                     // no level
        &varint(0),
        &cstring("DB"),
        &varint(0),
        &varint(1),
        &cstring("hello"),
    ]));
    let entries = decode_entries(data).expect("decode");
    let no_floats: Vec<String> = vec![];
    let line = render_entry(&entries[0], &no_floats);
    assert_eq!(line, "1970-01-01T00:00:00.000000 DB  hello");
}

#[test]
fn four_byte_pointers_render_eight_digits() {
    let mut data = vec![0xcf, 0xb2, 0xab, 0x1b, 1, 4];
    data.extend(varint(0));
    data.extend(entry_bytes(&[
        &varint(0),
        &[1],
        &varint(0),
        &cstring("DB"),
        &varint(0),
        &varint(1),
        &cstring("at %p"),
        &0x1a2bu32.to_le_bytes(),
    ]));
    let entries = decode_entries(data).expect("decode");
    let no_floats: Vec<String> = vec![];
    let line = render_entry(&entries[0], &no_floats);
    assert_eq!(line, "1970-01-01T00:00:00.000000 DB Debug at 0x00001a2b");
}

#[test]
fn decode_stops_cleanly_at_the_end_of_the_stream() {
    // a header alone holds no entries
    let data = header(42);
    let entries = decode_entries(data).expect("decode");
    assert_eq!(entries.len(), 0);
}
