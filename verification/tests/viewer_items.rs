use lumberjack::viewer::{
    BLIPConnectionState, ContainsWithCase, DB, DBEvent, ListState, LogEventType, LogLevel,
    LogObject, LogObjectType, Menu, Platform, Puller, PullerEvent, Pusher, PusherEvent, Repl,
    ReplEvent, ReplMode, Row, StatefulList, Truncate, parse_id,
};

#[test]
fn log_levels_parse_from_lowercase_tokens() {
    assert_eq!(LogLevel::from_str("info"), Some(LogLevel::Info));
    assert_eq!(LogLevel::from_str("verbose"), Some(LogLevel::Verbose));
    assert_eq!(LogLevel::from_str("debug"), Some(LogLevel::Debug));
    assert_eq!(LogLevel::from_str("warning"), Some(LogLevel::Warn));
    assert_eq!(LogLevel::from_str("error"), Some(LogLevel::Error));
    assert_eq!(LogLevel::from_str("Info"), None);
}

#[test]
fn log_objects_render_name_and_details() {
    let object = LogObject {
        object_type: LogObjectType::Repl,
        id: 76,
        details: "Parent: Repl#12".to_string(),
    };
    assert_eq!(object.name(), "Repl#76");
    assert_eq!(object.details(), "Repl#76\nParent: Repl#12");
    let plain = LogObject { object_type: LogObjectType::Other, id: 0, details: String::new() };
    assert_eq!(plain.name(), "None#0");
}

#[test]
fn db_event_probe_matches_by_content() {
    assert_eq!(DB::parse_event("... Opening database mydb"), Some(LogEventType::Created));
    assert_eq!(DB::parse_event("... Closing database now"), Some(LogEventType::Destroyed));
    assert_eq!(
        DB::parse_event("... begin transaction 4"),
        Some(LogEventType::DB(DBEvent::TransactionBegin))
    );
    assert_eq!(
        DB::parse_event("... commit transaction 4"),
        Some(LogEventType::DB(DBEvent::TransactionCommit))
    );
    assert_eq!(DB::parse_event("... Saved 'doc1' rev"), Some(LogEventType::DB(DBEvent::DocSaved)));
    assert_eq!(
        DB::parse_event("... Housekeeping: 3 docs"),
        Some(LogEventType::DB(DBEvent::HousekeepingUpdate))
    );
    assert_eq!(DB::parse_event("nothing relevant"), None);
}

#[test]
fn puller_and_pusher_probes_match_by_content() {
    assert_eq!(
        Puller::parse_event("... 17 revs were provisionally handled"),
        Some(LogEventType::Puller(PullerEvent::HandledRevs))
    );
    assert_eq!(
        Puller::parse_event("... Starting pull from remote seq 12"),
        Some(LogEventType::Created)
    );
    assert_eq!(Puller::parse_event("... now stopped"), Some(LogEventType::Destroyed));
    assert_eq!(
        Pusher::parse_event("... Starting push from local seq 8"),
        Some(LogEventType::Created)
    );
    assert_eq!(
        Pusher::parse_event("... Found 9 changes up to #42"),
        Some(LogEventType::Pusher(PusherEvent::FoundChanges))
    );
    assert_eq!(
        Pusher::parse_event("... Caught up with the server"),
        Some(LogEventType::Pusher(PusherEvent::CaughtUp))
    );
    assert_eq!(Pusher::parse_event("no event here"), None);
}

#[test]
fn object_ids_parse_from_snippets() {
    assert_eq!(parse_id("Repl#42"), Some(42));
    assert_eq!(parse_id("/Repl#50/Puller#52"), Some(52));
    assert_eq!(parse_id("Repl#"), None);
    assert_eq!(parse_id("plain"), None);
}

#[test]
fn object_ids_in_lines_need_the_opening_brace_context() {
    let re = lumberjack::patterns::Pattern::compile(r"Repl#\d+").expect("pattern");
    assert_eq!(lumberjack::viewer::parse_object_id(&re, "config: {Repl#42} opts"), Some(42));
    assert_eq!(lumberjack::viewer::parse_object_id(&re, "config - {Repl#42} opts"), None);
    assert_eq!(lumberjack::viewer::parse_object_id(&re, "no object here"), None);
}

#[test]
fn repl_modes_parse_from_tokens() {
    assert_eq!(ReplMode::from_str("disabled"), Some(ReplMode::Disabled));
    assert_eq!(ReplMode::from_str("passive"), Some(ReplMode::Passive));
    assert_eq!(ReplMode::from_str("one-shot"), Some(ReplMode::OneShot));
    assert_eq!(ReplMode::from_str("continuous"), Some(ReplMode::Continuous));
    assert_eq!(ReplMode::from_str("sometimes"), None);
}

#[test]
fn repl_config_parses_each_collection_in_order() {
    let line = "{Coll#0} \"albums\": {\"Push\": one-shot, \"Pull\": continuous, ...} {Coll#1} \"tracks\": {\"Push\": disabled, \"Pull\": passive, ...}";
    let config = Repl::parse_config(line).expect("config");
    assert_eq!(config.collections.len(), 2);
    assert_eq!(config.collections[0].name, "albums");
    assert_eq!(config.collections[0].index, 0);
    assert_eq!(config.collections[0].push, ReplMode::OneShot);
    assert_eq!(config.collections[0].pull, ReplMode::Continuous);
    assert_eq!(config.collections[1].name, "tracks");
    assert_eq!(config.collections[1].index, 1);
    assert_eq!(config.collections[1].push, ReplMode::Disabled);
    assert_eq!(config.collections[1].pull, ReplMode::Passive);
    assert!(Repl::parse_config("no collections here").is_err());
}

#[test]
fn repl_target_and_c4id_parse_from_lines() {
    let target = Repl::parse_target("... Remote-DB ID 3 found for target <wss://db.example/sync>")
        .expect("target");
    assert_eq!(target, "wss://db.example/sync");
    assert!(Repl::parse_target("no target").is_err());
    assert_eq!(Repl::parse_c4id("{C4Replicator#1912} ...").expect("id"), 1912);
    assert!(Repl::parse_c4id("none").is_err());
}

#[test]
fn truncate_cuts_on_character_boundaries() {
    assert_eq!("hello world".truncate(5), "hello");
    assert_eq!("hi".truncate(5), "hi");
    assert_eq!("héllo".truncate(2), "hé");
}

#[test]
fn contains_with_case_folds_only_for_lowercase_patterns() {
    assert!("Repl now BUSY".contains_with_case("busy"));
    assert!(!"Repl now BUSY".contains_with_case("BUSY2"));
    assert!("Repl now BUSY".contains_with_case("BUSY"));
    assert!(!"Repl now busy".contains_with_case("BUSY"));
    assert!("{Repl#7} ok".contains_with_case("{repl#"));
}

#[test]
fn platforms_parse_from_banner_tokens() {
    assert_eq!(Platform::from_str(".NET"), Some(Platform::DotNET));
    assert_eq!(Platform::from_str("Swift"), Some(Platform::Swift));
    assert_eq!(Platform::from_str("Java"), Some(Platform::Java));
    assert_eq!(Platform::from_str("Android"), Some(Platform::Android));
    assert_eq!(Platform::from_str("C"), Some(Platform::C));
    assert_eq!(Platform::from_str("COBOL"), None);
}

#[test]
fn blip_connection_states_parse_from_discriminants() {
    assert_eq!(BLIPConnectionState::from_str("-1").unwrap(), BLIPConnectionState::Disconnected);
    assert_eq!(BLIPConnectionState::from_str("0").unwrap(), BLIPConnectionState::Closed);
    assert_eq!(BLIPConnectionState::from_str("1").unwrap(), BLIPConnectionState::Connecting);
    assert_eq!(BLIPConnectionState::from_str("2").unwrap(), BLIPConnectionState::Connected);
    assert_eq!(BLIPConnectionState::from_str("3").unwrap(), BLIPConnectionState::Closing);
    assert!(BLIPConnectionState::from_str("4").is_err());
    assert!(BLIPConnectionState::from_str("x").is_err());
}

#[test]
fn menus_step_back_through_the_hierarchy() {
    assert_eq!(Menu::LogView.back(), Menu::ReplList);
    assert_eq!(Menu::ReplList.back(), Menu::ObjectList);
    assert_eq!(Menu::ObjectList.back(), Menu::MainMenu);
    assert_eq!(Menu::MainMenu.back(), Menu::MainMenu);
    assert_eq!(Menu::MainMenu.title(), "Main Menu");
    assert_eq!(Menu::LogView.title(), "Log View");
}

#[test]
fn stateful_lists_wrap_and_remember_selection() {
    let mut list = StatefulList::with_items(vec!["a", "b", "c"]);
    assert_eq!(list.selected, None);
    list.next();
    assert_eq!(list.selected, Some(0));
    list.next();
    list.next();
    assert_eq!(list.selected, Some(2));
    list.next();
    assert_eq!(list.selected, Some(0));
    list.previous();
    assert_eq!(list.selected, Some(2));
    list.unselect();
    assert_eq!(list.selected, None);
    assert_eq!(list.last_selected, Some(2));
    list.next();
    assert_eq!(list.selected, Some(2));
    list.set_items(vec!["x"]);
    assert_eq!(list.items, vec!["x"]);
}

#[test]
fn rows_carry_their_item_and_cells() {
    let row = Row::new_with(&"line", vec!["a".to_string(), "b".to_string()]);
    assert_eq!(row.cells, vec!["a".to_string(), "b".to_string()]);
    assert_eq!(row.item, "line");
    let state = ListState::default();
    assert!(state.hovered_option.is_none());
    assert!(state.last_selected_index.is_none());
}

#[test]
fn repl_event_probe_matches_by_content() {
    assert_eq!(Repl::parse_event("... {\"Push\": continuous ..."), Some(LogEventType::Created));
    assert_eq!(
        Repl::parse_event("... Replicator status update"),
        Some(LogEventType::Repl(ReplEvent::StatusUpdate))
    );
    assert_eq!(
        Repl::parse_event("... Saved remote checkpoint 'x'"),
        Some(LogEventType::Repl(ReplEvent::Checkpoint))
    );
    assert_eq!(Repl::parse_event("... Told to stop"), Some(LogEventType::Destroyed));
    assert_eq!(
        Repl::parse_event("... Remote-DB ID 3 found for target <x>"),
        Some(LogEventType::Repl(ReplEvent::Config))
    );
    assert_eq!(
        Repl::parse_event("... Requesting remote checkpoint"),
        Some(LogEventType::Repl(ReplEvent::RequestCheckpoint))
    );
    assert_eq!(Repl::parse_event("nothing relevant"), None);
}
