//! What the ingest run writes to the store, as plain rows: the event-type
//! dictionary first, then per file its row and its lines in line order.
use vstd::prelude::*;

verus! {

/// One `event_types` row: the id is the name's index in the table.
pub struct EventTypeRow {
    pub id: u32,
    pub name: String,
}

/// The full event-type dictionary, written before any line: one row per
/// table entry, each id its index.
pub fn event_type_rows(names: &Vec<String>) -> (r: Result<Vec<EventTypeRow>, crate::Error>)
    ensures
        match r {
            Ok(rows) => {
                &&& rows@.len() == names@.len()
                &&& forall|i: int|
                    0 <= i < rows@.len() ==> (#[trigger] rows@[i]).id == i && rows@[i].name@
                        == names@[i]@
            },
            Err(e) => e is CannotParse && names@.len() > 0xffffffff,
        },
{
    if names.len() > 4294967295 {
        return Err(crate::Error::CannotParse(String::from_str("Event table too large")));
    }
    let mut rows: Vec<EventTypeRow> = Vec::new();
    let mut i: usize = 0;
    while i < names.len()
        invariant
            i <= names@.len(),
            names@.len() <= 0xffffffff,
            rows@.len() == i,
            forall|k: int|
                0 <= k < i ==> (#[trigger] rows@[k]).id == k && rows@[k].name@ == names@[k]@,
        decreases names@.len() - i,
    {
        rows.push(EventTypeRow { id: i as u32, name: names[i].clone() });
        i = i + 1;
    }
    Ok(rows)
}

/// Every event id a parsed line can carry names a row of the event-type
/// table: probing only ever returns an id below the table's length, so
/// the id is a row's index there.
pub proof fn lemma_event_id_in_table(
    events: Seq<crate::line_parser::CompiledEvent>,
    line: Seq<char>,
    bound: int,
)
    requires
        forall|i: int| 0 <= i < events.len() ==> (#[trigger] events[i]).id < bound,
    ensures
        crate::line_parser::spec_parse_event(events, line) matches
            crate::line_parser::EventOutcome::Matched(id, data) ==> id < bound,
    decreases events.len(),
{
    if events.len() > 0 {
        lemma_event_id_in_table(events.drop_first(), line, bound);
        assert(forall|i: int|
            0 <= i < events.drop_first().len() ==> events.drop_first()[i]
                == #[trigger] events[i + 1]);
    }
}

} // verus!
