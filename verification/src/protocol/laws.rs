use crate::protocol::parsers::{event_line_form, event_types_form, type_info_form, type_infos_form};
use crate::protocol::types::{
    tags_strictly_increasing, tags_unique, EventTypeView, FieldView, ProtocolView, TypeInfoView,
};
use crate::protocol::{
    bad_event_index, bad_field_index, bad_info_index, bad_table_index, empty_protocol,
    first_bad_index, protocol_form, schema_form, top_level_form,
};
use vstd::prelude::*;

verus! {

/// The tags of the descriptor keep the rules: those of a struct rise strictly, those of a
/// choice differ.
pub open spec fn tags_ok(info: TypeInfoView) -> bool {
    match info {
        TypeInfoView::Struct { fields } => tags_strictly_increasing(fields),
        TypeInfoView::Choice { fields, .. } => tags_unique(fields),
        _ => true,
    }
}

/// The tags of every descriptor of `infos` keep the rules.
pub open spec fn all_tags_ok(infos: Seq<TypeInfoView>) -> bool {
    forall|i: int| 0 <= i < infos.len() ==> tags_ok(#[trigger] infos[i])
}

/// Every event of `events` is filed under its own id.
pub open spec fn events_keyed(events: Map<u16, EventTypeView>) -> bool {
    forall|id: u16| #[trigger] events.contains_key(id) ==> events[id].event_id == id
}

/// What holds of a protocol while its schema is read.
pub open spec fn schema_inv(p: ProtocolView) -> bool {
    &&& all_tags_ok(p.type_infos)
    &&& events_keyed(p.game_event_types)
    &&& events_keyed(p.message_event_types)
    &&& events_keyed(p.tracker_event_types)
}

/// The tags of a descriptor that was read keep the rules.
pub proof fn lemma_type_info_tags(s: Seq<u8>)
    ensures
        match type_info_form(s) {
            Ok((info, _)) => tags_ok(info),
            Err(_) => true,
        },
{
}

/// The tags of the descriptors of a section that was read keep the rules.
pub proof fn lemma_type_infos_tags(s: Seq<u8>, done: Seq<TypeInfoView>)
    requires
        all_tags_ok(done),
    ensures
        match type_infos_form(s, done) {
            Ok((infos, _)) => all_tags_ok(infos),
            Err(_) => true,
        },
    decreases s.len(),
{
    lemma_type_info_tags(s);
    match type_info_form(s) {
        Ok((info, rest)) => {
            if rest.len() < s.len() {
                assert(all_tags_ok(done.push(info))) by {
                    assert forall|i: int| 0 <= i < done.push(info).len() implies tags_ok(
                        #[trigger] done.push(info)[i],
                    ) by {
                        if i < done.len() {
                            assert(done.push(info)[i] == done[i]);
                        }
                    }
                }
                lemma_type_infos_tags(rest, done.push(info));
            }
        },
        Err(_) => {},
    }
}

/// The events of a section that was read are filed under their own ids.
pub proof fn lemma_event_types_keyed(s: Seq<u8>, done: Map<u16, EventTypeView>)
    requires
        events_keyed(done),
    ensures
        match event_types_form(s, done) {
            Ok((events, _)) => events_keyed(events),
            Err(_) => true,
        },
    decreases s.len(),
{
    match event_line_form(s) {
        Ok((event, rest)) => {
            if rest.len() < s.len() {
                lemma_event_types_keyed(rest, done.insert(event.event_id, event));
            }
        },
        Err(_) => {},
    }
}

/// Reading one form keeps what holds of a protocol while its schema is read.
pub proof fn lemma_top_level_inv(s: Seq<u8>, p: ProtocolView)
    requires
        schema_inv(p),
    ensures
        match top_level_form(s, p) {
            Ok((next, _)) => schema_inv(next),
            Err(_) => true,
        },
{
    match crate::protocol::parsers::line_parsers::skip_line_form(s) {
        Some(s1) => {
            lemma_type_infos_tags(s1, Seq::empty());
            lemma_event_types_keyed(s1, Map::empty());
        },
        None => {},
    }
}

/// Reading a schema keeps what holds of a protocol while its schema is read.
pub proof fn lemma_schema_inv(s: Seq<u8>, p: ProtocolView)
    requires
        schema_inv(p),
    ensures
        match schema_form(s, p) {
            Ok(q) => schema_inv(q),
            Err(_) => true,
        },
    decreases s.len(),
{
    lemma_top_level_inv(s, p);
    match top_level_form(s, p) {
        Ok((next, rest)) => {
            if rest.len() < s.len() {
                lemma_schema_inv(rest, next);
            }
        },
        Err(_) => {},
    }
}

/// Fields among which no bad index was found all name types of the table.
pub proof fn lemma_no_bad_field(fields: Seq<FieldView>, count: nat, from: int)
    requires
        0 <= from,
        bad_field_index(fields, count, from) is None,
    ensures
        forall|i: int| from <= i < fields.len() ==> (#[trigger] fields[i]).type_index < count,
    decreases fields.len() - from,
{
    if from < fields.len() {
        lemma_no_bad_field(fields, count, from + 1);
    }
}

/// Descriptors among which no bad index was found all name types of the table.
pub proof fn lemma_no_bad_info(infos: Seq<TypeInfoView>, from: int)
    requires
        0 <= from,
        bad_table_index(infos, from) is None,
    ensures
        forall|i: int|
            from <= i < infos.len() ==> bad_info_index(#[trigger] infos[i], infos.len()) is None,
    decreases infos.len() - from,
{
    if from < infos.len() {
        lemma_no_bad_info(infos, from + 1);
    }
}

/// Events among which no bad index was found all name types of the table.
pub proof fn lemma_no_bad_event(events: Map<u16, EventTypeView>, count: nat, from: int)
    requires
        0 <= from,
        bad_event_index(events, count, from) is None,
    ensures
        forall|id: u16|
            from <= id && #[trigger] events.contains_key(id) ==> events[id].type_index < count,
    decreases 0x10000 - from,
{
    if from <= 0xffff {
        lemma_no_bad_event(events, count, from + 1);
    }
}

/// A protocol that was loaded is well formed: every type index in it names a type of its
/// table, the tags of every struct rise strictly from field to field, the tags of every
/// choice differ, and every event is filed under its own id.
pub proof fn lemma_loaded_protocol_is_well_formed(s: Seq<u8>)
    ensures
        match protocol_form(s) {
            Ok(p) => p.wf(),
            Err(_) => true,
        },
{
    let start = empty_protocol();
    assert(schema_inv(start));
    lemma_schema_inv(s, start);
    match schema_form(s, start) {
        Ok(p) => {
            if first_bad_index(p) is None {
                let count = p.type_infos.len();
                lemma_no_bad_info(p.type_infos, 0);
                lemma_no_bad_event(p.game_event_types, count, 0);
                lemma_no_bad_event(p.message_event_types, count, 0);
                lemma_no_bad_event(p.tracker_event_types, count, 0);
                assert forall|i: int| 0 <= i < count implies (#[trigger] p.type_infos[i]).wf(
                    count,
                ) by {
                    let info = p.type_infos[i];
                    assert(tags_ok(info));
                    assert(bad_info_index(info, count) is None);
                    match info {
                        TypeInfoView::Choice { fields, .. } => {
                            lemma_no_bad_field(fields, count, 0);
                        },
                        TypeInfoView::Struct { fields } => {
                            lemma_no_bad_field(fields, count, 0);
                        },
                        _ => {},
                    }
                }
            }
        },
        Err(_) => {},
    }
}

} // verus!
