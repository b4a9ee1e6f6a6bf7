pub mod error;
pub mod laws;
pub mod parsers;
pub mod text;
pub mod types;

use crate::protocol::error::{
    syntax_error, syntax_error_at, SchemaError, SchemaErrorView, SyntaxReason,
};
use crate::protocol::parsers::line_parsers::{constant_form, skip_line_form};
use crate::protocol::parsers::{
    build_constant, build_event_types, build_type_infos, event_types_section, skip_current_line,
    type_infos_section,
};
use crate::protocol::text::{ascii_bytes, begins_with, lit, starts_with};
use crate::protocol::types::{
    event_types_view, fields_view, type_infos_view, EventType, EventTypeVariant, EventTypeView,
    Field, FieldView, IndexName, Protocol, ProtocolView, TypeInfo, TypeInfoView,
};
use std::collections::HashMap;
use vstd::prelude::*;
use vstd::string::*;

verus! {

/// A protocol before anything has been read: no types, no events, no indices. The schema
/// text does not say which build it describes; the protocol names build 93272 and no
/// tracker events.
pub open spec fn empty_protocol() -> ProtocolView {
    ProtocolView {
        build_version: 93272,
        has_tracker_events: false,
        type_infos: Seq::empty(),
        game_event_types: Map::empty(),
        game_eventid_type_index: None,
        message_event_types: Map::empty(),
        message_eventid_type_index: None,
        tracker_event_types: Map::empty(),
        tracker_eventid_type_index: None,
        game_loop_type_index: None,
        replay_userid_type_index: None,
        replay_header_type_index: None,
        game_details_type_index: None,
        replay_initdata_type_index: None,
    }
}

/// The protocol `p` with the events `events` for the stream `kind`.
pub open spec fn with_events(
    p: ProtocolView,
    kind: EventTypeVariant,
    events: Map<u16, EventTypeView>,
) -> ProtocolView {
    match kind {
        EventTypeVariant::GameEvent => ProtocolView { game_event_types: events, ..p },
        EventTypeVariant::MessageEvent => ProtocolView { message_event_types: events, ..p },
        EventTypeVariant::TrackerEvent => ProtocolView { tracker_event_types: events, ..p },
    }
}

/// A section at the start of `s`, read into the protocol `p`: the type descriptors or the
/// events of a stream. `None` where `s` starts no section.
pub open spec fn section_form(s: Seq<u8>, p: ProtocolView) -> Option<
    Result<(ProtocolView, Seq<u8>), SchemaErrorView>,
> {
    if starts_with(s, lit("typeinfos"@)) {
        Some(
            match type_infos_section(s) {
                Err(e) => Err(e),
                Ok((infos, rest)) => Ok((ProtocolView { type_infos: infos, ..p }, rest)),
            },
        )
    } else if starts_with(s, lit("game_event_types"@)) {
        Some(events_section_form(s, p, EventTypeVariant::GameEvent))
    } else if starts_with(s, lit("message_event_types"@)) {
        Some(events_section_form(s, p, EventTypeVariant::MessageEvent))
    } else if starts_with(s, lit("tracker_event_types"@)) {
        Some(events_section_form(s, p, EventTypeVariant::TrackerEvent))
    } else {
        None
    }
}

/// The section of the events of the stream `kind` at the start of `s`, read into `p`.
pub open spec fn events_section_form(s: Seq<u8>, p: ProtocolView, kind: EventTypeVariant) -> Result<
    (ProtocolView, Seq<u8>),
    SchemaErrorView,
> {
    match event_types_section(s) {
        Err(e) => Err(e),
        Ok((events, rest)) => Ok((with_events(p, kind, events), rest)),
    }
}

/// `s` starts a line that the loader passes over: a comment, an import, an empty line.
pub open spec fn starts_skipped_line(s: Seq<u8>) -> bool {
    ||| starts_with(s, lit("#"@))
    ||| starts_with(s, lit("from"@))
    ||| starts_with(s, lit("\r"@))
    ||| starts_with(s, lit("\n"@))
}

/// Which index a constant sets, by the start of its name. `None` where `s` starts none
/// of the known names.
pub open spec fn constant_name(s: Seq<u8>) -> Option<IndexName> {
    if starts_with(s, lit("tracker_eventid"@)) {
        Some(IndexName::TrackerEventId)
    } else if starts_with(s, lit("svaruint32"@)) {
        Some(IndexName::GameLoop)
    } else if starts_with(s, lit("game_eventid"@)) {
        Some(IndexName::GameEventId)
    } else if starts_with(s, lit("message_eventid"@)) {
        Some(IndexName::MessageEventId)
    } else if starts_with(s, lit("replay_userid"@)) {
        Some(IndexName::ReplayUserId)
    } else if starts_with(s, lit("game_details"@)) {
        Some(IndexName::GameDetails)
    } else if starts_with(s, lit("replay_header"@)) {
        Some(IndexName::ReplayHeader)
    } else if starts_with(s, lit("replay_initdata"@)) {
        Some(IndexName::ReplayInitData)
    } else {
        None
    }
}

/// The protocol `p` with the index that `name` names set to `k`.
pub open spec fn with_index(p: ProtocolView, name: IndexName, k: usize) -> ProtocolView {
    match name {
        IndexName::GameEventId => ProtocolView {
            game_eventid_type_index: Some(k),
            ..p
        },
        IndexName::MessageEventId => ProtocolView {
            message_eventid_type_index: Some(k),
            ..p
        },
        IndexName::TrackerEventId => ProtocolView {
            tracker_eventid_type_index: Some(k),
            ..p
        },
        IndexName::GameLoop => ProtocolView {
            game_loop_type_index: Some(k),
            ..p
        },
        IndexName::ReplayUserId => ProtocolView {
            replay_userid_type_index: Some(k),
            ..p
        },
        IndexName::ReplayHeader => ProtocolView {
            replay_header_type_index: Some(k),
            ..p
        },
        IndexName::GameDetails => ProtocolView {
            game_details_type_index: Some(k),
            ..p
        },
        IndexName::ReplayInitData => ProtocolView {
            replay_initdata_type_index: Some(k),
            ..p
        },
    }
}

/// The form at the start of `s`, read into the protocol `p`: a section, a line to pass
/// over, or a constant. Any other line is an error.
pub open spec fn top_level_form(s: Seq<u8>, p: ProtocolView) -> Result<
    (ProtocolView, Seq<u8>),
    SchemaErrorView,
> {
    match section_form(s, p) {
        Some(read) => read,
        None => if starts_skipped_line(s) {
            match skip_line_form(s) {
                None => Err(syntax_error_at(s, SyntaxReason::LineEnd)),
                Some(rest) => Ok((p, rest)),
            }
        } else {
            match constant_name(s) {
                None => Err(syntax_error_at(s, SyntaxReason::UnknownLine)),
                Some(name) => match constant_form(s) {
                    None => Err(syntax_error_at(s, SyntaxReason::Constant)),
                    Some((k, rest)) => Ok((with_index(p, name, k), rest)),
                },
            }
        },
    }
}

/// The protocol that the forms of `s` make of the protocol `p`, up to the end of `s` or
/// to a line that starts with `def`. A form always takes some text
/// (`lemma_top_level_shrinks`), so that the reading goes on behind each of them.
pub open spec fn schema_form(s: Seq<u8>, p: ProtocolView) -> Result<ProtocolView, SchemaErrorView>
    decreases s.len(),
{
    if s.len() == 0 || starts_with(s, lit("def"@)) {
        Ok(p)
    } else {
        match top_level_form(s, p) {
            Err(e) => Err(e),
            Ok((next, rest)) => if rest.len() < s.len() {
                schema_form(rest, next)
            } else {
                Err(syntax_error_at(s, SyntaxReason::UnknownLine))
            },
        }
    }
}

/// What follows a form at the top level is shorter than the text that starts with it.
pub proof fn lemma_top_level_shrinks(s: Seq<u8>, p: ProtocolView)
    ensures
        match top_level_form(s, p) {
            Ok((_, rest)) => rest.len() < s.len(),
            Err(_) => true,
        },
{
    crate::protocol::parsers::lemma_sections_shrink(s);
    crate::protocol::parsers::line_parsers::lemma_skip_line_shrinks(s);
    crate::protocol::parsers::line_parsers::lemma_constant_shrinks(s);
}

/// The first of two findings.
pub open spec fn first_of(a: Option<usize>, b: Option<usize>) -> Option<usize> {
    match a {
        Some(_) => a,
        None => b,
    }
}

/// The type index of the first field of `fields`, from position `from` on, that names no
/// type of a table of `count` entries.
pub open spec fn bad_field_index(fields: Seq<FieldView>, count: nat, from: int) -> Option<usize>
    decreases fields.len() - from,
{
    if from < 0 || from >= fields.len() {
        None
    } else if fields[from].type_index >= count {
        Some(fields[from].type_index)
    } else {
        bad_field_index(fields, count, from + 1)
    }
}

/// The first type index in the descriptor `info` that names no type of a table of `count`
/// entries.
pub open spec fn bad_info_index(info: TypeInfoView, count: nat) -> Option<usize> {
    match info {
        TypeInfoView::Array { type_index, .. } => if type_index >= count {
            Some(type_index)
        } else {
            None
        },
        TypeInfoView::Optional { type_index } => if type_index >= count {
            Some(type_index)
        } else {
            None
        },
        TypeInfoView::Choice { fields, .. } => bad_field_index(fields, count, 0),
        TypeInfoView::Struct { fields } => bad_field_index(fields, count, 0),
        _ => None,
    }
}

/// The first type index in the descriptors of `infos`, from position `from` on, that
/// names no type of `infos`.
pub open spec fn bad_table_index(infos: Seq<TypeInfoView>, from: int) -> Option<usize>
    decreases infos.len() - from,
{
    if from < 0 || from >= infos.len() {
        None
    } else {
        first_of(bad_info_index(infos[from], infos.len()), bad_table_index(infos, from + 1))
    }
}

/// The type index of the first event of `events`, in the order of the ids from `from` on,
/// that names no type of a table of `count` entries.
pub open spec fn bad_event_index(events: Map<u16, EventTypeView>, count: nat, from: int) -> Option<
    usize,
>
    decreases 0x10000 - from,
{
    if from < 0 || from > 0xffff {
        None
    } else if events.contains_key(from as u16) && events[from as u16].type_index >= count {
        Some(events[from as u16].type_index)
    } else {
        bad_event_index(events, count, from + 1)
    }
}

/// The index `index`, if it names no type of a table of `count` entries.
pub open spec fn bad_constant(index: Option<usize>, count: nat) -> Option<usize> {
    match index {
        Some(k) => if k >= count {
            Some(k)
        } else {
            None
        },
        None => None,
    }
}

/// The first type index of the protocol `p` that names no type of its table: the
/// descriptors come first, then the events of the game, message and tracker streams, then
/// the named indices.
pub open spec fn first_bad_index(p: ProtocolView) -> Option<usize> {
    let count = p.type_infos.len();
    first_of(
        bad_table_index(p.type_infos, 0),
        first_of(
            bad_event_index(p.game_event_types, count, 0),
            first_of(
                bad_event_index(p.message_event_types, count, 0),
                first_of(
                    bad_event_index(p.tracker_event_types, count, 0),
                    bad_named_index(p),
                ),
            ),
        ),
    )
}

/// The first named index of the protocol `p` that names no type of its table.
pub open spec fn bad_named_index(p: ProtocolView) -> Option<usize> {
    let count = p.type_infos.len();
    first_of(
        bad_constant(p.game_eventid_type_index, count),
        first_of(
            bad_constant(p.message_eventid_type_index, count),
            first_of(
                bad_constant(p.tracker_eventid_type_index, count),
                first_of(
                    bad_constant(p.game_loop_type_index, count),
                    first_of(
                        bad_constant(p.replay_userid_type_index, count),
                        first_of(
                            bad_constant(p.replay_header_type_index, count),
                            first_of(
                                bad_constant(p.game_details_type_index, count),
                                bad_constant(p.replay_initdata_type_index, count),
                            ),
                        ),
                    ),
                ),
            ),
        ),
    )
}

/// The protocol that the schema `s` describes: its forms are read one after the other,
/// and every type index of the result has to name a type of its table.
pub open spec fn protocol_form(s: Seq<u8>) -> Result<ProtocolView, SchemaErrorView> {
    match schema_form(s, empty_protocol()) {
        Err(e) => Err(e),
        Ok(p) => match first_bad_index(p) {
            Some(type_index) => Err(SchemaErrorView::InvalidIndex { type_index }),
            None => Ok(p),
        },
    }
}

/// What a read of a form returned, held against what the text holds.
pub open spec fn form_is(
    res: Result<&str, SchemaError>,
    after: ProtocolView,
    expected: Result<(ProtocolView, Seq<u8>), SchemaErrorView>,
) -> bool {
    match res {
        Ok(rest) => expected == Ok::<(ProtocolView, Seq<u8>), SchemaErrorView>(
            (after, rest.spec_bytes()),
        ),
        Err(e) => expected == Err::<(ProtocolView, Seq<u8>), SchemaErrorView>(e@),
    }
}

/// Reads the section of the events of the stream `kind` into the protocol.
fn read_events_section<'a>(input: &'a str, protocol: &mut Protocol, kind: EventTypeVariant) -> (res:
    Result<&'a str, SchemaError>)
    ensures
        form_is(
            res,
            final(protocol)@,
            events_section_form(input.spec_bytes(), old(protocol)@, kind),
        ),
{
    match build_event_types(input) {
        Err(e) => Err(e),
        Ok((rest, events)) => {
            match kind {
                EventTypeVariant::GameEvent => {
                    protocol.game_event_types = events;
                },
                EventTypeVariant::MessageEvent => {
                    protocol.message_event_types = events;
                },
                EventTypeVariant::TrackerEvent => {
                    protocol.tracker_event_types = events;
                },
            }
            Ok(rest)
        },
    }
}

/// Reads the section at the start of `input` into the protocol, if a section starts
/// there.
fn read_section<'a>(input: &'a str, protocol: &mut Protocol) -> (res: Option<
    Result<&'a str, SchemaError>,
>)
    ensures
        match res {
            Some(read) => match section_form(input.spec_bytes(), old(protocol)@) {
                Some(expected) => form_is(read, final(protocol)@, expected),
                None => false,
            },
            None => section_form(input.spec_bytes(), old(protocol)@) is None && final(protocol)@
                == old(protocol)@,
        },
{
    proof {
        reveal_strlit("typeinfos");
        reveal_strlit("game_event_types");
        reveal_strlit("message_event_types");
        reveal_strlit("tracker_event_types");
    }
    if begins_with(input, ascii_bytes("typeinfos")) {
        match build_type_infos(input) {
            Err(e) => Some(Err(e)),
            Ok((rest, infos)) => {
                protocol.type_infos = infos;
                Some(Ok(rest))
            },
        }
    } else if begins_with(input, ascii_bytes("game_event_types")) {
        Some(read_events_section(input, protocol, EventTypeVariant::GameEvent))
    } else if begins_with(input, ascii_bytes("message_event_types")) {
        Some(read_events_section(input, protocol, EventTypeVariant::MessageEvent))
    } else if begins_with(input, ascii_bytes("tracker_event_types")) {
        Some(read_events_section(input, protocol, EventTypeVariant::TrackerEvent))
    } else {
        None
    }
}

/// Whether `input` starts a line that the loader passes over.
fn is_skipped_line(input: &str) -> (res: bool)
    ensures
        res == starts_skipped_line(input.spec_bytes()),
{
    proof {
        reveal_strlit("#");
        reveal_strlit("from");
        reveal_strlit("\r");
        reveal_strlit("\n");
    }
    begins_with(input, ascii_bytes("#")) || begins_with(input, ascii_bytes("from")) || begins_with(
        input,
        ascii_bytes("\r"),
    ) || begins_with(input, ascii_bytes("\n"))
}

/// Which index the constant at the start of `input` sets.
fn find_constant_name(input: &str) -> (res: Option<IndexName>)
    ensures
        res == constant_name(input.spec_bytes()),
{
    proof {
        reveal_strlit("tracker_eventid");
        reveal_strlit("svaruint32");
        reveal_strlit("game_eventid");
        reveal_strlit("message_eventid");
        reveal_strlit("replay_userid");
        reveal_strlit("game_details");
        reveal_strlit("replay_header");
        reveal_strlit("replay_initdata");
    }
    if begins_with(input, ascii_bytes("tracker_eventid")) {
        Some(IndexName::TrackerEventId)
    } else if begins_with(input, ascii_bytes("svaruint32")) {
        Some(IndexName::GameLoop)
    } else if begins_with(input, ascii_bytes("game_eventid")) {
        Some(IndexName::GameEventId)
    } else if begins_with(input, ascii_bytes("message_eventid")) {
        Some(IndexName::MessageEventId)
    } else if begins_with(input, ascii_bytes("replay_userid")) {
        Some(IndexName::ReplayUserId)
    } else if begins_with(input, ascii_bytes("game_details")) {
        Some(IndexName::GameDetails)
    } else if begins_with(input, ascii_bytes("replay_header")) {
        Some(IndexName::ReplayHeader)
    } else if begins_with(input, ascii_bytes("replay_initdata")) {
        Some(IndexName::ReplayInitData)
    } else {
        None
    }
}

/// Sets the index that `name` names to `k`.
fn set_index(protocol: &mut Protocol, name: IndexName, k: usize)
    ensures
        final(protocol)@ == with_index(old(protocol)@, name, k),
{
    match name {
        IndexName::GameEventId => {
            protocol.game_eventid_type_index = Some(k);
        },
        IndexName::MessageEventId => {
            protocol.message_eventid_type_index = Some(k);
        },
        IndexName::TrackerEventId => {
            protocol.tracker_eventid_type_index = Some(k);
        },
        IndexName::GameLoop => {
            protocol.game_loop_type_index = Some(k);
        },
        IndexName::ReplayUserId => {
            protocol.replay_userid_type_index = Some(k);
        },
        IndexName::ReplayHeader => {
            protocol.replay_header_type_index = Some(k);
        },
        IndexName::GameDetails => {
            protocol.game_details_type_index = Some(k);
        },
        IndexName::ReplayInitData => {
            protocol.replay_initdata_type_index = Some(k);
        },
    }
}

/// Reads the form at the start of `input` into the protocol.
fn read_top_level<'a>(input: &'a str, protocol: &mut Protocol) -> (res: Result<
    &'a str,
    SchemaError,
>)
    ensures
        form_is(res, final(protocol)@, top_level_form(input.spec_bytes(), old(protocol)@)),
{
    match read_section(input, protocol) {
        Some(read) => {
            return read;
        },
        None => {},
    }
    if is_skipped_line(input) {
        return match skip_current_line(input) {
            Ok((rest, _)) => Ok(rest),
            Err(e) => Err(e),
        };
    }
    let name = match find_constant_name(input) {
        Some(name) => name,
        None => {
            return Err(syntax_error(input, SyntaxReason::UnknownLine));
        },
    };
    match build_constant(input) {
        Ok((rest, Some(k))) => {
            set_index(protocol, name, k);
            Ok(rest)
        },
        Ok((_, None)) => Err(syntax_error(input, SyntaxReason::Constant)),
        Err(e) => Err(e),
    }
}

/// The type index of the first field of `fields` that names no type of a table of `count`
/// entries.
fn find_bad_field(fields: &Vec<Field>, count: usize) -> (res: Option<usize>)
    ensures
        res == bad_field_index(fields_view(fields@), count as nat, 0),
{
    let mut i: usize = 0;
    while i < fields.len()
        invariant
            i <= fields.len(),
            bad_field_index(fields_view(fields@), count as nat, 0) == bad_field_index(
                fields_view(fields@),
                count as nat,
                i as int,
            ),
        decreases fields.len() - i,
    {
        if fields[i].type_index >= count {
            return Some(fields[i].type_index);
        }
        i = i + 1;
    }
    None
}

/// The first type index in `info` that names no type of a table of `count` entries.
fn find_bad_in_info(info: &TypeInfo, count: usize) -> (res: Option<usize>)
    ensures
        res == bad_info_index(info@, count as nat),
{
    match info {
        TypeInfo::Array { type_index, .. } => if *type_index >= count {
            Some(*type_index)
        } else {
            None
        },
        TypeInfo::Optional { type_index } => if *type_index >= count {
            Some(*type_index)
        } else {
            None
        },
        TypeInfo::Choice { fields, .. } => find_bad_field(fields, count),
        TypeInfo::Struct { fields } => find_bad_field(fields, count),
        _ => None,
    }
}

/// The first type index in the descriptors of `infos` that names no type of `infos`.
fn find_bad_in_table(infos: &Vec<TypeInfo>) -> (res: Option<usize>)
    ensures
        res == bad_table_index(type_infos_view(infos@), 0),
{
    let count: usize = infos.len();
    let mut i: usize = 0;
    while i < infos.len()
        invariant
            i <= infos.len(),
            count == infos.len(),
            bad_table_index(type_infos_view(infos@), 0) == bad_table_index(
                type_infos_view(infos@),
                i as int,
            ),
        decreases infos.len() - i,
    {
        match find_bad_in_info(&infos[i], count) {
            Some(type_index) => {
                return Some(type_index);
            },
            None => {},
        }
        i = i + 1;
    }
    None
}

/// The type index of the first event of `events`, in the order of the ids, that names no
/// type of a table of `count` entries.
fn find_bad_event(events: &HashMap<u16, EventType>, count: usize) -> (res: Option<usize>)
    ensures
        res == bad_event_index(event_types_view(events@), count as nat, 0),
{
    broadcast use vstd::std_specs::hash::group_hash_axioms;

    let mut id: u32 = 0;
    while id <= 0xffff
        invariant
            id <= 0x10000,
            bad_event_index(event_types_view(events@), count as nat, 0) == bad_event_index(
                event_types_view(events@),
                count as nat,
                id as int,
            ),
        decreases 0x10000 - id,
    {
        match events.get(&(id as u16)) {
            Some(event) => {
                if event.type_index >= count {
                    return Some(event.type_index);
                }
            },
            None => {},
        }
        id = id + 1;
    }
    None
}

/// The index `index`, if it names no type of a table of `count` entries.
fn check_constant(index: Option<usize>, count: usize) -> (res: Option<usize>)
    ensures
        res == bad_constant(index, count as nat),
{
    match index {
        Some(k) => if k >= count {
            Some(k)
        } else {
            None
        },
        None => None,
    }
}

/// The first of two findings.
fn first_found(a: Option<usize>, b: Option<usize>) -> (res: Option<usize>)
    ensures
        res == first_of(a, b),
{
    match a {
        Some(_) => a,
        None => b,
    }
}

/// The first named index of the protocol that names no type of its table.
fn find_bad_named_index(protocol: &Protocol) -> (res: Option<usize>)
    ensures
        res == bad_named_index(protocol@),
{
    let count: usize = protocol.type_infos.len();
    first_found(
        check_constant(protocol.game_eventid_type_index, count),
        first_found(
            check_constant(protocol.message_eventid_type_index, count),
            first_found(
                check_constant(protocol.tracker_eventid_type_index, count),
                first_found(
                    check_constant(protocol.game_loop_type_index, count),
                    first_found(
                        check_constant(protocol.replay_userid_type_index, count),
                        first_found(
                            check_constant(protocol.replay_header_type_index, count),
                            first_found(
                                check_constant(protocol.game_details_type_index, count),
                                check_constant(protocol.replay_initdata_type_index, count),
                            ),
                        ),
                    ),
                ),
            ),
        ),
    )
}

/// The first type index of the protocol that names no type of its table.
fn find_bad_index(protocol: &Protocol) -> (res: Option<usize>)
    ensures
        res == first_bad_index(protocol@),
{
    let count: usize = protocol.type_infos.len();
    match find_bad_in_table(&protocol.type_infos) {
        Some(type_index) => {
            return Some(type_index);
        },
        None => {},
    }
    match find_bad_event(&protocol.game_event_types, count) {
        Some(type_index) => {
            return Some(type_index);
        },
        None => {},
    }
    match find_bad_event(&protocol.message_event_types, count) {
        Some(type_index) => {
            return Some(type_index);
        },
        None => {},
    }
    match find_bad_event(&protocol.tracker_event_types, count) {
        Some(type_index) => {
            return Some(type_index);
        },
        None => {},
    }
    find_bad_named_index(protocol)
}

/// Reads a schema: the type descriptors, the events of the three streams and the named
/// type indices of one build.
pub fn build_protocol<'a>(input: &'a str) -> (res: Result<(&'a str, Protocol), SchemaError>)
    ensures
        match res {
            Ok((rest, protocol)) => protocol_form(input.spec_bytes()) == Ok::<
                ProtocolView,
                SchemaErrorView,
            >(protocol@) && rest@.len() == 0 && protocol@.wf(),
            Err(e) => protocol_form(input.spec_bytes()) == Err::<ProtocolView, SchemaErrorView>(
                e@,
            ),
        },
{
    let mut protocol = Protocol {
        build_version: 93272,
        has_tracker_events: false,
        type_infos: Vec::new(),
        game_event_types: HashMap::new(),
        game_eventid_type_index: None,
        message_event_types: HashMap::new(),
        message_eventid_type_index: None,
        tracker_event_types: HashMap::new(),
        tracker_eventid_type_index: None,
        game_loop_type_index: None,
        replay_userid_type_index: None,
        replay_header_type_index: None,
        game_details_type_index: None,
        replay_initdata_type_index: None,
    };
    let mut rest: &'a str = input;
    proof {
        let p = protocol@;
        assert(p.type_infos =~= Seq::empty());
        assert(p.game_event_types =~= Map::empty());
        assert(p.message_event_types =~= Map::empty());
        assert(p.tracker_event_types =~= Map::empty());
        assert(p == empty_protocol());
        reveal_strlit("");
    }
    loop
        invariant_except_break
            schema_form(input.spec_bytes(), empty_protocol()) == schema_form(
                rest.spec_bytes(),
                protocol@,
            ),
        ensures
            schema_form(input.spec_bytes(), empty_protocol()) == Ok::<
                ProtocolView,
                SchemaErrorView,
            >(protocol@),
        decreases rest.spec_bytes().len(),
    {
        proof {
            reveal_strlit("def");
        }
        if rest.as_bytes().len() == 0 || begins_with(rest, ascii_bytes("def")) {
            break ;
        }
        proof {
            lemma_top_level_shrinks(rest.spec_bytes(), protocol@);
        }
        match read_top_level(rest, &mut protocol) {
            Err(e) => {
                return Err(e);
            },
            Ok(next) => {
                rest = next;
            },
        }
    }
    proof {
        crate::protocol::laws::lemma_loaded_protocol_is_well_formed(input.spec_bytes());
    }
    match find_bad_index(&protocol) {
        Some(type_index) => Err(SchemaError::InvalidIndex { type_index }),
        None => Ok(("", protocol)),
    }
}

} // verus!
