use std::collections::HashMap;
use vstd::prelude::*;

verus! {

/// A named member of a struct or a branch of a choice.
#[derive(Debug, PartialEq)]
pub struct Field {
    pub name: String,
    pub type_index: usize,
    pub tag: i64,
}

/// An event of a stream: its id on the wire, its name and the type of its payload.
#[derive(Debug, PartialEq)]
pub struct EventType {
    pub event_name: String,
    pub event_id: u16,
    pub type_index: usize,
}

/// A type descriptor of the type table.
#[derive(Debug, PartialEq)]
pub enum TypeInfo {
    Int { offset: i64, length: usize },
    Bool,
    Blob { offset: i64, length: usize },
    BitArray { offset: i64, length: usize },
    Array { offset: i64, length: usize, type_index: usize },
    Optional { type_index: usize },
    Choice { offset: i64, length: usize, fields: Vec<Field> },
    Struct { fields: Vec<Field> },
    FourCC,
    Null,
}

/// The type table, event maps and named type indices of one build.
#[derive(Debug, PartialEq)]
pub struct Protocol {
    pub build_version: u32,
    pub has_tracker_events: bool,
    pub type_infos: Vec<TypeInfo>,
    pub game_event_types: HashMap<u16, EventType>,
    pub game_eventid_type_index: Option<usize>,
    pub message_event_types: HashMap<u16, EventType>,
    pub message_eventid_type_index: Option<usize>,
    pub tracker_event_types: HashMap<u16, EventType>,
    pub tracker_eventid_type_index: Option<usize>,
    pub game_loop_type_index: Option<usize>,
    pub replay_userid_type_index: Option<usize>,
    pub replay_header_type_index: Option<usize>,
    pub game_details_type_index: Option<usize>,
    pub replay_initdata_type_index: Option<usize>,
}

/// The three event streams of a replay.
#[derive(Debug, Clone, Copy, PartialEq, Eq)]
pub enum EventTypeVariant {
    GameEvent,
    MessageEvent,
    TrackerEvent,
}

/// Names one of the optional type indices that a `Protocol` carries.
#[derive(Debug, Clone, Copy, PartialEq, Eq)]
pub enum IndexName {
    GameEventId,
    MessageEventId,
    TrackerEventId,
    GameLoop,
    ReplayUserId,
    ReplayHeader,
    GameDetails,
    ReplayInitData,
}

/// Mathematical value of a `Field`.
pub struct FieldView {
    pub name: Seq<char>,
    pub type_index: usize,
    pub tag: i64,
}

/// Mathematical value of an `EventType`.
pub struct EventTypeView {
    pub event_name: Seq<char>,
    pub event_id: u16,
    pub type_index: usize,
}

/// Mathematical value of a `TypeInfo`.
pub enum TypeInfoView {
    Int { offset: i64, length: usize },
    Bool,
    Blob { offset: i64, length: usize },
    BitArray { offset: i64, length: usize },
    Array { offset: i64, length: usize, type_index: usize },
    Optional { type_index: usize },
    Choice { offset: i64, length: usize, fields: Seq<FieldView> },
    Struct { fields: Seq<FieldView> },
    FourCC,
    Null,
}

/// Mathematical value of a `Protocol`.
pub struct ProtocolView {
    pub build_version: u32,
    pub has_tracker_events: bool,
    pub type_infos: Seq<TypeInfoView>,
    pub game_event_types: Map<u16, EventTypeView>,
    pub game_eventid_type_index: Option<usize>,
    pub message_event_types: Map<u16, EventTypeView>,
    pub message_eventid_type_index: Option<usize>,
    pub tracker_event_types: Map<u16, EventTypeView>,
    pub tracker_eventid_type_index: Option<usize>,
    pub game_loop_type_index: Option<usize>,
    pub replay_userid_type_index: Option<usize>,
    pub replay_header_type_index: Option<usize>,
    pub game_details_type_index: Option<usize>,
    pub replay_initdata_type_index: Option<usize>,
}

impl View for Field {
    type V = FieldView;

    open spec fn view(&self) -> FieldView {
        FieldView { name: self.name@, type_index: self.type_index, tag: self.tag }
    }
}

impl View for EventType {
    type V = EventTypeView;

    open spec fn view(&self) -> EventTypeView {
        EventTypeView {
            event_name: self.event_name@,
            event_id: self.event_id,
            type_index: self.type_index,
        }
    }
}

/// The mathematical values of a list of fields, in order.
pub open spec fn fields_view(fields: Seq<Field>) -> Seq<FieldView> {
    Seq::new(fields.len(), |i: int| fields[i]@)
}

impl View for TypeInfo {
    type V = TypeInfoView;

    open spec fn view(&self) -> TypeInfoView {
        match self {
            TypeInfo::Int { offset, length } => TypeInfoView::Int {
                offset: *offset,
                length: *length,
            },
            TypeInfo::Bool => TypeInfoView::Bool,
            TypeInfo::Blob { offset, length } => TypeInfoView::Blob {
                offset: *offset,
                length: *length,
            },
            TypeInfo::BitArray { offset, length } => TypeInfoView::BitArray {
                offset: *offset,
                length: *length,
            },
            TypeInfo::Array { offset, length, type_index } => TypeInfoView::Array {
                offset: *offset,
                length: *length,
                type_index: *type_index,
            },
            TypeInfo::Optional { type_index } => TypeInfoView::Optional { type_index: *type_index },
            TypeInfo::Choice { offset, length, fields } => TypeInfoView::Choice {
                offset: *offset,
                length: *length,
                fields: fields_view(fields@),
            },
            TypeInfo::Struct { fields } => TypeInfoView::Struct { fields: fields_view(fields@) },
            TypeInfo::FourCC => TypeInfoView::FourCC,
            TypeInfo::Null => TypeInfoView::Null,
        }
    }
}

/// The mathematical values of a list of type descriptors, in order.
pub open spec fn type_infos_view(infos: Seq<TypeInfo>) -> Seq<TypeInfoView> {
    Seq::new(infos.len(), |i: int| infos[i]@)
}

/// The mathematical value of an event map.
pub open spec fn event_types_view(events: Map<u16, EventType>) -> Map<u16, EventTypeView> {
    events.map_values(|e: EventType| e@)
}

impl View for Protocol {
    type V = ProtocolView;

    open spec fn view(&self) -> ProtocolView {
        ProtocolView {
            build_version: self.build_version,
            has_tracker_events: self.has_tracker_events,
            type_infos: type_infos_view(self.type_infos@),
            game_event_types: event_types_view(self.game_event_types@),
            game_eventid_type_index: self.game_eventid_type_index,
            message_event_types: event_types_view(self.message_event_types@),
            message_eventid_type_index: self.message_eventid_type_index,
            tracker_event_types: event_types_view(self.tracker_event_types@),
            tracker_eventid_type_index: self.tracker_eventid_type_index,
            game_loop_type_index: self.game_loop_type_index,
            replay_userid_type_index: self.replay_userid_type_index,
            replay_header_type_index: self.replay_header_type_index,
            game_details_type_index: self.game_details_type_index,
            replay_initdata_type_index: self.replay_initdata_type_index,
        }
    }
}

/// The tags of `fields` rise strictly from each field to the next.
pub open spec fn tags_strictly_increasing(fields: Seq<FieldView>) -> bool {
    forall|i: int, j: int| 0 <= i < j < fields.len() ==> fields[i].tag < fields[j].tag
}

/// No two of `fields` have the same tag.
pub open spec fn tags_unique(fields: Seq<FieldView>) -> bool {
    forall|i: int, j: int| 0 <= i < j < fields.len() ==> fields[i].tag != fields[j].tag
}

/// Every field of `fields` names a type of a table of `count` entries.
pub open spec fn fields_in_table(fields: Seq<FieldView>, count: nat) -> bool {
    forall|i: int| 0 <= i < fields.len() ==> (#[trigger] fields[i]).type_index < count
}

impl TypeInfoView {
    /// The descriptor keeps the rules of a type table of `count` entries: every type it
    /// names is in the table, the tags of a struct rise strictly, the tags of a choice
    /// differ.
    pub open spec fn wf(self, count: nat) -> bool {
        match self {
            TypeInfoView::Array { type_index, .. } => type_index < count,
            TypeInfoView::Optional { type_index } => type_index < count,
            TypeInfoView::Choice { fields, .. } => fields_in_table(fields, count) && tags_unique(
                fields,
            ),
            TypeInfoView::Struct { fields } => fields_in_table(fields, count)
                && tags_strictly_increasing(fields),
            _ => true,
        }
    }
}

/// The optional index `index` is absent or names a type of a table of `count` entries.
pub open spec fn index_in_table(index: Option<usize>, count: nat) -> bool {
    match index {
        Some(i) => i < count,
        None => true,
    }
}

/// Every event of `events` is filed under its own id and names a type of a table of
/// `count` entries.
pub open spec fn events_in_table(events: Map<u16, EventTypeView>, count: nat) -> bool {
    forall|id: u16| #[trigger]
        events.contains_key(id) ==> events[id].event_id == id && events[id].type_index < count
}

impl ProtocolView {
    /// The invariants of a loaded protocol.
    pub open spec fn wf(self) -> bool {
        let count = self.type_infos.len();
        &&& forall|i: int| 0 <= i < count ==> (#[trigger] self.type_infos[i]).wf(count)
        &&& events_in_table(self.game_event_types, count)
        &&& events_in_table(self.message_event_types, count)
        &&& events_in_table(self.tracker_event_types, count)
        &&& index_in_table(self.game_eventid_type_index, count)
        &&& index_in_table(self.message_eventid_type_index, count)
        &&& index_in_table(self.tracker_eventid_type_index, count)
        &&& index_in_table(self.game_loop_type_index, count)
        &&& index_in_table(self.replay_userid_type_index, count)
        &&& index_in_table(self.replay_header_type_index, count)
        &&& index_in_table(self.game_details_type_index, count)
        &&& index_in_table(self.replay_initdata_type_index, count)
    }

    /// The event map of the stream `kind`.
    pub open spec fn event_types(self, kind: EventTypeVariant) -> Map<u16, EventTypeView> {
        match kind {
            EventTypeVariant::GameEvent => self.game_event_types,
            EventTypeVariant::MessageEvent => self.message_event_types,
            EventTypeVariant::TrackerEvent => self.tracker_event_types,
        }
    }

    /// The type index under which the stream `kind` carries its event ids.
    pub open spec fn event_id_type_index(self, kind: EventTypeVariant) -> Option<usize> {
        match kind {
            EventTypeVariant::GameEvent => self.game_eventid_type_index,
            EventTypeVariant::MessageEvent => self.message_eventid_type_index,
            EventTypeVariant::TrackerEvent => self.tracker_eventid_type_index,
        }
    }
}

impl Protocol {
    /// The descriptor at `type_index`, if the table has one there.
    pub fn type_info(&self, type_index: usize) -> (info: Option<&TypeInfo>)
        ensures
            match info {
                Some(t) => type_index < self@.type_infos.len() && t@
                    == self@.type_infos[type_index as int],
                None => type_index >= self@.type_infos.len(),
            },
    {
        if type_index < self.type_infos.len() {
            Some(&self.type_infos[type_index])
        } else {
            None
        }
    }

    /// The event of the stream `kind` with the id `event_id`, if the stream has one.
    pub fn get_event_type(&self, kind: EventTypeVariant, event_id: u16) -> (event: Option<
        &EventType,
    >)
        ensures
            match event {
                Some(e) => self@.event_types(kind).contains_key(event_id) && e@
                    == self@.event_types(kind)[event_id],
                None => !self@.event_types(kind).contains_key(event_id),
            },
    {
        broadcast use vstd::std_specs::hash::group_hash_axioms;

        match kind {
            EventTypeVariant::GameEvent => self.game_event_types.get(&event_id),
            EventTypeVariant::MessageEvent => self.message_event_types.get(&event_id),
            EventTypeVariant::TrackerEvent => self.tracker_event_types.get(&event_id),
        }
    }
}

} // verus!
