use crate::protocol::types::{EventTypeVariant, Protocol, ProtocolView};
use crate::replay::buffer::BitPackedBuff;
use crate::replay::cursor::Cursor;
use crate::replay::decoders::{decode_value, same_stream};
use crate::protocol::types::IndexName;
use crate::replay::error::{DecodeError, LimitKind};
use crate::replay::grammar::{value_at, DecodeLimits, Dialect};
use crate::replay::trace::{Failure, FailureView, PathStep, Site};
use crate::replay::types::{
    lemma_choice_view, lemma_field_view, lemma_struct_view, members_view, option_view,
    ParsedField, ParsedFieldType, ParsedFieldView, ParsedValueView,
};
use vstd::prelude::*;

verus! {

/// One event of a stream.
#[derive(Debug, PartialEq)]
pub struct Event {
    /// The game loop at which the event happened: the sum of the deltas up to it.
    pub game_loop: i64,
    /// The user who caused the event; tracker events name none.
    pub user_id: Option<i64>,
    /// The name under which the protocol lists the event.
    pub event_name: String,
    /// The payload of the event.
    pub data: ParsedField,
}

/// Mathematical value of an `Event`.
pub struct EventView {
    pub game_loop: i64,
    pub user_id: Option<i64>,
    pub event_name: Seq<char>,
    pub data: ParsedFieldView,
}

impl View for Event {
    type V = EventView;

    open spec fn view(&self) -> EventView {
        EventView {
            game_loop: self.game_loop,
            user_id: self.user_id,
            event_name: self.event_name@,
            data: self.data@,
        }
    }
}

/// The mathematical values of a list of events, in order.
pub open spec fn events_view(events: Seq<Event>) -> Seq<EventView> {
    Seq::new(events.len(), |i: int| events[i]@)
}

/// The type indices that the header of an event needs.
#[derive(Debug, Clone, Copy, PartialEq, Eq)]
pub struct StreamIndices {
    pub game_loop: usize,
    pub user_id: Option<usize>,
    pub event_id: usize,
}

/// The dialect of the stream `kind`: tracker events are versioned, game and message events
/// bit-packed.
pub open spec fn dialect_of(kind: EventTypeVariant) -> Dialect {
    match kind {
        EventTypeVariant::TrackerEvent => Dialect::Versioned,
        _ => Dialect::BitPacked,
    }
}

/// The name of the index under which the stream `kind` carries its event ids.
pub open spec fn event_id_name(kind: EventTypeVariant) -> IndexName {
    match kind {
        EventTypeVariant::GameEvent => IndexName::GameEventId,
        EventTypeVariant::MessageEvent => IndexName::MessageEventId,
        EventTypeVariant::TrackerEvent => IndexName::TrackerEventId,
    }
}

/// The indices that the stream `kind` needs of the protocol: that of its event ids, that
/// of the game loop and, but for tracker events, that of the user id.
pub open spec fn stream_indices(p: ProtocolView, kind: EventTypeVariant) -> Result<
    StreamIndices,
    DecodeError,
> {
    match p.event_id_type_index(kind) {
        None => Err(DecodeError::MissingIndex { name: event_id_name(kind) }),
        Some(event_id) => match p.game_loop_type_index {
            None => Err(DecodeError::MissingIndex { name: IndexName::GameLoop }),
            Some(game_loop) => if kind == EventTypeVariant::TrackerEvent {
                Ok(StreamIndices { game_loop, user_id: None, event_id })
            } else {
                match p.replay_userid_type_index {
                    None => Err(DecodeError::MissingIndex { name: IndexName::ReplayUserId }),
                    Some(user) => Ok(StreamIndices { game_loop, user_id: Some(user), event_id }),
                }
            },
        },
    }
}

/// The integer that a value of an event header holds: the value itself, or the value of
/// the branch of a choice.
pub open spec fn int_payload(value: Option<ParsedValueView>) -> Option<int> {
    match value {
        Some(ParsedValueView::Int(x)) => Some(x),
        Some(ParsedValueView::Choice { field, .. }) => match field.value {
            Some(ParsedValueView::Int(x)) => Some(x),
            _ => None,
        },
        _ => None,
    }
}

/// The position in `fields` of the first field from `from` on that is named `name`;
/// `fields.len()` if there is none.
pub open spec fn first_named(fields: Seq<ParsedFieldView>, name: Seq<char>, from: nat) -> nat
    decreases fields.len() - from,
{
    if from >= fields.len() {
        fields.len()
    } else if fields[from as int].name == name {
        from
    } else {
        first_named(fields, name, from + 1)
    }
}

/// The user id that a value holds: the integer of the first member named `m_userId` of a
/// struct.
pub open spec fn user_id_of(value: Option<ParsedValueView>) -> Option<int> {
    match value {
        Some(ParsedValueView::Struct(fields)) => {
            let j = first_named(fields, "m_userId"@, 0);
            if j < fields.len() {
                match fields[j as int].value {
                    Some(ParsedValueView::Int(x)) => Some(x),
                    _ => None,
                }
            } else {
                None
            }
        },
        _ => None,
    }
}

/// The game loop of the event whose header starts at `c`, where the event before it
/// happened at `game_loop`: the delta that stands at `c` must not be negative.
pub open spec fn game_loop_at(
    p: ProtocolView,
    limits: DecodeLimits,
    d: Dialect,
    ix: StreamIndices,
    c: Cursor,
    game_loop: i64,
) -> Result<(i64, Cursor), DecodeError> {
    match value_at(d, p.type_infos, limits, ix.game_loop, c, limits.max_depth as nat) {
        Err(e) => Err(e),
        Ok((v, end)) => match int_payload(v) {
            None => Err(DecodeError::MalformedEventHeader),
            Some(delta) => if delta < 0 || game_loop + delta > i64::MAX {
                Err(DecodeError::ResourceLimit { kind: LimitKind::IntegerRange })
            } else {
                Ok(((game_loop + delta) as i64, end))
            },
        },
    }
}

/// The user id that stands at `c`, in the streams that carry one.
pub open spec fn user_id_at(
    p: ProtocolView,
    limits: DecodeLimits,
    d: Dialect,
    ix: StreamIndices,
    c: Cursor,
) -> Result<(Option<i64>, Cursor), DecodeError> {
    match ix.user_id {
        None => Ok((None, c)),
        Some(t) => match value_at(d, p.type_infos, limits, t, c, limits.max_depth as nat) {
            Err(e) => Err(e),
            Ok((v, end)) => match user_id_of(v) {
                None => Err(DecodeError::MalformedEventHeader),
                Some(user) => Ok((Some(user as i64), end)),
            },
        },
    }
}

/// The id of the event that stands at `c`; the stream `kind` has to list it.
pub open spec fn event_id_at(
    p: ProtocolView,
    limits: DecodeLimits,
    kind: EventTypeVariant,
    ix: StreamIndices,
    c: Cursor,
) -> Result<(u16, Cursor), DecodeError> {
    match value_at(
        dialect_of(kind),
        p.type_infos,
        limits,
        ix.event_id,
        c,
        limits.max_depth as nat,
    ) {
        Err(e) => Err(e),
        Ok((v, end)) => match int_payload(v) {
            None => Err(DecodeError::MalformedEventHeader),
            Some(id) => if id < 0 || id > u16::MAX || !p.event_types(kind).contains_key(id as u16) {
                Err(DecodeError::UnknownEventId { event_id: id as i64 })
            } else {
                Ok((id as u16, end))
            },
        },
    }
}

/// The event that stands at `c`, where the event before it happened at `game_loop`: the
/// game loop delta, the user id where the stream carries one, the event id, and the
/// payload of the type that the protocol lists for the id. The cursor ends on the byte
/// boundary behind the payload.
#[verifier::opaque]
pub open spec fn event_at(
    p: ProtocolView,
    limits: DecodeLimits,
    kind: EventTypeVariant,
    ix: StreamIndices,
    c: Cursor,
    game_loop: i64,
) -> Result<(EventView, Cursor), DecodeError> {
    let d = dialect_of(kind);
    match game_loop_at(p, limits, d, ix, c, game_loop) {
        Err(e) => Err(e),
        Ok((at, c1)) => match user_id_at(p, limits, d, ix, c1) {
            Err(e) => Err(e),
            Ok((user_id, c2)) => match event_id_at(p, limits, kind, ix, c2) {
                Err(e) => Err(e),
                Ok((id, c3)) => {
                    let event = p.event_types(kind)[id];
                    match value_at(
                        d,
                        p.type_infos,
                        limits,
                        event.type_index,
                        c3,
                        limits.max_depth as nat,
                    ) {
                        Err(e) => Err(e),
                        Ok((value, c4)) => Ok(
                            (
                                EventView {
                                    game_loop: at,
                                    user_id,
                                    event_name: event.event_name,
                                    data: ParsedFieldView { name: "eventData"@, value },
                                },
                                c4.aligned(),
                            ),
                        ),
                    }
                },
            },
        },
    }
}

/// Every byte of `bytes` is zero.
pub open spec fn all_zero(bytes: Seq<u8>) -> bool {
    forall|i: int| 0 <= i < bytes.len() ==> bytes[i] == 0
}

/// Puts the events `done` in front of the events that the rest of a stream gave.
pub open spec fn events_after(
    done: Seq<EventView>,
    rest: Result<(Seq<EventView>, Cursor), DecodeError>,
) -> Result<(Seq<EventView>, Cursor), DecodeError> {
    match rest {
        Ok((events, end)) => Ok((done + events, end)),
        Err(e) => Err(e),
    }
}

/// The bytes of the stream of `c` that no read has touched.
pub open spec fn tail_of(c: Cursor) -> Seq<u8> {
    c.data.subrange(c.byte_index, c.data.len() as int)
}

/// Fewer bits are left to read at `next` than at `c`.
pub open spec fn moved_on(c: Cursor, next: Cursor) -> bool {
    0 <= next.bits_left() < c.bits_left()
}

/// The events that stand at `c` up to the end of the stream, however many they are, where
/// the event before them happened at `game_loop`.
///
/// Bytes that are all zero from the cursor to the end of the stream are padding: they end
/// the stream and hold no event. Where other bytes are left, the next event is read. One
/// that the end of the stream cuts short is trailing garbage, and one that reads no bit is
/// refused, since the stream would never end.
pub open spec fn events_at(
    p: ProtocolView,
    limits: DecodeLimits,
    kind: EventTypeVariant,
    ix: StreamIndices,
    c: Cursor,
    game_loop: i64,
) -> Result<(Seq<EventView>, Cursor), DecodeError>
    decreases c.bits_left(),
{
    if c.done() {
        Ok((Seq::empty(), c))
    } else if all_zero(tail_of(c)) {
        Ok((Seq::empty(), c.after_bytes(c.bytes_left() as nat)))
    } else {
        match event_at(p, limits, kind, ix, c, game_loop) {
            Err(DecodeError::EndOfInput) => Err(
                DecodeError::TrailingGarbage { offset: c.byte_index as usize },
            ),
            Err(e) => Err(e),
            Ok((event, next)) => if moved_on(c, next) {
                events_after(
                    seq![event],
                    events_at(p, limits, kind, ix, next, event.game_loop),
                )
            } else {
                Err(DecodeError::EmptyEvent { offset: c.byte_index as usize })
            },
        }
    }
}

/// The events of the stream `kind` whose bytes are `data`: all of them, from the first
/// byte to the end of the stream or to the zero bytes that pad it.
pub open spec fn stream_events(
    p: ProtocolView,
    limits: DecodeLimits,
    kind: EventTypeVariant,
    data: Seq<u8>,
) -> Result<Seq<EventView>, DecodeError> {
    match stream_indices(p, kind) {
        Err(e) => Err(e),
        Ok(ix) => match events_at(p, limits, kind, ix, Cursor::start(data, true), 0) {
            Err(e) => Err(e),
            Ok((events, _)) => Ok(events),
        },
    }
}

/// The game loops of `events` start at or above `floor` and never fall.
pub open spec fn game_loops_rise(events: Seq<EventView>, floor: i64) -> bool {
    &&& forall|i: int| 0 <= i < events.len() ==> floor <= (#[trigger] events[i]).game_loop
    &&& forall|i: int, j: int|
        0 <= i <= j < events.len() ==> events[i].game_loop <= events[j].game_loop
}

/// The events of a stream that was read without error never fall in their game loops.
pub open spec fn game_loops_rise_if_ok(
    events: Result<(Seq<EventView>, Cursor), DecodeError>,
) -> bool {
    match events {
        Ok((events, _)) => game_loops_rise(events, 0),
        Err(_) => true,
    }
}

/// The game loop of an event is not below that of the event before it.
pub proof fn lemma_event_game_loop(
    p: ProtocolView,
    limits: DecodeLimits,
    kind: EventTypeVariant,
    ix: StreamIndices,
    c: Cursor,
    game_loop: i64,
)
    ensures
        match event_at(p, limits, kind, ix, c, game_loop) {
            Ok((event, _)) => game_loop <= event.game_loop,
            Err(_) => true,
        },
{
    reveal(event_at);
}

/// An event ends on a byte boundary.
pub proof fn lemma_event_ends_aligned(
    p: ProtocolView,
    limits: DecodeLimits,
    kind: EventTypeVariant,
    ix: StreamIndices,
    c: Cursor,
    game_loop: i64,
)
    ensures
        match event_at(p, limits, kind, ix, c, game_loop) {
            Ok((_, next)) => next.bits_in_cache == 0,
            Err(_) => true,
        },
{
    reveal(event_at);
}

/// The game loops of the events of a stream never fall.
pub proof fn lemma_events_in_order(
    p: ProtocolView,
    limits: DecodeLimits,
    kind: EventTypeVariant,
    ix: StreamIndices,
    c: Cursor,
    game_loop: i64,
)
    ensures
        match events_at(p, limits, kind, ix, c, game_loop) {
            Ok((events, _)) => game_loops_rise(events, game_loop),
            Err(_) => true,
        },
    decreases c.bits_left(),
{
    if !c.done() && !all_zero(tail_of(c)) {
        lemma_event_game_loop(p, limits, kind, ix, c, game_loop);
        match event_at(p, limits, kind, ix, c, game_loop) {
            Ok((event, next)) => {
                if moved_on(c, next) {
                    lemma_events_in_order(p, limits, kind, ix, next, event.game_loop);
                    let rest = events_at(p, limits, kind, ix, next, event.game_loop);
                    if let Ok((more, end)) = rest {
                        let all = seq![event] + more;
                        assert forall|i: int| 0 <= i < all.len() implies game_loop <= (
                        #[trigger] all[i]).game_loop by {
                            if i > 0 {
                                assert(all[i] == more[i - 1]);
                            }
                        }
                        assert forall|i: int, j: int| 0 <= i <= j < all.len() implies all[i].game_loop
                            <= all[j].game_loop by {
                            if i > 0 {
                                assert(all[i] == more[i - 1]);
                                assert(all[j] == more[j - 1]);
                            } else if j > 0 {
                                assert(all[j] == more[j - 1]);
                            }
                        }
                    }
                }
            },
            Err(_) => {},
        }
    }
}

/// A stream that is read without error is read to its end: every event up to the end of
/// the data, or up to its padding, is among those returned, and nothing is left behind
/// the cursor that comes back.
pub proof fn lemma_events_reach_end(
    p: ProtocolView,
    limits: DecodeLimits,
    kind: EventTypeVariant,
    ix: StreamIndices,
    c: Cursor,
    game_loop: i64,
)
    ensures
        match events_at(p, limits, kind, ix, c, game_loop) {
            Ok((_, end)) => end.done(),
            Err(_) => true,
        },
    decreases c.bits_left(),
{
    if !c.done() && !all_zero(tail_of(c)) {
        match event_at(p, limits, kind, ix, c, game_loop) {
            Ok((event, next)) => {
                if moved_on(c, next) {
                    lemma_events_reach_end(p, limits, kind, ix, next, event.game_loop);
                }
            },
            Err(_) => {},
        }
    }
}

/// The zero bytes that pad `data` start at `at`: every byte from there on is zero, and
/// the byte before it, if there is one, is not.
pub open spec fn padding_starts(data: Seq<u8>, at: int) -> bool {
    &&& 0 <= at <= data.len()
    &&& all_zero(data.subrange(at, data.len() as int))
    &&& at > 0 ==> data[at - 1] != 0
}

/// Only zero bytes are left at a cursor exactly where it stands in the padding.
pub proof fn lemma_tail_in_padding(c: Cursor, at: int)
    requires
        c.wf(),
        padding_starts(c.data, at),
    ensures
        all_zero(tail_of(c)) <==> at <= c.byte_index,
{
    let tail = tail_of(c);
    if at <= c.byte_index {
        assert forall|i: int| 0 <= i < tail.len() implies tail[i] == 0 by {
            assert(c.data.subrange(at, c.data.len() as int)[c.byte_index - at + i] == 0);
        }
    } else {
        assert(tail[at - 1 - c.byte_index] != 0);
    }
}

/// Looks up the indices that the stream `kind` needs.
pub fn find_stream_indices(protocol: &Protocol, kind: EventTypeVariant) -> (res: Result<
    StreamIndices,
    DecodeError,
>)
    ensures
        res == stream_indices(protocol@, kind),
{
    let (event_id, name) = match kind {
        EventTypeVariant::GameEvent => (protocol.game_eventid_type_index, IndexName::GameEventId),
        EventTypeVariant::MessageEvent => (
            protocol.message_eventid_type_index,
            IndexName::MessageEventId,
        ),
        EventTypeVariant::TrackerEvent => (
            protocol.tracker_eventid_type_index,
            IndexName::TrackerEventId,
        ),
    };
    let event_id = match event_id {
        Some(event_id) => event_id,
        None => {
            return Err(DecodeError::MissingIndex { name });
        },
    };
    let game_loop = match protocol.game_loop_type_index {
        Some(game_loop) => game_loop,
        None => {
            return Err(DecodeError::MissingIndex { name: IndexName::GameLoop });
        },
    };
    match kind {
        EventTypeVariant::TrackerEvent => Ok(StreamIndices { game_loop, user_id: None, event_id }),
        _ => match protocol.replay_userid_type_index {
            Some(user) => Ok(StreamIndices { game_loop, user_id: Some(user), event_id }),
            None => Err(DecodeError::MissingIndex { name: IndexName::ReplayUserId }),
        },
    }
}

/// The dialect of the stream `kind`.
pub fn stream_dialect(kind: EventTypeVariant) -> (d: Dialect)
    ensures
        d == dialect_of(kind),
{
    match kind {
        EventTypeVariant::TrackerEvent => Dialect::Versioned,
        _ => Dialect::BitPacked,
    }
}

/// The integer that a value of an event header holds.
fn payload_int(value: &Option<ParsedFieldType>) -> (res: Option<i64>)
    ensures
        match res {
            Some(x) => int_payload(option_view(*value)) == Some(x as int),
            None => int_payload(option_view(*value)) is None,
        },
{
    match value {
        Some(ParsedFieldType::Int(x)) => Some(*x),
        Some(ParsedFieldType::Choice { tag, field }) => {
            proof {
                lemma_choice_view(*tag, *field);
                lemma_field_view(**field);
            }
            match &field.value {
                Some(ParsedFieldType::Int(x)) => Some(*x),
                _ => None,
            }
        },
        _ => None,
    }
}

/// The user id that a value holds.
fn payload_user_id(value: &Option<ParsedFieldType>) -> (res: Option<i64>)
    ensures
        match res {
            Some(x) => user_id_of(option_view(*value)) == Some(x as int),
            None => user_id_of(option_view(*value)) is None,
        },
{
    match value {
        Some(ParsedFieldType::Struct(fields)) => {
            proof {
                lemma_struct_view(*fields);
            }
            let wanted: String = "m_userId".to_owned();
            let ghost members = members_view(fields@);
            let mut j: usize = 0;
            while j < fields.len() && fields[j].name != wanted
                invariant
                    j <= fields.len(),
                    members == members_view(fields@),
                    wanted@ == "m_userId"@,
                    first_named(members, "m_userId"@, 0) == first_named(
                        members,
                        "m_userId"@,
                        j as nat,
                    ),
                decreases fields.len() - j,
            {
                proof {
                    lemma_field_view(fields[j as int]);
                }
                j = j + 1;
            }
            if j < fields.len() {
                proof {
                    lemma_field_view(fields[j as int]);
                }
                match &fields[j].value {
                    Some(ParsedFieldType::Int(x)) => Some(*x),
                    _ => None,
                }
            } else {
                None
            }
        },
        _ => None,
    }
}

/// Decodes the game loop of the next event.
fn decode_game_loop(
    protocol: &Protocol,
    limits: &DecodeLimits,
    d: Dialect,
    ix: StreamIndices,
    buffer: &mut BitPackedBuff,
    game_loop: i64,
) -> (res: Result<i64, DecodeError>)
    requires
        old(buffer)@.wf(),
    ensures
        final(buffer)@.wf(),
        same_stream(old(buffer)@, final(buffer)@),
        match res {
            Ok(at) => game_loop_at(protocol@, *limits, d, ix, old(buffer)@, game_loop) == Ok::<
                (i64, Cursor),
                DecodeError,
            >((at, final(buffer)@)),
            Err(e) => game_loop_at(protocol@, *limits, d, ix, old(buffer)@, game_loop) == Err::<
                (i64, Cursor),
                DecodeError,
            >(e),
        },
{
    let value = match decode_value(d, ix.game_loop, protocol, limits, buffer, limits.max_depth) {
        Ok(value) => value,
        Err(e) => {
            return Err(e);
        },
    };
    let delta = match payload_int(&value) {
        Some(delta) => delta,
        None => {
            return Err(DecodeError::MalformedEventHeader);
        },
    };
    if delta < 0 || game_loop as i128 + delta as i128 > i64::MAX as i128 {
        return Err(DecodeError::ResourceLimit { kind: LimitKind::IntegerRange });
    }
    Ok(game_loop + delta)
}

/// Decodes the user id of the next event, in the streams that carry one.
fn decode_user_id(
    protocol: &Protocol,
    limits: &DecodeLimits,
    d: Dialect,
    ix: StreamIndices,
    buffer: &mut BitPackedBuff,
) -> (res: Result<Option<i64>, DecodeError>)
    requires
        old(buffer)@.wf(),
    ensures
        final(buffer)@.wf(),
        same_stream(old(buffer)@, final(buffer)@),
        match res {
            Ok(user) => user_id_at(protocol@, *limits, d, ix, old(buffer)@) == Ok::<
                (Option<i64>, Cursor),
                DecodeError,
            >((user, final(buffer)@)),
            Err(e) => user_id_at(protocol@, *limits, d, ix, old(buffer)@) == Err::<
                (Option<i64>, Cursor),
                DecodeError,
            >(e),
        },
{
    let t = match ix.user_id {
        Some(t) => t,
        None => {
            return Ok(None);
        },
    };
    let value = match decode_value(d, t, protocol, limits, buffer, limits.max_depth) {
        Ok(value) => value,
        Err(e) => {
            return Err(e);
        },
    };
    match payload_user_id(&value) {
        Some(user) => Ok(Some(user)),
        None => Err(DecodeError::MalformedEventHeader),
    }
}

/// Decodes the id of the next event.
fn decode_event_id(
    protocol: &Protocol,
    limits: &DecodeLimits,
    kind: EventTypeVariant,
    ix: StreamIndices,
    buffer: &mut BitPackedBuff,
) -> (res: Result<u16, DecodeError>)
    requires
        old(buffer)@.wf(),
    ensures
        final(buffer)@.wf(),
        same_stream(old(buffer)@, final(buffer)@),
        match res {
            Ok(id) => event_id_at(protocol@, *limits, kind, ix, old(buffer)@) == Ok::<
                (u16, Cursor),
                DecodeError,
            >((id, final(buffer)@)),
            Err(e) => event_id_at(protocol@, *limits, kind, ix, old(buffer)@) == Err::<
                (u16, Cursor),
                DecodeError,
            >(e),
        },
{
    let d = stream_dialect(kind);
    let value = match decode_value(d, ix.event_id, protocol, limits, buffer, limits.max_depth) {
        Ok(value) => value,
        Err(e) => {
            return Err(e);
        },
    };
    let id = match payload_int(&value) {
        Some(id) => id,
        None => {
            return Err(DecodeError::MalformedEventHeader);
        },
    };
    if id < 0 || id > 0xffff {
        return Err(DecodeError::UnknownEventId { event_id: id });
    }
    match protocol.get_event_type(kind, id as u16) {
        Some(_) => Ok(id as u16),
        None => Err(DecodeError::UnknownEventId { event_id: id }),
    }
}

/// Decodes the next event of the stream `kind`.
pub fn decode_event(
    protocol: &Protocol,
    limits: &DecodeLimits,
    kind: EventTypeVariant,
    ix: StreamIndices,
    buffer: &mut BitPackedBuff,
    game_loop: i64,
) -> (res: Result<Event, DecodeError>)
    requires
        old(buffer)@.wf(),
    ensures
        final(buffer)@.wf(),
        same_stream(old(buffer)@, final(buffer)@),
        match res {
            Ok(event) => event_at(protocol@, *limits, kind, ix, old(buffer)@, game_loop) == Ok::<
                (EventView, Cursor),
                DecodeError,
            >((event@, final(buffer)@)),
            Err(e) => event_at(protocol@, *limits, kind, ix, old(buffer)@, game_loop) == Err::<
                (EventView, Cursor),
                DecodeError,
            >(e),
        },
{
    proof {
        reveal(event_at);
    }
    let d = stream_dialect(kind);
    let at = match decode_game_loop(protocol, limits, d, ix, buffer, game_loop) {
        Ok(at) => at,
        Err(e) => {
            return Err(e);
        },
    };
    let user_id = match decode_user_id(protocol, limits, d, ix, buffer) {
        Ok(user_id) => user_id,
        Err(e) => {
            return Err(e);
        },
    };
    let id = match decode_event_id(protocol, limits, kind, ix, buffer) {
        Ok(id) => id,
        Err(e) => {
            return Err(e);
        },
    };
    let event_type = match protocol.get_event_type(kind, id) {
        Some(event_type) => event_type,
        None => {
            return Err(DecodeError::UnknownEventId { event_id: id as i64 });
        },
    };
    let value = match decode_value(
        d,
        event_type.type_index,
        protocol,
        limits,
        buffer,
        limits.max_depth,
    ) {
        Ok(value) => value,
        Err(e) => {
            return Err(e);
        },
    };
    buffer.byte_align();
    let data = ParsedField { name: "eventData".to_owned(), value };
    proof {
        lemma_field_view(data);
    }
    Ok(Event { game_loop: at, user_id, event_name: event_type.event_name.clone(), data })
}

/// Finds where the zero bytes that pad `data` start.
fn find_padding(data: &[u8]) -> (at: usize)
    ensures
        padding_starts(data@, at as int),
{
    let mut at: usize = data.len();
    while at > 0 && data[at - 1] == 0
        invariant
            at <= data.len(),
            all_zero(data@.subrange(at as int, data@.len() as int)),
        decreases at,
    {
        at = at - 1;
        proof {
            let total = data@.len() as int;
            assert forall|k: int| 0 <= k < total - at implies data@.subrange(at as int, total)[k]
                == 0 by {
                if k > 0 {
                    assert(data@.subrange(at + 1, total)[k - 1] == 0);
                }
            }
        }
    }
    at
}

/// Decodes the events of the stream `kind` from the cursor to the end of its data, however
/// many they are; `limits` bound the values inside an event. The first event counts its
/// game loop from zero.
pub fn decode_events_from(
    buffer: &mut BitPackedBuff,
    protocol: &Protocol,
    kind: EventTypeVariant,
    ix: StreamIndices,
    limits: &DecodeLimits,
) -> (res: Result<Vec<Event>, DecodeError>)
    requires
        old(buffer)@.wf(),
    ensures
        final(buffer)@.wf(),
        same_stream(old(buffer)@, final(buffer)@),
        match res {
            Ok(events) => {
                &&& events_at(protocol@, *limits, kind, ix, old(buffer)@, 0) == Ok::<
                    (Seq<EventView>, Cursor),
                    DecodeError,
                >((events_view(events@), final(buffer)@))
                &&& game_loops_rise(events_view(events@), 0)
                &&& final(buffer)@.done()
            },
            Err(e) => events_at(protocol@, *limits, kind, ix, old(buffer)@, 0) == Err::<
                (Seq<EventView>, Cursor),
                DecodeError,
            >(e),
        },
{
    let ghost start = buffer@;
    let mut events: Vec<Event> = Vec::new();
    let mut game_loop: i64 = 0;
    let padding: usize = find_padding(buffer.data);
    proof {
        assert(events_view(events@) =~= Seq::empty());
        lemma_events_in_order(protocol@, *limits, kind, ix, start, 0);
    }
    while !buffer.done()
        invariant
            start == old(buffer)@,
            buffer@.wf(),
            same_stream(start, buffer@),
            padding_starts(buffer@.data, padding as int),
            game_loops_rise_if_ok(events_at(protocol@, *limits, kind, ix, start, 0)),
            events_at(protocol@, *limits, kind, ix, start, 0) == events_after(
                events_view(events@),
                events_at(protocol@, *limits, kind, ix, buffer@, game_loop),
            ),
        decreases buffer@.bits_left(),
    {
        let ghost done = events_view(events@);
        let ghost before = buffer@;
        let offset: usize = buffer.position();
        proof {
            lemma_tail_in_padding(before, padding as int);
        }
        if offset >= padding {
            buffer.byte_align();
            buffer.byte_index = buffer.data.len();
            proof {
                assert(done + Seq::empty() =~= done);
                assert(buffer@ == before.after_bytes(before.bytes_left() as nat));
            }
            return Ok(events);
        }
        let left: u128 = buffer.bits_left();
        match decode_event(protocol, limits, kind, ix, buffer, game_loop) {
            Err(DecodeError::EndOfInput) => {
                return Err(DecodeError::TrailingGarbage { offset });
            },
            Err(e) => {
                return Err(e);
            },
            Ok(event) => {
                if buffer.bits_left() >= left {
                    return Err(DecodeError::EmptyEvent { offset });
                }
                game_loop = event.game_loop;
                events.push(event);
                proof {
                    assert(events_view(events@) =~= done + seq![event@]);
                    let rest = events_at(protocol@, *limits, kind, ix, buffer@, game_loop);
                    if let Ok((more, end)) = rest {
                        assert(done + (seq![event@] + more) =~= (done + seq![event@]) + more);
                    }
                }
            },
        }
    }
    proof {
        assert(events_view(events@) + Seq::empty() =~= events_view(events@));
    }
    Ok(events)
}

/// Decodes the events of the stream `kind` from `events_data`: every event of the stream,
/// with no bound on their number. `limits` bound the values inside an event.
pub fn decode_events(
    events_data: &[u8],
    protocol: &Protocol,
    kind: EventTypeVariant,
    limits: &DecodeLimits,
) -> (res: Result<Vec<Event>, DecodeError>)
    ensures
        match res {
            Ok(events) => stream_events(protocol@, *limits, kind, events_data@) == Ok::<
                Seq<EventView>,
                DecodeError,
            >(events_view(events@)) && game_loops_rise(events_view(events@), 0),
            Err(e) => stream_events(protocol@, *limits, kind, events_data@) == Err::<
                Seq<EventView>,
                DecodeError,
            >(e),
        },
{
    let ix = match find_stream_indices(protocol, kind) {
        Ok(ix) => ix,
        Err(e) => {
            return Err(e);
        },
    };
    let mut buffer = BitPackedBuff::new_big_endian(events_data);
    decode_events_from(&mut buffer, protocol, kind, ix, limits)
}

/// Where the decode of the events at `c` stops: at the end of the stream or its padding,
/// or at the first event that cannot be decoded or reads no bit, which is the event at
/// position `index` of its stream where `index` is the position of the event at `c`.
pub open spec fn events_site(
    p: ProtocolView,
    limits: DecodeLimits,
    kind: EventTypeVariant,
    ix: StreamIndices,
    c: Cursor,
    game_loop: i64,
    index: nat,
) -> Site
    decreases c.bits_left(),
{
    if c.done() || all_zero(tail_of(c)) {
        Site::here(c)
    } else {
        match event_at(p, limits, kind, ix, c, game_loop) {
            Err(_) => Site::here(c).under(PathStep::Index { index: index as usize }),
            Ok((event, next)) => if moved_on(c, next) {
                events_site(p, limits, kind, ix, next, event.game_loop, index + 1)
            } else {
                Site::here(c).under(PathStep::Index { index: index as usize })
            },
        }
    }
}

/// The events of the stream `kind` whose bytes are `data`, or why and where their decode
/// stops: a stream that lacks an index of the protocol stops at its start.
pub open spec fn traced_events(
    p: ProtocolView,
    limits: DecodeLimits,
    kind: EventTypeVariant,
    data: Seq<u8>,
) -> Result<Seq<EventView>, FailureView> {
    match stream_indices(p, kind) {
        Err(e) => Err(FailureView { error: e, offset: 0, path: Seq::empty() }),
        Ok(ix) => match events_at(p, limits, kind, ix, Cursor::start(data, true), 0) {
            Ok((events, _)) => Ok(events),
            Err(e) => Err(
                events_site(p, limits, kind, ix, Cursor::start(data, true), 0, 0).failed(e),
            ),
        },
    }
}

/// What a traced decode of an event stream returned, held against what the stream holds.
pub open spec fn traced_events_are(
    res: Result<Vec<Event>, Failure>,
    expected: Result<Seq<EventView>, FailureView>,
) -> bool {
    match res {
        Ok(events) => expected == Ok::<Seq<EventView>, FailureView>(events_view(events@))
            && game_loops_rise(events_view(events@), 0),
        Err(failure) => expected == Err::<Seq<EventView>, FailureView>(failure@),
    }
}

/// Finds the first event of a stream that cannot be decoded: its position in the stream
/// and the index of the byte at which it starts.
fn locate_event(
    buffer: &mut BitPackedBuff,
    protocol: &Protocol,
    kind: EventTypeVariant,
    ix: StreamIndices,
    limits: &DecodeLimits,
) -> (found: (usize, Vec<PathStep>))
    requires
        old(buffer)@.wf(),
        old(buffer)@.bits_in_cache == 0,
    ensures
        found.0 == events_site(protocol@, *limits, kind, ix, old(buffer)@, 0, 0).offset,
        found.1@ == events_site(protocol@, *limits, kind, ix, old(buffer)@, 0, 0).path,
{
    let ghost start = buffer@;
    let mut game_loop: i64 = 0;
    let mut index: usize = 0;
    let mut path: Vec<PathStep> = Vec::new();
    let padding: usize = find_padding(buffer.data);
    while !buffer.done()
        invariant
            start == old(buffer)@,
            buffer@.wf(),
            buffer@.bits_in_cache == 0,
            index <= buffer@.byte_index,
            padding_starts(buffer@.data, padding as int),
            path@ == Seq::<PathStep>::empty(),
            events_site(protocol@, *limits, kind, ix, start, 0, 0) == events_site(
                protocol@,
                *limits,
                kind,
                ix,
                buffer@,
                game_loop,
                index as nat,
            ),
        decreases buffer@.bits_left(),
    {
        let ghost before = buffer@;
        let offset: usize = buffer.position();
        proof {
            lemma_tail_in_padding(before, padding as int);
        }
        if offset >= padding {
            return (offset, path);
        }
        let left: u128 = buffer.bits_left();
        let mut probe = *buffer;
        let decoded = decode_event(protocol, limits, kind, ix, &mut probe, game_loop);
        proof {
            lemma_event_ends_aligned(protocol@, *limits, kind, ix, before, game_loop);
        }
        match decoded {
            Ok(event) if probe.bits_left() < left => {
                *buffer = probe;
                game_loop = event.game_loop;
                index = index + 1;
            },
            _ => {
                let step = PathStep::Index { index };
                path.push(step);
                proof {
                    assert(path@ =~= seq![step] + Seq::<PathStep>::empty());
                }
                return (offset, path);
            },
        }
    }
    (buffer.position(), path)
}

/// Decodes the events of the stream `kind` from `events_data`, as `decode_events` does,
/// and says of a decode that fails where it stopped.
pub fn decode_events_traced(
    events_data: &[u8],
    protocol: &Protocol,
    kind: EventTypeVariant,
    limits: &DecodeLimits,
) -> (res: Result<Vec<Event>, Failure>)
    ensures
        traced_events_are(res, traced_events(protocol@, *limits, kind, events_data@)),
{
    let ix = match find_stream_indices(protocol, kind) {
        Ok(ix) => ix,
        Err(error) => {
            return Err(Failure { error, offset: 0, path: Vec::new() });
        },
    };
    let mut buffer = BitPackedBuff::new_big_endian(events_data);
    match decode_events_from(&mut buffer, protocol, kind, ix, limits) {
        Ok(events) => Ok(events),
        Err(error) => {
            let mut probe = BitPackedBuff::new_big_endian(events_data);
            let (offset, path) = locate_event(&mut probe, protocol, kind, ix, limits);
            Err(Failure { error, offset, path })
        },
    }
}

} // verus!
