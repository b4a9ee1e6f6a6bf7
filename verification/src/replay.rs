pub mod buffer;
pub mod cursor;
pub mod decoder;
pub mod decoders;
pub mod error;
pub mod events;
pub mod grammar;
pub mod laws;
pub mod progress;
pub mod trace;
pub mod types;
pub mod varint;

use crate::protocol::types::{EventTypeVariant, IndexName, Protocol, ProtocolView};
use crate::replay::buffer::BitPackedBuff;
use crate::replay::cursor::Cursor;
use crate::replay::decoders::decode_field;
use crate::replay::error::DecodeError;
use crate::replay::events::{
    decode_events, decode_events_traced, events_view, game_loops_rise, stream_events,
    traced_events, Event, EventView,
};
use crate::replay::grammar::{default_limits, field_at, DecodeLimits, Dialect};
use crate::replay::trace::{decode_indexed_traced, traced_indexed_field, Failure, FailureView};
use crate::replay::types::{ParsedField, ParsedFieldView};
use vstd::prelude::*;

verus! {

/// The field named `name` that the bytes `data` hold from their start, where its value has
/// the type at index `t`: streams are read big end first and within the default limits.
pub open spec fn stream_field(
    d: Dialect,
    p: ProtocolView,
    name: Seq<char>,
    t: usize,
    data: Seq<u8>,
) -> Result<ParsedFieldView, DecodeError> {
    match field_at(d, p.type_infos, default_limits(), name, t, Cursor::start(data, true)) {
        Ok((field, _)) => Ok(field),
        Err(e) => Err(e),
    }
}

/// The field named `name` that the bytes `data` hold, where the protocol may lack the
/// index `index`, which `missing` names.
pub open spec fn indexed_stream_field(
    d: Dialect,
    p: ProtocolView,
    name: Seq<char>,
    index: Option<usize>,
    missing: IndexName,
    data: Seq<u8>,
) -> Result<ParsedFieldView, DecodeError> {
    match index {
        None => Err(DecodeError::MissingIndex { name: missing }),
        Some(t) => stream_field(d, p, name, t, data),
    }
}

/// What a decode of a field returned, held against what the stream holds.
pub open spec fn field_is(
    res: Result<ParsedField, DecodeError>,
    expected: Result<ParsedFieldView, DecodeError>,
) -> bool {
    match res {
        Ok(field) => expected == Ok::<ParsedFieldView, DecodeError>(field@),
        Err(e) => expected == Err::<ParsedFieldView, DecodeError>(e),
    }
}

/// What a decode of an event stream returned, held against what the stream holds.
pub open spec fn events_are(
    res: Result<Vec<Event>, DecodeError>,
    expected: Result<Seq<EventView>, DecodeError>,
) -> bool {
    match res {
        Ok(events) => expected == Ok::<Seq<EventView>, DecodeError>(events_view(events@))
            && game_loops_rise(events_view(events@), 0),
        Err(e) => expected == Err::<Seq<EventView>, DecodeError>(e),
    }
}

/// Decodes the field named `name` from the start of `bytes`, in the dialect `dialect`: its
/// value has the type at `entry_type_index`.
pub fn decode(
    dialect: Dialect,
    name: &str,
    bytes: &[u8],
    protocol: &Protocol,
    entry_type_index: usize,
) -> (res: Result<ParsedField, DecodeError>)
    ensures
        field_is(res, stream_field(dialect, protocol@, name@, entry_type_index, bytes@)),
{
    let limits = DecodeLimits::default();
    let mut buffer = BitPackedBuff::new_big_endian(bytes);
    decode_field(dialect, name, entry_type_index, protocol, &limits, &mut buffer)
}

/// Decodes the header that the user data block of a replay holds.
pub fn decode_user_data(user_data: &[u8], protocol: &Protocol) -> (res: Result<
    ParsedField,
    DecodeError,
>)
    ensures
        field_is(
            res,
            indexed_stream_field(
                Dialect::Versioned,
                protocol@,
                "UserData"@,
                protocol@.replay_header_type_index,
                IndexName::ReplayHeader,
                user_data@,
            ),
        ),
{
    match protocol.replay_header_type_index {
        Some(index) => decode(Dialect::Versioned, "UserData", user_data, protocol, index),
        None => Err(DecodeError::MissingIndex { name: IndexName::ReplayHeader }),
    }
}

/// Decodes the details of a replay.
pub fn decode_details_data(details_data: &[u8], protocol: &Protocol) -> (res: Result<
    ParsedField,
    DecodeError,
>)
    ensures
        field_is(
            res,
            indexed_stream_field(
                Dialect::Versioned,
                protocol@,
                "DetailsData"@,
                protocol@.game_details_type_index,
                IndexName::GameDetails,
                details_data@,
            ),
        ),
{
    match protocol.game_details_type_index {
        Some(index) => decode(Dialect::Versioned, "DetailsData", details_data, protocol, index),
        None => Err(DecodeError::MissingIndex { name: IndexName::GameDetails }),
    }
}

/// Decodes the init data of a replay.
pub fn decode_init_data(init_data: &[u8], protocol: &Protocol) -> (res: Result<
    ParsedField,
    DecodeError,
>)
    ensures
        field_is(
            res,
            indexed_stream_field(
                Dialect::BitPacked,
                protocol@,
                "InitData"@,
                protocol@.replay_initdata_type_index,
                IndexName::ReplayInitData,
                init_data@,
            ),
        ),
{
    match protocol.replay_initdata_type_index {
        Some(index) => decode(Dialect::BitPacked, "InitData", init_data, protocol, index),
        None => Err(DecodeError::MissingIndex { name: IndexName::ReplayInitData }),
    }
}

/// Decodes every event of the stream `event_type_variant`, however many they are. The
/// default limits bound the values inside an event.
pub fn decode_events_data_for_variant(
    events_data: &[u8],
    protocol: &Protocol,
    event_type_variant: EventTypeVariant,
) -> (res: Result<Vec<Event>, DecodeError>)
    ensures
        events_are(
            res,
            stream_events(protocol@, default_limits(), event_type_variant, events_data@),
        ),
{
    let limits = DecodeLimits::default();
    decode_events(events_data, protocol, event_type_variant, &limits)
}

/// Decodes the game events of a replay.
pub fn decode_game_events_data(events_data: &[u8], protocol: &Protocol) -> (res: Result<
    Vec<Event>,
    DecodeError,
>)
    ensures
        events_are(
            res,
            stream_events(
                protocol@,
                default_limits(),
                EventTypeVariant::GameEvent,
                events_data@,
            ),
        ),
{
    decode_events_data_for_variant(events_data, protocol, EventTypeVariant::GameEvent)
}

/// Decodes the message events of a replay.
pub fn decode_message_events_data(events_data: &[u8], protocol: &Protocol) -> (res: Result<
    Vec<Event>,
    DecodeError,
>)
    ensures
        events_are(
            res,
            stream_events(
                protocol@,
                default_limits(),
                EventTypeVariant::MessageEvent,
                events_data@,
            ),
        ),
{
    decode_events_data_for_variant(events_data, protocol, EventTypeVariant::MessageEvent)
}

/// Decodes the tracker events of a replay.
pub fn decode_tracker_events_data(events_data: &[u8], protocol: &Protocol) -> (res: Result<
    Vec<Event>,
    DecodeError,
>)
    ensures
        events_are(
            res,
            stream_events(
                protocol@,
                default_limits(),
                EventTypeVariant::TrackerEvent,
                events_data@,
            ),
        ),
{
    decode_events_data_for_variant(events_data, protocol, EventTypeVariant::TrackerEvent)
}

/// The byte streams of one replay, as its archive holds them.
#[derive(Debug, PartialEq)]
pub struct ReplayStreams {
    /// The user data block of the archive.
    pub user_data: Vec<u8>,
    /// The file `replay.details`.
    pub details: Vec<u8>,
    /// The file `replay.initdata`.
    pub init_data: Vec<u8>,
    /// The file `replay.game.events`.
    pub game_events: Vec<u8>,
    /// The file `replay.message.events`.
    pub message_events: Vec<u8>,
    /// The file `replay.tracker.events`.
    pub tracker_events: Vec<u8>,
}

/// What the streams of a replay hold.
#[derive(Debug, PartialEq)]
pub struct Replay {
    pub header: ParsedField,
    pub details: ParsedField,
    pub init_data: ParsedField,
    pub game_events: Vec<Event>,
    pub message_events: Vec<Event>,
    pub tracker_events: Vec<Event>,
}

/// Mathematical value of a `Replay`.
pub struct ReplayView {
    pub header: ParsedFieldView,
    pub details: ParsedFieldView,
    pub init_data: ParsedFieldView,
    pub game_events: Seq<EventView>,
    pub message_events: Seq<EventView>,
    pub tracker_events: Seq<EventView>,
}

impl View for Replay {
    type V = ReplayView;

    open spec fn view(&self) -> ReplayView {
        ReplayView {
            header: self.header@,
            details: self.details@,
            init_data: self.init_data@,
            game_events: events_view(self.game_events@),
            message_events: events_view(self.message_events@),
            tracker_events: events_view(self.tracker_events@),
        }
    }
}

/// The streams of a replay.
#[derive(Debug, Clone, Copy, PartialEq, Eq)]
pub enum ReplayStream {
    UserData,
    Details,
    InitData,
    GameEvents,
    MessageEvents,
    TrackerEvents,
}

/// Why the decode of a replay stopped: the stream that could not be decoded, and why and
/// where its decode stopped.
#[derive(Debug, PartialEq, Eq)]
pub struct ReplayError {
    pub stream: ReplayStream,
    pub failure: Failure,
}

/// Mathematical value of a `ReplayError`.
pub struct ReplayErrorView {
    pub stream: ReplayStream,
    pub failure: FailureView,
}

impl View for ReplayError {
    type V = ReplayErrorView;

    open spec fn view(&self) -> ReplayErrorView {
        ReplayErrorView { stream: self.stream, failure: self.failure@ }
    }
}

/// What a stream holds, or the error of the replay that the stream `stream` stops.
pub open spec fn of_stream<T>(stream: ReplayStream, decoded: Result<T, FailureView>) -> Result<
    T,
    ReplayErrorView,
> {
    match decoded {
        Ok(t) => Ok(t),
        Err(failure) => Err(ReplayErrorView { stream, failure }),
    }
}

/// The header, details and init data that the streams of a replay hold.
pub open spec fn replay_fields(p: ProtocolView, streams: ReplayStreams) -> Result<
    (ParsedFieldView, ParsedFieldView, ParsedFieldView),
    ReplayErrorView,
> {
    match of_stream(
        ReplayStream::UserData,
        traced_indexed_field(
            Dialect::Versioned,
            p,
            "UserData"@,
            p.replay_header_type_index,
            IndexName::ReplayHeader,
            streams.user_data@,
        ),
    ) {
        Err(e) => Err(e),
        Ok(header) => match of_stream(
            ReplayStream::Details,
            traced_indexed_field(
                Dialect::Versioned,
                p,
                "DetailsData"@,
                p.game_details_type_index,
                IndexName::GameDetails,
                streams.details@,
            ),
        ) {
            Err(e) => Err(e),
            Ok(details) => match of_stream(
                ReplayStream::InitData,
                traced_indexed_field(
                    Dialect::BitPacked,
                    p,
                    "InitData"@,
                    p.replay_initdata_type_index,
                    IndexName::ReplayInitData,
                    streams.init_data@,
                ),
            ) {
                Err(e) => Err(e),
                Ok(init_data) => Ok((header, details, init_data)),
            },
        },
    }
}

/// The events that the three event streams of a replay hold.
pub open spec fn replay_events(p: ProtocolView, streams: ReplayStreams) -> Result<
    (Seq<EventView>, Seq<EventView>, Seq<EventView>),
    ReplayErrorView,
> {
    match of_stream(
        ReplayStream::GameEvents,
        traced_events(p, default_limits(), EventTypeVariant::GameEvent, streams.game_events@),
    ) {
        Err(e) => Err(e),
        Ok(game_events) => match of_stream(
            ReplayStream::MessageEvents,
            traced_events(
                p,
                default_limits(),
                EventTypeVariant::MessageEvent,
                streams.message_events@,
            ),
        ) {
            Err(e) => Err(e),
            Ok(message_events) => match of_stream(
                ReplayStream::TrackerEvents,
                traced_events(
                    p,
                    default_limits(),
                    EventTypeVariant::TrackerEvent,
                    streams.tracker_events@,
                ),
            ) {
                Err(e) => Err(e),
                Ok(tracker_events) => Ok((game_events, message_events, tracker_events)),
            },
        },
    }
}

/// What the streams of a replay hold: each stream is decoded with the type index and in
/// the dialect that belong to it, the header first, then the details, the init data and
/// the game, message and tracker events. The first stream that fails ends the decode; the
/// error names it and says why and where its decode stopped.
pub open spec fn replay_of(p: ProtocolView, streams: ReplayStreams) -> Result<
    ReplayView,
    ReplayErrorView,
> {
    match replay_fields(p, streams) {
        Err(e) => Err(e),
        Ok((header, details, init_data)) => match replay_events(p, streams) {
            Err(e) => Err(e),
            Ok((game_events, message_events, tracker_events)) => Ok(
                ReplayView {
                    header,
                    details,
                    init_data,
                    game_events,
                    message_events,
                    tracker_events,
                },
            ),
        },
    }
}

/// Decodes the events of one stream of a replay.
fn build_events(
    stream: ReplayStream,
    events_data: &Vec<u8>,
    protocol: &Protocol,
    kind: EventTypeVariant,
) -> (res: Result<Vec<Event>, ReplayError>)
    ensures
        match res {
            Ok(events) => of_stream(
                stream,
                traced_events(protocol@, default_limits(), kind, events_data@),
            ) == Ok::<Seq<EventView>, ReplayErrorView>(events_view(events@)),
            Err(e) => of_stream(
                stream,
                traced_events(protocol@, default_limits(), kind, events_data@),
            ) == Err::<Seq<EventView>, ReplayErrorView>(e@),
        },
{
    let limits = DecodeLimits::default();
    match decode_events_traced(events_data.as_slice(), protocol, kind, &limits) {
        Ok(events) => Ok(events),
        Err(failure) => Err(ReplayError { stream, failure }),
    }
}

/// Decodes one of the streams of a replay that hold a single field.
fn build_field(
    stream: ReplayStream,
    dialect: Dialect,
    name: &str,
    data: &Vec<u8>,
    protocol: &Protocol,
    index: Option<usize>,
    missing: IndexName,
) -> (res: Result<ParsedField, ReplayError>)
    ensures
        match res {
            Ok(field) => of_stream(
                stream,
                traced_indexed_field(dialect, protocol@, name@, index, missing, data@),
            ) == Ok::<ParsedFieldView, ReplayErrorView>(field@),
            Err(e) => of_stream(
                stream,
                traced_indexed_field(dialect, protocol@, name@, index, missing, data@),
            ) == Err::<ParsedFieldView, ReplayErrorView>(e@),
        },
{
    match decode_indexed_traced(dialect, name, data.as_slice(), protocol, index, missing) {
        Ok(field) => Ok(field),
        Err(failure) => Err(ReplayError { stream, failure }),
    }
}

/// Decodes the streams of a replay.
pub fn build_replay(streams: &ReplayStreams, protocol: &Protocol) -> (res: Result<
    Replay,
    ReplayError,
>)
    ensures
        match res {
            Ok(replay) => replay_of(protocol@, *streams) == Ok::<ReplayView, ReplayErrorView>(
                replay@,
            ),
            Err(e) => replay_of(protocol@, *streams) == Err::<ReplayView, ReplayErrorView>(e@),
        },
{
    let header = match build_field(
        ReplayStream::UserData,
        Dialect::Versioned,
        "UserData",
        &streams.user_data,
        protocol,
        protocol.replay_header_type_index,
        IndexName::ReplayHeader,
    ) {
        Ok(header) => header,
        Err(e) => {
            return Err(e);
        },
    };
    let details = match build_field(
        ReplayStream::Details,
        Dialect::Versioned,
        "DetailsData",
        &streams.details,
        protocol,
        protocol.game_details_type_index,
        IndexName::GameDetails,
    ) {
        Ok(details) => details,
        Err(e) => {
            return Err(e);
        },
    };
    let init_data = match build_field(
        ReplayStream::InitData,
        Dialect::BitPacked,
        "InitData",
        &streams.init_data,
        protocol,
        protocol.replay_initdata_type_index,
        IndexName::ReplayInitData,
    ) {
        Ok(init_data) => init_data,
        Err(e) => {
            return Err(e);
        },
    };
    let game_events = match build_events(
        ReplayStream::GameEvents,
        &streams.game_events,
        protocol,
        EventTypeVariant::GameEvent,
    ) {
        Ok(events) => events,
        Err(e) => {
            return Err(e);
        },
    };
    let message_events = match build_events(
        ReplayStream::MessageEvents,
        &streams.message_events,
        protocol,
        EventTypeVariant::MessageEvent,
    ) {
        Ok(events) => events,
        Err(e) => {
            return Err(e);
        },
    };
    let tracker_events = match build_events(
        ReplayStream::TrackerEvents,
        &streams.tracker_events,
        protocol,
        EventTypeVariant::TrackerEvent,
    ) {
        Ok(events) => events,
        Err(e) => {
            return Err(e);
        },
    };
    Ok(Replay { header, details, init_data, game_events, message_events, tracker_events })
}

} // verus!
