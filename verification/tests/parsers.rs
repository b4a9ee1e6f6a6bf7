use s2prot_rs::protocol::build_protocol;
use s2prot_rs::protocol::error::{SchemaError, SyntaxReason};
use s2prot_rs::protocol::parsers::{
    build_constant, build_event_type, build_event_types, build_type_info, build_type_infos,
    skip_current_line,
};
use s2prot_rs::protocol::types::{EventType, EventTypeVariant, Field, TypeInfo};
use std::collections::HashMap;

#[test]
fn it_build_type_infos_with_no_error() {
    let input = r#"typeinfos = [
                        ('_int',[(0,7)]),  #0
                        ('_int',[(0,4)]),  #1
                        ('_bool',[]),  #13
                        ('_blob',[(0,8)]),  #9
                        ('_bitarray',[(0,9)]),  #102
                        ('_array',[(16,0),10]),  #14
                        ('_optional',[84]),  #146
                        ('_choice',[(0,2),{0:('m_uint6',3),1:('m_uint14',4),2:('m_uint22',5),3:('m_uint32',6)}]),  #7
                        ('_struct',[[('m_dataDeprecated',15,0),('m_data',16,1)]]),  #17
                        ('_fourcc',[]),  #19
                        ('_null',[]),  #94
]
"#;
    let Ok((input, vec)) = build_type_infos(input) else {
        panic!("Failed to build type infos: {input}")
    };
    assert_eq!(
        vec,
        [
            TypeInfo::Int {
                offset: 0,
                length: 7
            },
            TypeInfo::Int {
                offset: 0,
                length: 4
            },
            TypeInfo::Bool,
            TypeInfo::Blob {
                offset: 0,
                length: 8
            },
            TypeInfo::BitArray {
                offset: 0,
                length: 9
            },
            TypeInfo::Array {
                offset: 16,
                length: 0,
                type_index: 10
            },
            TypeInfo::Optional { type_index: 84 },
            TypeInfo::Choice {
                offset: 0,
                length: 2,
                fields: vec![
                    Field {
                        name: "m_uint6".to_string(),
                        type_index: 3,
                        tag: 0
                    },
                    Field {
                        name: "m_uint14".to_string(),
                        type_index: 4,
                        tag: 1
                    },
                    Field {
                        name: "m_uint22".to_string(),
                        type_index: 5,
                        tag: 2
                    },
                    Field {
                        name: "m_uint32".to_string(),
                        type_index: 6,
                        tag: 3
                    }
                ]
            },
            TypeInfo::Struct {
                fields: vec![
                    Field {
                        name: "m_dataDeprecated".to_string(),
                        type_index: 15,
                        tag: 0
                    },
                    Field {
                        name: "m_data".to_string(),
                        type_index: 16,
                        tag: 1
                    }
                ]
            },
            TypeInfo::FourCC,
            TypeInfo::Null
        ]
    );
    assert_eq!(input, "");
}

#[test]
fn it_build_event_types_with_no_error() {
    let input = r#"message_event_types = {
                    0: (192, 'NNet.Game.SChatMessage'),
                    1: (193, 'NNet.Game.SPingMessage'),
}
"#;
    let Ok((input, event_types)) = build_event_types(input) else {
        panic!("Failed to build event types: {input}")
    };
    assert_eq!(
        event_types,
        vec![
            (
                0,
                EventType {
                    event_id: 0,
                    type_index: 192,
                    event_name: "NNet.Game.SChatMessage".to_string(),
                }
            ),
            (
                1,
                EventType {
                    event_id: 1,
                    type_index: 193,
                    event_name: "NNet.Game.SPingMessage".to_string(),
                }
            )
        ]
        .into_iter()
        .collect()
    );
    assert_eq!(input, "");
}

fn syntax(fragment: &str, reason: SyntaxReason) -> SchemaError {
    SchemaError::SchemaSyntaxError { fragment: fragment.to_string(), reason }
}

fn field(name: &str, type_index: usize, tag: i64) -> Field {
    Field { name: name.to_string(), type_index, tag }
}

#[test]
fn build_type_info_sorts_the_fields_of_a_struct_by_tag() {
    let input = "('_struct',[[('m_c',3,7),('m_a',1,-1),('m_d',4,9),('m_b',2,0)]]),  #5\nrest";
    assert_eq!(
        Ok((
            "rest",
            TypeInfo::Struct {
                fields: vec![field("m_a", 1, -1), field("m_b", 2, 0), field("m_c", 3, 7), field("m_d", 4, 9)]
            }
        )),
        build_type_info(input)
    );
    assert_eq!(Ok(("", TypeInfo::Struct { fields: vec![] })), build_type_info("('_struct',[[]]),  #5\n"));
}

#[test]
fn build_type_info_keeps_the_branches_of_a_choice_in_order() {
    let input = "('_choice',[(0,2),{1:('m_b',4),0:('m_a',3)}]),  #7\n";
    assert_eq!(
        Ok((
            "",
            TypeInfo::Choice { offset: 0, length: 2, fields: vec![field("m_b", 4, 1), field("m_a", 3, 0)] }
        )),
        build_type_info(input)
    );
}

#[test]
fn build_type_info_refuses_tags_that_occur_twice() {
    let line = "('_struct',[[('m_a',1,2),('m_b',2,0),('m_c',3,2)]]),  #5";
    assert_eq!(
        Err(syntax(line, SyntaxReason::DuplicateTag)),
        build_type_info("('_struct',[[('m_a',1,2),('m_b',2,0),('m_c',3,2)]]),  #5\nmore\n")
    );
    let line = "  ('_choice',[(0,2),{0:('m_a',3),0:('m_b',4)}]),  #7";
    assert_eq!(
        Err(syntax(line, SyntaxReason::DuplicateTag)),
        build_type_info("  ('_choice',[(0,2),{0:('m_a',3),0:('m_b',4)}]),  #7\n")
    );
}

#[test]
fn build_type_info_refuses_kinds_it_does_not_know() {
    assert_eq!(
        Err(SchemaError::UnknownTypeKind { name: "_real".to_string() }),
        build_type_info("    ('_real',[(0,7)]),  #0\n")
    );
    assert_eq!(
        Err(SchemaError::UnknownTypeKind { name: "".to_string() }),
        build_type_info("('',[]),\n")
    );
}

#[test]
fn build_type_info_refuses_what_is_malformed() {
    assert_eq!(Err(syntax("_int", SyntaxReason::TypeName)), build_type_info("_int\n"));
    assert_eq!(Err(syntax("[]),  #0", SyntaxReason::OffsetAndLength)), build_type_info("('_int',[]),  #0\n"));
    assert_eq!(Err(syntax(")]),  #0", SyntaxReason::LineEnd)), build_type_info("('_int',[(0,7)]),  #0"));
    assert_eq!(Err(syntax(")]),  #0", SyntaxReason::TypeIndex)), build_type_info("('_array',[(0,7)]),  #0\n"));
    assert_eq!(Err(syntax("[]),", SyntaxReason::TypeIndex)), build_type_info("('_optional',[]),\n"));
    assert_eq!(Err(syntax(")]),", SyntaxReason::ChoiceFields)), build_type_info("('_choice',[(0,7)]),\n"));
    assert_eq!(Err(syntax("[[('a',1)]]),", SyntaxReason::StructFields)), build_type_info("('_struct',[[('a',1)]]),\n"));
    assert_eq!(Err(syntax("[]),  #13", SyntaxReason::LineEnd)), build_type_info("('_bool',[]),  #13"));
}

#[test]
fn build_type_info_reads_every_kind() {
    assert_eq!(Ok(("", TypeInfo::Int { offset: -5, length: 64 })), build_type_info("('_int',[(-5,64)]),\n"));
    assert_eq!(Ok(("", TypeInfo::Bool)), build_type_info("('_bool',[]),\n"));
    assert_eq!(Ok(("", TypeInfo::Blob { offset: 0, length: 8 })), build_type_info("('_blob',[(0,8)]),\n"));
    assert_eq!(Ok(("", TypeInfo::BitArray { offset: 0, length: 9 })), build_type_info("('_bitarray',[(0,9)]),\n"));
    assert_eq!(
        Ok(("", TypeInfo::Array { offset: 16, length: 0, type_index: 10 })),
        build_type_info("('_array',[(16,0),10]),\n")
    );
    assert_eq!(Ok(("", TypeInfo::Optional { type_index: 84 })), build_type_info("('_optional',[84]),\n"));
    assert_eq!(Ok(("", TypeInfo::FourCC)), build_type_info("('_fourcc',[]),\n"));
    assert_eq!(Ok(("x", TypeInfo::Null)), build_type_info("\t ('_null',[]),  #94\nx"));
}

#[test]
fn build_type_infos_refuses_a_section_without_end() {
    assert_eq!(
        Err(syntax("", SyntaxReason::TypeName)),
        build_type_infos("typeinfos = [\n    ('_int',[(0,7)]),  #0\n")
    );
    assert_eq!(Err(syntax("typeinfos = [", SyntaxReason::LineEnd)), build_type_infos("typeinfos = ["));
    assert_eq!(Err(syntax("]", SyntaxReason::LineEnd)), build_type_infos("typeinfos = [\n]"));
    assert_eq!(Ok(("next", vec![])), build_type_infos("typeinfos = [\n]\nnext"));
}

#[test]
fn build_event_types_keeps_the_last_of_two_events_with_one_id() {
    let input = "game_event_types = {\n    5: (82, 'First'),\n    5: (83, 'Second'),\n}\n";
    let (rest, events) = build_event_types(input).unwrap();
    assert_eq!(rest, "");
    assert_eq!(events.len(), 1);
    assert_eq!(
        events.get(&5),
        Some(&EventType { event_id: 5, type_index: 83, event_name: "Second".to_string() })
    );
    assert_eq!(
        Err(syntax("", SyntaxReason::EventType)),
        build_event_types("game_event_types = {\n    5: (82, 'First'),\n")
    );
    assert_eq!(
        Err(syntax("    65536: (82, 'First'),", SyntaxReason::EventType)),
        build_event_types("game_event_types = {\n    65536: (82, 'First'),\n}\n")
    );
    assert_eq!(
        Ok(("", EventType { event_id: 7, type_index: 1, event_name: "E".to_string() })),
        build_event_type(" 7: (1, 'E'),  # note\n")
    );
}

#[test]
fn build_constant_and_skip_current_line_read_their_lines() {
    assert_eq!(Ok(("\nx", Some(7))), build_constant("svaruint32_typeid = 7\nx"));
    assert_eq!(Err(syntax("svaruint32_typeid = x", SyntaxReason::Constant)), build_constant("svaruint32_typeid = x"));
    assert_eq!(Ok(("x", "")), skip_current_line("# note\nx"));
    assert_eq!(Err(syntax("# note", SyntaxReason::LineEnd)), skip_current_line("# note"));
}

const SMALL_SCHEMA: &str = "# A small schema.
from s2protocol.decoders import *

typeinfos = [
    ('_int',[(0,7)]),  #0
    ('_struct',[[('m_b',0,2),('m_a',0,0)]]),  #1
    ('_array',[(0,8),1]),  #2
]

game_event_types = {
    5: (1, 'NNet.Game.SFirst'),
    7: (2, 'NNet.Game.SSecond'),
}

message_event_types = {
    0: (1, 'NNet.Game.SChatMessage'),
}

tracker_event_types = {
    0: (2, 'NNet.Replay.Tracker.SPlayerStatsEvent'),
}

game_eventid_typeid = 0
message_eventid_typeid = 1
tracker_eventid_typeid = 2
svaruint32_typeid = 0
replay_userid_typeid = 1
replay_header_typeid = 2
game_details_typeid = 1
replay_initdata_typeid = 0

def _varuint32_value(value):
    return 0
";

#[test]
fn build_protocol_reads_a_whole_schema() {
    let (rest, protocol) = build_protocol(SMALL_SCHEMA).unwrap();
    assert_eq!(rest, "");
    assert_eq!(protocol.build_version, 93272);
    assert!(!protocol.has_tracker_events);
    assert_eq!(
        protocol.type_infos,
        vec![
            TypeInfo::Int { offset: 0, length: 7 },
            TypeInfo::Struct { fields: vec![field("m_a", 0, 0), field("m_b", 0, 2)] },
            TypeInfo::Array { offset: 0, length: 8, type_index: 1 },
        ]
    );
    let mut game = HashMap::new();
    game.insert(5, EventType { event_id: 5, type_index: 1, event_name: "NNet.Game.SFirst".to_string() });
    game.insert(7, EventType { event_id: 7, type_index: 2, event_name: "NNet.Game.SSecond".to_string() });
    assert_eq!(protocol.game_event_types, game);
    assert_eq!(protocol.message_event_types.len(), 1);
    assert_eq!(protocol.tracker_event_types.len(), 1);
    assert_eq!(protocol.game_eventid_type_index, Some(0));
    assert_eq!(protocol.message_eventid_type_index, Some(1));
    assert_eq!(protocol.tracker_eventid_type_index, Some(2));
    assert_eq!(protocol.game_loop_type_index, Some(0));
    assert_eq!(protocol.replay_userid_type_index, Some(1));
    assert_eq!(protocol.replay_header_type_index, Some(2));
    assert_eq!(protocol.game_details_type_index, Some(1));
    assert_eq!(protocol.replay_initdata_type_index, Some(0));
    assert_eq!(
        protocol.get_event_type(EventTypeVariant::GameEvent, 7).map(|e| e.event_name.as_str()),
        Some("NNet.Game.SSecond")
    );
    assert_eq!(protocol.get_event_type(EventTypeVariant::GameEvent, 6), None);
    assert_eq!(protocol.get_event_type(EventTypeVariant::TrackerEvent, 0).map(|e| e.type_index), Some(2));
    assert_eq!(protocol.type_info(2), Some(&TypeInfo::Array { offset: 0, length: 8, type_index: 1 }));
    assert_eq!(protocol.type_info(3), None);
}

#[test]
fn build_protocol_reads_a_schema_without_its_python_tail() {
    let (_, protocol) = build_protocol("typeinfos = [\n    ('_int',[(0,7)]),  #0\n]\n").unwrap();
    assert_eq!(protocol.type_infos, vec![TypeInfo::Int { offset: 0, length: 7 }]);
    assert_eq!(protocol.replay_header_type_index, None);
    let (_, protocol) = build_protocol("").unwrap();
    assert!(protocol.type_infos.is_empty());
    let (_, protocol) = build_protocol("\r\n\r\ndefinitely not read").unwrap();
    assert!(protocol.type_infos.is_empty());
}

#[test]
fn build_protocol_refuses_lines_it_does_not_know() {
    assert_eq!(
        Err(syntax("unknown_typeid = 1", SyntaxReason::UnknownLine)),
        build_protocol("# note\nunknown_typeid = 1\n").map(|(rest, _)| rest)
    );
    assert_eq!(
        Err(syntax("    ('_int',[(0,7)]),  #0", SyntaxReason::UnknownLine)),
        build_protocol("    ('_int',[(0,7)]),  #0\n").map(|(rest, _)| rest)
    );
    assert_eq!(
        Err(syntax("game_details_typeid: 1", SyntaxReason::Constant)),
        build_protocol("game_details_typeid: 1\n").map(|(rest, _)| rest)
    );
    assert_eq!(
        Err(syntax("# no line end", SyntaxReason::LineEnd)),
        build_protocol("# no line end").map(|(rest, _)| rest)
    );
    assert_eq!(
        Err(SchemaError::UnknownTypeKind { name: "_real".to_string() }),
        build_protocol("typeinfos = [\n    ('_real',[]),  #0\n]\n").map(|(rest, _)| rest)
    );
}

#[test]
fn build_protocol_refuses_indices_outside_the_table() {
    fn bad(schema: &str) -> Result<&str, SchemaError> {
        build_protocol(schema).map(|(rest, _)| rest)
    }
    assert_eq!(
        Err(SchemaError::InvalidIndex { type_index: 1 }),
        bad("typeinfos = [\n    ('_optional',[1]),  #0\n]\n")
    );
    assert_eq!(
        Err(SchemaError::InvalidIndex { type_index: 9 }),
        bad("typeinfos = [\n    ('_int',[(0,7)]),  #0\n    ('_struct',[[('m_a',0,0),('m_b',9,1)]]),  #1\n    ('_array',[(0,1),12]),  #2\n]\n")
    );
    assert_eq!(
        Err(SchemaError::InvalidIndex { type_index: 4 }),
        bad("typeinfos = [\n    ('_choice',[(0,1),{0:('m_a',0),1:('m_b',4)}]),  #0\n]\n")
    );
    assert_eq!(
        Err(SchemaError::InvalidIndex { type_index: 3 }),
        bad("game_event_types = {\n    9: (5, 'Late'),\n    2: (3, 'Early'),\n}\ntypeinfos = [\n    ('_int',[(0,7)]),  #0\n]\n")
    );
    assert_eq!(
        Err(SchemaError::InvalidIndex { type_index: 2 }),
        bad("tracker_event_types = {\n    0: (2, 'E'),\n}\nmessage_eventid_typeid = 8\n")
    );
    assert_eq!(
        Err(SchemaError::InvalidIndex { type_index: 1 }),
        bad("typeinfos = [\n    ('_int',[(0,7)]),  #0\n]\nreplay_initdata_typeid = 2\nsvaruint32_typeid = 1\n")
    );
    assert_eq!(Ok(""), bad("typeinfos = [\n    ('_array',[(0,7),0]),  #0\n]\ngame_details_typeid = 0\n"));
}

#[test]
fn every_struct_of_a_loaded_protocol_has_strictly_rising_tags() {
    let schema = "typeinfos = [
    ('_int',[(0,7)]),  #0
    ('_struct',[[('m_z',0,26),('m_y',0,25),('m_x',0,-24),('m_w',0,0)]]),  #1
    ('_struct',[[('m_only',0,3)]]),  #2
    ('_struct',[[]]),  #3
    ('_struct',[[('m_p',0,9223372036854775807),('m_q',0,-9223372036854775808)]]),  #4
]
";
    let (_, protocol) = build_protocol(schema).unwrap();
    let mut structs = 0;
    for info in &protocol.type_infos {
        if let TypeInfo::Struct { fields } = info {
            structs += 1;
            assert!(fields.windows(2).all(|pair| pair[0].tag < pair[1].tag));
        }
    }
    assert_eq!(structs, 4);
    assert_eq!(
        protocol.type_infos[1],
        TypeInfo::Struct {
            fields: vec![field("m_x", 0, -24), field("m_w", 0, 0), field("m_y", 0, 25), field("m_z", 0, 26)]
        }
    );
}
