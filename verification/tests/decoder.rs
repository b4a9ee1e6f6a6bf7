use s2prot_rs::protocol::build_protocol;
use s2prot_rs::protocol::types::Protocol;
use s2prot_rs::replay::buffer::BitPackedBuff;
use s2prot_rs::replay::decoder::Decoder;
use s2prot_rs::replay::error::DecodeError;
use s2prot_rs::replay::grammar::Dialect;
use s2prot_rs::replay::trace::{decode_traced, Failure, PathStep};
use s2prot_rs::replay::types::{ParsedField, ParsedFieldType};

const SCHEMA_93272: &str = r#"# Copyright (c) 2015-2017 Blizzard Entertainment
#
from s2protocol.decoders import *


# Decoding instructions for each protocol type.
typeinfos = [
    ('_int',[(0,7)]),  #0
    ('_int',[(0,4)]),  #1
    ('_int',[(0,5)]),  #2
    ('_int',[(0,6)]),  #3
    ('_int',[(0,14)]),  #4
    ('_int',[(0,22)]),  #5
    ('_int',[(0,32)]),  #6
    ('_choice',[(0,2),{0:('m_uint6',3),1:('m_uint14',4),2:('m_uint22',5),3:('m_uint32',6)}]),  #7
    ('_struct',[[('m_userId',2,-1)]]),  #8
    ('_blob',[(0,8)]),  #9
    ('_int',[(0,8)]),  #10
    ('_struct',[[('m_flags',10,0),('m_major',10,1),('m_minor',10,2),('m_revision',10,3),('m_build',6,4),('m_baseBuild',6,5)]]),  #11
    ('_int',[(0,3)]),  #12
    ('_bool',[]),  #13
    ('_array',[(16,0),10]),  #14
    ('_optional',[14]),  #15
    ('_blob',[(16,0)]),  #16
    ('_struct',[[('m_dataDeprecated',15,0),('m_data',16,1)]]),  #17
    ('_struct',[[('m_signature',9,0),('m_version',11,1),('m_type',12,2),('m_elapsedGameLoops',6,3),('m_useScaledTime',13,4),('m_ngdpRootKey',17,5),('m_dataBuildNum',6,6),('m_replayCompatibilityHash',17,7),('m_ngdpRootKeyIsDevData',13,8)]]),  #18
    ('_fourcc',[]),  #19
    ('_blob',[(0,7)]),  #20
    ('_int',[(0,64)]),  #21
    ('_struct',[[('m_region',10,0),('m_programId',19,1),('m_realm',6,2),('m_name',20,3),('m_id',21,4)]]),  #22
    ('_struct',[[('m_a',10,0),('m_r',10,1),('m_g',10,2),('m_b',10,3)]]),  #23
    ('_int',[(0,2)]),  #24
    ('_optional',[10]),  #25
    ('_struct',[[('m_name',9,0),('m_toon',22,1),('m_race',9,2),('m_color',23,3),('m_control',10,4),('m_teamId',1,5),('m_handicap',6,6),('m_observe',24,7),('m_result',24,8),('m_workingSetSlotId',25,9),('m_hero',9,10)]]),  #26
    ('_array',[(0,5),26]),  #27
    ('_optional',[27]),  #28
    ('_blob',[(0,10)]),  #29
    ('_blob',[(0,11)]),  #30
    ('_struct',[[('m_file',30,0)]]),  #31
    ('_int',[(-9223372036854775808,64)]),  #32
    ('_optional',[13]),  #33
    ('_blob',[(0,12)]),  #34
    ('_blob',[(40,0)]),  #35
    ('_array',[(0,6),35]),  #36
    ('_optional',[36]),  #37
    ('_array',[(0,6),30]),  #38
    ('_optional',[38]),  #39
    ('_struct',[[('m_playerList',28,0),('m_title',29,1),('m_difficulty',9,2),('m_thumbnail',31,3),('m_isBlizzardMap',13,4),('m_timeUTC',32,5),('m_timeLocalOffset',32,6),('m_restartAsTransitionMap',33,16),('m_disableRecoverGame',13,17),('m_description',34,7),('m_imageFilePath',30,8),('m_campaignIndex',10,15),('m_mapFileName',30,9),('m_cacheHandles',37,10),('m_miniSave',13,11),('m_gameSpeed',12,12),('m_defaultDifficulty',3,13),('m_modPaths',39,14)]]),  #40
]

# The typeid of the NNet.Replay.SGameUserId type (the type used to encode player ids).
replay_userid_typeid = 8

# The typeid of NNet.Replay.SHeader (the type used to store replay game version and length).
replay_header_typeid = 18

# The typeid of NNet.Game.SDetails (the type used to store overall replay details).
game_details_typeid = 40

# The typeid of NNet.SVarUint32 (the type used to encode gameloop deltas).
svaruint32_typeid = 7


def _varuint32_value(value):
    # Returns the numeric value from a SVarUint32 instance.
    for v in value.values():
        return v
    return 0
"#;

/// The part of the protocol of build 93272 that the header and the details need.
fn protocol_93272() -> Protocol {
    let (_, protocol) = build_protocol(SCHEMA_93272).expect("Failed to build protocol");
    protocol
}

/// A decoded field with its blobs as text, bytes that are no UTF-8 replaced.
#[derive(Debug, PartialEq)]
struct LossyField {
    name: String,
    value: Option<Lossy>,
}

/// A decoded value with its blobs as text, bytes that are no UTF-8 replaced.
#[derive(Debug, PartialEq)]
#[allow(dead_code)]
enum Lossy {
    Bool(bool),
    Blob(String),
    Int(isize),
    FourCC(Vec<u8>),
    Array(Vec<Lossy>),
    Struct(Vec<LossyField>),
    BitArray { length: usize, data: Vec<u8> },
    Choice { tag: i64, field: Box<LossyField> },
    Null,
}

fn lossy_field(field: &ParsedField) -> LossyField {
    LossyField { name: field.name.clone(), value: field.value.as_ref().map(lossy) }
}

fn lossy(value: &ParsedFieldType) -> Lossy {
    match value {
        ParsedFieldType::Bool(b) => Lossy::Bool(*b),
        ParsedFieldType::Blob(bytes) => Lossy::Blob(String::from_utf8_lossy(bytes).into_owned()),
        ParsedFieldType::Int(v) => Lossy::Int(*v as isize),
        ParsedFieldType::FourCC(code) => Lossy::FourCC(code.to_vec()),
        ParsedFieldType::Array(items) => Lossy::Array(items.iter().map(lossy).collect()),
        ParsedFieldType::Struct(fields) => Lossy::Struct(fields.iter().map(lossy_field).collect()),
        ParsedFieldType::BitArray { bits, data } => {
            Lossy::BitArray { length: *bits, data: data.clone() }
        }
        ParsedFieldType::Choice { tag, field } => {
            Lossy::Choice { tag: *tag, field: Box::new(lossy_field(field)) }
        }
        ParsedFieldType::Null => Lossy::Null,
    }
}

#[test]
fn it_parse_user_data_with_no_error() {
    let protocol = protocol_93272();
    let index: usize = protocol.replay_header_type_index.unwrap();
    let input: &[u8] = &[
        5, 18, 0, 2, 44, 83, 116, 97, 114, 67, 114, 97, 102, 116, 32, 73, 73, 32, 114, 101,
        112, 108, 97, 121, 27, 49, 49, 2, 5, 12, 0, 9, 2, 2, 9, 10, 4, 9, 0, 6, 9, 28, 8, 9,
        176, 177, 11, 10, 9, 176, 177, 11, 4, 9, 4, 6, 9, 202, 183, 1, 8, 6, 1, 10, 5, 2, 2, 2,
        32, 82, 146, 10, 157, 137, 199, 246, 50, 53, 148, 93, 16, 243, 199, 60, 100, 12, 9,
        176, 177, 11, 14, 5, 2, 2, 2, 32, 0, 0, 0, 0, 0, 0, 0, 0, 0, 0, 0, 0, 0, 0, 0, 0, 16,
        6, 0,
    ];
    let bit_packed_buffer = BitPackedBuff::new_big_endian(input);
    let mut decoder = Decoder::new(bit_packed_buffer);
    let (_, user_data) = decoder.decode("UserData", index, &protocol).unwrap();
    assert_eq!(
        lossy_field(&user_data),
        LossyField {
            name: String::from("UserData"),
            value: Some(Lossy::Struct(vec![
                LossyField {
                    name: String::from("m_signature"),
                    value: Some(Lossy::Blob(String::from(
                        "StarCraft II replay\u{1b}11"
                    )))
                },
                LossyField {
                    name: String::from("m_version"),
                    value: Some(Lossy::Struct(vec![
                        LossyField {
                            name: String::from("m_flags"),
                            value: Some(Lossy::Int(1))
                        },
                        LossyField {
                            name: String::from("m_major"),
                            value: Some(Lossy::Int(5))
                        },
                        LossyField {
                            name: String::from("m_minor"),
                            value: Some(Lossy::Int(0))
                        },
                        LossyField {
                            name: String::from("m_revision"),
                            value: Some(Lossy::Int(14))
                        },
                        LossyField {
                            name: String::from("m_build"),
                            value: Some(Lossy::Int(93272))
                        },
                        LossyField {
                            name: String::from("m_baseBuild"),
                            value: Some(Lossy::Int(93272))
                        }
                    ]))
                },
                LossyField {
                    name: String::from("m_type"),
                    value: Some(Lossy::Int(2))
                },
                LossyField {
                    name: String::from("m_elapsedGameLoops"),
                    value: Some(Lossy::Int(11749))
                },
                LossyField {
                    name: String::from("m_useScaledTime"),
                    value: Some(Lossy::Bool(true))
                },
                LossyField {
                    name: String::from("m_ngdpRootKey"),
                    value: Some(Lossy::Struct(vec![LossyField {
                        name: String::from("m_data"),
                        value: Some(Lossy::Blob(String::from(
                            "R�\n����25�]\u{10}��<d"
                        )))
                    }]))
                },
                LossyField {
                    name: String::from("m_dataBuildNum"),
                    value: Some(Lossy::Int(93272))
                },
                LossyField {
                    name: String::from("m_replayCompatibilityHash"),
                    value: Some(Lossy::Struct(vec![LossyField {
                        name: String::from("m_data"),
                        value: Some(Lossy::Blob(String::from(
                            "\0\0\0\0\0\0\0\0\0\0\0\0\0\0\0\0"
                        )))
                    }]))
                },
                LossyField {
                    name: String::from("m_ngdpRootKeyIsDevData"),
                    value: Some(Lossy::Bool(false))
                }
            ]))
        }
    );
}

#[test]
fn it_parse_details_data_with_no_error() {
    let protocol = protocol_93272();
    let index: usize = protocol.game_details_type_index.unwrap();
    let input: &[u8] = &[
        5, 36, 0, 4, 1, 0, 4, 5, 22, 0, 2, 12, 103, 117, 109, 105, 104, 111, 2, 5, 8, 0, 9, 4,
        2, 7, 0, 0, 83, 50, 4, 9, 2, 8, 9, 162, 161, 218, 3, 4, 2, 12, 84, 101, 114, 114, 97,
        110, 6, 5, 8, 0, 9, 254, 3, 2, 9, 232, 2, 4, 9, 40, 6, 9, 60, 8, 9, 4, 10, 9, 2, 12, 9,
        200, 1, 14, 9, 0, 16, 9, 2, 18, 4, 1, 9, 22, 20, 2, 0, 5, 22, 0, 2, 54, 38, 108, 116,
        59, 109, 108, 101, 109, 38, 103, 116, 59, 60, 115, 112, 47, 62, 76, 105, 113, 117, 105,
        100, 67, 108, 101, 109, 2, 5, 8, 0, 9, 4, 2, 7, 0, 0, 83, 50, 4, 9, 2, 8, 9, 144, 196,
        255, 2, 4, 2, 14, 80, 114, 111, 116, 111, 115, 115, 6, 5, 8, 0, 9, 254, 3, 2, 9, 0, 4,
        9, 132, 1, 6, 9, 254, 3, 8, 9, 4, 10, 9, 0, 12, 9, 200, 1, 14, 9, 0, 16, 9, 4, 18, 4,
        1, 9, 28, 20, 2, 0, 2, 2, 30, 65, 98, 121, 115, 115, 97, 108, 32, 82, 101, 101, 102,
        32, 76, 69, 4, 2, 0, 6, 5, 2, 0, 2, 22, 77, 105, 110, 105, 109, 97, 112, 46, 116, 103,
        97, 8, 6, 1, 10, 9, 254, 157, 221, 142, 254, 148, 162, 219, 3, 12, 9, 128, 160, 163,
        156, 140, 2, 14, 2, 0, 16, 2, 0, 18, 2, 0, 20, 4, 1, 0, 18, 2, 80, 115, 50, 109, 97, 0,
        0, 69, 85, 109, 228, 21, 3, 186, 204, 208, 86, 86, 54, 11, 111, 2, 125, 184, 129, 105,
        250, 25, 137, 187, 99, 87, 177, 178, 21, 162, 84, 121, 57, 245, 251, 2, 80, 115, 50,
        109, 97, 0, 0, 69, 85, 66, 28, 138, 160, 243, 97, 155, 101, 45, 35, 162, 115, 93, 254,
        232, 18, 171, 100, 66, 40, 35, 94, 122, 121, 126, 222, 207, 232, 182, 125, 163, 14, 2,
        80, 115, 50, 109, 97, 0, 0, 69, 85, 102, 9, 56, 50, 18, 132, 83, 239, 255, 187, 120,
        124, 128, 183, 211, 238, 193, 173, 129, 189, 229, 92, 131, 201, 48, 222, 167, 156, 78,
        80, 90, 4, 2, 80, 115, 50, 109, 97, 0, 0, 69, 85, 217, 45, 252, 72, 196, 132, 197, 145,
        84, 39, 11, 146, 74, 215, 213, 116, 132, 242, 171, 154, 71, 98, 28, 122, 177, 100, 49,
        191, 102, 197, 59, 64, 2, 80, 115, 50, 109, 97, 0, 0, 69, 85, 156, 86, 111, 161, 186,
        173, 97, 26, 155, 197, 202, 130, 113, 199, 36, 67, 19, 77, 76, 82, 152, 61, 50, 203,
        202, 17, 5, 71, 68, 205, 253, 140, 2, 80, 115, 50, 109, 97, 0, 0, 69, 85, 108, 5, 82,
        114, 71, 68, 217, 130, 96, 89, 250, 73, 252, 30, 210, 38, 245, 17, 59, 110, 59, 108,
        44, 128, 99, 224, 13, 188, 188, 99, 126, 31, 2, 80, 115, 50, 109, 97, 0, 0, 69, 85, 85,
        46, 44, 76, 212, 1, 179, 206, 35, 154, 90, 56, 125, 202, 242, 178, 19, 67, 80, 68, 241,
        116, 210, 155, 28, 225, 198, 208, 149, 224, 220, 139, 2, 80, 115, 50, 109, 97, 0, 0,
        69, 85, 127, 65, 65, 26, 165, 151, 244, 180, 100, 64, 212, 42, 86, 51, 72, 191, 83,
        130, 45, 42, 104, 17, 47, 1, 4, 249, 184, 145, 246, 240, 90, 225, 2, 80, 115, 50, 109,
        97, 0, 0, 69, 85, 43, 164, 101, 117, 16, 239, 31, 122, 17, 172, 172, 115, 175, 50, 109,
        71, 20, 232, 62, 94, 114, 97, 249, 177, 241, 241, 185, 167, 203, 255, 42, 250, 22, 6,
        0, 24, 9, 8, 26, 9, 6, 28, 4, 0, 30, 9, 0, 32, 4, 1, 6, 0, 34, 6, 0,
    ];
    let bit_packed_buffer = BitPackedBuff::new_big_endian(input);
    let mut decoder = Decoder::new(bit_packed_buffer);
    let (_, details_data) = decoder.decode("DetailsData", index, &protocol).unwrap();
    assert_eq!(
        lossy_field(&details_data),
        LossyField {
            name: String::from("DetailsData"),
            value: Some(Lossy::Struct(vec![
                LossyField { name: String::from("m_playerList"),
                    value: Some(Lossy::Array(vec![
                        Lossy::Struct(vec![
                            LossyField { name: String::from("m_name"), value: Some(Lossy::Blob(String::from("gumiho"))) },
                            LossyField { name: String::from("m_toon"), value: Some(Lossy::Struct(vec![
                                LossyField { name: String::from("m_region"), value: Some(Lossy::Int(2)) },
                                LossyField { name: String::from("m_programId"), value: Some(Lossy::FourCC(vec![0, 0, 83, 50])) },
                                LossyField { name: String::from("m_realm"), value: Some(Lossy::Int(1)) },
                                LossyField { name: String::from("m_id"), value: Some(Lossy::Int(3885137)) }
                            ])) },
                            LossyField { name: String::from("m_race"), value: Some(Lossy::Blob(String::from("Terran"))) },
                            LossyField { name: String::from("m_color"), value: Some(Lossy::Struct(vec![
                                LossyField { name: String::from("m_a"), value: Some(Lossy::Int(255)) },
                                LossyField { name: String::from("m_r"), value: Some(Lossy::Int(180)) },
                                LossyField { name: String::from("m_g"), value: Some(Lossy::Int(20)) },
                                LossyField { name: String::from("m_b"), value: Some(Lossy::Int(30)) }
                            ])) },
                            LossyField { name: String::from("m_control"), value: Some(Lossy::Int(2)) },
                            LossyField { name: String::from("m_teamId"), value: Some(Lossy::Int(1)) },
                            LossyField { name: String::from("m_handicap"), value: Some(Lossy::Int(100)) },
                            LossyField { name: String::from("m_observe"), value: Some(Lossy::Int(0)) },
                            LossyField { name: String::from("m_result"), value: Some(Lossy::Int(1)) },
                            LossyField { name: String::from("m_workingSetSlotId"), value: Some(Lossy::Int(11)) },
                            LossyField { name: String::from("m_hero"), value: Some(Lossy::Blob(String::from(""))) }
                        ]),
                        Lossy::Struct(vec![
                            LossyField { name: String::from("m_name"), value: Some(Lossy::Blob(String::from("&lt;mlem&gt;<sp/>LiquidClem"))) },
                            LossyField { name: String::from("m_toon"), value: Some(Lossy::Struct(vec![
                                LossyField { name: String::from("m_region"), value: Some(Lossy::Int(2)) },
                                LossyField { name: String::from("m_programId"), value: Some(Lossy::FourCC(vec![0, 0, 83, 50])) },
                                LossyField { name: String::from("m_realm"), value: Some(Lossy::Int(1)) },
                                LossyField { name: String::from("m_id"), value: Some(Lossy::Int(3141896)) }
                            ])) },
                            LossyField { name: String::from("m_race"), value: Some(Lossy::Blob(String::from("Protoss"))) },
                            LossyField { name: String::from("m_color"), value: Some(Lossy::Struct(vec![
                                LossyField { name: String::from("m_a"), value: Some(Lossy::Int(255)) },
                                LossyField { name: String::from("m_r"), value: Some(Lossy::Int(0)) },
                                LossyField { name: String::from("m_g"), value: Some(Lossy::Int(66)) },
                                LossyField { name: String::from("m_b"), value: Some(Lossy::Int(255)) }
                            ])) },
                            LossyField { name: String::from("m_control"), value: Some(Lossy::Int(2)) },
                            LossyField { name: String::from("m_teamId"), value: Some(Lossy::Int(0)) },
                            LossyField { name: String::from("m_handicap"), value: Some(Lossy::Int(100)) },
                            LossyField { name: String::from("m_observe"), value: Some(Lossy::Int(0)) },
                            LossyField { name: String::from("m_result"), value: Some(Lossy::Int(2)) },
                            LossyField { name: String::from("m_workingSetSlotId"), value: Some(Lossy::Int(14)) },
                            LossyField { name: String::from("m_hero"), value: Some(Lossy::Blob(String::from(""))) }])
                        ])) },
                        LossyField { name: String::from("m_title"), value: Some(Lossy::Blob(String::from("Abyssal Reef LE"))) },
                        LossyField { name: String::from("m_difficulty"), value: Some(Lossy::Blob(String::from(""))) },
                        LossyField { name: String::from("m_thumbnail"), value: Some(Lossy::Struct(vec![
                            LossyField { name: String::from("m_file"), value: Some(Lossy::Blob(String::from("Minimap.tga"))) }
                        ])) },
                        LossyField { name: String::from("m_isBlizzardMap"), value: Some(Lossy::Bool(true)) },
                        LossyField { name: String::from("m_timeUTC"), value: Some(Lossy::Int(133775741252511615)) },
                        LossyField { name: String::from("m_timeLocalOffset"), value: Some(Lossy::Int(36000000000)) },
                        LossyField { name: String::from("m_description"), value: Some(Lossy::Blob(String::from(""))) },
                        LossyField { name: String::from("m_imageFilePath"), value: Some(Lossy::Blob(String::from(""))) },
                        LossyField { name: String::from("m_mapFileName"), value: Some(Lossy::Blob(String::from(""))) },
                        LossyField { name: String::from("m_cacheHandles"), value: Some(Lossy::Array(vec![
                            Lossy::Blob(String::from("s2ma\0\0EUm�\u{15}\u{3}���VV6\u{b}o\u{2}}��i�\u{19}��cW��\u{15}�Ty9��")),
                            Lossy::Blob(String::from("s2ma\0\0EUB\u{1c}���a�e-#�s]��\u{12}�dB(#^zy~���}�\u{e}")),
                            Lossy::Blob(String::from("s2ma\0\0EUf\t82\u{12}�S���x|���������\\��0\u{7a7}�NPZ\u{4}")),
                            Lossy::Blob(String::from("s2ma\0\0EU�-�HĄőT'\u{b}�J��t��Gb\u{1c}z�d1�f�;@")),
                            Lossy::Blob(String::from("s2ma\0\0EU�Vo���a\u{1a}��ʂq�$C\u{13}MLR�=2��\u{11}\u{5}GD���")),
                            Lossy::Blob(String::from("s2ma\0\0EUl\u{5}RrGDق`Y�I�\u{1e}�&�\u{11};n;l,�c�\r��c~\u{1f}")),
                            Lossy::Blob(String::from("s2ma\0\0EUU.,L�\u{1}��#�Z8}��\u{13}CPD�tқ\u{1c}��Е�܋")),
                            Lossy::Blob(String::from("s2ma\0\0EU\u{7f}AA\u{1a}����d@�*V3H�S�-*h\u{11}/\u{1}\u{4}�����Z�")),
                            Lossy::Blob(String::from("s2ma\0\0EU+�eu\u{10}�\u{1f}z\u{11}��s�2mG\u{14}�>^ra������*�"))
                        ])) },
                        LossyField { name: String::from("m_miniSave"), value: Some(Lossy::Bool(false)) },
                        LossyField { name: String::from("m_gameSpeed"), value: Some(Lossy::Int(4)) },
                        LossyField { name: String::from("m_defaultDifficulty"), value: Some(Lossy::Int(3)) },
                        LossyField { name: String::from("m_modPaths"), value: None },
                        LossyField { name: String::from("m_campaignIndex"), value: Some(Lossy::Int(0)) },
                        LossyField { name: String::from("m_restartAsTransitionMap"), value: Some(Lossy::Bool(false)) },
                        LossyField { name: String::from("m_disableRecoverGame"), value: Some(Lossy::Bool(false)) }])) }
            );
}


const DETAILS: &[u8] = &[
        5, 36, 0, 4, 1, 0, 4, 5, 22, 0, 2, 12, 103, 117, 109, 105, 104, 111, 2, 5, 8, 0, 9, 4,
        2, 7, 0, 0, 83, 50, 4, 9, 2, 8, 9, 162, 161, 218, 3, 4, 2, 12, 84, 101, 114, 114, 97,
        110, 6, 5, 8, 0, 9, 254, 3, 2, 9, 232, 2, 4, 9, 40, 6, 9, 60, 8, 9, 4, 10, 9, 2, 12, 9,
        200, 1, 14, 9, 0, 16, 9, 2, 18, 4, 1, 9, 22, 20, 2, 0, 5, 22, 0, 2, 54, 38, 108, 116,
        59, 109, 108, 101, 109, 38, 103, 116, 59, 60, 115, 112, 47, 62, 76, 105, 113, 117, 105,
        100, 67, 108, 101, 109, 2, 5, 8, 0, 9, 4, 2, 7, 0, 0, 83, 50, 4, 9, 2, 8, 9, 144, 196,
        255, 2, 4, 2, 14, 80, 114, 111, 116, 111, 115, 115, 6, 5, 8, 0, 9, 254, 3, 2, 9, 0, 4,
        9, 132, 1, 6, 9, 254, 3, 8, 9, 4, 10, 9, 0, 12, 9, 200, 1, 14, 9, 0, 16, 9, 4, 18, 4,
        1, 9, 28, 20, 2, 0, 2, 2, 30, 65, 98, 121, 115, 115, 97, 108, 32, 82, 101, 101, 102,
        32, 76, 69, 4, 2, 0, 6, 5, 2, 0, 2, 22, 77, 105, 110, 105, 109, 97, 112, 46, 116, 103,
        97, 8, 6, 1, 10, 9, 254, 157, 221, 142, 254, 148, 162, 219, 3, 12, 9, 128, 160, 163,
        156, 140, 2, 14, 2, 0, 16, 2, 0, 18, 2, 0, 20, 4, 1, 0, 18, 2, 80, 115, 50, 109, 97, 0,
        0, 69, 85, 109, 228, 21, 3, 186, 204, 208, 86, 86, 54, 11, 111, 2, 125, 184, 129, 105,
        250, 25, 137, 187, 99, 87, 177, 178, 21, 162, 84, 121, 57, 245, 251, 2, 80, 115, 50,
        109, 97, 0, 0, 69, 85, 66, 28, 138, 160, 243, 97, 155, 101, 45, 35, 162, 115, 93, 254,
        232, 18, 171, 100, 66, 40, 35, 94, 122, 121, 126, 222, 207, 232, 182, 125, 163, 14, 2,
        80, 115, 50, 109, 97, 0, 0, 69, 85, 102, 9, 56, 50, 18, 132, 83, 239, 255, 187, 120,
        124, 128, 183, 211, 238, 193, 173, 129, 189, 229, 92, 131, 201, 48, 222, 167, 156, 78,
        80, 90, 4, 2, 80, 115, 50, 109, 97, 0, 0, 69, 85, 217, 45, 252, 72, 196, 132, 197, 145,
        84, 39, 11, 146, 74, 215, 213, 116, 132, 242, 171, 154, 71, 98, 28, 122, 177, 100, 49,
        191, 102, 197, 59, 64, 2, 80, 115, 50, 109, 97, 0, 0, 69, 85, 156, 86, 111, 161, 186,
        173, 97, 26, 155, 197, 202, 130, 113, 199, 36, 67, 19, 77, 76, 82, 152, 61, 50, 203,
        202, 17, 5, 71, 68, 205, 253, 140, 2, 80, 115, 50, 109, 97, 0, 0, 69, 85, 108, 5, 82,
        114, 71, 68, 217, 130, 96, 89, 250, 73, 252, 30, 210, 38, 245, 17, 59, 110, 59, 108,
        44, 128, 99, 224, 13, 188, 188, 99, 126, 31, 2, 80, 115, 50, 109, 97, 0, 0, 69, 85, 85,
        46, 44, 76, 212, 1, 179, 206, 35, 154, 90, 56, 125, 202, 242, 178, 19, 67, 80, 68, 241,
        116, 210, 155, 28, 225, 198, 208, 149, 224, 220, 139, 2, 80, 115, 50, 109, 97, 0, 0,
        69, 85, 127, 65, 65, 26, 165, 151, 244, 180, 100, 64, 212, 42, 86, 51, 72, 191, 83,
        130, 45, 42, 104, 17, 47, 1, 4, 249, 184, 145, 246, 240, 90, 225, 2, 80, 115, 50, 109,
        97, 0, 0, 69, 85, 43, 164, 101, 117, 16, 239, 31, 122, 17, 172, 172, 115, 175, 50, 109,
        71, 20, 232, 62, 94, 114, 97, 249, 177, 241, 241, 185, 167, 203, 255, 42, 250, 22, 6,
        0, 24, 9, 8, 26, 9, 6, 28, 4, 0, 30, 9, 0, 32, 4, 1, 6, 0, 34, 6, 0,
    ];

#[test]
fn a_spoiled_byte_deep_in_the_details_is_found_by_its_path() {
    let protocol = protocol_93272();
    let index: usize = protocol.game_details_type_index.unwrap();
    // the id of the toon of the second player: its tag, 4, then an int
    let id = [8u8, 9, 144, 196, 255, 2];
    let at = DETAILS.windows(id.len()).position(|window| window == id).unwrap();
    let mut spoiled = DETAILS.to_vec();
    spoiled[at + 1] = 0xff;
    assert_eq!(
        Err(Failure {
            error: DecodeError::UnexpectedTag { expected: 9, actual: 0xff, offset: at + 1 },
            offset: at + 1,
            path: vec![
                PathStep::Field { type_index: 40, field: 0 },
                PathStep::Index { index: 1 },
                PathStep::Field { type_index: 26, field: 1 },
                PathStep::Field { type_index: 22, field: 4 },
            ],
        }),
        decode_traced(Dialect::Versioned, "DetailsData", &spoiled, &protocol, index)
    );
    assert!(decode_traced(Dialect::Versioned, "DetailsData", DETAILS, &protocol, index).is_ok());
}
