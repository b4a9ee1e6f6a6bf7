use s2prot_rs::protocol::error::{SchemaError, SyntaxReason};
use s2prot_rs::protocol::text::is_white_space;
use s2prot_rs::protocol::parsers::line_parsers::{
    parse_blank_lines, parse_choice_fields, parse_comments, parse_constant, parse_event_type,
    parse_imports, parse_offset_and_length, parse_struct_fields, parse_type_index,
    parse_type_name, skip_remaining_of_line,
};

#[test]
fn it_parse_constant_with_no_error() {
    let input = "message_eventid_typeid = 1";
    let Ok((input, constant)) = parse_constant(input) else {
        panic!("parse_constant failed.")
    };
    assert_eq!(constant, 1);
    assert_eq!(input, "");
}

#[test]
fn it_parse_comments_with_no_error() {
    let input = r#"
# Copyright (c) 2015-2017 Blizzard Entertainment



# Decoding instructions for each protocol type.
typeinfos = [
    ('_int',[(0,7)]),  #0
    ('_int',[(0,4)]),  #1
    ('_int',[(0,5)]),  #2
    ('_int',[(0,6)]),  #3
]
        "#;
    let Ok((_, comment)) = parse_comments(input) else {
        panic!("parse_comments failed.")
    };
    assert_eq!(comment, " Copyright (c) 2015-2017 Blizzard Entertainment");
}

#[test]
fn it_parse_imports_with_no_error() {
    let input = r#"from s2protocol.decoders import *
        "#;
    let Ok((_, (import_from, imported))) = parse_imports(input) else {
        panic!("parse_imports failed.")
    };
    assert_eq!(import_from, "s2protocol.decoders");
    assert_eq!(imported, "*");
}

#[test]
fn it_parse_blank_lines_with_no_error() {
    let input = r#"

abc"#;
    let Ok((input, res)) = parse_blank_lines(input) else {
        panic!("parse_blank_lines failed.")
    };
    assert_eq!(input, "abc");
    assert_eq!(res, "");
}

#[test]
fn it_parse_type_name_with_no_error() {
    let input = "    ('_int',[(0,7)]),  #0";
    let Ok((input, kind_name)) = parse_type_name(input) else {
        panic!("parse_type_name failed.")
    };
    assert_eq!(kind_name, "_int");
    assert_eq!(input, "[(0,7)]),  #0");
}

#[test]
fn it_parse_offset_and_length_with_no_error() {
    let input = "[(0,7)]),  #0";
    let Ok((input, (offset, length))) = parse_offset_and_length(input) else {
        panic!("parse_offset_and_length failed.")
    };
    assert_eq!(offset, 0);
    assert_eq!(length, 7);
    assert_eq!(input, ")]),  #0");
}

#[test]
fn it_parse_optional_type_index_with_no_error() {
    let input = "[10])";
    let Ok((input, type_index)) = parse_type_index(input) else {
        panic!("parse_optional_type_index failed.")
    };
    assert_eq!(type_index, 10);
    assert_eq!(input, ")");
}

#[test]
fn it_parse_array_type_index_with_no_error() {
    let input = "),10])";
    let Ok((input, type_index)) = parse_type_index(input) else {
        panic!("parse_array_type_index failed.")
    };
    assert_eq!(type_index, 10);
    assert_eq!(input, ")");
}

#[test]
fn it_parse_choice_fields_with_no_error() {
    let input = "),{0:('m_uint6',3),1:('m_uint14',4),2:('m_uint22',5),3:('m_uint32',6)}]),  #7";
    let Ok((input, fields)) = parse_choice_fields(input) else {
        panic!("it_parse_choice_fields failed.")
    };
    assert_eq!(
        fields,
        vec![
            ("m_uint6", 3, 0),
            ("m_uint14", 4, 1),
            ("m_uint22", 5, 2),
            ("m_uint32", 6, 3)
        ]
    );
    assert_eq!(input, "}]),  #7")
}

#[test]
fn it_parse_struct_fields_with_no_error() {
    let input = "[[('m_dataDeprecated',15,0),('m_data',16,1)]]),  #17";
    let Ok((input, vec)) = parse_struct_fields(input) else {
        panic!("parse_struct_fields failed.")
    };
    assert_eq!(vec, vec![("m_dataDeprecated", 15, 0), ("m_data", 16, 1)]);
    assert_eq!(input, ")]]),  #17");
}

#[test]
fn it_parse_event_type_with_no_error() {
    let input = "    5: (82, 'NNet.Game.SUserFinishedLoadingSyncEvent'),";
    let Ok((input, (event_id, event_name, type_index))) = parse_event_type(input) else {
        panic!("parse_event_type failed.")
    };
    assert_eq!(event_id, 5);
    assert_eq!(event_name, "NNet.Game.SUserFinishedLoadingSyncEvent");
    assert_eq!(type_index, 82);
    assert_eq!(input, "");
}

#[test]
fn it_skip_remaining_of_line_with_no_error() {
    let input = r#"),  #14
"#;
    let Ok((input, _)) = skip_remaining_of_line(input) else {
        panic!("skip_remaining_of_line failed.")
    };
    assert_eq!(input, "");
}

fn syntax(fragment: &str, reason: SyntaxReason) -> SchemaError {
    SchemaError::SchemaSyntaxError { fragment: fragment.to_string(), reason }
}

#[test]
fn line_parsers_refuse_what_lacks_their_form() {
    assert_eq!(Err(syntax("no line end", SyntaxReason::LineEnd)), skip_remaining_of_line("no line end"));
    assert_eq!(Err(syntax("x = y", SyntaxReason::Constant)), parse_constant("x = y\nz = 1"));
    assert_eq!(Err(syntax("x =1", SyntaxReason::Constant)), parse_constant("x =1"));
    assert_eq!(Err(syntax("x", SyntaxReason::Constant)), parse_constant("x"));
    assert_eq!(
        Err(syntax("x = 999999999999999999999999999999", SyntaxReason::Constant)),
        parse_constant("x = 999999999999999999999999999999")
    );
    assert_eq!(Err(syntax("", SyntaxReason::Comment)), parse_comments("\n\nabc\n"));
    assert_eq!(Err(syntax("# abc", SyntaxReason::Comment)), parse_comments("# abc"));
    assert_eq!(Err(syntax("import x", SyntaxReason::Import)), parse_imports("import x\n"));
    assert_eq!(Err(syntax("from x import y", SyntaxReason::Import)), parse_imports("from x import y"));
    assert_eq!(Err(syntax("('_int'", SyntaxReason::TypeName)), parse_type_name("('_int'\n"));
    assert_eq!(Err(syntax("'_int',", SyntaxReason::TypeName)), parse_type_name("'_int',"));
    assert_eq!(Err(syntax("[(a,7)", SyntaxReason::OffsetAndLength)), parse_offset_and_length("[(a,7)"));
    assert_eq!(Err(syntax("[(0,-7)", SyntaxReason::OffsetAndLength)), parse_offset_and_length("[(0,-7)"));
    assert_eq!(Err(syntax("(0,7)", SyntaxReason::OffsetAndLength)), parse_offset_and_length("(0,7)"));
    assert_eq!(Err(syntax("10]", SyntaxReason::TypeIndex)), parse_type_index("10]"));
    assert_eq!(Err(syntax("[x]", SyntaxReason::TypeIndex)), parse_type_index("[x]"));
    assert_eq!(Err(syntax("[10", SyntaxReason::TypeIndex)), parse_type_index("[10"));
    assert_eq!(Err(syntax("{0:('a',1)}", SyntaxReason::ChoiceFields)), parse_choice_fields("{0:('a',1)}"));
    assert_eq!(Err(syntax("),{0:('a',x)}", SyntaxReason::ChoiceFields)), parse_choice_fields("),{0:('a',x)}"));
    assert_eq!(Err(syntax("[[('a',1,x)]]", SyntaxReason::StructFields)), parse_struct_fields("[[('a',1,x)]]"));
    assert_eq!(Err(syntax("[[('a',1,2", SyntaxReason::StructFields)), parse_struct_fields("[[('a',1,2"));
    assert_eq!(Err(syntax("65536: (1, 'E'),", SyntaxReason::EventType)), parse_event_type("65536: (1, 'E'),"));
    assert_eq!(Err(syntax("5: (1, 'a'b'),", SyntaxReason::EventType)), parse_event_type("5: (1, 'a'b'),"));
    assert_eq!(Err(syntax("5:(1, 'E'),", SyntaxReason::EventType)), parse_event_type("5:(1, 'E'),"));
}

#[test]
fn line_parsers_read_signs_and_large_numbers() {
    assert_eq!(
        Ok((")]),", (i64::MIN, 64))),
        parse_offset_and_length("[(-9223372036854775808,64)]),")
    );
    assert_eq!(Ok((")", (i64::MAX, 1))), parse_offset_and_length("[(+9223372036854775807,+1)"));
    assert_eq!(
        Err(syntax("[(9223372036854775808,1)", SyntaxReason::OffsetAndLength)),
        parse_offset_and_length("[(9223372036854775808,1)")
    );
    assert_eq!(Ok(("", (65535, "E", 0))), parse_event_type("\t 65535: (0, 'E'),"));
    assert_eq!(Ok((")]]", vec![("m_userId", 2, -1)])), parse_struct_fields("[[('m_userId',2,-1)]]"));
    assert_eq!(Ok(("[[]]),", vec![])), parse_struct_fields("[[]]),"));
    assert_eq!(Ok(("}]", vec![])), parse_choice_fields("),}]"));
    assert_eq!(Ok(("abc", "")), parse_blank_lines("\r\n\n\r\nabc"));
    assert_eq!(Ok(("\rabc", "")), parse_blank_lines("\n\rabc"));
    assert_eq!(Ok(("next", " a\u{e9}b")), parse_comments("\n#\u{a0} a\u{e9}b \u{2003}\t\r\nnext").map(|(r, c)| (r, &c[2..])));
}

#[test]
fn white_space_is_what_the_standard_library_trims() {
    let mut count: usize = 0;
    for code in 0..=0x10ffffu32 {
        if let Some(c) = char::from_u32(code) {
            assert_eq!(c.is_whitespace(), is_white_space(c), "U+{code:04X}");
            if is_white_space(c) {
                count += 1;
                if c != '\n' {
                    let text = format!("# a{c}\nnext");
                    let comment = parse_comments(&text).map(|(rest, comment)| (rest, comment.to_string()));
                    assert_eq!(Ok(("next", " a".to_string())), comment);
                }
            }
        }
    }
    assert_eq!(25, count);
    assert!(is_white_space('\u{3000}'));
    assert!(!is_white_space('\u{200b}'));
    assert!(!is_white_space('\u{1c}'));
    assert_eq!(
        Ok(("\n", ("m", "a, b"))),
        parse_imports("from m import a, b\u{2028}\u{85} \n")
    );
}
