use nom::bytes::complete::{is_a, tag, take, take_till, take_until};
use nom::character::complete::{digit1, line_ending, newline, space0};
use nom::multi::many0;
use nom::sequence::{delimited, pair, preceded, terminated};
use nom::IResult;
use s2prot_rs::protocol::parsers::line_parsers::{
    parse_blank_lines, parse_choice_fields, parse_comments, parse_constant, parse_event_type,
    parse_imports, parse_offset_and_length, parse_struct_fields, parse_type_index,
    parse_type_name, skip_remaining_of_line,
};

// The forms of the schema written with parser combinators, to hold the line parsers against.

fn constant(input: &str) -> Option<(&str, usize)> {
    let mut parser = preceded(pair(take_until("="), tag("= ")), digit1);
    let result: IResult<&str, &str> = parser(input);
    let (input, constant) = result.ok()?;
    Some((input, constant.parse().ok()?))
}

fn comments(input: &str) -> Option<(&str, &str)> {
    let result: IResult<&str, Vec<&str>> = many0(line_ending)(input);
    let (input, _) = result.ok()?;
    let result: IResult<&str, &str> = tag("#")(input);
    let (input, _) = result.ok()?;
    let result: IResult<&str, &str> = take_till(|c| c == '\n')(input);
    let (input, comment) = result.ok()?;
    let result: IResult<&str, char> = newline(input);
    let (input, _) = result.ok()?;
    Some((input, comment.trim_end()))
}

fn imports(input: &str) -> Option<(&str, (&str, &str))> {
    let result: IResult<&str, &str> = preceded(tag("from "), take_until(" import "))(input);
    let (input, import_from) = result.ok()?;
    let result: IResult<&str, &str> = preceded(tag(" import "), take_until("\n"))(input);
    let (input, imported) = result.ok()?;
    Some((input, (import_from, imported.trim_end())))
}

fn blank_lines(input: &str) -> Option<(&str, &str)> {
    let result: IResult<&str, Vec<&str>> = many0(line_ending)(input);
    let (input, _) = result.ok()?;
    Some((input, ""))
}

fn kind_name(input: &str) -> Option<(&str, &str)> {
    let result: IResult<&str, &str> = space0(input);
    let (input, _) = result.ok()?;
    let result: IResult<&str, &str> = delimited(tag("('"), take_until("'"), tag("',"))(input);
    result.ok()
}

fn offset_and_length(input: &str) -> Option<(&str, (i64, usize))> {
    let result: IResult<&str, &str> = delimited(tag("[("), take_until(","), tag(","))(input);
    let (input, offset) = result.ok()?;
    let result: IResult<&str, &str> = take_until(")")(input);
    let (input, length) = result.ok()?;
    Some((input, (offset.parse().ok()?, length.parse().ok()?)))
}

fn kind_index(input: &str) -> Option<(&str, usize)> {
    let result: IResult<&str, &str> = delimited(is_a("),["), take_until("]"), tag("]"))(input);
    let (input, index) = result.ok()?;
    Some((input, index.parse().ok()?))
}

fn choice_fields(input: &str) -> Option<(&str, Vec<(&str, usize, i64)>)> {
    let mut fields = Vec::new();
    let result: IResult<&str, &str> = tag("),")(input);
    let (mut input, _) = result.ok()?;
    while input.starts_with("{") || input.starts_with(",") {
        let result: IResult<&str, &str> = take(1usize)(input);
        let (rest, _) = result.ok()?;
        let result: IResult<&str, &str> = terminated(take_until(":('"), tag(":('"))(rest);
        let (rest, field_tag) = result.ok()?;
        let result: IResult<&str, &str> = terminated(take_until("',"), tag("',"))(rest);
        let (rest, field_name) = result.ok()?;
        let result: IResult<&str, &str> = terminated(take_until(")"), tag(")"))(rest);
        let (rest, field_index) = result.ok()?;
        let field_tag = field_tag.parse().ok()?;
        let field_index = field_index.parse().ok()?;
        fields.push((field_name, field_index, field_tag));
        input = rest;
    }
    Some((input, fields))
}

fn struct_fields(mut input: &str) -> Option<(&str, Vec<(&str, usize, i64)>)> {
    let mut fields = Vec::new();
    while input.starts_with("[[('") || input.starts_with("),('") {
        let result: IResult<&str, &str> = take(4usize)(input);
        let (rest, _) = result.ok()?;
        let result: IResult<&str, &str> = terminated(take_until("',"), tag("',"))(rest);
        let (rest, field_name) = result.ok()?;
        let result: IResult<&str, &str> = terminated(take_until(","), tag(","))(rest);
        let (rest, field_index) = result.ok()?;
        let result: IResult<&str, &str> = take_until(")")(rest);
        let (rest, field_tag) = result.ok()?;
        let field_index = field_index.parse().ok()?;
        let field_tag = field_tag.parse().ok()?;
        fields.push((field_name, field_index, field_tag));
        input = rest;
    }
    Some((input, fields))
}

fn event(input: &str) -> Option<(&str, (u16, &str, usize))> {
    let result: IResult<&str, &str> = delimited(space0, take_until(":"), tag(": "))(input);
    let (input, event_id) = result.ok()?;
    let result: IResult<&str, &str> = delimited(tag("("), take_until(","), tag(", "))(input);
    let (input, index) = result.ok()?;
    let result: IResult<&str, &str> = delimited(tag("'"), take_until("'"), tag("'),"))(input);
    let (input, event_name) = result.ok()?;
    Some((input, (event_id.parse().ok()?, event_name, index.parse().ok()?)))
}

fn rest_of_line(input: &str) -> Option<(&str, &str)> {
    let result: IResult<&str, char> = preceded(take_until("\n"), newline)(input);
    let (input, _) = result.ok()?;
    Some((input, ""))
}

fn agree(input: &str) {
    assert_eq!(constant(input), parse_constant(input).ok(), "constant {:?}", input);
    assert_eq!(comments(input), parse_comments(input).ok(), "comments {:?}", input);
    assert_eq!(imports(input), parse_imports(input).ok(), "imports {:?}", input);
    assert_eq!(blank_lines(input), parse_blank_lines(input).ok(), "blank lines {:?}", input);
    assert_eq!(kind_name(input), parse_type_name(input).ok(), "kind name {:?}", input);
    assert_eq!(
        offset_and_length(input),
        parse_offset_and_length(input).ok(),
        "offset and length {:?}",
        input
    );
    assert_eq!(kind_index(input), parse_type_index(input).ok(), "kind index {:?}", input);
    assert_eq!(choice_fields(input), parse_choice_fields(input).ok(), "choice fields {:?}", input);
    assert_eq!(struct_fields(input), parse_struct_fields(input).ok(), "struct fields {:?}", input);
    assert_eq!(event(input), parse_event_type(input).ok(), "event {:?}", input);
    assert_eq!(rest_of_line(input), skip_remaining_of_line(input).ok(), "rest of line {:?}", input);
}

const LINES: [&str; 38] = [
    "",
    "\n",
    "\r\n",
    "\r\n\n\r\n# a comment \t \nnext",
    "\n\r# not a comment\n",
    "# Copyright (c) 2015-2017 Blizzard Entertainment\n",
    "#\n",
    "#no line end",
    "from s2protocol.decoders import *\n        ",
    "from a import b import c \u{a0}\nrest",
    "from a import b",
    "from  import \n",
    "message_eventid_typeid = 1",
    "a=b= 12x",
    "= 7",
    "x = 18446744073709551615\n",
    "x = 18446744073709551616\n",
    "x = 00000000000000000000000000000007 ",
    "x = +7",
    "    ('_int',[(0,7)]),  #0",
    "\t \t('x','y',",
    "('',",
    " ('_int' ,",
    "[(0,7)]),  #0",
    "[(-9223372036854775808,64)]),",
    "[(-9223372036854775809,64)]),",
    "[(+5,+6)",
    "[( 5,6)",
    "[(5,6 )",
    "[(-,6)",
    "[10])",
    "),10])",
    "),[,)[[10]x",
    "),{0:('m_uint6',3),1:('m_uint14',4),2:('m_uint22',5),3:('m_uint32',6)}]),  #7",
    "),{-1:('m_a',3),,:('',4)}]",
    "[[('m_dataDeprecated',15,0),('m_data',16,1)]]),  #17",
    "[[('m_a',15,-3),('m_b',1,2),('m_c',1,x)]]",
    "    5: (82, 'NNet.Game.SUserFinishedLoadingSyncEvent'),",
];

#[test]
fn the_line_parsers_agree_with_the_combinators_on_lines_of_a_schema() {
    for line in LINES {
        agree(line);
    }
    agree("\t 65535: (0, 'E'),rest");
    agree("65536: (0, 'E'),");
    agree("5: (1, 'a'b'),");
    agree("5: (1,2, 'E'),");
    agree("5 : (1, 'E'),");
    agree("\u{e9}: (1, '\u{e9}'),\u{e9}");
    agree("),{0:('\u{e9}\u{1f600}',3)}\u{e9}");
    agree("[[('\u{e9}',1,2),('\u{4e2d}',3,4)\u{e9}");
    agree("\u{e9}=\u{e9}= 5\u{e9}");
    agree("  ('\u{e9}',\u{e9}");
}

#[test]
fn the_line_parsers_agree_with_the_combinators_on_mangled_lines() {
    let alphabet: Vec<char> =
        "()[]{}',:=#\n\r \t+-0123456789_abmx\u{e9}".chars().collect();
    let mut state: u64 = 0x2545_f491_4f6c_dd1d;
    let mut next = move |bound: usize| {
        state ^= state << 13;
        state ^= state >> 7;
        state ^= state << 17;
        (state % bound as u64) as usize
    };
    for round in 0..4000 {
        let line: Vec<char> = LINES[round % LINES.len()].chars().collect();
        let mut mangled = line.clone();
        for _ in 0..1 + next(3) {
            let at = next(mangled.len() + 1);
            match next(3) {
                0 if at < mangled.len() => {
                    mangled.remove(at);
                }
                1 if at < mangled.len() => mangled[at] = alphabet[next(alphabet.len())],
                _ => mangled.insert(at, alphabet[next(alphabet.len())]),
            }
        }
        let text: String = mangled.into_iter().collect();
        agree(&text);
    }
    for _ in 0..2000 {
        let length = next(12);
        let text: String = (0..length).map(|_| alphabet[next(alphabet.len())]).collect();
        agree(&text);
    }
}
