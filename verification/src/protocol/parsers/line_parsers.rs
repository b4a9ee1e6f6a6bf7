use crate::protocol::error::{syntax_error, syntax_error_at, SchemaError, SyntaxReason};
use crate::protocol::text::{
    after_tag, ascii_bytes, blanks, digits, lemma_run_lengths, lemma_until_lengths, line_feed,
    lit,
    parse_index, parse_signed, parse_unsigned, run, signed_of, starts_with, tag, take_run,
    take_until, take_until_past, trim_end, trimmed_end, unsigned_of, until, until_past,
};
use vstd::prelude::*;
use vstd::string::*;
use vstd::utf8::*;

verus! {

/// What follows the first line of `s`; `None` if no line feed ends it.
pub open spec fn skip_line_form(s: Seq<u8>) -> Option<Seq<u8>> {
    match until_past(s, line_feed()) {
        Some((_, rest)) => Some(rest),
        None => None,
    }
}

/// `s` without the line ends at its start: line feeds, with or without a carriage return
/// in front.
pub open spec fn skip_line_ends(s: Seq<u8>) -> Seq<u8>
    decreases s.len(),
{
    if s.len() >= 1 && starts_with(s, lit("\n"@)) {
        skip_line_ends(s.skip(1))
    } else if s.len() >= 2 && starts_with(s, lit("\r\n"@)) {
        skip_line_ends(s.skip(2))
    } else {
        s
    }
}

/// A constant `NAME = K`: the number `K`, and what follows it.
pub open spec fn constant_form(s: Seq<u8>) -> Option<(usize, Seq<u8>)> {
    match until(s, lit("="@)) {
        None => None,
        Some((_, s1)) => match after_tag(s1, lit("= "@)) {
            None => None,
            Some(s2) => match unsigned_of(run(s2, digits()).0, usize::MAX as nat) {
                None => None,
                Some(k) => Some((k as usize, run(s2, digits()).1)),
            },
        },
    }
}

/// A comment, with or without line ends in front of it: the text between `#` and the end
/// of the line, and what follows the line.
pub open spec fn comment_form(s: Seq<u8>) -> Option<(Seq<u8>, Seq<u8>)> {
    match after_tag(skip_line_ends(s), lit("#"@)) {
        None => None,
        Some(s1) => until_past(s1, line_feed()),
    }
}

/// An import `from M import N`: the texts `M` and `N`, where `N` runs to the end of the
/// line, and what follows from the line feed on.
pub open spec fn import_form(s: Seq<u8>) -> Option<(Seq<u8>, Seq<u8>, Seq<u8>)> {
    match after_tag(s, lit("from "@)) {
        None => None,
        Some(s1) => match until_past(s1, lit(" import "@)) {
            None => None,
            Some((module, s2)) => match until(s2, line_feed()) {
                None => None,
                Some((names, rest)) => Some((module, names, rest)),
            },
        },
    }
}

/// The start of a type descriptor, `('_kind',` behind blanks: the name of the kind, and
/// what follows the comma.
pub open spec fn type_name_form(s: Seq<u8>) -> Option<(Seq<u8>, Seq<u8>)> {
    match after_tag(run(s, blanks()).1, lit("('"@)) {
        None => None,
        Some(s1) => match until(s1, lit("'"@)) {
            None => None,
            Some((name, s2)) => match after_tag(s2, lit("',"@)) {
                None => None,
                Some(rest) => Some((name, rest)),
            },
        },
    }
}

/// The rest of `input` behind its first line.
pub fn skip_remaining_of_line<'a>(input: &'a str) -> (res: Result<(&'a str, &'a str), SchemaError>)
    ensures
        match res {
            Ok((rest, nothing)) => skip_line_form(input.spec_bytes()) == Some(rest.spec_bytes())
                && nothing@.len() == 0,
            Err(e) => skip_line_form(input.spec_bytes()) is None && e@ == syntax_error_at(
                input.spec_bytes(),
                SyntaxReason::LineEnd,
            ),
        },
{
    proof {
        reveal_strlit("\n");
        reveal_strlit("");
    }
    match take_until_past(input, ascii_bytes("\n")) {
        Some((_, rest)) => Ok((rest, "")),
        None => Err(syntax_error(input, SyntaxReason::LineEnd)),
    }
}

/// Reads a constant `NAME = K`.
pub fn parse_constant<'a>(input: &'a str) -> (res: Result<(&'a str, usize), SchemaError>)
    ensures
        match res {
            Ok((rest, k)) => constant_form(input.spec_bytes()) == Some((k, rest.spec_bytes())),
            Err(e) => constant_form(input.spec_bytes()) is None && e@ == syntax_error_at(
                input.spec_bytes(),
                SyntaxReason::Constant,
            ),
        },
{
    proof {
        reveal_strlit("=");
        reveal_strlit("= ");
        reveal_strlit("0123456789");
    }
    let s1 = match take_until(input, ascii_bytes("=")) {
        Some((_, s1)) => s1,
        None => {
            return Err(syntax_error(input, SyntaxReason::Constant));
        },
    };
    let s2 = match tag(s1, ascii_bytes("= ")) {
        Some(s2) => s2,
        None => {
            return Err(syntax_error(input, SyntaxReason::Constant));
        },
    };
    let (number, rest) = take_run(s2, ascii_bytes("0123456789"));
    match parse_index(number) {
        Some(k) => Ok((rest, k)),
        None => Err(syntax_error(input, SyntaxReason::Constant)),
    }
}

/// Passes over the line ends at the start of `input`.
pub fn parse_blank_lines<'a>(input: &'a str) -> (res: Result<(&'a str, &'a str), SchemaError>)
    ensures
        match res {
            Ok((rest, nothing)) => rest.spec_bytes() == skip_line_ends(input.spec_bytes())
                && nothing@.len() == 0,
            Err(_) => false,
        },
{
    proof {
        reveal_strlit("\n");
        reveal_strlit("\r\n");
        reveal_strlit("");
    }
    let mut rest: &'a str = input;
    loop
        invariant_except_break
            skip_line_ends(input.spec_bytes()) == skip_line_ends(rest.spec_bytes()),
        ensures
            rest.spec_bytes() == skip_line_ends(input.spec_bytes()),
        decreases rest.spec_bytes().len(),
    {
        proof {
            reveal_strlit("\n");
            reveal_strlit("\r\n");
        }
        match tag(rest, ascii_bytes("\n")) {
            Some(next) => {
                rest = next;
            },
            None => match tag(rest, ascii_bytes("\r\n")) {
                Some(next) => {
                    rest = next;
                },
                None => {
                    break ;
                },
            },
        }
    }
    Ok((rest, ""))
}

/// Reads a comment: the text behind `#` up to the end of the line, without the white
/// space at its end.
pub fn parse_comments<'a>(input: &'a str) -> (res: Result<(&'a str, &'a str), SchemaError>)
    ensures
        match res {
            Ok((rest, comment)) => match comment_form(input.spec_bytes()) {
                Some((text, behind)) => behind == rest.spec_bytes() && comment@ == trimmed_end(
                    decode_utf8(text),
                ),
                None => false,
            },
            Err(e) => comment_form(input.spec_bytes()) is None && e@ == syntax_error_at(
                input.spec_bytes(),
                SyntaxReason::Comment,
            ),
        },
{
    proof {
        reveal_strlit("#");
        reveal_strlit("\n");
    }
    let s0 = match parse_blank_lines(input) {
        Ok((s0, _)) => s0,
        Err(e) => {
            return Err(e);
        },
    };
    let s1 = match tag(s0, ascii_bytes("#")) {
        Some(s1) => s1,
        None => {
            return Err(syntax_error(input, SyntaxReason::Comment));
        },
    };
    match take_until_past(s1, ascii_bytes("\n")) {
        Some((text, rest)) => {
            proof {
                encode_utf8_decode_utf8(text@);
            }
            Ok((rest, trim_end(text)))
        },
        None => Err(syntax_error(input, SyntaxReason::Comment)),
    }
}

/// Reads an import `from M import N`: `M`, and `N` without the white space at its end.
pub fn parse_imports<'a>(input: &'a str) -> (res: Result<
    (&'a str, (&'a str, &'a str)),
    SchemaError,
>)
    ensures
        match res {
            Ok((rest, (module, names))) => match import_form(input.spec_bytes()) {
                Some((from, what, behind)) => behind == rest.spec_bytes() && from
                    == module.spec_bytes() && names@ == trimmed_end(decode_utf8(what)),
                None => false,
            },
            Err(e) => import_form(input.spec_bytes()) is None && e@ == syntax_error_at(
                input.spec_bytes(),
                SyntaxReason::Import,
            ),
        },
{
    proof {
        reveal_strlit("from ");
        reveal_strlit(" import ");
        reveal_strlit("\n");
    }
    let s1 = match tag(input, ascii_bytes("from ")) {
        Some(s1) => s1,
        None => {
            return Err(syntax_error(input, SyntaxReason::Import));
        },
    };
    let (module, s2) = match take_until_past(s1, ascii_bytes(" import ")) {
        Some(found) => found,
        None => {
            return Err(syntax_error(input, SyntaxReason::Import));
        },
    };
    match take_until(s2, ascii_bytes("\n")) {
        Some((names, rest)) => {
            proof {
                encode_utf8_decode_utf8(names@);
            }
            Ok((rest, (module, trim_end(names))))
        },
        None => Err(syntax_error(input, SyntaxReason::Import)),
    }
}

/// Reads the start of a type descriptor: the name of its kind.
pub fn parse_type_name<'a>(input: &'a str) -> (res: Result<(&'a str, &'a str), SchemaError>)
    ensures
        match res {
            Ok((rest, name)) => type_name_form(input.spec_bytes()) == Some(
                (name.spec_bytes(), rest.spec_bytes()),
            ),
            Err(e) => type_name_form(input.spec_bytes()) is None && e@ == syntax_error_at(
                input.spec_bytes(),
                SyntaxReason::TypeName,
            ),
        },
{
    proof {
        reveal_strlit(" \t");
        reveal_strlit("('");
        reveal_strlit("'");
        reveal_strlit("',");
    }
    let (_, s0) = take_run(input, ascii_bytes(" \t"));
    let s1 = match tag(s0, ascii_bytes("('")) {
        Some(s1) => s1,
        None => {
            return Err(syntax_error(input, SyntaxReason::TypeName));
        },
    };
    let (name, s2) = match take_until(s1, ascii_bytes("'")) {
        Some(found) => found,
        None => {
            return Err(syntax_error(input, SyntaxReason::TypeName));
        },
    };
    match tag(s2, ascii_bytes("',")) {
        Some(rest) => Ok((rest, name)),
        None => Err(syntax_error(input, SyntaxReason::TypeName)),
    }
}

/// The bounds of a number, `[(offset,length` up to the closing bracket: the two numbers,
/// and what follows from the bracket on.
pub open spec fn offset_and_length_form(s: Seq<u8>) -> Option<((i64, usize), Seq<u8>)> {
    match after_tag(s, lit("[("@)) {
        None => None,
        Some(s1) => match until_past(s1, lit(","@)) {
            None => None,
            Some((first, s2)) => match until(s2, lit(")"@)) {
                None => None,
                Some((second, rest)) => match signed_of(first) {
                    None => None,
                    Some(offset) => match unsigned_of(second, usize::MAX as nat) {
                        None => None,
                        Some(length) => Some(((offset as i64, length as usize), rest)),
                    },
                },
            },
        },
    }
}

/// A type index, `index]` behind at least one of the signs `)`, `,` and `[`: the index,
/// and what follows the closing bracket.
pub open spec fn type_index_form(s: Seq<u8>) -> Option<(usize, Seq<u8>)> {
    if run(s, lit("),["@)).0.len() == 0 {
        None
    } else {
        match until_past(run(s, lit("),["@)).1, lit("]"@)) {
            None => None,
            Some((text, rest)) => match unsigned_of(text, usize::MAX as nat) {
                None => None,
                Some(index) => Some((index as usize, rest)),
            },
        }
    }
}

/// One branch of a choice, `tag:('name',index)`: its name, type index and tag, and what
/// follows the closing bracket.
pub open spec fn choice_entry_form(s: Seq<u8>) -> Option<((Seq<u8>, usize, i64), Seq<u8>)> {
    match until_past(s, lit(":('"@)) {
        None => None,
        Some((first, s1)) => match until_past(s1, lit("',"@)) {
            None => None,
            Some((name, s2)) => match until_past(s2, lit(")"@)) {
                None => None,
                Some((second, rest)) => match signed_of(first) {
                    None => None,
                    Some(tag) => match unsigned_of(second, usize::MAX as nat) {
                        None => None,
                        Some(index) => Some(((name, index as usize, tag as i64), rest)),
                    },
                },
            },
        },
    }
}

/// Puts the entries `done` in front of the entries that the rest of a list gave.
pub open spec fn entries_after(
    done: Seq<(Seq<u8>, usize, i64)>,
    rest: Option<(Seq<(Seq<u8>, usize, i64)>, Seq<u8>)>,
) -> Option<(Seq<(Seq<u8>, usize, i64)>, Seq<u8>)> {
    match rest {
        Some((more, end)) => Some((done + more, end)),
        None => None,
    }
}

/// The branches of a choice, each behind `{` or `,`: their names, type indices and tags,
/// and what follows the last of them. A branch always takes some text
/// (`lemma_choice_entry_lengths`), so that the reading goes on behind each of them.
pub open spec fn choice_entries_form(s: Seq<u8>) -> Option<
    (Seq<(Seq<u8>, usize, i64)>, Seq<u8>),
>
    decreases s.len(),
{
    if s.len() >= 1 && (starts_with(s, lit("{"@)) || starts_with(s, lit(","@))) {
        match choice_entry_form(s.skip(1)) {
            None => None,
            Some((entry, rest)) => if rest.len() < s.len() {
                entries_after(seq![entry], choice_entries_form(rest))
            } else {
                None
            },
        }
    } else {
        Some((Seq::empty(), s))
    }
}

/// The branches of a choice behind `),`.
pub open spec fn choice_fields_form(s: Seq<u8>) -> Option<(Seq<(Seq<u8>, usize, i64)>, Seq<u8>)> {
    match after_tag(s, lit("),"@)) {
        None => None,
        Some(s1) => choice_entries_form(s1),
    }
}

/// One field of a struct, `name',index,tag` up to the closing bracket: its name, type
/// index and tag, and what follows from the bracket on.
pub open spec fn struct_entry_form(s: Seq<u8>) -> Option<((Seq<u8>, usize, i64), Seq<u8>)> {
    match until_past(s, lit("',"@)) {
        None => None,
        Some((name, s1)) => match until_past(s1, lit(","@)) {
            None => None,
            Some((first, s2)) => match until(s2, lit(")"@)) {
                None => None,
                Some((second, rest)) => match unsigned_of(first, usize::MAX as nat) {
                    None => None,
                    Some(index) => match signed_of(second) {
                        None => None,
                        Some(tag) => Some(((name, index as usize, tag as i64), rest)),
                    },
                },
            },
        },
    }
}

/// The fields of a struct, the first behind `[[('` and each further one behind `),('`:
/// their names, type indices and tags, and what follows the last of them. A field always
/// takes some text (`lemma_struct_entry_lengths`), so that the reading goes on behind each
/// of them.
pub open spec fn struct_fields_form(s: Seq<u8>) -> Option<(Seq<(Seq<u8>, usize, i64)>, Seq<u8>)>
    decreases s.len(),
{
    if s.len() >= 4 && (starts_with(s, lit("[[('"@)) || starts_with(s, lit("),('"@))) {
        match struct_entry_form(s.skip(4)) {
            None => None,
            Some((entry, rest)) => if rest.len() < s.len() {
                entries_after(seq![entry], struct_fields_form(rest))
            } else {
                None
            },
        }
    } else {
        Some((Seq::empty(), s))
    }
}

/// The first part of an event, `id: (index, '` behind blanks: the texts of the id and of
/// the type index, and what follows the quote.
pub open spec fn event_head_form(s: Seq<u8>) -> Option<(Seq<u8>, Seq<u8>, Seq<u8>)> {
    match until(run(s, blanks()).1, lit(":"@)) {
        None => None,
        Some((first, s1)) => match after_tag(s1, lit(": ("@)) {
            None => None,
            Some(s2) => match until(s2, lit(","@)) {
                None => None,
                Some((second, s3)) => match after_tag(s3, lit(", '"@)) {
                    None => None,
                    Some(s4) => Some((first, second, s4)),
                },
            },
        },
    }
}

/// An event, `id: (index, 'Name'),` behind blanks: its id, name and type index, and what
/// follows the last comma.
pub open spec fn event_type_form(s: Seq<u8>) -> Option<((u16, Seq<u8>, usize), Seq<u8>)> {
    match event_head_form(s) {
        None => None,
        Some((first, second, s1)) => match until(s1, lit("'"@)) {
            None => None,
            Some((name, s2)) => match after_tag(s2, lit("'),"@)) {
                None => None,
                Some(rest) => match unsigned_of(first, 0xffff) {
                    None => None,
                    Some(id) => match unsigned_of(second, usize::MAX as nat) {
                        None => None,
                        Some(index) => Some(((id as u16, name, index as usize), rest)),
                    },
                },
            },
        },
    }
}

/// The names, type indices and tags of a list of entries, the names as bytes.
pub open spec fn entries_bytes(entries: Seq<(&str, usize, i64)>) -> Seq<(Seq<u8>, usize, i64)> {
    Seq::new(entries.len(), |i: int| (entries[i].0.spec_bytes(), entries[i].1, entries[i].2))
}

/// Reads the bounds of a number.
pub fn parse_offset_and_length<'a>(input: &'a str) -> (res: Result<
    (&'a str, (i64, usize)),
    SchemaError,
>)
    ensures
        match res {
            Ok((rest, bounds)) => offset_and_length_form(input.spec_bytes()) == Some(
                (bounds, rest.spec_bytes()),
            ),
            Err(e) => offset_and_length_form(input.spec_bytes()) is None && e@ == syntax_error_at(
                input.spec_bytes(),
                SyntaxReason::OffsetAndLength,
            ),
        },
{
    proof {
        reveal_strlit("[(");
        reveal_strlit(",");
        reveal_strlit(")");
    }
    let s1 = match tag(input, ascii_bytes("[(")) {
        Some(s1) => s1,
        None => {
            return Err(syntax_error(input, SyntaxReason::OffsetAndLength));
        },
    };
    let (first, s2) = match take_until_past(s1, ascii_bytes(",")) {
        Some(found) => found,
        None => {
            return Err(syntax_error(input, SyntaxReason::OffsetAndLength));
        },
    };
    let (second, rest) = match take_until(s2, ascii_bytes(")")) {
        Some(found) => found,
        None => {
            return Err(syntax_error(input, SyntaxReason::OffsetAndLength));
        },
    };
    let offset = match parse_signed(first) {
        Some(offset) => offset,
        None => {
            return Err(syntax_error(input, SyntaxReason::OffsetAndLength));
        },
    };
    match parse_index(second) {
        Some(length) => Ok((rest, (offset, length))),
        None => Err(syntax_error(input, SyntaxReason::OffsetAndLength)),
    }
}

/// Reads a type index.
pub fn parse_type_index<'a>(input: &'a str) -> (res: Result<(&'a str, usize), SchemaError>)
    ensures
        match res {
            Ok((rest, index)) => type_index_form(input.spec_bytes()) == Some(
                (index, rest.spec_bytes()),
            ),
            Err(e) => type_index_form(input.spec_bytes()) is None && e@ == syntax_error_at(
                input.spec_bytes(),
                SyntaxReason::TypeIndex,
            ),
        },
{
    proof {
        reveal_strlit("),[");
        reveal_strlit("]");
    }
    let (lead, s1) = take_run(input, ascii_bytes("),["));
    if lead.as_bytes().len() == 0 {
        return Err(syntax_error(input, SyntaxReason::TypeIndex));
    }
    let (text, rest) = match take_until_past(s1, ascii_bytes("]")) {
        Some(found) => found,
        None => {
            return Err(syntax_error(input, SyntaxReason::TypeIndex));
        },
    };
    match parse_index(text) {
        Some(index) => Ok((rest, index)),
        None => Err(syntax_error(input, SyntaxReason::TypeIndex)),
    }
}

/// Reads one branch of a choice.
fn parse_choice_entry<'a>(input: &'a str) -> (res: Option<((&'a str, usize, i64), &'a str)>)
    ensures
        match res {
            Some((entry, rest)) => choice_entry_form(input.spec_bytes()) == Some(
                ((entry.0.spec_bytes(), entry.1, entry.2), rest.spec_bytes()),
            ) && rest.spec_bytes().len() < input.spec_bytes().len(),
            None => choice_entry_form(input.spec_bytes()) is None,
        },
{
    proof {
        reveal_strlit(":('");
        reveal_strlit("',");
        reveal_strlit(")");
    }
    let (first, s1) = match take_until_past(input, ascii_bytes(":('")) {
        Some(found) => found,
        None => {
            return None;
        },
    };
    let (name, s2) = match take_until_past(s1, ascii_bytes("',")) {
        Some(found) => found,
        None => {
            return None;
        },
    };
    let (second, rest) = match take_until_past(s2, ascii_bytes(")")) {
        Some(found) => found,
        None => {
            return None;
        },
    };
    proof {
        lemma_until_lengths(input.spec_bytes(), lit(":('"@));
        lemma_until_lengths(s1.spec_bytes(), lit("',"@));
        lemma_until_lengths(s2.spec_bytes(), lit(")"@));
    }
    let tag = match parse_signed(first) {
        Some(tag) => tag,
        None => {
            return None;
        },
    };
    match parse_index(second) {
        Some(index) => Some(((name, index, tag), rest)),
        None => None,
    }
}

/// Reads the branches of a choice: the name, type index and tag of each.
pub fn parse_choice_fields<'a>(input: &'a str) -> (res: Result<
    (&'a str, Vec<(&'a str, usize, i64)>),
    SchemaError,
>)
    ensures
        match res {
            Ok((rest, fields)) => choice_fields_form(input.spec_bytes()) == Some(
                (entries_bytes(fields@), rest.spec_bytes()),
            ),
            Err(e) => choice_fields_form(input.spec_bytes()) is None && e@ == syntax_error_at(
                input.spec_bytes(),
                SyntaxReason::ChoiceFields,
            ),
        },
{
    proof {
        reveal_strlit("),");
        reveal_strlit("{");
        reveal_strlit(",");
    }
    let mut fields: Vec<(&'a str, usize, i64)> = Vec::new();
    let first = match tag(input, ascii_bytes("),")) {
        Some(first) => first,
        None => {
            return Err(syntax_error(input, SyntaxReason::ChoiceFields));
        },
    };
    let mut rest: &'a str = first;
    proof {
        assert(entries_bytes(fields@) =~= Seq::empty());
    }
    loop
        invariant_except_break
            choice_entries_form(first.spec_bytes()) == entries_after(
                entries_bytes(fields@),
                choice_entries_form(rest.spec_bytes()),
            ),
        invariant
            choice_fields_form(input.spec_bytes()) == choice_entries_form(first.spec_bytes()),
        ensures
            choice_entries_form(first.spec_bytes()) == Some(
                (entries_bytes(fields@), rest.spec_bytes()),
            ),
        decreases rest.spec_bytes().len(),
    {
        proof {
            reveal_strlit("{");
            reveal_strlit(",");
        }
        let ghost done = entries_bytes(fields@);
        let inner = match tag(rest, ascii_bytes("{")) {
            Some(inner) => inner,
            None => match tag(rest, ascii_bytes(",")) {
                Some(inner) => inner,
                None => {
                    proof {
                        assert(done + Seq::empty() =~= done);
                    }
                    break ;
                },
            },
        };
        match parse_choice_entry(inner) {
            None => {
                return Err(syntax_error(input, SyntaxReason::ChoiceFields));
            },
            Some((entry, next)) => {
                fields.push(entry);
                rest = next;
                proof {
                    let e = (entry.0.spec_bytes(), entry.1, entry.2);
                    assert(entries_bytes(fields@) =~= done + seq![e]);
                    if let Some((more, end)) = choice_entries_form(rest.spec_bytes()) {
                        assert(done + (seq![e] + more) =~= (done + seq![e]) + more);
                    }
                }
            },
        }
    }
    Ok((rest, fields))
}

/// Reads one field of a struct.
fn parse_struct_entry<'a>(input: &'a str) -> (res: Option<((&'a str, usize, i64), &'a str)>)
    ensures
        match res {
            Some((entry, rest)) => struct_entry_form(input.spec_bytes()) == Some(
                ((entry.0.spec_bytes(), entry.1, entry.2), rest.spec_bytes()),
            ) && rest.spec_bytes().len() < input.spec_bytes().len(),
            None => struct_entry_form(input.spec_bytes()) is None,
        },
{
    proof {
        reveal_strlit("',");
        reveal_strlit(",");
        reveal_strlit(")");
    }
    let (name, s1) = match take_until_past(input, ascii_bytes("',")) {
        Some(found) => found,
        None => {
            return None;
        },
    };
    let (first, s2) = match take_until_past(s1, ascii_bytes(",")) {
        Some(found) => found,
        None => {
            return None;
        },
    };
    let (second, rest) = match take_until(s2, ascii_bytes(")")) {
        Some(found) => found,
        None => {
            return None;
        },
    };
    proof {
        lemma_until_lengths(input.spec_bytes(), lit("',"@));
        lemma_until_lengths(s1.spec_bytes(), lit(","@));
        lemma_until_lengths(s2.spec_bytes(), lit(")"@));
    }
    let index = match parse_index(first) {
        Some(index) => index,
        None => {
            return None;
        },
    };
    match parse_signed(second) {
        Some(tag) => Some(((name, index, tag), rest)),
        None => None,
    }
}

/// Reads the fields of a struct: the name, type index and tag of each.
pub fn parse_struct_fields<'a>(input: &'a str) -> (res: Result<
    (&'a str, Vec<(&'a str, usize, i64)>),
    SchemaError,
>)
    ensures
        match res {
            Ok((rest, fields)) => struct_fields_form(input.spec_bytes()) == Some(
                (entries_bytes(fields@), rest.spec_bytes()),
            ),
            Err(e) => struct_fields_form(input.spec_bytes()) is None && e@ == syntax_error_at(
                input.spec_bytes(),
                SyntaxReason::StructFields,
            ),
        },
{
    let mut fields: Vec<(&'a str, usize, i64)> = Vec::new();
    let mut rest: &'a str = input;
    proof {
        assert(entries_bytes(fields@) =~= Seq::empty());
    }
    loop
        invariant_except_break
            struct_fields_form(input.spec_bytes()) == entries_after(
                entries_bytes(fields@),
                struct_fields_form(rest.spec_bytes()),
            ),
        ensures
            struct_fields_form(input.spec_bytes()) == Some(
                (entries_bytes(fields@), rest.spec_bytes()),
            ),
        decreases rest.spec_bytes().len(),
    {
        proof {
            reveal_strlit("[[('");
            reveal_strlit("),('");
        }
        let ghost done = entries_bytes(fields@);
        let inner = match tag(rest, ascii_bytes("[[('")) {
            Some(inner) => inner,
            None => match tag(rest, ascii_bytes("),('")) {
                Some(inner) => inner,
                None => {
                    proof {
                        assert(done + Seq::empty() =~= done);
                    }
                    break ;
                },
            },
        };
        match parse_struct_entry(inner) {
            None => {
                return Err(syntax_error(input, SyntaxReason::StructFields));
            },
            Some((entry, next)) => {
                fields.push(entry);
                rest = next;
                proof {
                    let e = (entry.0.spec_bytes(), entry.1, entry.2);
                    assert(entries_bytes(fields@) =~= done + seq![e]);
                    if let Some((more, end)) = struct_fields_form(rest.spec_bytes()) {
                        assert(done + (seq![e] + more) =~= (done + seq![e]) + more);
                    }
                }
            },
        }
    }
    Ok((rest, fields))
}

/// Reads the first part of an event: the texts of its id and of its type index.
fn parse_event_head<'a>(input: &'a str) -> (res: Option<(&'a str, &'a str, &'a str)>)
    ensures
        match res {
            Some((first, second, rest)) => event_head_form(input.spec_bytes()) == Some(
                (first.spec_bytes(), second.spec_bytes(), rest.spec_bytes()),
            ),
            None => event_head_form(input.spec_bytes()) is None,
        },
{
    proof {
        reveal_strlit(" \t");
        reveal_strlit(":");
        reveal_strlit(": (");
        reveal_strlit(",");
        reveal_strlit(", '");
    }
    let (_, s0) = take_run(input, ascii_bytes(" \t"));
    let (first, s1) = match take_until(s0, ascii_bytes(":")) {
        Some(found) => found,
        None => {
            return None;
        },
    };
    let s2 = match tag(s1, ascii_bytes(": (")) {
        Some(s2) => s2,
        None => {
            return None;
        },
    };
    let (second, s3) = match take_until(s2, ascii_bytes(",")) {
        Some(found) => found,
        None => {
            return None;
        },
    };
    match tag(s3, ascii_bytes(", '")) {
        Some(rest) => Some((first, second, rest)),
        None => None,
    }
}

/// Reads an event: its id, name and type index.
pub fn parse_event_type<'a>(input: &'a str) -> (res: Result<
    (&'a str, (u16, &'a str, usize)),
    SchemaError,
>)
    ensures
        match res {
            Ok((rest, event)) => event_type_form(input.spec_bytes()) == Some(
                ((event.0, event.1.spec_bytes(), event.2), rest.spec_bytes()),
            ),
            Err(e) => event_type_form(input.spec_bytes()) is None && e@ == syntax_error_at(
                input.spec_bytes(),
                SyntaxReason::EventType,
            ),
        },
{
    proof {
        reveal_strlit("'");
        reveal_strlit("'),");
    }
    let (first, second, s1) = match parse_event_head(input) {
        Some(found) => found,
        None => {
            return Err(syntax_error(input, SyntaxReason::EventType));
        },
    };
    let (name, s2) = match take_until(s1, ascii_bytes("'")) {
        Some(found) => found,
        None => {
            return Err(syntax_error(input, SyntaxReason::EventType));
        },
    };
    let rest = match tag(s2, ascii_bytes("'),")) {
        Some(rest) => rest,
        None => {
            return Err(syntax_error(input, SyntaxReason::EventType));
        },
    };
    let id = match parse_unsigned(first, 0xffff) {
        Some(id) => id as u16,
        None => {
            return Err(syntax_error(input, SyntaxReason::EventType));
        },
    };
    match parse_index(second) {
        Some(index) => Ok((rest, (id, name, index))),
        None => Err(syntax_error(input, SyntaxReason::EventType)),
    }
}

/// What follows a line is shorter than the text that starts with the line.
pub proof fn lemma_skip_line_shrinks(s: Seq<u8>)
    ensures
        match skip_line_form(s) {
            Some(rest) => rest.len() < s.len(),
            None => true,
        },
{
    reveal_strlit("\n");
    lemma_until_lengths(s, line_feed());
}

/// What follows a constant is shorter than the text that starts with the constant.
pub proof fn lemma_constant_shrinks(s: Seq<u8>)
    ensures
        match constant_form(s) {
            Some((_, rest)) => rest.len() < s.len(),
            None => true,
        },
{
    reveal_strlit("= ");
    lemma_until_lengths(s, lit("="@));
    match until(s, lit("="@)) {
        Some((_, s1)) => {
            match after_tag(s1, lit("= "@)) {
                Some(s2) => {
                    lemma_run_lengths(s2, digits());
                },
                None => {},
            }
        },
        None => {},
    }
}

/// What follows the name of a kind is no longer than the text that starts with it.
pub proof fn lemma_type_name_lengths(s: Seq<u8>)
    ensures
        match type_name_form(s) {
            Some((_, rest)) => rest.len() <= s.len(),
            None => true,
        },
{
    lemma_run_lengths(s, blanks());
    match after_tag(run(s, blanks()).1, lit("('"@)) {
        Some(s1) => {
            lemma_until_lengths(s1, lit("'"@));
        },
        None => {},
    }
}

/// What follows the bounds of a number is no longer than the text that starts with them.
pub proof fn lemma_offset_and_length_lengths(s: Seq<u8>)
    ensures
        match offset_and_length_form(s) {
            Some((_, rest)) => rest.len() <= s.len(),
            None => true,
        },
{
    match after_tag(s, lit("[("@)) {
        Some(s1) => {
            lemma_until_lengths(s1, lit(","@));
            match until_past(s1, lit(","@)) {
                Some((_, s2)) => {
                    lemma_until_lengths(s2, lit(")"@));
                },
                None => {},
            }
        },
        None => {},
    }
}

/// What follows a type index is no longer than the text that starts with it.
pub proof fn lemma_type_index_lengths(s: Seq<u8>)
    ensures
        match type_index_form(s) {
            Some((_, rest)) => rest.len() <= s.len(),
            None => true,
        },
{
    lemma_run_lengths(s, lit("),["@));
    lemma_until_lengths(run(s, lit("),["@)).1, lit("]"@));
}

/// What follows a branch of a choice is no longer than the text that starts with it.
pub proof fn lemma_choice_entry_lengths(s: Seq<u8>)
    ensures
        match choice_entry_form(s) {
            Some((_, rest)) => rest.len() <= s.len(),
            None => true,
        },
{
    lemma_until_lengths(s, lit(":('"@));
    match until_past(s, lit(":('"@)) {
        Some((_, s1)) => {
            lemma_until_lengths(s1, lit("',"@));
            match until_past(s1, lit("',"@)) {
                Some((_, s2)) => {
                    lemma_until_lengths(s2, lit(")"@));
                },
                None => {},
            }
        },
        None => {},
    }
}

/// What follows the branches of a choice is no longer than the text that starts with
/// them.
pub proof fn lemma_choice_entries_lengths(s: Seq<u8>)
    ensures
        match choice_entries_form(s) {
            Some((_, rest)) => rest.len() <= s.len(),
            None => true,
        },
    decreases s.len(),
{
    if s.len() >= 1 && (starts_with(s, lit("{"@)) || starts_with(s, lit(","@))) {
        lemma_choice_entry_lengths(s.skip(1));
        match choice_entry_form(s.skip(1)) {
            Some((_, rest)) => {
                if rest.len() < s.len() {
                    lemma_choice_entries_lengths(rest);
                }
            },
            None => {},
        }
    }
}

/// What follows a field of a struct is no longer than the text that starts with it.
pub proof fn lemma_struct_entry_lengths(s: Seq<u8>)
    ensures
        match struct_entry_form(s) {
            Some((_, rest)) => rest.len() <= s.len(),
            None => true,
        },
{
    lemma_until_lengths(s, lit("',"@));
    match until_past(s, lit("',"@)) {
        Some((_, s1)) => {
            lemma_until_lengths(s1, lit(","@));
            match until_past(s1, lit(","@)) {
                Some((_, s2)) => {
                    lemma_until_lengths(s2, lit(")"@));
                },
                None => {},
            }
        },
        None => {},
    }
}

/// What follows the fields of a struct is no longer than the text that starts with them.
pub proof fn lemma_struct_fields_lengths(s: Seq<u8>)
    ensures
        match struct_fields_form(s) {
            Some((_, rest)) => rest.len() <= s.len(),
            None => true,
        },
    decreases s.len(),
{
    if s.len() >= 4 && (starts_with(s, lit("[[('"@)) || starts_with(s, lit("),('"@))) {
        lemma_struct_entry_lengths(s.skip(4));
        match struct_entry_form(s.skip(4)) {
            Some((_, rest)) => {
                if rest.len() < s.len() {
                    lemma_struct_fields_lengths(rest);
                }
            },
            None => {},
        }
    }
}

/// What follows an event is no longer than the text that starts with it.
pub proof fn lemma_event_type_lengths(s: Seq<u8>)
    ensures
        match event_type_form(s) {
            Some((_, rest)) => rest.len() <= s.len(),
            None => true,
        },
{
    lemma_run_lengths(s, blanks());
    let s0 = run(s, blanks()).1;
    lemma_until_lengths(s0, lit(":"@));
    match until(s0, lit(":"@)) {
        Some((_, s1)) => {
            match after_tag(s1, lit(": ("@)) {
                Some(s2) => {
                    lemma_until_lengths(s2, lit(","@));
                    match until(s2, lit(","@)) {
                        Some((_, s3)) => {
                            match after_tag(s3, lit(", '"@)) {
                                Some(s4) => {
                                    lemma_until_lengths(s4, lit("'"@));
                                },
                                None => {},
                            }
                        },
                        None => {},
                    }
                },
                None => {},
            }
        },
        None => {},
    }
}

} // verus!
