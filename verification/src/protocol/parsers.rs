pub mod line_parsers;

use crate::protocol::error::{
    syntax_error, syntax_error_at, SchemaError, SchemaErrorView, SyntaxReason,
};
use crate::protocol::parsers::line_parsers::{
    choice_fields_form, constant_form, entries_bytes, event_type_form,
    lemma_choice_entries_lengths, lemma_event_type_lengths, lemma_offset_and_length_lengths,
    lemma_skip_line_shrinks, lemma_struct_fields_lengths, lemma_type_index_lengths,
    lemma_type_name_lengths, offset_and_length_form, parse_choice_fields, parse_constant,
    parse_event_type, parse_offset_and_length, parse_struct_fields, parse_type_index,
    parse_type_name, skip_line_form, skip_remaining_of_line, struct_fields_form,
    type_index_form, type_name_form,
};
use crate::protocol::text::{after_tag, ascii_bytes, begins_with, lit, starts_with};
use crate::protocol::types::{
    event_types_view, fields_view, tags_strictly_increasing, tags_unique, type_infos_view,
    EventType, EventTypeView, Field, FieldView, TypeInfo, TypeInfoView,
};
use std::collections::HashMap;
use vstd::prelude::*;
use vstd::seq_lib::*;
use vstd::string::*;
use vstd::utf8::*;

verus! {

/// The found thing, or the error that the text `s` lacks the form `reason`.
pub open spec fn found_or<T>(found: Option<T>, s: Seq<u8>, reason: SyntaxReason) -> Result<
    T,
    SchemaErrorView,
> {
    match found {
        Some(t) => Ok(t),
        None => Err(syntax_error_at(s, reason)),
    }
}

/// The descriptor `info`, complete with the end of its line, and what follows the line.
pub open spec fn line_of(info: TypeInfoView, s: Seq<u8>) -> Result<
    (TypeInfoView, Seq<u8>),
    SchemaErrorView,
> {
    match skip_line_form(s) {
        Some(rest) => Ok((info, rest)),
        None => Err(syntax_error_at(s, SyntaxReason::LineEnd)),
    }
}

/// The fields that a list of entries describes, in the order of the list.
pub open spec fn fields_from(entries: Seq<(Seq<u8>, usize, i64)>) -> Seq<FieldView> {
    Seq::new(
        entries.len(),
        |i: int|
            FieldView {
                name: decode_utf8(entries[i].0),
                type_index: entries[i].1,
                tag: entries[i].2,
            },
    )
}

/// Where a field with the tag `tag` goes into `sorted`: behind the last field whose tag is
/// not above it.
pub open spec fn insert_position(sorted: Seq<FieldView>, tag: i64) -> int
    decreases sorted.len(),
{
    if sorted.len() > 0 && sorted.last().tag > tag {
        insert_position(sorted.drop_last(), tag)
    } else {
        sorted.len() as int
    }
}

/// The fields `fields` in the order of their tags; fields with one tag keep their order.
pub open spec fn sort_by_tag(fields: Seq<FieldView>) -> Seq<FieldView>
    decreases fields.len(),
{
    if fields.len() == 0 {
        Seq::empty()
    } else {
        let sorted = sort_by_tag(fields.drop_last());
        sorted.insert(insert_position(sorted, fields.last().tag), fields.last())
    }
}

/// The tags of `fields` never fall from a field to a later one.
pub open spec fn tags_rise(fields: Seq<FieldView>) -> bool {
    forall|i: int, j: int| 0 <= i < j < fields.len() ==> fields[i].tag <= fields[j].tag
}

/// The place where a field goes into sorted fields keeps them sorted.
pub proof fn lemma_insert_position(sorted: Seq<FieldView>, tag: i64)
    requires
        tags_rise(sorted),
    ensures
        0 <= insert_position(sorted, tag) <= sorted.len(),
        forall|i: int| 0 <= i < insert_position(sorted, tag) ==> sorted[i].tag <= tag,
        forall|i: int| insert_position(sorted, tag) <= i < sorted.len() ==> sorted[i].tag > tag,
    decreases sorted.len(),
{
    let at = insert_position(sorted, tag);
    if sorted.len() > 0 && sorted.last().tag > tag {
        let front = sorted.drop_last();
        assert(tags_rise(front)) by {
            assert forall|i: int, j: int| 0 <= i < j < front.len() implies front[i].tag
                <= front[j].tag by {
                assert(sorted[i].tag <= sorted[j].tag);
            }
        }
        lemma_insert_position(front, tag);
        assert forall|i: int| 0 <= i < at implies sorted[i].tag <= tag by {
            assert(front[i] == sorted[i]);
        }
        assert forall|i: int| at <= i < sorted.len() implies sorted[i].tag > tag by {
            if i < front.len() {
                assert(front[i] == sorted[i]);
            }
        }
    } else {
        assert forall|i: int| 0 <= i < at implies sorted[i].tag <= tag by {
            if i < sorted.len() - 1 {
                assert(sorted[i].tag <= sorted[sorted.len() - 1].tag);
            }
        }
    }
}

/// Sorting by tag gives the same fields, each as often as before, in rising order of
/// their tags.
pub proof fn lemma_sort_by_tag(fields: Seq<FieldView>)
    ensures
        sort_by_tag(fields).len() == fields.len(),
        sort_by_tag(fields).to_multiset() == fields.to_multiset(),
        tags_rise(sort_by_tag(fields)),
    decreases fields.len(),
{
    broadcast use {to_multiset_insert, to_multiset_build};

    if fields.len() == 0 {
        assert(fields =~= Seq::empty());
    } else {
        let front = fields.drop_last();
        let last = fields.last();
        lemma_sort_by_tag(front);
        let sorted = sort_by_tag(front);
        lemma_insert_position(sorted, last.tag);
        let at = insert_position(sorted, last.tag);
        let out = sorted.insert(at, last);
        assert(fields =~= front.push(last));
        assert(out.to_multiset() =~= fields.to_multiset());
        assert forall|i: int, j: int| 0 <= i < j < out.len() implies out[i].tag <= out[j].tag by {
            if i < at && j > at {
                assert(out[i] == sorted[i] && out[j] == sorted[j - 1]);
            } else if i > at {
                assert(out[i] == sorted[i - 1] && out[j] == sorted[j - 1]);
            } else if j < at {
                assert(out[i] == sorted[i] && out[j] == sorted[j]);
            }
        }
    }
}

/// The struct whose fields are `fields`, or the error that two of them share a tag, which
/// carries the first line of the descriptor `s`.
pub open spec fn struct_of(fields: Seq<FieldView>, s: Seq<u8>) -> Result<
    TypeInfoView,
    SchemaErrorView,
> {
    if tags_strictly_increasing(sort_by_tag(fields)) {
        Ok(TypeInfoView::Struct { fields: sort_by_tag(fields) })
    } else {
        Err(syntax_error_at(s, SyntaxReason::DuplicateTag))
    }
}

/// The choice whose branches are `fields`, or the error that two of them share a tag.
pub open spec fn choice_of(
    offset: i64,
    length: usize,
    fields: Seq<FieldView>,
    s: Seq<u8>,
) -> Result<TypeInfoView, SchemaErrorView> {
    if tags_unique(fields) {
        Ok(TypeInfoView::Choice { offset, length, fields })
    } else {
        Err(syntax_error_at(s, SyntaxReason::DuplicateTag))
    }
}

/// What stands behind the name of the kind of a number-like descriptor: its bounds.
pub open spec fn bounds_form(s: Seq<u8>) -> Result<((i64, usize), Seq<u8>), SchemaErrorView> {
    found_or(offset_and_length_form(s), s, SyntaxReason::OffsetAndLength)
}

/// An array descriptor behind the name of its kind.
pub open spec fn array_form(s: Seq<u8>) -> Result<(TypeInfoView, Seq<u8>), SchemaErrorView> {
    match bounds_form(s) {
        Err(e) => Err(e),
        Ok(((offset, length), s1)) => match type_index_form(s1) {
            None => Err(syntax_error_at(s1, SyntaxReason::TypeIndex)),
            Some((type_index, s2)) => line_of(
                TypeInfoView::Array { offset, length, type_index },
                s2,
            ),
        },
    }
}

/// An optional descriptor behind the name of its kind.
pub open spec fn optional_form(s: Seq<u8>) -> Result<(TypeInfoView, Seq<u8>), SchemaErrorView> {
    match type_index_form(s) {
        None => Err(syntax_error_at(s, SyntaxReason::TypeIndex)),
        Some((type_index, s1)) => line_of(TypeInfoView::Optional { type_index }, s1),
    }
}

/// A choice descriptor behind the name of its kind; `line` is the whole descriptor.
pub open spec fn choice_form(s: Seq<u8>, line: Seq<u8>) -> Result<
    (TypeInfoView, Seq<u8>),
    SchemaErrorView,
> {
    match bounds_form(s) {
        Err(e) => Err(e),
        Ok(((offset, length), s1)) => match choice_fields_form(s1) {
            None => Err(syntax_error_at(s1, SyntaxReason::ChoiceFields)),
            Some((entries, s2)) => match skip_line_form(s2) {
                None => Err(syntax_error_at(s2, SyntaxReason::LineEnd)),
                Some(rest) => match choice_of(offset, length, fields_from(entries), line) {
                    Err(e) => Err(e),
                    Ok(info) => Ok((info, rest)),
                },
            },
        },
    }
}

/// A struct descriptor behind the name of its kind; `line` is the whole descriptor.
pub open spec fn struct_form(s: Seq<u8>, line: Seq<u8>) -> Result<
    (TypeInfoView, Seq<u8>),
    SchemaErrorView,
> {
    match struct_fields_form(s) {
        None => Err(syntax_error_at(s, SyntaxReason::StructFields)),
        Some((entries, s1)) => match skip_line_form(s1) {
            None => Err(syntax_error_at(s1, SyntaxReason::LineEnd)),
            Some(rest) => match struct_of(fields_from(entries), line) {
                Err(e) => Err(e),
                Ok(info) => Ok((info, rest)),
            },
        },
    }
}

/// A descriptor of the kind `name` behind that name; `line` is the whole descriptor.
pub open spec fn kind_form(name: Seq<u8>, s: Seq<u8>, line: Seq<u8>) -> Result<
    (TypeInfoView, Seq<u8>),
    SchemaErrorView,
> {
    if name == lit("_bool"@) {
        line_of(TypeInfoView::Bool, s)
    } else if name == lit("_optional"@) {
        optional_form(s)
    } else if name == lit("_int"@) {
        match bounds_form(s) {
            Err(e) => Err(e),
            Ok(((offset, length), s1)) => line_of(TypeInfoView::Int { offset, length }, s1),
        }
    } else if name == lit("_blob"@) {
        match bounds_form(s) {
            Err(e) => Err(e),
            Ok(((offset, length), s1)) => line_of(TypeInfoView::Blob { offset, length }, s1),
        }
    } else if name == lit("_array"@) {
        array_form(s)
    } else if name == lit("_bitarray"@) {
        match bounds_form(s) {
            Err(e) => Err(e),
            Ok(((offset, length), s1)) => line_of(TypeInfoView::BitArray { offset, length }, s1),
        }
    } else if name == lit("_choice"@) {
        choice_form(s, line)
    } else if name == lit("_struct"@) {
        struct_form(s, line)
    } else if name == lit("_fourcc"@) {
        line_of(TypeInfoView::FourCC, s)
    } else if name == lit("_null"@) {
        line_of(TypeInfoView::Null, s)
    } else {
        Err(SchemaErrorView::UnknownTypeKind { name })
    }
}

/// A type descriptor with the rest of its line: the descriptor, and what follows the
/// line.
pub open spec fn type_info_form(s: Seq<u8>) -> Result<(TypeInfoView, Seq<u8>), SchemaErrorView> {
    match type_name_form(s) {
        None => Err(syntax_error_at(s, SyntaxReason::TypeName)),
        Some((name, s1)) => kind_form(name, s1, s),
    }
}

/// The type descriptors up to the line that starts with `]`, behind the descriptors
/// `done`: all of them, and what follows from the `]` on. A descriptor always takes some
/// text (`lemma_type_info_shrinks`), so that the reading goes on behind each of them.
pub open spec fn type_infos_form(s: Seq<u8>, done: Seq<TypeInfoView>) -> Result<
    (Seq<TypeInfoView>, Seq<u8>),
    SchemaErrorView,
>
    decreases s.len(),
{
    if starts_with(s, lit("]"@)) {
        Ok((done, s))
    } else {
        match type_info_form(s) {
            Err(e) => Err(e),
            Ok((info, rest)) => if rest.len() < s.len() {
                type_infos_form(rest, done.push(info))
            } else {
                Err(syntax_error_at(s, SyntaxReason::LineEnd))
            },
        }
    }
}

/// The section of the type descriptors: its first line, the descriptors, the line of the
/// closing `]`.
pub open spec fn type_infos_section(s: Seq<u8>) -> Result<
    (Seq<TypeInfoView>, Seq<u8>),
    SchemaErrorView,
> {
    match skip_line_form(s) {
        None => Err(syntax_error_at(s, SyntaxReason::LineEnd)),
        Some(s1) => match type_infos_form(s1, Seq::empty()) {
            Err(e) => Err(e),
            Ok((infos, s2)) => match skip_line_form(s2) {
                None => Err(syntax_error_at(s2, SyntaxReason::LineEnd)),
                Some(rest) => Ok((infos, rest)),
            },
        },
    }
}

/// An event with the rest of its line: the event, and what follows the line.
pub open spec fn event_line_form(s: Seq<u8>) -> Result<(EventTypeView, Seq<u8>), SchemaErrorView> {
    match event_type_form(s) {
        None => Err(syntax_error_at(s, SyntaxReason::EventType)),
        Some(((event_id, name, type_index), s1)) => match skip_line_form(s1) {
            None => Err(syntax_error_at(s1, SyntaxReason::LineEnd)),
            Some(rest) => Ok(
                (EventTypeView { event_name: decode_utf8(name), event_id, type_index }, rest),
            ),
        },
    }
}

/// The events up to the line that starts with `}`, added to the events `done` under their
/// ids: all of them, and what follows from the `}` on. Of two events with one id the
/// later one stays. An event always takes some text (`lemma_event_line_shrinks`), so that
/// the reading goes on behind each of them.
pub open spec fn event_types_form(s: Seq<u8>, done: Map<u16, EventTypeView>) -> Result<
    (Map<u16, EventTypeView>, Seq<u8>),
    SchemaErrorView,
>
    decreases s.len(),
{
    if starts_with(s, lit("}"@)) {
        Ok((done, s))
    } else {
        match event_line_form(s) {
            Err(e) => Err(e),
            Ok((event, rest)) => if rest.len() < s.len() {
                event_types_form(rest, done.insert(event.event_id, event))
            } else {
                Err(syntax_error_at(s, SyntaxReason::LineEnd))
            },
        }
    }
}

/// The section of the events of one stream: its first line, the events, the line of the
/// closing `}`.
pub open spec fn event_types_section(s: Seq<u8>) -> Result<
    (Map<u16, EventTypeView>, Seq<u8>),
    SchemaErrorView,
> {
    match skip_line_form(s) {
        None => Err(syntax_error_at(s, SyntaxReason::LineEnd)),
        Some(s1) => match event_types_form(s1, Map::empty()) {
            Err(e) => Err(e),
            Ok((events, s2)) => match skip_line_form(s2) {
                None => Err(syntax_error_at(s2, SyntaxReason::LineEnd)),
                Some(rest) => Ok((events, rest)),
            },
        },
    }
}

/// What follows a descriptor behind the name of its kind is shorter than the text that
/// starts behind that name.
pub proof fn lemma_kind_shrinks(name: Seq<u8>, s: Seq<u8>, line: Seq<u8>)
    ensures
        match kind_form(name, s, line) {
            Ok((_, rest)) => rest.len() < s.len(),
            Err(_) => true,
        },
{
    lemma_skip_line_shrinks(s);
    lemma_offset_and_length_lengths(s);
    lemma_type_index_lengths(s);
    lemma_struct_fields_lengths(s);
    match struct_fields_form(s) {
        Some((_, s1)) => {
            lemma_skip_line_shrinks(s1);
        },
        None => {},
    }
    match type_index_form(s) {
        Some((_, s1)) => {
            lemma_skip_line_shrinks(s1);
        },
        None => {},
    }
    match offset_and_length_form(s) {
        Some((_, s1)) => {
            lemma_skip_line_shrinks(s1);
            lemma_type_index_lengths(s1);
            match type_index_form(s1) {
                Some((_, s2)) => {
                    lemma_skip_line_shrinks(s2);
                },
                None => {},
            }
            match after_tag(s1, lit("),"@)) {
                Some(s2) => {
                    lemma_choice_entries_lengths(s2);
                    match crate::protocol::parsers::line_parsers::choice_entries_form(s2) {
                        Some((_, s3)) => {
                            lemma_skip_line_shrinks(s3);
                        },
                        None => {},
                    }
                },
                None => {},
            }
        },
        None => {},
    }
}

/// What follows a descriptor is shorter than the text that starts with it.
pub proof fn lemma_type_info_shrinks(s: Seq<u8>)
    ensures
        match type_info_form(s) {
            Ok((_, rest)) => rest.len() < s.len(),
            Err(_) => true,
        },
{
    lemma_type_name_lengths(s);
    match type_name_form(s) {
        Some((name, s1)) => {
            lemma_kind_shrinks(name, s1, s);
        },
        None => {},
    }
}

/// What follows an event and its line is shorter than the text that starts with it.
pub proof fn lemma_event_line_shrinks(s: Seq<u8>)
    ensures
        match event_line_form(s) {
            Ok((_, rest)) => rest.len() < s.len(),
            Err(_) => true,
        },
{
    lemma_event_type_lengths(s);
    match event_type_form(s) {
        Some((_, s1)) => {
            lemma_skip_line_shrinks(s1);
        },
        None => {},
    }
}

/// What follows the descriptors of a section is no longer than the text that starts with
/// them.
pub proof fn lemma_type_infos_lengths(s: Seq<u8>, done: Seq<TypeInfoView>)
    ensures
        match type_infos_form(s, done) {
            Ok((_, rest)) => rest.len() <= s.len(),
            Err(_) => true,
        },
    decreases s.len(),
{
    match type_info_form(s) {
        Ok((info, rest)) => {
            if rest.len() < s.len() {
                lemma_type_infos_lengths(rest, done.push(info));
            }
        },
        Err(_) => {},
    }
}

/// What follows the events of a section is no longer than the text that starts with them.
pub proof fn lemma_event_types_lengths(s: Seq<u8>, done: Map<u16, EventTypeView>)
    ensures
        match event_types_form(s, done) {
            Ok((_, rest)) => rest.len() <= s.len(),
            Err(_) => true,
        },
    decreases s.len(),
{
    match event_line_form(s) {
        Ok((event, rest)) => {
            if rest.len() < s.len() {
                lemma_event_types_lengths(rest, done.insert(event.event_id, event));
            }
        },
        Err(_) => {},
    }
}

/// What follows a section is shorter than the text that starts with it.
pub proof fn lemma_sections_shrink(s: Seq<u8>)
    ensures
        match type_infos_section(s) {
            Ok((_, rest)) => rest.len() < s.len(),
            Err(_) => true,
        },
        match event_types_section(s) {
            Ok((_, rest)) => rest.len() < s.len(),
            Err(_) => true,
        },
{
    lemma_skip_line_shrinks(s);
    match skip_line_form(s) {
        Some(s1) => {
            lemma_type_infos_lengths(s1, Seq::empty());
            match type_infos_form(s1, Seq::empty()) {
                Ok((_, s2)) => {
                    lemma_skip_line_shrinks(s2);
                },
                Err(_) => {},
            }
            lemma_event_types_lengths(s1, Map::empty());
            match event_types_form(s1, Map::empty()) {
                Ok((_, s2)) => {
                    lemma_skip_line_shrinks(s2);
                },
                Err(_) => {},
            }
        },
        None => {},
    }
}

/// What a read of a descriptor returned, held against what the text holds.
pub open spec fn info_is(
    res: Result<(&str, TypeInfo), SchemaError>,
    expected: Result<(TypeInfoView, Seq<u8>), SchemaErrorView>,
) -> bool {
    match res {
        Ok((rest, info)) => expected == Ok::<(TypeInfoView, Seq<u8>), SchemaErrorView>(
            (info@, rest.spec_bytes()),
        ),
        Err(e) => expected == Err::<(TypeInfoView, Seq<u8>), SchemaErrorView>(e@),
    }
}

/// Passes over the rest of the line.
pub fn skip_current_line<'a>(input: &'a str) -> (res: Result<(&'a str, &'a str), SchemaError>)
    ensures
        match res {
            Ok((rest, nothing)) => skip_line_form(input.spec_bytes()) == Some(rest.spec_bytes())
                && nothing@.len() == 0,
            Err(e) => skip_line_form(input.spec_bytes()) is None && e@ == syntax_error_at(
                input.spec_bytes(),
                SyntaxReason::LineEnd,
            ),
        },
{
    skip_remaining_of_line(input)
}

/// Reads a constant `NAME = K`.
pub fn build_constant<'a>(input: &'a str) -> (res: Result<(&'a str, Option<usize>), SchemaError>)
    ensures
        match res {
            Ok((rest, Some(k))) => constant_form(input.spec_bytes()) == Some(
                (k, rest.spec_bytes()),
            ),
            Ok((_, None)) => false,
            Err(e) => constant_form(input.spec_bytes()) is None && e@ == syntax_error_at(
                input.spec_bytes(),
                SyntaxReason::Constant,
            ),
        },
{
    match parse_constant(input) {
        Ok((rest, constant)) => Ok((rest, Some(constant))),
        Err(e) => Err(e),
    }
}

/// Ends the line of the descriptor `info`.
fn end_line<'a>(info: TypeInfo, input: &'a str) -> (res: Result<(&'a str, TypeInfo), SchemaError>)
    ensures
        info_is(res, line_of(info@, input.spec_bytes())),
{
    match skip_remaining_of_line(input) {
        Ok((rest, _)) => Ok((rest, info)),
        Err(e) => Err(e),
    }
}

/// The fields that `entries` describe, in the order of the list.
fn make_fields(entries: &Vec<(&str, usize, i64)>) -> (fields: Vec<Field>)
    ensures
        fields_view(fields@) == fields_from(entries_bytes(entries@)),
{
    let mut fields: Vec<Field> = Vec::new();
    let mut i: usize = 0;
    while i < entries.len()
        invariant
            i <= entries.len(),
            fields@.len() == i,
            forall|k: int|
                0 <= k < i ==> (#[trigger] fields@[k])@ == fields_from(entries_bytes(entries@))[k],
        decreases entries.len() - i,
    {
        let entry = &entries[i];
        proof {
            encode_utf8_decode_utf8(entry.0@);
        }
        fields.push(Field { name: entry.0.to_owned(), type_index: entry.1, tag: entry.2 });
        i = i + 1;
    }
    proof {
        assert(fields_view(fields@) =~= fields_from(entries_bytes(entries@)));
    }
    fields
}

/// The fields that `entries` describe, in the order of their tags.
fn make_sorted_fields(entries: &Vec<(&str, usize, i64)>) -> (fields: Vec<Field>)
    ensures
        fields_view(fields@) == sort_by_tag(fields_from(entries_bytes(entries@))),
{
    let ghost all = fields_from(entries_bytes(entries@));
    let mut fields: Vec<Field> = Vec::new();
    let mut i: usize = 0;
    proof {
        assert(all.take(0) =~= Seq::empty());
        assert(fields_view(fields@) =~= Seq::empty());
    }
    while i < entries.len()
        invariant
            i <= entries.len(),
            all == fields_from(entries_bytes(entries@)),
            fields_view(fields@) == sort_by_tag(all.take(i as int)),
        decreases entries.len() - i,
    {
        let entry = &entries[i];
        let ghost sorted = fields_view(fields@);
        proof {
            encode_utf8_decode_utf8(entry.0@);
            lemma_sort_by_tag(all.take(i as int));
            assert(all.take(i + 1).drop_last() =~= all.take(i as int));
        }
        let mut at: usize = fields.len();
        proof {
            assert(sorted.take(sorted.len() as int) =~= sorted);
        }
        while at > 0 && fields[at - 1].tag > entry.2
            invariant
                at <= fields.len(),
                sorted == fields_view(fields@),
                insert_position(sorted, entry.2) == insert_position(
                    sorted.take(at as int),
                    entry.2,
                ),
            decreases at,
        {
            proof {
                assert(sorted.take(at as int).drop_last() =~= sorted.take(at - 1));
            }
            at = at - 1;
        }
        let field = Field { name: entry.0.to_owned(), type_index: entry.1, tag: entry.2 };
        fields.insert(at, field);
        i = i + 1;
        proof {
            assert(fields_view(fields@) =~= sorted.insert(at as int, field@));
        }
    }
    proof {
        assert(all.take(i as int) =~= all);
    }
    fields
}

/// Whether the tags of `fields` rise strictly.
fn tags_ascend(fields: &Vec<Field>) -> (res: bool)
    requires
        tags_rise(fields_view(fields@)),
    ensures
        res == tags_strictly_increasing(fields_view(fields@)),
{
    let ghost view = fields_view(fields@);
    let mut i: usize = 1;
    while i < fields.len()
        invariant
            1 <= i,
            view == fields_view(fields@),
            tags_rise(view),
            forall|a: int, b: int| 0 <= a < b < i && b < view.len() ==> view[a].tag < view[b].tag,
        decreases fields.len() - i,
    {
        if fields[i - 1].tag >= fields[i].tag {
            proof {
                assert(view[i - 1].tag >= view[i as int].tag);
            }
            return false;
        }
        proof {
            assert forall|a: int, b: int| 0 <= a < b < i + 1 && b < view.len() implies view[a].tag
                < view[b].tag by {
                if b == i && a < i - 1 {
                    assert(view[a].tag <= view[i - 1].tag);
                }
            }
        }
        i = i + 1;
    }
    true
}

/// Whether no two of `fields` share a tag.
fn tags_differ(fields: &Vec<Field>) -> (res: bool)
    ensures
        res == tags_unique(fields_view(fields@)),
{
    let ghost view = fields_view(fields@);
    let mut j: usize = 0;
    while j < fields.len()
        invariant
            j <= fields.len(),
            view == fields_view(fields@),
            forall|a: int, b: int| 0 <= a < b < j ==> view[a].tag != view[b].tag,
        decreases fields.len() - j,
    {
        let mut i: usize = 0;
        while i < j
            invariant
                i <= j < fields.len(),
                view == fields_view(fields@),
                forall|a: int| 0 <= a < i ==> view[a].tag != view[j as int].tag,
            decreases j - i,
        {
            if fields[i].tag == fields[j].tag {
                proof {
                    assert(view[i as int].tag == view[j as int].tag);
                }
                return false;
            }
            i = i + 1;
        }
        j = j + 1;
    }
    true
}

/// Reads what stands behind the name of the kind of an array.
fn build_array<'a>(input: &'a str) -> (res: Result<(&'a str, TypeInfo), SchemaError>)
    ensures
        info_is(res, array_form(input.spec_bytes())),
{
    let (s1, (offset, length)) = match parse_offset_and_length(input) {
        Ok(found) => found,
        Err(e) => {
            return Err(e);
        },
    };
    let (s2, type_index) = match parse_type_index(s1) {
        Ok(found) => found,
        Err(e) => {
            return Err(e);
        },
    };
    end_line(TypeInfo::Array { offset, length, type_index }, s2)
}

/// Reads what stands behind the name of the kind of an optional.
fn build_optional<'a>(input: &'a str) -> (res: Result<(&'a str, TypeInfo), SchemaError>)
    ensures
        info_is(res, optional_form(input.spec_bytes())),
{
    let (s1, type_index) = match parse_type_index(input) {
        Ok(found) => found,
        Err(e) => {
            return Err(e);
        },
    };
    end_line(TypeInfo::Optional { type_index }, s1)
}

/// Reads what stands behind the name of the kind of a choice; `line` is the whole
/// descriptor.
fn build_choice<'a>(input: &'a str, line: &'a str) -> (res: Result<
    (&'a str, TypeInfo),
    SchemaError,
>)
    ensures
        info_is(res, choice_form(input.spec_bytes(), line.spec_bytes())),
{
    let (s1, (offset, length)) = match parse_offset_and_length(input) {
        Ok(found) => found,
        Err(e) => {
            return Err(e);
        },
    };
    let (s2, entries) = match parse_choice_fields(s1) {
        Ok(found) => found,
        Err(e) => {
            return Err(e);
        },
    };
    let rest = match skip_remaining_of_line(s2) {
        Ok((rest, _)) => rest,
        Err(e) => {
            return Err(e);
        },
    };
    let fields = make_fields(&entries);
    if !tags_differ(&fields) {
        return Err(syntax_error(line, SyntaxReason::DuplicateTag));
    }
    Ok((rest, TypeInfo::Choice { offset, length, fields }))
}

/// Reads what stands behind the name of the kind of a struct; `line` is the whole
/// descriptor.
fn build_struct<'a>(input: &'a str, line: &'a str) -> (res: Result<
    (&'a str, TypeInfo),
    SchemaError,
>)
    ensures
        info_is(res, struct_form(input.spec_bytes(), line.spec_bytes())),
{
    let (s1, entries) = match parse_struct_fields(input) {
        Ok(found) => found,
        Err(e) => {
            return Err(e);
        },
    };
    let rest = match skip_remaining_of_line(s1) {
        Ok((rest, _)) => rest,
        Err(e) => {
            return Err(e);
        },
    };
    let fields = make_sorted_fields(&entries);
    proof {
        lemma_sort_by_tag(fields_from(entries_bytes(entries@)));
    }
    if !tags_ascend(&fields) {
        return Err(syntax_error(line, SyntaxReason::DuplicateTag));
    }
    Ok((rest, TypeInfo::Struct { fields }))
}

/// Whether the text `name` is the word `word`.
fn is_word(name: &str, word: &str) -> (res: bool)
    requires
        is_ascii(word),
    ensures
        res == (name.spec_bytes() == lit(word@)),
{
    let pattern = ascii_bytes(word);
    let same = name.as_bytes().len() == pattern.len() && begins_with(name, pattern);
    proof {
        if name.spec_bytes().len() == pattern@.len() {
            assert(name.spec_bytes().subrange(0, pattern@.len() as int) =~= name.spec_bytes());
        }
    }
    same
}

/// Reads a number-like descriptor of the kind that `make` names.
fn build_bounded<'a>(input: &'a str, kind: u8) -> (res: Result<(&'a str, TypeInfo), SchemaError>)
    requires
        kind < 3,
    ensures
        info_is(
            res,
            match bounds_form(input.spec_bytes()) {
                Err(e) => Err(e),
                Ok(((offset, length), s1)) => line_of(
                    if kind == 0 {
                        TypeInfoView::Int { offset, length }
                    } else if kind == 1 {
                        TypeInfoView::Blob { offset, length }
                    } else {
                        TypeInfoView::BitArray { offset, length }
                    },
                    s1,
                ),
            },
        ),
{
    let (s1, (offset, length)) = match parse_offset_and_length(input) {
        Ok(found) => found,
        Err(e) => {
            return Err(e);
        },
    };
    let info = if kind == 0 {
        TypeInfo::Int { offset, length }
    } else if kind == 1 {
        TypeInfo::Blob { offset, length }
    } else {
        TypeInfo::BitArray { offset, length }
    };
    end_line(info, s1)
}

/// Reads a type descriptor with the rest of its line.
pub fn build_type_info<'a>(input: &'a str) -> (res: Result<(&'a str, TypeInfo), SchemaError>)
    ensures
        info_is(res, type_info_form(input.spec_bytes())),
{
    proof {
        reveal_strlit("_bool");
        reveal_strlit("_optional");
        reveal_strlit("_int");
        reveal_strlit("_blob");
        reveal_strlit("_array");
        reveal_strlit("_bitarray");
        reveal_strlit("_choice");
        reveal_strlit("_struct");
        reveal_strlit("_fourcc");
        reveal_strlit("_null");
    }
    let (rest, name) = match parse_type_name(input) {
        Ok(found) => found,
        Err(e) => {
            return Err(e);
        },
    };
    if is_word(name, "_bool") {
        end_line(TypeInfo::Bool, rest)
    } else if is_word(name, "_optional") {
        build_optional(rest)
    } else if is_word(name, "_int") {
        build_bounded(rest, 0)
    } else if is_word(name, "_blob") {
        build_bounded(rest, 1)
    } else if is_word(name, "_array") {
        build_array(rest)
    } else if is_word(name, "_bitarray") {
        build_bounded(rest, 2)
    } else if is_word(name, "_choice") {
        build_choice(rest, input)
    } else if is_word(name, "_struct") {
        build_struct(rest, input)
    } else if is_word(name, "_fourcc") {
        end_line(TypeInfo::FourCC, rest)
    } else if is_word(name, "_null") {
        end_line(TypeInfo::Null, rest)
    } else {
        Err(SchemaError::UnknownTypeKind { name: name.to_owned() })
    }
}

/// Reads the section of the type descriptors: the descriptors in the order of their
/// lines.
pub fn build_type_infos<'a>(input: &'a str) -> (res: Result<(&'a str, Vec<TypeInfo>), SchemaError>)
    ensures
        match res {
            Ok((rest, infos)) => type_infos_section(input.spec_bytes()) == Ok::<
                (Seq<TypeInfoView>, Seq<u8>),
                SchemaErrorView,
            >((type_infos_view(infos@), rest.spec_bytes())),
            Err(e) => type_infos_section(input.spec_bytes()) == Err::<
                (Seq<TypeInfoView>, Seq<u8>),
                SchemaErrorView,
            >(e@),
        },
{
    let first = match skip_remaining_of_line(input) {
        Ok((first, _)) => first,
        Err(e) => {
            return Err(e);
        },
    };
    let mut infos: Vec<TypeInfo> = Vec::new();
    let mut rest: &'a str = first;
    proof {
        assert(type_infos_view(infos@) =~= Seq::empty());
    }
    loop
        invariant_except_break
            type_infos_form(first.spec_bytes(), Seq::empty()) == type_infos_form(
                rest.spec_bytes(),
                type_infos_view(infos@),
            ),
        invariant
            skip_line_form(input.spec_bytes()) == Some(first.spec_bytes()),
        ensures
            type_infos_form(first.spec_bytes(), Seq::empty()) == Ok::<
                (Seq<TypeInfoView>, Seq<u8>),
                SchemaErrorView,
            >((type_infos_view(infos@), rest.spec_bytes())),
        decreases rest.spec_bytes().len(),
    {
        proof {
            reveal_strlit("]");
        }
        if begins_with(rest, ascii_bytes("]")) {
            break ;
        }
        let ghost done = type_infos_view(infos@);
        match build_type_info(rest) {
            Err(e) => {
                return Err(e);
            },
            Ok((next, info)) => {
                proof {
                    lemma_type_info_shrinks(rest.spec_bytes());
                }
                infos.push(info);
                rest = next;
                proof {
                    assert(type_infos_view(infos@) =~= done.push(info@));
                }
            },
        }
    }
    match skip_remaining_of_line(rest) {
        Ok((rest, _)) => Ok((rest, infos)),
        Err(e) => Err(e),
    }
}

/// Reads an event with the rest of its line.
pub fn build_event_type<'a>(input: &'a str) -> (res: Result<(&'a str, EventType), SchemaError>)
    ensures
        match res {
            Ok((rest, event)) => event_line_form(input.spec_bytes()) == Ok::<
                (EventTypeView, Seq<u8>),
                SchemaErrorView,
            >((event@, rest.spec_bytes())),
            Err(e) => event_line_form(input.spec_bytes()) == Err::<
                (EventTypeView, Seq<u8>),
                SchemaErrorView,
            >(e@),
        },
{
    let (s1, (event_id, event_name, type_index)) = match parse_event_type(input) {
        Ok(found) => found,
        Err(e) => {
            return Err(e);
        },
    };
    let rest = match skip_remaining_of_line(s1) {
        Ok((rest, _)) => rest,
        Err(e) => {
            return Err(e);
        },
    };
    proof {
        encode_utf8_decode_utf8(event_name@);
    }
    Ok((rest, EventType { event_id, type_index, event_name: event_name.to_owned() }))
}

/// Reads the section of the events of one stream: the events under their ids.
pub fn build_event_types<'a>(input: &'a str) -> (res: Result<
    (&'a str, HashMap<u16, EventType>),
    SchemaError,
>)
    ensures
        match res {
            Ok((rest, events)) => event_types_section(input.spec_bytes()) == Ok::<
                (Map<u16, EventTypeView>, Seq<u8>),
                SchemaErrorView,
            >((event_types_view(events@), rest.spec_bytes())),
            Err(e) => event_types_section(input.spec_bytes()) == Err::<
                (Map<u16, EventTypeView>, Seq<u8>),
                SchemaErrorView,
            >(e@),
        },
{
    broadcast use vstd::std_specs::hash::group_hash_axioms;

    let first = match skip_remaining_of_line(input) {
        Ok((first, _)) => first,
        Err(e) => {
            return Err(e);
        },
    };
    let mut events: HashMap<u16, EventType> = HashMap::new();
    let mut rest: &'a str = first;
    proof {
        assert(event_types_view(events@) =~= Map::empty());
    }
    loop
        invariant_except_break
            event_types_form(first.spec_bytes(), Map::empty()) == event_types_form(
                rest.spec_bytes(),
                event_types_view(events@),
            ),
        invariant
            skip_line_form(input.spec_bytes()) == Some(first.spec_bytes()),
        ensures
            event_types_form(first.spec_bytes(), Map::empty()) == Ok::<
                (Map<u16, EventTypeView>, Seq<u8>),
                SchemaErrorView,
            >((event_types_view(events@), rest.spec_bytes())),
        decreases rest.spec_bytes().len(),
    {
        proof {
            reveal_strlit("}");
        }
        if begins_with(rest, ascii_bytes("}")) {
            break ;
        }
        let ghost done = events@;
        match build_event_type(rest) {
            Err(e) => {
                return Err(e);
            },
            Ok((next, event)) => {
                proof {
                    lemma_event_line_shrinks(rest.spec_bytes());
                }
                let ghost view = event@;
                events.insert(event.event_id, event);
                rest = next;
                proof {
                    assert(event_types_view(events@) =~= event_types_view(done).insert(
                        view.event_id,
                        view,
                    ));
                }
            },
        }
    }
    match skip_remaining_of_line(rest) {
        Ok((rest, _)) => Ok((rest, events)),
        Err(e) => Err(e),
    }
}

} // verus!
