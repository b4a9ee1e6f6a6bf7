use crate::protocol::types::{fields_view, Field, Protocol, TypeInfo};
use crate::replay::buffer::{expected_byte, BitPackedBuff};
use crate::replay::cursor::{lemma_bits_value_bound, Cursor};
use crate::replay::error::{DecodeError, LimitKind};
use crate::replay::grammar::{
    all_fields_at, array_at, bit_array_at, bits_at, blob_at, bool_at, branch_for, bytes_at,
    checked_size, choice_at, default_limits, elements_at, field_at, fields_after,
    first_not_below, first_with_tag, flag_at, fourcc_at, int_at, number_at, optional_at,
    struct_at, struct_fields_at, tag_byte, tagged_fields_at, value_at, values_after,
    DecodeLimits, Dialect,
};
use crate::replay::types::{
    lemma_array_view, lemma_choice_view, lemma_field_view, lemma_struct_view, members_view,
    option_view, values_view, ParsedField, ParsedFieldType, ParsedFieldView, ParsedValueView,
};
use vstd::prelude::*;

verus! {

/// The cursor `after` reads the stream of the cursor `before`.
pub open spec fn same_stream(before: Cursor, after: Cursor) -> bool {
    after.data == before.data && after.big_endian == before.big_endian
}

/// A decode that a wrong tag byte stopped has left the cursor `after` on the byte boundary
/// just behind that byte.
pub open spec fn stops_behind_wrong_tag<T>(res: Result<T, DecodeError>, after: Cursor) -> bool {
    match res {
        Err(DecodeError::UnexpectedTag { offset, .. }) => after.byte_index == offset + 1
            && after.bits_in_cache == 0,
        _ => true,
    }
}

/// What a decode of a value returned and where it left the cursor, held against what the
/// stream holds.
pub open spec fn value_is(
    res: Result<Option<ParsedFieldType>, DecodeError>,
    after: Cursor,
    expected: Result<(Option<ParsedValueView>, Cursor), DecodeError>,
) -> bool {
    match res {
        Ok(v) => expected == Ok::<(Option<ParsedValueView>, Cursor), DecodeError>(
            (option_view(v), after),
        ),
        Err(e) => expected == Err::<(Option<ParsedValueView>, Cursor), DecodeError>(e),
    }
}

/// Steps over the tag byte `tag` in the versioned dialect; does nothing in the bit-packed
/// dialect.
pub(crate) fn skip_tag(d: Dialect, buffer: &mut BitPackedBuff, tag: u8) -> (res: Result<
    (),
    DecodeError,
>)
    requires
        old(buffer)@.wf(),
    ensures
        final(buffer)@.wf(),
        same_stream(old(buffer)@, final(buffer)@),
        stops_behind_wrong_tag(res, final(buffer)@),
        d == Dialect::BitPacked ==> res is Ok && final(buffer)@ == old(buffer)@,
        d == Dialect::Versioned ==> res == expected_byte(old(buffer)@, tag),
        d == Dialect::Versioned && res is Ok ==> final(buffer)@ == old(buffer)@.after_bytes(1),
{
    match d {
        Dialect::BitPacked => Ok(()),
        Dialect::Versioned => buffer.expect_and_skip_byte(tag),
    }
}

/// Reads a number: a variable-length integer in the versioned dialect, `length` bits plus
/// `offset` in the bit-packed dialect.
pub(crate) fn read_number(
    d: Dialect,
    buffer: &mut BitPackedBuff,
    offset: i64,
    length: usize,
) -> (res: Result<i64, DecodeError>)
    requires
        old(buffer)@.wf(),
    ensures
        final(buffer)@.wf(),
        same_stream(old(buffer)@, final(buffer)@),
        stops_behind_wrong_tag(res, final(buffer)@),
        match res {
            Ok(v) => number_at(d, old(buffer)@, offset, length) == Ok::<
                (i64, Cursor),
                DecodeError,
            >((v, final(buffer)@)),
            Err(e) => number_at(d, old(buffer)@, offset, length) == Err::<
                (i64, Cursor),
                DecodeError,
            >(e),
        },
{
    match d {
        Dialect::Versioned => buffer.read_var_int(),
        Dialect::BitPacked => {
            if length > 64 {
                return Err(DecodeError::ResourceLimit { kind: LimitKind::BitWidth });
            }
            proof {
                if length <= buffer@.bits_left() {
                    lemma_bits_value_bound(buffer@, length as nat);
                }
            }
            buffer.read_int(length, offset)
        },
    }
}

/// Reads a flag: a byte in the versioned dialect, a bit in the bit-packed dialect.
pub(crate) fn read_flag(d: Dialect, buffer: &mut BitPackedBuff) -> (res: Result<bool, DecodeError>)
    requires
        old(buffer)@.wf(),
    ensures
        final(buffer)@.wf(),
        same_stream(old(buffer)@, final(buffer)@),
        stops_behind_wrong_tag(res, final(buffer)@),
        match res {
            Ok(b) => flag_at(d, old(buffer)@) == Ok::<(bool, Cursor), DecodeError>(
                (b, final(buffer)@),
            ),
            Err(e) => flag_at(d, old(buffer)@) == Err::<(bool, Cursor), DecodeError>(e),
        },
{
    let width: usize = match d {
        Dialect::Versioned => 8,
        Dialect::BitPacked => 1,
    };
    proof {
        if width <= buffer@.bits_left() {
            lemma_bits_value_bound(buffer@, width as nat);
        }
    }
    match buffer.read_bits(width) {
        Ok(bits) => Ok(bits != 0),
        Err(e) => Err(e),
    }
}

/// Holds the size `n` against the limit `max`.
pub(crate) fn check_size(n: i64, max: usize, kind: LimitKind) -> (res: Result<usize, DecodeError>)
    ensures
        res == checked_size(n, max, kind),
{
    if n < 0 || n as u64 > max as u64 {
        Err(DecodeError::ResourceLimit { kind })
    } else {
        Ok(n as usize)
    }
}

/// Reads `n` bytes, aligned or as reads of eight bits.
fn read_bytes(buffer: &mut BitPackedBuff, n: usize, aligned: bool) -> (res: Result<
    Vec<u8>,
    DecodeError,
>)
    requires
        old(buffer)@.wf(),
    ensures
        final(buffer)@.wf(),
        same_stream(old(buffer)@, final(buffer)@),
        stops_behind_wrong_tag(res, final(buffer)@),
        match res {
            Ok(bytes) => bytes_at(old(buffer)@, n as nat, aligned) == Ok::<
                (Seq<u8>, Cursor),
                DecodeError,
            >((bytes@, final(buffer)@)),
            Err(e) => bytes_at(old(buffer)@, n as nat, aligned) == Err::<
                (Seq<u8>, Cursor),
                DecodeError,
            >(e),
        },
{
    proof {
        if 8 * n <= buffer@.bits_left() {
            lemma_bits_value_bound(buffer@, 8 * (n as nat));
        }
    }
    if aligned {
        buffer.read_aligned_bytes(n)
    } else {
        buffer.read_unaligned_bytes(n)
    }
}

/// Reads a bit array of `bits` bits.
fn read_bit_array_value(d: Dialect, buffer: &mut BitPackedBuff, bits: i64, max: usize) -> (res:
    Result<ParsedFieldType, DecodeError>)
    requires
        old(buffer)@.wf(),
    ensures
        final(buffer)@.wf(),
        same_stream(old(buffer)@, final(buffer)@),
        stops_behind_wrong_tag(res, final(buffer)@),
        match res {
            Ok(v) => bit_array_at(d, old(buffer)@, bits, max) == Ok::<
                (ParsedValueView, Cursor),
                DecodeError,
            >((v@, final(buffer)@)),
            Err(e) => bit_array_at(d, old(buffer)@, bits, max) == Err::<
                (ParsedValueView, Cursor),
                DecodeError,
            >(e),
        },
{
    if bits < 0 || bits as u64 > usize::MAX as u64 {
        return Err(DecodeError::ResourceLimit { kind: LimitKind::ByteLength });
    }
    let count: usize = bits as usize;
    let bytes: usize = count / 8 + if count % 8 != 0 {
        1
    } else {
        0
    };
    if bytes > max {
        return Err(DecodeError::ResourceLimit { kind: LimitKind::ByteLength });
    }
    match d {
        Dialect::Versioned => match read_bytes(buffer, bytes, true) {
            Ok(data) => Ok(ParsedFieldType::BitArray { bits: count, data }),
            Err(e) => Err(e),
        },
        Dialect::BitPacked => {
            proof {
                if count <= buffer@.bits_left() {
                    lemma_bits_value_bound(buffer@, count as nat);
                }
            }
            match buffer.read_bit_array(count) {
                Ok(data) => Ok(ParsedFieldType::BitArray { bits: count, data }),
                Err(e) => Err(e),
            }
        },
    }
}

/// The position of the first field from `from` on whose tag is not below `tag`.
pub(crate) fn walk_to_tag(fields: &Vec<Field>, tag: i64, from: usize) -> (j: usize)
    requires
        from <= fields.len(),
    ensures
        j == first_not_below(fields_view(fields@), tag, from as nat),
        from <= j <= fields.len(),
{
    let mut j: usize = from;
    while j < fields.len() && tag > fields[j].tag
        invariant
            from <= j <= fields.len(),
            first_not_below(fields_view(fields@), tag, from as nat) == first_not_below(
                fields_view(fields@),
                tag,
                j as nat,
            ),
        decreases fields.len() - j,
    {
        j = j + 1;
    }
    j
}

/// The branch of a choice that `tag` selects.
pub(crate) fn find_branch(d: Dialect, fields: &Vec<Field>, tag: i64) -> (res: Option<usize>)
    ensures
        match res {
            Some(j) => branch_for(d, fields_view(fields@), tag) == Some(j as nat) && j
                < fields.len(),
            None => branch_for(d, fields_view(fields@), tag) is None,
        },
{
    match d {
        Dialect::Versioned => {
            let mut j: usize = 0;
            while j < fields.len() && fields[j].tag != tag
                invariant
                    j <= fields.len(),
                    first_with_tag(fields_view(fields@), tag, 0) == first_with_tag(
                        fields_view(fields@),
                        tag,
                        j as nat,
                    ),
                decreases fields.len() - j,
            {
                j = j + 1;
            }
            if j < fields.len() {
                Some(j)
            } else {
                None
            }
        },
        Dialect::BitPacked => {
            if tag < 0 || tag as u64 >= fields.len() as u64 {
                return None;
            }
            let j: usize = tag as usize;
            if fields[j].tag == tag {
                Some(j)
            } else {
                None
            }
        },
    }
}

/// The tag byte of the kind of `info`.
pub(crate) fn tag_of(info: &TypeInfo) -> (tag: u8)
    ensures
        tag == tag_byte(info@),
{
    match info {
        TypeInfo::Array { .. } => 0x00,
        TypeInfo::BitArray { .. } => 0x01,
        TypeInfo::Blob { .. } => 0x02,
        TypeInfo::Choice { .. } => 0x03,
        TypeInfo::Optional { .. } => 0x04,
        TypeInfo::Struct { .. } => 0x05,
        TypeInfo::Bool => 0x06,
        TypeInfo::FourCC => 0x07,
        TypeInfo::Int { .. } => 0x09,
        TypeInfo::Null => 0x00,
    }
}

/// Decodes an integer.
fn decode_int(d: Dialect, buffer: &mut BitPackedBuff, offset: i64, length: usize) -> (res: Result<
    Option<ParsedFieldType>,
    DecodeError,
>)
    requires
        old(buffer)@.wf(),
    ensures
        final(buffer)@.wf(),
        same_stream(old(buffer)@, final(buffer)@),
        stops_behind_wrong_tag(res, final(buffer)@),
        value_is(res, final(buffer)@, int_at(d, old(buffer)@, offset, length)),
{
    match read_number(d, buffer, offset, length) {
        Ok(v) => Ok(Some(ParsedFieldType::Int(v))),
        Err(e) => Err(e),
    }
}

/// Decodes a boolean.
fn decode_bool(d: Dialect, buffer: &mut BitPackedBuff) -> (res: Result<
    Option<ParsedFieldType>,
    DecodeError,
>)
    requires
        old(buffer)@.wf(),
    ensures
        final(buffer)@.wf(),
        same_stream(old(buffer)@, final(buffer)@),
        stops_behind_wrong_tag(res, final(buffer)@),
        value_is(res, final(buffer)@, bool_at(d, old(buffer)@)),
{
    match read_flag(d, buffer) {
        Ok(b) => Ok(Some(ParsedFieldType::Bool(b))),
        Err(e) => Err(e),
    }
}

/// Decodes a four-character code.
fn decode_fourcc(d: Dialect, buffer: &mut BitPackedBuff) -> (res: Result<
    Option<ParsedFieldType>,
    DecodeError,
>)
    requires
        old(buffer)@.wf(),
    ensures
        final(buffer)@.wf(),
        same_stream(old(buffer)@, final(buffer)@),
        stops_behind_wrong_tag(res, final(buffer)@),
        value_is(res, final(buffer)@, fourcc_at(d, old(buffer)@)),
{
    let aligned = match d {
        Dialect::Versioned => true,
        Dialect::BitPacked => false,
    };
    match read_bytes(buffer, 4, aligned) {
        Ok(bytes) => {
            let code: [u8; 4] = [bytes[0], bytes[1], bytes[2], bytes[3]];
            proof {
                assert(code@ =~= bytes@);
            }
            Ok(Some(ParsedFieldType::FourCC(code)))
        },
        Err(e) => Err(e),
    }
}

/// Decodes a blob.
fn decode_blob(
    d: Dialect,
    buffer: &mut BitPackedBuff,
    offset: i64,
    length: usize,
    max: usize,
) -> (res: Result<Option<ParsedFieldType>, DecodeError>)
    requires
        old(buffer)@.wf(),
    ensures
        final(buffer)@.wf(),
        same_stream(old(buffer)@, final(buffer)@),
        stops_behind_wrong_tag(res, final(buffer)@),
        value_is(res, final(buffer)@, blob_at(d, old(buffer)@, offset, length, max)),
{
    let n = match read_number(d, buffer, offset, length) {
        Ok(n) => n,
        Err(e) => {
            return Err(e);
        },
    };
    let len = match check_size(n, max, LimitKind::ByteLength) {
        Ok(len) => len,
        Err(e) => {
            return Err(e);
        },
    };
    match read_bytes(buffer, len, true) {
        Ok(bytes) => Ok(Some(ParsedFieldType::Blob(bytes))),
        Err(e) => Err(e),
    }
}

/// Decodes a bit array.
fn decode_bits(
    d: Dialect,
    buffer: &mut BitPackedBuff,
    offset: i64,
    length: usize,
    max: usize,
) -> (res: Result<Option<ParsedFieldType>, DecodeError>)
    requires
        old(buffer)@.wf(),
    ensures
        final(buffer)@.wf(),
        same_stream(old(buffer)@, final(buffer)@),
        stops_behind_wrong_tag(res, final(buffer)@),
        value_is(res, final(buffer)@, bits_at(d, old(buffer)@, offset, length, max)),
{
    let bits = match read_number(d, buffer, offset, length) {
        Ok(bits) => bits,
        Err(e) => {
            return Err(e);
        },
    };
    match read_bit_array_value(d, buffer, bits, max) {
        Ok(v) => Ok(Some(v)),
        Err(e) => Err(e),
    }
}

/// Decodes the value of the type at `type_index` that stands at the cursor. `fuel` is how
/// many levels the value may nest below itself.
pub fn decode_value(
    d: Dialect,
    type_index: usize,
    protocol: &Protocol,
    limits: &DecodeLimits,
    buffer: &mut BitPackedBuff,
    fuel: usize,
) -> (res: Result<Option<ParsedFieldType>, DecodeError>)
    requires
        old(buffer)@.wf(),
    ensures
        final(buffer)@.wf(),
        same_stream(old(buffer)@, final(buffer)@),
        stops_behind_wrong_tag(res, final(buffer)@),
        value_is(
            res,
            final(buffer)@,
            value_at(d, protocol@.type_infos, *limits, type_index, old(buffer)@, fuel as nat),
        ),
    decreases fuel, 3nat, 0nat,
{
    let info = match protocol.type_info(type_index) {
        Some(info) => info,
        None => {
            return Err(DecodeError::InvalidIndex { type_index });
        },
    };
    if let TypeInfo::Null = info {
        return Ok(Some(ParsedFieldType::Null));
    }
    match skip_tag(d, buffer, tag_of(info)) {
        Err(e) => {
            return Err(e);
        },
        Ok(_) => {},
    }
    let max = limits.max_element_count;
    match info {
        TypeInfo::Null => Ok(Some(ParsedFieldType::Null)),
        TypeInfo::Int { offset, length } => decode_int(d, buffer, *offset, *length),
        TypeInfo::Bool => decode_bool(d, buffer),
        TypeInfo::FourCC => decode_fourcc(d, buffer),
        TypeInfo::Blob { offset, length } => decode_blob(d, buffer, *offset, *length, max),
        TypeInfo::BitArray { offset, length } => decode_bits(d, buffer, *offset, *length, max),
        TypeInfo::Array { offset, length, type_index: element } => decode_array(
            d,
            *offset,
            *length,
            *element,
            protocol,
            limits,
            buffer,
            fuel,
        ),
        TypeInfo::Optional { type_index: inner } => decode_optional(
            d,
            *inner,
            protocol,
            limits,
            buffer,
            fuel,
        ),
        TypeInfo::Struct { fields } => decode_struct(
            d,
            type_index,
            fields,
            protocol,
            limits,
            buffer,
            fuel,
        ),
        TypeInfo::Choice { offset, length, fields } => decode_choice(
            d,
            type_index,
            *offset,
            *length,
            fields,
            protocol,
            limits,
            buffer,
            fuel,
        ),
    }
}

/// Decodes an array whose elements have the type at index `element`.
fn decode_array(
    d: Dialect,
    offset: i64,
    length: usize,
    element: usize,
    protocol: &Protocol,
    limits: &DecodeLimits,
    buffer: &mut BitPackedBuff,
    fuel: usize,
) -> (res: Result<Option<ParsedFieldType>, DecodeError>)
    requires
        old(buffer)@.wf(),
    ensures
        final(buffer)@.wf(),
        same_stream(old(buffer)@, final(buffer)@),
        stops_behind_wrong_tag(res, final(buffer)@),
        value_is(
            res,
            final(buffer)@,
            array_at(
                d,
                protocol@.type_infos,
                *limits,
                offset,
                length,
                element,
                old(buffer)@,
                fuel as nat,
            ),
        ),
    decreases fuel, 1nat, 0nat,
{
    let n = match read_number(d, buffer, offset, length) {
        Ok(n) => n,
        Err(e) => {
            return Err(e);
        },
    };
    let count = match check_size(n, limits.max_element_count, LimitKind::ElementCount) {
        Ok(count) => count,
        Err(e) => {
            return Err(e);
        },
    };
    match decode_elements(d, element, protocol, limits, buffer, fuel, count) {
        Ok(items) => {
            proof {
                lemma_array_view(items);
            }
            Ok(Some(ParsedFieldType::Array(items)))
        },
        Err(e) => Err(e),
    }
}

/// Decodes an optional whose value has the type at index `inner`.
fn decode_optional(
    d: Dialect,
    inner: usize,
    protocol: &Protocol,
    limits: &DecodeLimits,
    buffer: &mut BitPackedBuff,
    fuel: usize,
) -> (res: Result<Option<ParsedFieldType>, DecodeError>)
    requires
        old(buffer)@.wf(),
    ensures
        final(buffer)@.wf(),
        same_stream(old(buffer)@, final(buffer)@),
        stops_behind_wrong_tag(res, final(buffer)@),
        value_is(
            res,
            final(buffer)@,
            optional_at(d, protocol@.type_infos, *limits, inner, old(buffer)@, fuel as nat),
        ),
    decreases fuel, 1nat, 0nat,
{
    let present = match read_flag(d, buffer) {
        Ok(present) => present,
        Err(e) => {
            return Err(e);
        },
    };
    if !present {
        Ok(None)
    } else if fuel == 0 {
        Err(DecodeError::DepthLimit)
    } else {
        decode_value(d, inner, protocol, limits, buffer, fuel - 1)
    }
}

/// Decodes the struct of the type at `type_index`, whose fields are `fields`.
fn decode_struct(
    d: Dialect,
    type_index: usize,
    fields: &Vec<Field>,
    protocol: &Protocol,
    limits: &DecodeLimits,
    buffer: &mut BitPackedBuff,
    fuel: usize,
) -> (res: Result<Option<ParsedFieldType>, DecodeError>)
    requires
        old(buffer)@.wf(),
    ensures
        final(buffer)@.wf(),
        same_stream(old(buffer)@, final(buffer)@),
        stops_behind_wrong_tag(res, final(buffer)@),
        value_is(
            res,
            final(buffer)@,
            struct_at(
                d,
                protocol@.type_infos,
                *limits,
                type_index,
                fields_view(fields@),
                old(buffer)@,
                fuel as nat,
            ),
        ),
    decreases fuel, 1nat, 0nat,
{
    match decode_struct_fields(d, type_index, fields, protocol, limits, buffer, fuel) {
        Ok(members) => {
            proof {
                lemma_struct_view(members);
            }
            Ok(Some(ParsedFieldType::Struct(members)))
        },
        Err(e) => Err(e),
    }
}

/// Decodes the choice of the type at `type_index`, whose branches are `fields`.
fn decode_choice(
    d: Dialect,
    type_index: usize,
    offset: i64,
    length: usize,
    fields: &Vec<Field>,
    protocol: &Protocol,
    limits: &DecodeLimits,
    buffer: &mut BitPackedBuff,
    fuel: usize,
) -> (res: Result<Option<ParsedFieldType>, DecodeError>)
    requires
        old(buffer)@.wf(),
    ensures
        final(buffer)@.wf(),
        same_stream(old(buffer)@, final(buffer)@),
        stops_behind_wrong_tag(res, final(buffer)@),
        value_is(
            res,
            final(buffer)@,
            choice_at(
                d,
                protocol@.type_infos,
                *limits,
                type_index,
                offset,
                length,
                fields_view(fields@),
                old(buffer)@,
                fuel as nat,
            ),
        ),
    decreases fuel, 1nat, 0nat,
{
    let tag = match read_number(d, buffer, offset, length) {
        Ok(tag) => tag,
        Err(e) => {
            return Err(e);
        },
    };
    let j = match find_branch(d, fields, tag) {
        Some(j) => j,
        None => {
            return Err(DecodeError::UnknownChoiceTag { tag, type_index });
        },
    };
    if fuel == 0 {
        return Err(DecodeError::DepthLimit);
    }
    match decode_value(d, fields[j].type_index, protocol, limits, buffer, fuel - 1) {
        Ok(value) => {
            let field = Box::new(ParsedField { name: fields[j].name.clone(), value });
            proof {
                lemma_field_view(*field);
                lemma_choice_view(tag, field);
            }
            Ok(Some(ParsedFieldType::Choice { tag, field }))
        },
        Err(e) => Err(e),
    }
}

/// Decodes `count` values of the type at `type_index`, one after the other.
fn decode_elements(
    d: Dialect,
    type_index: usize,
    protocol: &Protocol,
    limits: &DecodeLimits,
    buffer: &mut BitPackedBuff,
    fuel: usize,
    count: usize,
) -> (res: Result<Vec<ParsedFieldType>, DecodeError>)
    requires
        old(buffer)@.wf(),
    ensures
        final(buffer)@.wf(),
        same_stream(old(buffer)@, final(buffer)@),
        stops_behind_wrong_tag(res, final(buffer)@),
        match res {
            Ok(items) => elements_at(
                d,
                protocol@.type_infos,
                *limits,
                type_index,
                old(buffer)@,
                fuel as nat,
                count as nat,
            ) == Ok::<(Seq<ParsedValueView>, Cursor), DecodeError>(
                (values_view(items@), final(buffer)@),
            ),
            Err(e) => elements_at(
                d,
                protocol@.type_infos,
                *limits,
                type_index,
                old(buffer)@,
                fuel as nat,
                count as nat,
            ) == Err::<(Seq<ParsedValueView>, Cursor), DecodeError>(e),
        },
    decreases fuel, 0nat, count,
{
    let ghost start = buffer@;
    let ghost table = protocol@.type_infos;
    let mut items: Vec<ParsedFieldType> = Vec::new();
    let mut i: usize = 0;
    proof {
        assert(values_view(items@) + Seq::empty() =~= Seq::empty());
        assert(values_view(items@) =~= Seq::empty());
    }
    while i < count
        invariant
            start == old(buffer)@,
            table == protocol@.type_infos,
            buffer@.wf(),
            same_stream(start, buffer@),
            i <= count,
            elements_at(d, table, *limits, type_index, start, fuel as nat, count as nat)
                == values_after(
                values_view(items@),
                elements_at(
                    d,
                    table,
                    *limits,
                    type_index,
                    buffer@,
                    fuel as nat,
                    (count - i) as nat,
                ),
            ),
        decreases count - i,
    {
        if fuel == 0 {
            return Err(DecodeError::DepthLimit);
        }
        let ghost before = buffer@;
        let ghost done = values_view(items@);
        match decode_value(d, type_index, protocol, limits, buffer, fuel - 1) {
            Err(e) => {
                return Err(e);
            },
            Ok(None) => {
                return Err(DecodeError::AbsentElement { type_index });
            },
            Ok(Some(v)) => {
                items.push(v);
                i = i + 1;
                proof {
                    assert(values_view(items@) =~= done + seq![v@]);
                    let rest = elements_at(
                        d,
                        table,
                        *limits,
                        type_index,
                        buffer@,
                        fuel as nat,
                        (count - i) as nat,
                    );
                    if let Ok((values, end)) = rest {
                        assert(done + (seq![v@] + values) =~= (done + seq![v@]) + values);
                    }
                }
            },
        }
    }
    proof {
        assert(values_view(items@) + Seq::empty() =~= values_view(items@));
    }
    Ok(items)
}

/// Decodes the members of the struct at `type_index`, whose fields are `fields`.
fn decode_struct_fields(
    d: Dialect,
    type_index: usize,
    fields: &Vec<Field>,
    protocol: &Protocol,
    limits: &DecodeLimits,
    buffer: &mut BitPackedBuff,
    fuel: usize,
) -> (res: Result<Vec<ParsedField>, DecodeError>)
    requires
        old(buffer)@.wf(),
    ensures
        final(buffer)@.wf(),
        same_stream(old(buffer)@, final(buffer)@),
        stops_behind_wrong_tag(res, final(buffer)@),
        match res {
            Ok(members) => struct_fields_at(
                d,
                protocol@.type_infos,
                *limits,
                type_index,
                fields_view(fields@),
                old(buffer)@,
                fuel as nat,
            ) == Ok::<(Seq<ParsedFieldView>, Cursor), DecodeError>(
                (members_view(members@), final(buffer)@),
            ),
            Err(e) => struct_fields_at(
                d,
                protocol@.type_infos,
                *limits,
                type_index,
                fields_view(fields@),
                old(buffer)@,
                fuel as nat,
            ) == Err::<(Seq<ParsedFieldView>, Cursor), DecodeError>(e),
        },
    decreases fuel, 0nat, limits.max_element_count + fields.len() + 1,
{
    let ghost start = buffer@;
    let ghost table = protocol@.type_infos;
    let ghost schema = fields_view(fields@);
    let mut members: Vec<ParsedField> = Vec::new();
    proof {
        assert(members_view(members@) =~= Seq::empty());
    }
    match d {
        Dialect::Versioned => {
            let n = match read_number(d, buffer, 0, 0) {
                Ok(n) => n,
                Err(e) => {
                    return Err(e);
                },
            };
            let count = match check_size(n, limits.max_element_count, LimitKind::FieldCount) {
                Ok(count) => count,
                Err(e) => {
                    return Err(e);
                },
            };
            let ghost first = buffer@;
            let mut i: usize = 0;
            let mut from: usize = 0;
            while i < count
                invariant
                    table == protocol@.type_infos,
                    schema == fields_view(fields@),
                    start == old(buffer)@,
                    buffer@.wf(),
                    same_stream(start, buffer@),
                    i <= count,
                    from <= fields.len(),
                    struct_fields_at(d, table, *limits, type_index, schema, start, fuel as nat)
                        == tagged_fields_at(
                        table,
                        *limits,
                        type_index,
                        schema,
                        first,
                        fuel as nat,
                        count as nat,
                        0,
                    ),
                    tagged_fields_at(
                        table,
                        *limits,
                        type_index,
                        schema,
                        first,
                        fuel as nat,
                        count as nat,
                        0,
                    ) == fields_after(
                        members_view(members@),
                        tagged_fields_at(
                            table,
                            *limits,
                            type_index,
                            schema,
                            buffer@,
                            fuel as nat,
                            (count - i) as nat,
                            from as nat,
                        ),
                    ),
                decreases count - i,
            {
                let ghost done = members_view(members@);
                let tag = match read_number(Dialect::Versioned, buffer, 0, 0) {
                    Ok(tag) => tag,
                    Err(e) => {
                        return Err(e);
                    },
                };
                let j = walk_to_tag(fields, tag, from);
                if j >= fields.len() {
                    return Err(DecodeError::UnknownFieldTag { tag, type_index });
                }
                if fuel == 0 {
                    return Err(DecodeError::DepthLimit);
                }
                match decode_value(
                    Dialect::Versioned,
                    fields[j].type_index,
                    protocol,
                    limits,
                    buffer,
                    fuel - 1,
                ) {
                    Err(e) => {
                        return Err(e);
                    },
                    Ok(value) => {
                        let member = ParsedField { name: fields[j].name.clone(), value };
                        members.push(member);
                        i = i + 1;
                        from = j + 1;
                        proof {
                            assert(members_view(members@) =~= done + seq![member@]);
                            let rest = tagged_fields_at(
                                table,
                                *limits,
                                type_index,
                                schema,
                                buffer@,
                                fuel as nat,
                                (count - i) as nat,
                                from as nat,
                            );
                            if let Ok((more, end)) = rest {
                                assert(done + (seq![member@] + more) =~= (done + seq![member@])
                                    + more);
                            }
                        }
                    },
                }
            }
            proof {
                assert(members_view(members@) + Seq::empty() =~= members_view(members@));
            }
            Ok(members)
        },
        Dialect::BitPacked => {
            let mut from: usize = 0;
            while from < fields.len()
                invariant
                    table == protocol@.type_infos,
                    schema == fields_view(fields@),
                    start == old(buffer)@,
                    d == Dialect::BitPacked,
                    buffer@.wf(),
                    same_stream(start, buffer@),
                    from <= fields.len(),
                    struct_fields_at(d, table, *limits, type_index, schema, start, fuel as nat)
                        == fields_after(
                        members_view(members@),
                        all_fields_at(table, *limits, schema, buffer@, fuel as nat, from as nat),
                    ),
                decreases fields.len() - from,
            {
                let ghost done = members_view(members@);
                if fuel == 0 {
                    return Err(DecodeError::DepthLimit);
                }
                match decode_value(
                    Dialect::BitPacked,
                    fields[from].type_index,
                    protocol,
                    limits,
                    buffer,
                    fuel - 1,
                ) {
                    Err(e) => {
                        return Err(e);
                    },
                    Ok(value) => {
                        let member = ParsedField { name: fields[from].name.clone(), value };
                        members.push(member);
                        from = from + 1;
                        proof {
                            assert(members_view(members@) =~= done + seq![member@]);
                            let rest = all_fields_at(
                                table,
                                *limits,
                                schema,
                                buffer@,
                                fuel as nat,
                                from as nat,
                            );
                            if let Ok((more, end)) = rest {
                                assert(done + (seq![member@] + more) =~= (done + seq![member@])
                                    + more);
                            }
                        }
                    },
                }
            }
            proof {
                assert(members_view(members@) + Seq::empty() =~= members_view(members@));
            }
            Ok(members)
        },
    }
}

/// Decodes the field named `name` whose value has the type at `type_index`, in the
/// dialect `d` and within `limits`.
pub fn decode_field(
    d: Dialect,
    name: &str,
    type_index: usize,
    protocol: &Protocol,
    limits: &DecodeLimits,
    buffer: &mut BitPackedBuff,
) -> (res: Result<ParsedField, DecodeError>)
    requires
        old(buffer)@.wf(),
    ensures
        final(buffer)@.wf(),
        same_stream(old(buffer)@, final(buffer)@),
        stops_behind_wrong_tag(res, final(buffer)@),
        match res {
            Ok(field) => field_at(d, protocol@.type_infos, *limits, name@, type_index, old(buffer)@)
                == Ok::<(ParsedFieldView, Cursor), DecodeError>((field@, final(buffer)@)),
            Err(e) => field_at(d, protocol@.type_infos, *limits, name@, type_index, old(buffer)@)
                == Err::<(ParsedFieldView, Cursor), DecodeError>(e),
        },
{
    match decode_value(d, type_index, protocol, limits, buffer, limits.max_depth) {
        Ok(value) => {
            let field = ParsedField { name: name.to_owned(), value };
            proof {
                lemma_field_view(field);
            }
            Ok(field)
        },
        Err(e) => Err(e),
    }
}

/// Decodes a field in the versioned dialect, within the default limits.
pub fn versioned_decode(
    name: &str,
    type_index: usize,
    protocol: &Protocol,
    buffer: &mut BitPackedBuff,
) -> (res: Result<ParsedField, DecodeError>)
    requires
        old(buffer)@.wf(),
    ensures
        final(buffer)@.wf(),
        same_stream(old(buffer)@, final(buffer)@),
        stops_behind_wrong_tag(res, final(buffer)@),
        match res {
            Ok(field) => field_at(
                Dialect::Versioned,
                protocol@.type_infos,
                default_limits(),
                name@,
                type_index,
                old(buffer)@,
            ) == Ok::<(ParsedFieldView, Cursor), DecodeError>((field@, final(buffer)@)),
            Err(e) => field_at(
                Dialect::Versioned,
                protocol@.type_infos,
                default_limits(),
                name@,
                type_index,
                old(buffer)@,
            ) == Err::<(ParsedFieldView, Cursor), DecodeError>(e),
        },
{
    let limits = DecodeLimits::default();
    decode_field(Dialect::Versioned, name, type_index, protocol, &limits, buffer)
}

/// Decodes a field in the bit-packed dialect, within the default limits.
pub fn raw_decode(
    name: &str,
    type_index: usize,
    protocol: &Protocol,
    buffer: &mut BitPackedBuff,
) -> (res: Result<ParsedField, DecodeError>)
    requires
        old(buffer)@.wf(),
    ensures
        final(buffer)@.wf(),
        same_stream(old(buffer)@, final(buffer)@),
        stops_behind_wrong_tag(res, final(buffer)@),
        match res {
            Ok(field) => field_at(
                Dialect::BitPacked,
                protocol@.type_infos,
                default_limits(),
                name@,
                type_index,
                old(buffer)@,
            ) == Ok::<(ParsedFieldView, Cursor), DecodeError>((field@, final(buffer)@)),
            Err(e) => field_at(
                Dialect::BitPacked,
                protocol@.type_infos,
                default_limits(),
                name@,
                type_index,
                old(buffer)@,
            ) == Err::<(ParsedFieldView, Cursor), DecodeError>(e),
        },
{
    let limits = DecodeLimits::default();
    decode_field(Dialect::BitPacked, name, type_index, protocol, &limits, buffer)
}

} // verus!
