use crate::protocol::types::{FieldView, TypeInfoView};
use crate::replay::buffer::{expected_byte, int_in_range};
use crate::replay::cursor::Cursor;
use crate::replay::error::{DecodeError, LimitKind};
use crate::replay::types::{ParsedFieldView, ParsedValueView};
use vstd::prelude::*;

verus! {

/// The two wire encodings that share one type table.
#[derive(Debug, Clone, Copy, PartialEq, Eq)]
pub enum Dialect {
    /// Self-describing: a tag byte stands in front of every value.
    Versioned,
    /// Driven by the schema alone: no tag bytes.
    BitPacked,
}

/// Bounds that keep a decode within the resources of its caller.
#[derive(Debug, Clone, Copy, PartialEq, Eq)]
pub struct DecodeLimits {
    /// Most elements of one array, bytes of one blob or bit array, entries of one versioned
    /// struct. The events of a stream are not counted against it.
    pub max_element_count: usize,
    /// Deepest nesting of a value inside the value that a decode starts with.
    pub max_depth: usize,
}

/// The limits of a decode that names none: two to the twentieth elements, 128 levels.
pub open spec fn default_limits() -> DecodeLimits {
    DecodeLimits { max_element_count: 0x10_0000, max_depth: 128 }
}

impl Default for DecodeLimits {
    fn default() -> (limits: Self)
        ensures
            limits == default_limits(),
    {
        DecodeLimits { max_element_count: 0x10_0000, max_depth: 128 }
    }
}

/// The tag byte that stands in front of a versioned value of this kind. `Null` has none.
pub open spec fn tag_byte(info: TypeInfoView) -> u8 {
    match info {
        TypeInfoView::Array { .. } => 0x00,
        TypeInfoView::BitArray { .. } => 0x01,
        TypeInfoView::Blob { .. } => 0x02,
        TypeInfoView::Choice { .. } => 0x03,
        TypeInfoView::Optional { .. } => 0x04,
        TypeInfoView::Struct { .. } => 0x05,
        TypeInfoView::Bool => 0x06,
        TypeInfoView::FourCC => 0x07,
        TypeInfoView::Int { .. } => 0x09,
        TypeInfoView::Null => 0x00,
    }
}

/// The cursor behind what stands in front of a value of kind `info`: the tag byte of the
/// kind in the versioned dialect, nothing in the bit-packed dialect and for `Null`.
pub open spec fn after_header(d: Dialect, c: Cursor, info: TypeInfoView) -> Result<
    Cursor,
    DecodeError,
> {
    if d == Dialect::BitPacked || info is Null {
        Ok(c)
    } else {
        match expected_byte(c, tag_byte(info)) {
            Ok(_) => Ok(c.after_bytes(1)),
            Err(e) => Err(e),
        }
    }
}

/// The number that stands at `c`: a variable-length integer in the versioned dialect,
/// `length` bits plus `offset` in the bit-packed dialect.
pub open spec fn number_at(d: Dialect, c: Cursor, offset: i64, length: usize) -> Result<
    (i64, Cursor),
    DecodeError,
> {
    match d {
        Dialect::Versioned => match c.var_int() {
            Ok((v, end)) => Ok((v as i64, end)),
            Err(e) => Err(e),
        },
        Dialect::BitPacked => if length > 64 {
            Err(DecodeError::ResourceLimit { kind: LimitKind::BitWidth })
        } else {
            match int_in_range(
                c.bits_left(),
                length as nat,
                offset + c.bits_value(length as nat),
            ) {
                Ok(v) => Ok((v, c.after_bits(length as nat))),
                Err(e) => Err(e),
            }
        },
    }
}

/// The flag that stands at `c`: a byte in the versioned dialect, a bit in the bit-packed
/// dialect; set where the value is not zero.
pub open spec fn flag_at(d: Dialect, c: Cursor) -> Result<(bool, Cursor), DecodeError> {
    let width: nat = if d == Dialect::Versioned {
        8
    } else {
        1
    };
    if width > c.bits_left() {
        Err(DecodeError::EndOfInput)
    } else {
        Ok((c.bits_value(width) != 0, c.after_bits(width)))
    }
}

/// The size `n` as a count that the limit `max` lets pass.
pub open spec fn checked_size(n: i64, max: usize, kind: LimitKind) -> Result<
    usize,
    DecodeError,
> {
    if n < 0 || n > max {
        Err(DecodeError::ResourceLimit { kind })
    } else {
        Ok(n as usize)
    }
}

/// The `n` bytes at `c`: the bytes behind the current byte where `aligned`, else the
/// bytes that reads of eight bits give.
pub open spec fn bytes_at(c: Cursor, n: nat, aligned: bool) -> Result<
    (Seq<u8>, Cursor),
    DecodeError,
> {
    if aligned {
        if n > c.bytes_left() {
            Err(DecodeError::EndOfInput)
        } else {
            Ok((c.aligned_bytes(n), c.after_bytes(n)))
        }
    } else {
        if 8 * n > c.bits_left() {
            Err(DecodeError::EndOfInput)
        } else {
            Ok((c.unaligned_bytes(n), c.after_bits(8 * n)))
        }
    }
}

/// The bit array of `bits` bits at `c`: whole aligned bytes in the versioned dialect, the
/// bits themselves in the bit-packed dialect. Its bytes count against `max`.
pub open spec fn bit_array_at(d: Dialect, c: Cursor, bits: i64, max: usize) -> Result<
    (ParsedValueView, Cursor),
    DecodeError,
> {
    if bits < 0 || bits > usize::MAX || (bits + 7) / 8 > max {
        Err(DecodeError::ResourceLimit { kind: LimitKind::ByteLength })
    } else {
        match d {
            Dialect::Versioned => match bytes_at(c, ((bits + 7) / 8) as nat, true) {
                Ok((data, end)) => Ok((ParsedValueView::BitArray { bits: bits as nat, data }, end)),
                Err(e) => Err(e),
            },
            Dialect::BitPacked => if bits > c.bits_left() {
                Err(DecodeError::EndOfInput)
            } else {
                Ok(
                    (
                        ParsedValueView::BitArray {
                            bits: bits as nat,
                            data: c.bit_array_bytes(bits as nat),
                        },
                        c.after_bits(bits as nat),
                    ),
                )
            },
        }
    }
}

/// The position in `fields` of the first field, from position `from` on, whose tag is
/// `tag`; `fields.len()` if there is none.
pub open spec fn first_with_tag(fields: Seq<FieldView>, tag: i64, from: nat) -> nat
    decreases fields.len() - from,
{
    if from >= fields.len() {
        fields.len()
    } else if fields[from as int].tag == tag {
        from
    } else {
        first_with_tag(fields, tag, from + 1)
    }
}

/// The position in `fields` of the first field, from position `from` on, whose tag is not
/// below `tag`; `fields.len()` if there is none.
pub open spec fn first_not_below(fields: Seq<FieldView>, tag: i64, from: nat) -> nat
    decreases fields.len() - from,
{
    if from >= fields.len() {
        fields.len()
    } else if tag > fields[from as int].tag {
        first_not_below(fields, tag, from + 1)
    } else {
        from
    }
}

/// The branch of a choice that the number `tag` selects. The versioned dialect takes the
/// first branch with that tag. The bit-packed dialect counts the branches from zero and
/// takes the one at position `tag`, which has to carry that tag.
pub open spec fn branch_for(d: Dialect, fields: Seq<FieldView>, tag: i64) -> Option<nat> {
    match d {
        Dialect::Versioned => {
            let j = first_with_tag(fields, tag, 0);
            if j < fields.len() {
                Some(j)
            } else {
                None
            }
        },
        Dialect::BitPacked => if 0 <= tag < fields.len() && fields[tag as int].tag == tag {
            Some(tag as nat)
        } else {
            None
        },
    }
}

/// Puts the values `done` in front of the values that the rest of a list gave.
pub open spec fn values_after(
    done: Seq<ParsedValueView>,
    rest: Result<(Seq<ParsedValueView>, Cursor), DecodeError>,
) -> Result<(Seq<ParsedValueView>, Cursor), DecodeError> {
    match rest {
        Ok((values, end)) => Ok((done + values, end)),
        Err(e) => Err(e),
    }
}

/// Puts the fields `done` in front of the fields that the rest of a list gave.
pub open spec fn fields_after(
    done: Seq<ParsedFieldView>,
    rest: Result<(Seq<ParsedFieldView>, Cursor), DecodeError>,
) -> Result<(Seq<ParsedFieldView>, Cursor), DecodeError> {
    match rest {
        Ok((fields, end)) => Ok((done + fields, end)),
        Err(e) => Err(e),
    }
}

/// The integer that stands at `c`.
pub open spec fn int_at(d: Dialect, c: Cursor, offset: i64, length: usize) -> Result<
    (Option<ParsedValueView>, Cursor),
    DecodeError,
> {
    match number_at(d, c, offset, length) {
        Err(e) => Err(e),
        Ok((v, end)) => Ok((Some(ParsedValueView::Int(v as int)), end)),
    }
}

/// The boolean that stands at `c`.
pub open spec fn bool_at(d: Dialect, c: Cursor) -> Result<
    (Option<ParsedValueView>, Cursor),
    DecodeError,
> {
    match flag_at(d, c) {
        Err(e) => Err(e),
        Ok((b, end)) => Ok((Some(ParsedValueView::Bool(b)), end)),
    }
}

/// The four-character code that stands at `c`: four aligned bytes in the versioned
/// dialect, four reads of eight bits in the bit-packed dialect.
pub open spec fn fourcc_at(d: Dialect, c: Cursor) -> Result<
    (Option<ParsedValueView>, Cursor),
    DecodeError,
> {
    match bytes_at(c, 4, d == Dialect::Versioned) {
        Err(e) => Err(e),
        Ok((code, end)) => Ok((Some(ParsedValueView::FourCC(code)), end)),
    }
}

/// The blob that stands at `c`: its length as a number, then as many aligned bytes.
pub open spec fn blob_at(d: Dialect, c: Cursor, offset: i64, length: usize, max: usize) -> Result<
    (Option<ParsedValueView>, Cursor),
    DecodeError,
> {
    match number_at(d, c, offset, length) {
        Err(e) => Err(e),
        Ok((n, c1)) => match checked_size(n, max, LimitKind::ByteLength) {
            Err(e) => Err(e),
            Ok(len) => match bytes_at(c1, len as nat, true) {
                Err(e) => Err(e),
                Ok((bytes, end)) => Ok((Some(ParsedValueView::Blob(bytes)), end)),
            },
        },
    }
}

/// The bit array that stands at `c`: its length in bits as a number, then its bits.
pub open spec fn bits_at(d: Dialect, c: Cursor, offset: i64, length: usize, max: usize) -> Result<
    (Option<ParsedValueView>, Cursor),
    DecodeError,
> {
    match number_at(d, c, offset, length) {
        Err(e) => Err(e),
        Ok((bits, c1)) => match bit_array_at(d, c1, bits, max) {
            Err(e) => Err(e),
            Ok((v, end)) => Ok((Some(v), end)),
        },
    }
}

/// The value of the type at index `t` of `table` that stands at cursor `c`, and the cursor
/// behind it; `None` is an optional that is absent. `fuel` is how many levels the value
/// may nest below itself. In the versioned dialect the tag byte of the kind comes first,
/// then the payload; the bit-packed dialect holds the payload alone.
pub open spec fn value_at(
    d: Dialect,
    table: Seq<TypeInfoView>,
    limits: DecodeLimits,
    t: usize,
    c: Cursor,
    fuel: nat,
) -> Result<(Option<ParsedValueView>, Cursor), DecodeError>
    decreases fuel, 3nat, 0nat,
{
    if t >= table.len() {
        Err(DecodeError::InvalidIndex { type_index: t })
    } else {
        match after_header(d, c, table[t as int]) {
            Err(e) => Err(e),
            Ok(c1) => payload_at(d, table, limits, t, c1, fuel),
        }
    }
}

/// The payload of a value of the type at index `t` that stands at cursor `c`.
pub open spec fn payload_at(
    d: Dialect,
    table: Seq<TypeInfoView>,
    limits: DecodeLimits,
    t: usize,
    c: Cursor,
    fuel: nat,
) -> Result<(Option<ParsedValueView>, Cursor), DecodeError>
    decreases fuel, 2nat, 0nat,
{
    if t >= table.len() {
        Err(DecodeError::InvalidIndex { type_index: t })
    } else {
        match table[t as int] {
            TypeInfoView::Null => Ok((Some(ParsedValueView::Null), c)),
            TypeInfoView::Int { offset, length } => int_at(d, c, offset, length),
            TypeInfoView::Bool => bool_at(d, c),
            TypeInfoView::FourCC => fourcc_at(d, c),
            TypeInfoView::Blob { offset, length } => blob_at(
                d,
                c,
                offset,
                length,
                limits.max_element_count,
            ),
            TypeInfoView::BitArray { offset, length } => bits_at(
                d,
                c,
                offset,
                length,
                limits.max_element_count,
            ),
            TypeInfoView::Array { offset, length, type_index } => array_at(
                d,
                table,
                limits,
                offset,
                length,
                type_index,
                c,
                fuel,
            ),
            TypeInfoView::Optional { type_index } => optional_at(
                d,
                table,
                limits,
                type_index,
                c,
                fuel,
            ),
            TypeInfoView::Struct { fields } => struct_at(d, table, limits, t, fields, c, fuel),
            TypeInfoView::Choice { offset, length, fields } => choice_at(
                d,
                table,
                limits,
                t,
                offset,
                length,
                fields,
                c,
                fuel,
            ),
        }
    }
}

/// The array that stands at `c`: the number of its elements, then the elements, each of
/// the type at index `element`.
pub open spec fn array_at(
    d: Dialect,
    table: Seq<TypeInfoView>,
    limits: DecodeLimits,
    offset: i64,
    length: usize,
    element: usize,
    c: Cursor,
    fuel: nat,
) -> Result<(Option<ParsedValueView>, Cursor), DecodeError>
    decreases fuel, 1nat, 0nat,
{
    match number_at(d, c, offset, length) {
        Err(e) => Err(e),
        Ok((n, c1)) => match checked_size(n, limits.max_element_count, LimitKind::ElementCount) {
            Err(e) => Err(e),
            Ok(count) => match elements_at(d, table, limits, element, c1, fuel, count as nat) {
                Err(e) => Err(e),
                Ok((items, end)) => Ok((Some(ParsedValueView::Array(items)), end)),
            },
        },
    }
}

/// The optional that stands at `c`: a flag, then, where the flag is set, the value of the
/// type at index `inner`.
pub open spec fn optional_at(
    d: Dialect,
    table: Seq<TypeInfoView>,
    limits: DecodeLimits,
    inner: usize,
    c: Cursor,
    fuel: nat,
) -> Result<(Option<ParsedValueView>, Cursor), DecodeError>
    decreases fuel, 1nat, 0nat,
{
    match flag_at(d, c) {
        Err(e) => Err(e),
        Ok((present, c1)) => if !present {
            Ok((None, c1))
        } else if fuel == 0 {
            Err(DecodeError::DepthLimit)
        } else {
            value_at(d, table, limits, inner, c1, (fuel - 1) as nat)
        },
    }
}

/// The struct of the type at index `t` that stands at `c`.
pub open spec fn struct_at(
    d: Dialect,
    table: Seq<TypeInfoView>,
    limits: DecodeLimits,
    t: usize,
    fields: Seq<FieldView>,
    c: Cursor,
    fuel: nat,
) -> Result<(Option<ParsedValueView>, Cursor), DecodeError>
    decreases fuel, 1nat, 0nat,
{
    match struct_fields_at(d, table, limits, t, fields, c, fuel) {
        Err(e) => Err(e),
        Ok((members, end)) => Ok((Some(ParsedValueView::Struct(members)), end)),
    }
}

/// The choice of the type at index `t` that stands at `c`: the number that selects a
/// branch, then the value of the branch, kept under the name of the branch.
pub open spec fn choice_at(
    d: Dialect,
    table: Seq<TypeInfoView>,
    limits: DecodeLimits,
    t: usize,
    offset: i64,
    length: usize,
    fields: Seq<FieldView>,
    c: Cursor,
    fuel: nat,
) -> Result<(Option<ParsedValueView>, Cursor), DecodeError>
    decreases fuel, 1nat, 0nat,
{
    match number_at(d, c, offset, length) {
        Err(e) => Err(e),
        Ok((tag, c1)) => match branch_for(d, fields, tag) {
            None => Err(DecodeError::UnknownChoiceTag { tag, type_index: t }),
            Some(j) => if fuel == 0 {
                Err(DecodeError::DepthLimit)
            } else {
                match value_at(
                    d,
                    table,
                    limits,
                    fields[j as int].type_index,
                    c1,
                    (fuel - 1) as nat,
                ) {
                    Err(e) => Err(e),
                    Ok((v, end)) => Ok(
                        (
                            Some(
                                ParsedValueView::Choice {
                                    tag: tag as int,
                                    field: Box::new(
                                        ParsedFieldView { name: fields[j as int].name, value: v },
                                    ),
                                },
                            ),
                            end,
                        ),
                    ),
                }
            },
        },
    }
}

/// The `count` values of the type at index `t` that stand one after the other at `c`. An
/// element that is an absent optional has no place in an array.
pub open spec fn elements_at(
    d: Dialect,
    table: Seq<TypeInfoView>,
    limits: DecodeLimits,
    t: usize,
    c: Cursor,
    fuel: nat,
    count: nat,
) -> Result<(Seq<ParsedValueView>, Cursor), DecodeError>
    decreases fuel, 0nat, count,
{
    if count == 0 {
        Ok((Seq::empty(), c))
    } else if fuel == 0 {
        Err(DecodeError::DepthLimit)
    } else {
        match value_at(d, table, limits, t, c, (fuel - 1) as nat) {
            Err(e) => Err(e),
            Ok((None, _)) => Err(DecodeError::AbsentElement { type_index: t }),
            Ok((Some(v), c1)) => values_after(
                seq![v],
                elements_at(d, table, limits, t, c1, fuel, (count - 1) as nat),
            ),
        }
    }
}

/// The members of the struct at index `t`, whose fields are `fields`, that stand at `c`.
/// The versioned dialect says how many entries follow and tags each of them; the
/// bit-packed dialect holds every field, in the order of the table.
pub open spec fn struct_fields_at(
    d: Dialect,
    table: Seq<TypeInfoView>,
    limits: DecodeLimits,
    t: usize,
    fields: Seq<FieldView>,
    c: Cursor,
    fuel: nat,
) -> Result<(Seq<ParsedFieldView>, Cursor), DecodeError>
    decreases fuel, 0nat, limits.max_element_count + fields.len() + 1,
{
    match d {
        Dialect::Versioned => match number_at(d, c, 0, 0) {
            Err(e) => Err(e),
            Ok((n, c1)) => match checked_size(
                n,
                limits.max_element_count,
                LimitKind::FieldCount,
            ) {
                Err(e) => Err(e),
                Ok(count) => tagged_fields_at(table, limits, t, fields, c1, fuel, count as nat, 0),
            },
        },
        Dialect::BitPacked => all_fields_at(table, limits, fields, c, fuel, 0),
    }
}

/// The `count` tagged entries of a versioned struct that stand at `c`. Each entry is a
/// tag, read as a number, and the value of the field that the tag leads to: the first
/// field from position `from` on whose tag is not below it. Fields passed over on the way
/// are absent from the struct; the search for the next entry starts behind the field
/// found.
pub open spec fn tagged_fields_at(
    table: Seq<TypeInfoView>,
    limits: DecodeLimits,
    t: usize,
    fields: Seq<FieldView>,
    c: Cursor,
    fuel: nat,
    count: nat,
    from: nat,
) -> Result<(Seq<ParsedFieldView>, Cursor), DecodeError>
    decreases fuel, 0nat, count,
{
    if count == 0 {
        Ok((Seq::empty(), c))
    } else {
        match number_at(Dialect::Versioned, c, 0, 0) {
            Err(e) => Err(e),
            Ok((tag, c1)) => {
                let j = first_not_below(fields, tag, from);
                if j >= fields.len() {
                    Err(DecodeError::UnknownFieldTag { tag, type_index: t })
                } else if fuel == 0 {
                    Err(DecodeError::DepthLimit)
                } else {
                    match value_at(
                        Dialect::Versioned,
                        table,
                        limits,
                        fields[j as int].type_index,
                        c1,
                        (fuel - 1) as nat,
                    ) {
                        Err(e) => Err(e),
                        Ok((v, c2)) => fields_after(
                            seq![ParsedFieldView { name: fields[j as int].name, value: v }],
                            tagged_fields_at(
                                table,
                                limits,
                                t,
                                fields,
                                c2,
                                fuel,
                                (count - 1) as nat,
                                j + 1,
                            ),
                        ),
                    }
                }
            },
        }
    }
}

/// The members of a bit-packed struct from the field at position `from` on: every field,
/// one after the other.
pub open spec fn all_fields_at(
    table: Seq<TypeInfoView>,
    limits: DecodeLimits,
    fields: Seq<FieldView>,
    c: Cursor,
    fuel: nat,
    from: nat,
) -> Result<(Seq<ParsedFieldView>, Cursor), DecodeError>
    decreases fuel, 0nat, fields.len() - from,
{
    if from >= fields.len() {
        Ok((Seq::empty(), c))
    } else if fuel == 0 {
        Err(DecodeError::DepthLimit)
    } else {
        match value_at(
            Dialect::BitPacked,
            table,
            limits,
            fields[from as int].type_index,
            c,
            (fuel - 1) as nat,
        ) {
            Err(e) => Err(e),
            Ok((v, c1)) => fields_after(
                seq![ParsedFieldView { name: fields[from as int].name, value: v }],
                all_fields_at(table, limits, fields, c1, fuel, from + 1),
            ),
        }
    }
}

/// The field named `name` whose value, of the type at index `t`, stands at `c`: the value
/// may nest as deep as the limits allow.
pub open spec fn field_at(
    d: Dialect,
    table: Seq<TypeInfoView>,
    limits: DecodeLimits,
    name: Seq<char>,
    t: usize,
    c: Cursor,
) -> Result<(ParsedFieldView, Cursor), DecodeError> {
    match value_at(d, table, limits, t, c, limits.max_depth as nat) {
        Ok((value, end)) => Ok((ParsedFieldView { name, value }, end)),
        Err(e) => Err(e),
    }
}

} // verus!
