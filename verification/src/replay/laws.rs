use crate::protocol::types::{FieldView, TypeInfoView};
use crate::replay::cursor::{lemma_pow2i_small, Cursor};
use crate::replay::error::DecodeError;
use crate::replay::grammar::{
    all_fields_at, array_at, choice_at, elements_at, optional_at, payload_at, struct_fields_at,
    tag_byte, tagged_fields_at, value_at, DecodeLimits, Dialect,
};
use crate::replay::types::{ParsedFieldView, ParsedValueView};
use vstd::prelude::*;

verus! {

/// The bytes that the versioned dialect puts in front of its values.
pub open spec fn is_tag_byte(byte: u8) -> bool {
    byte <= 0x07 || byte == 0x09
}

/// Every versioned value but the empty marker starts with exactly one tag byte, that of
/// its kind: without a byte the decode ends with `EndOfInput`, in front of another byte
/// with `UnexpectedTag`, and behind the right byte the payload starts at once. The empty
/// marker takes no byte at all.
pub proof fn lemma_versioned_tag_discipline(
    table: Seq<TypeInfoView>,
    limits: DecodeLimits,
    t: usize,
    c: Cursor,
    fuel: nat,
)
    requires
        t < table.len(),
    ensures
        is_tag_byte(tag_byte(table[t as int])),
        table[t as int] is Null ==> value_at(Dialect::Versioned, table, limits, t, c, fuel) == Ok::<
            (Option<ParsedValueView>, Cursor),
            DecodeError,
        >((Some(ParsedValueView::Null), c)),
        !(table[t as int] is Null) ==> value_at(Dialect::Versioned, table, limits, t, c, fuel) == (
        if c.bytes_left() <= 0 {
            Err(DecodeError::EndOfInput)
        } else if c.data[c.byte_index] != tag_byte(table[t as int]) {
            Err(
                DecodeError::UnexpectedTag {
                    expected: tag_byte(table[t as int]),
                    actual: c.data[c.byte_index],
                    offset: c.byte_index as usize,
                },
            )
        } else {
            payload_at(Dialect::Versioned, table, limits, t, c.after_bytes(1), fuel)
        }),
{
}

/// The value `v` nests no deeper than `depth` levels: the elements of an array, the
/// members of a struct and the branch of a choice lie one level below the value that
/// holds them.
pub open spec fn nests_within(v: ParsedValueView, depth: nat) -> bool
    decreases depth, 0nat, 0nat,
{
    match v {
        ParsedValueView::Array(items) => items.len() > 0 ==> depth > 0 && items_nest_within(
            items,
            (depth - 1) as nat,
            0,
        ),
        ParsedValueView::Struct(fields) => fields.len() > 0 ==> depth > 0 && members_nest_within(
            fields,
            (depth - 1) as nat,
            0,
        ),
        ParsedValueView::Choice { field, .. } => depth > 0 && member_nests_within(
            *field,
            (depth - 1) as nat,
        ),
        _ => true,
    }
}

/// Every value of `items` from position `from` on nests no deeper than `depth` levels.
pub open spec fn items_nest_within(items: Seq<ParsedValueView>, depth: nat, from: int) -> bool
    decreases depth, 1nat, items.len() - from,
{
    if from < 0 || from >= items.len() {
        true
    } else {
        nests_within(items[from], depth) && items_nest_within(items, depth, from + 1)
    }
}

/// Every field of `fields` from position `from` on nests no deeper than `depth` levels.
pub open spec fn members_nest_within(fields: Seq<ParsedFieldView>, depth: nat, from: int) -> bool
    decreases depth, 2nat, fields.len() - from,
{
    if from < 0 || from >= fields.len() {
        true
    } else {
        member_nests_within(fields[from], depth) && members_nest_within(fields, depth, from + 1)
    }
}

/// The value of the field `f`, if it has one, nests no deeper than `depth` levels.
pub open spec fn member_nests_within(f: ParsedFieldView, depth: nat) -> bool
    decreases depth, 1nat, 0nat,
{
    match f.value {
        Some(v) => nests_within(v, depth),
        None => true,
    }
}

/// The value `v`, if there is one, nests no deeper than `depth` levels.
pub open spec fn option_nests_within(v: Option<ParsedValueView>, depth: nat) -> bool {
    match v {
        Some(v) => nests_within(v, depth),
        None => true,
    }
}

/// Values nest within a depth from a position on exactly if each of them does.
pub proof fn lemma_items_nest_within(items: Seq<ParsedValueView>, depth: nat, from: int)
    requires
        0 <= from,
    ensures
        items_nest_within(items, depth, from) <==> forall|i: int|
            from <= i < items.len() ==> nests_within(#[trigger] items[i], depth),
    decreases items.len() - from,
{
    if from < items.len() {
        lemma_items_nest_within(items, depth, from + 1);
    }
}

/// Fields nest within a depth from a position on exactly if each of them does.
pub proof fn lemma_members_nest_within(fields: Seq<ParsedFieldView>, depth: nat, from: int)
    requires
        0 <= from,
    ensures
        members_nest_within(fields, depth, from) <==> forall|i: int|
            from <= i < fields.len() ==> member_nests_within(#[trigger] fields[i], depth),
    decreases fields.len() - from,
{
    if from < fields.len() {
        lemma_members_nest_within(fields, depth, from + 1);
    }
}

/// A value that nests within some depth nests within every greater depth.
pub proof fn lemma_nests_within_more(v: ParsedValueView, low: nat, high: nat)
    requires
        nests_within(v, low),
        low <= high,
    ensures
        nests_within(v, high),
    decreases low, 0nat,
{
    match v {
        ParsedValueView::Array(items) => {
            if items.len() > 0 {
                lemma_items_nest_within(items, (low - 1) as nat, 0);
                lemma_items_nest_within(items, (high - 1) as nat, 0);
                assert forall|i: int| 0 <= i < items.len() implies nests_within(
                    #[trigger] items[i],
                    (high - 1) as nat,
                ) by {
                    lemma_nests_within_more(items[i], (low - 1) as nat, (high - 1) as nat);
                }
            }
        },
        ParsedValueView::Struct(fields) => {
            if fields.len() > 0 {
                lemma_members_nest_within(fields, (low - 1) as nat, 0);
                lemma_members_nest_within(fields, (high - 1) as nat, 0);
                assert forall|i: int| 0 <= i < fields.len() implies member_nests_within(
                    #[trigger] fields[i],
                    (high - 1) as nat,
                ) by {
                    lemma_member_nests_within_more(fields[i], (low - 1) as nat, (high - 1) as nat);
                }
            }
        },
        ParsedValueView::Choice { field, .. } => {
            lemma_member_nests_within_more(*field, (low - 1) as nat, (high - 1) as nat);
        },
        _ => {},
    }
}

/// A field that nests within some depth nests within every greater depth.
pub proof fn lemma_member_nests_within_more(f: ParsedFieldView, low: nat, high: nat)
    requires
        member_nests_within(f, low),
        low <= high,
    ensures
        member_nests_within(f, high),
    decreases low, 1nat,
{
    match f.value {
        Some(v) => {
            lemma_nests_within_more(v, low, high);
        },
        None => {},
    }
}

/// The depth cap: a decoded value never nests deeper than the fuel that its decode was
/// given, whatever the type table, be it one that refers to itself, and whatever the
/// stream. So a decode that starts with the depth limit of its limits stops, with
/// `DepthLimit`, where the stream nests deeper.
pub proof fn lemma_value_nests_within_fuel(
    d: Dialect,
    table: Seq<TypeInfoView>,
    limits: DecodeLimits,
    t: usize,
    c: Cursor,
    fuel: nat,
)
    ensures
        match value_at(d, table, limits, t, c, fuel) {
            Ok((v, _)) => option_nests_within(v, fuel),
            Err(_) => true,
        },
    decreases fuel, 3nat, 0nat,
{
    if t < table.len() {
        match crate::replay::grammar::after_header(d, c, table[t as int]) {
            Ok(c1) => {
                lemma_payload_nests_within_fuel(d, table, limits, t, c1, fuel);
            },
            Err(_) => {},
        }
    }
}

/// The payload of a decoded value never nests deeper than the fuel of its decode.
pub proof fn lemma_payload_nests_within_fuel(
    d: Dialect,
    table: Seq<TypeInfoView>,
    limits: DecodeLimits,
    t: usize,
    c: Cursor,
    fuel: nat,
)
    ensures
        match payload_at(d, table, limits, t, c, fuel) {
            Ok((v, _)) => option_nests_within(v, fuel),
            Err(_) => true,
        },
    decreases fuel, 2nat, 0nat,
{
    if t < table.len() {
        match table[t as int] {
            TypeInfoView::Array { offset, length, type_index } => {
                lemma_array_nests_within_fuel(
                    d,
                    table,
                    limits,
                    offset,
                    length,
                    type_index,
                    c,
                    fuel,
                );
            },
            TypeInfoView::Optional { type_index } => {
                lemma_optional_nests_within_fuel(d, table, limits, type_index, c, fuel);
            },
            TypeInfoView::Struct { fields } => {
                lemma_struct_fields_nest_within_fuel(d, table, limits, t, fields, c, fuel);
            },
            TypeInfoView::Choice { offset, length, fields } => {
                lemma_choice_nests_within_fuel(
                    d,
                    table,
                    limits,
                    t,
                    offset,
                    length,
                    fields,
                    c,
                    fuel,
                );
            },
            TypeInfoView::Int { offset, length } => {
                assert(option_nests_within(Some(ParsedValueView::Int(0)), fuel));
            },
            TypeInfoView::Blob { offset, length } => {},
            TypeInfoView::BitArray { offset, length } => {},
            _ => {},
        }
    }
}

/// A decoded array never nests deeper than the fuel of its decode.
pub proof fn lemma_array_nests_within_fuel(
    d: Dialect,
    table: Seq<TypeInfoView>,
    limits: DecodeLimits,
    offset: i64,
    length: usize,
    element: usize,
    c: Cursor,
    fuel: nat,
)
    ensures
        match array_at(d, table, limits, offset, length, element, c, fuel) {
            Ok((v, _)) => option_nests_within(v, fuel),
            Err(_) => true,
        },
    decreases fuel, 1nat, 0nat,
{
    match crate::replay::grammar::number_at(d, c, offset, length) {
        Ok((n, c1)) => {
            match crate::replay::grammar::checked_size(
                n,
                limits.max_element_count,
                crate::replay::error::LimitKind::ElementCount,
            ) {
                Ok(count) => {
                    lemma_elements_nest_within_fuel(
                        d,
                        table,
                        limits,
                        element,
                        c1,
                        fuel,
                        count as nat,
                    );
                },
                Err(_) => {},
            }
        },
        Err(_) => {},
    }
}

/// A decoded optional never nests deeper than the fuel of its decode.
pub proof fn lemma_optional_nests_within_fuel(
    d: Dialect,
    table: Seq<TypeInfoView>,
    limits: DecodeLimits,
    inner: usize,
    c: Cursor,
    fuel: nat,
)
    ensures
        match optional_at(d, table, limits, inner, c, fuel) {
            Ok((v, _)) => option_nests_within(v, fuel),
            Err(_) => true,
        },
    decreases fuel, 1nat, 0nat,
{
    match crate::replay::grammar::flag_at(d, c) {
        Ok((present, c1)) => {
            if present && fuel > 0 {
                lemma_value_nests_within_fuel(d, table, limits, inner, c1, (fuel - 1) as nat);
                match value_at(d, table, limits, inner, c1, (fuel - 1) as nat) {
                    Ok((Some(v), _)) => {
                        lemma_nests_within_more(v, (fuel - 1) as nat, fuel);
                    },
                    _ => {},
                }
            }
        },
        Err(_) => {},
    }
}

/// A decoded choice never nests deeper than the fuel of its decode.
pub proof fn lemma_choice_nests_within_fuel(
    d: Dialect,
    table: Seq<TypeInfoView>,
    limits: DecodeLimits,
    t: usize,
    offset: i64,
    length: usize,
    fields: Seq<FieldView>,
    c: Cursor,
    fuel: nat,
)
    ensures
        match choice_at(d, table, limits, t, offset, length, fields, c, fuel) {
            Ok((v, _)) => option_nests_within(v, fuel),
            Err(_) => true,
        },
    decreases fuel, 1nat, 0nat,
{
    match crate::replay::grammar::number_at(d, c, offset, length) {
        Ok((tag, c1)) => {
            match crate::replay::grammar::branch_for(d, fields, tag) {
                Some(j) => {
                    if fuel > 0 {
                        lemma_value_nests_within_fuel(
                            d,
                            table,
                            limits,
                            fields[j as int].type_index,
                            c1,
                            (fuel - 1) as nat,
                        );
                    }
                },
                None => {},
            }
        },
        Err(_) => {},
    }
}

/// The elements of a decoded array lie within the fuel of the array, one level down.
pub proof fn lemma_elements_nest_within_fuel(
    d: Dialect,
    table: Seq<TypeInfoView>,
    limits: DecodeLimits,
    t: usize,
    c: Cursor,
    fuel: nat,
    count: nat,
)
    ensures
        match elements_at(d, table, limits, t, c, fuel, count) {
            Ok((items, _)) => nests_within(ParsedValueView::Array(items), fuel),
            Err(_) => true,
        },
    decreases fuel, 0nat, count,
{
    if count > 0 && fuel > 0 {
        lemma_value_nests_within_fuel(d, table, limits, t, c, (fuel - 1) as nat);
        match value_at(d, table, limits, t, c, (fuel - 1) as nat) {
            Ok((Some(v), c1)) => {
                lemma_elements_nest_within_fuel(d, table, limits, t, c1, fuel, (count - 1) as nat);
                match elements_at(d, table, limits, t, c1, fuel, (count - 1) as nat) {
                    Ok((more, _)) => {
                        let items = seq![v] + more;
                        let below = (fuel - 1) as nat;
                        lemma_items_nest_within(more, below, 0);
                        lemma_items_nest_within(items, below, 0);
                        assert forall|i: int| 0 <= i < items.len() implies nests_within(
                            #[trigger] items[i],
                            below,
                        ) by {
                            if i > 0 {
                                assert(items[i] == more[i - 1]);
                            } else {
                                assert(items[i] == v);
                            }
                        }
                    },
                    Err(_) => {},
                }
            },
            _ => {},
        }
    }
}

/// The members of a decoded struct lie within the fuel of the struct, one level down.
pub proof fn lemma_struct_fields_nest_within_fuel(
    d: Dialect,
    table: Seq<TypeInfoView>,
    limits: DecodeLimits,
    t: usize,
    fields: Seq<FieldView>,
    c: Cursor,
    fuel: nat,
)
    ensures
        match struct_fields_at(d, table, limits, t, fields, c, fuel) {
            Ok((members, _)) => nests_within(ParsedValueView::Struct(members), fuel),
            Err(_) => true,
        },
    decreases fuel, 0nat, limits.max_element_count + fields.len() + 1,
{
    match d {
        Dialect::Versioned => {
            match crate::replay::grammar::number_at(d, c, 0, 0) {
                Ok((n, c1)) => {
                    match crate::replay::grammar::checked_size(
                        n,
                        limits.max_element_count,
                        crate::replay::error::LimitKind::FieldCount,
                    ) {
                        Ok(count) => {
                            lemma_tagged_fields_nest_within_fuel(
                                table,
                                limits,
                                t,
                                fields,
                                c1,
                                fuel,
                                count as nat,
                                0,
                            );
                        },
                        Err(_) => {},
                    }
                },
                Err(_) => {},
            }
        },
        Dialect::BitPacked => {
            lemma_all_fields_nest_within_fuel(table, limits, fields, c, fuel, 0);
        },
    }
}

/// The entries of a decoded versioned struct lie within its fuel, one level down.
pub proof fn lemma_tagged_fields_nest_within_fuel(
    table: Seq<TypeInfoView>,
    limits: DecodeLimits,
    t: usize,
    fields: Seq<FieldView>,
    c: Cursor,
    fuel: nat,
    count: nat,
    from: nat,
)
    ensures
        match tagged_fields_at(table, limits, t, fields, c, fuel, count, from) {
            Ok((members, _)) => nests_within(ParsedValueView::Struct(members), fuel),
            Err(_) => true,
        },
    decreases fuel, 0nat, count,
{
    if count > 0 {
        match crate::replay::grammar::number_at(Dialect::Versioned, c, 0, 0) {
            Ok((tag, c1)) => {
                let j = crate::replay::grammar::first_not_below(fields, tag, from);
                if j < fields.len() && fuel > 0 {
                    let child = fields[j as int].type_index;
                    lemma_value_nests_within_fuel(
                        Dialect::Versioned,
                        table,
                        limits,
                        child,
                        c1,
                        (fuel - 1) as nat,
                    );
                    let below = (fuel - 1) as nat;
                    match value_at(Dialect::Versioned, table, limits, child, c1, below) {
                        Ok((v, c2)) => {
                            lemma_tagged_fields_nest_within_fuel(
                                table,
                                limits,
                                t,
                                fields,
                                c2,
                                fuel,
                                (count - 1) as nat,
                                j + 1,
                            );
                            match tagged_fields_at(
                                table,
                                limits,
                                t,
                                fields,
                                c2,
                                fuel,
                                (count - 1) as nat,
                                j + 1,
                            ) {
                                Ok((more, _)) => {
                                    let first = ParsedFieldView {
                                        name: fields[j as int].name,
                                        value: v,
                                    };
                                    let members = seq![first] + more;
                                    let below = (fuel - 1) as nat;
                                    lemma_members_nest_within(more, below, 0);
                                    lemma_members_nest_within(members, below, 0);
                                    assert(member_nests_within(first, below));
                                    assert forall|i: int|
                                        0 <= i < members.len() implies member_nests_within(
                                        #[trigger] members[i],
                                        below,
                                    ) by {
                                        if i > 0 {
                                            assert(members[i] == more[i - 1]);
                                        } else {
                                            assert(members[i] == first);
                                        }
                                    }
                                },
                                Err(_) => {},
                            }
                        },
                        Err(_) => {},
                    }
                }
            },
            Err(_) => {},
        }
    }
}

/// The members of a decoded bit-packed struct lie within its fuel, one level down.
pub proof fn lemma_all_fields_nest_within_fuel(
    table: Seq<TypeInfoView>,
    limits: DecodeLimits,
    fields: Seq<FieldView>,
    c: Cursor,
    fuel: nat,
    from: nat,
)
    ensures
        match all_fields_at(table, limits, fields, c, fuel, from) {
            Ok((members, _)) => nests_within(ParsedValueView::Struct(members), fuel),
            Err(_) => true,
        },
    decreases fuel, 0nat, fields.len() - from,
{
    if from < fields.len() && fuel > 0 {
        let child = fields[from as int].type_index;
        lemma_value_nests_within_fuel(
            Dialect::BitPacked,
            table,
            limits,
            child,
            c,
            (fuel - 1) as nat,
        );
        match value_at(Dialect::BitPacked, table, limits, child, c, (fuel - 1) as nat) {
            Ok((v, c1)) => {
                lemma_all_fields_nest_within_fuel(table, limits, fields, c1, fuel, from + 1);
                match all_fields_at(table, limits, fields, c1, fuel, from + 1) {
                    Ok((more, _)) => {
                        let first = ParsedFieldView { name: fields[from as int].name, value: v };
                        let members = seq![first] + more;
                        let below = (fuel - 1) as nat;
                        lemma_members_nest_within(more, below, 0);
                        lemma_members_nest_within(members, below, 0);
                        assert(member_nests_within(first, below));
                        assert forall|i: int| 0 <= i < members.len() implies member_nests_within(
                            #[trigger] members[i],
                            below,
                        ) by {
                            if i > 0 {
                                assert(members[i] == more[i - 1]);
                            } else {
                                assert(members[i] == first);
                            }
                        }
                    },
                    Err(_) => {},
                }
            },
            Err(_) => {},
        }
    }
}

/// The bytes of `levels` versioned arrays of one element each, one inside the other: the
/// tag byte of an array and the count one, over and over.
pub open spec fn nested_arrays(levels: nat) -> Seq<u8>
    decreases levels,
{
    if levels == 0 {
        Seq::empty()
    } else {
        seq![0x00u8, 0x02u8] + nested_arrays((levels - 1) as nat)
    }
}

/// A type that is an array of itself cannot be decoded deeper than the fuel allows: where
/// the stream nests more arrays than that, the versioned decode ends with `DepthLimit`.
pub proof fn lemma_self_array_hits_depth_limit(
    table: Seq<TypeInfoView>,
    limits: DecodeLimits,
    t: usize,
    c: Cursor,
    fuel: nat,
    levels: nat,
)
    requires
        t < table.len(),
        table[t as int] matches TypeInfoView::Array { type_index, .. } && type_index == t,
        limits.max_element_count >= 1,
        c.wf(),
        levels > fuel,
        2 * levels <= c.bytes_left(),
        c.aligned_bytes(2 * levels) == nested_arrays(levels),
    ensures
        value_at(Dialect::Versioned, table, limits, t, c, fuel) == Err::<
            (Option<ParsedValueView>, Cursor),
            DecodeError,
        >(DecodeError::DepthLimit),
    decreases fuel,
{
    lemma_pow2i_small();
    let bytes = nested_arrays(levels);
    let inner = nested_arrays((levels - 1) as nat);
    assert(bytes =~= seq![0x00u8, 0x02u8] + inner);
    assert(c.aligned_bytes(2 * levels)[0] == bytes[0]);
    assert(c.aligned_bytes(2 * levels)[1] == bytes[1]);
    let c1 = c.after_bytes(1);
    let c2 = c1.after_bytes(1);
    assert(c1.data[c1.byte_index] == 0x02);
    assert(crate::replay::varint::var_int_encoding(1) =~= seq![0x02u8]) by {
        reveal_with_fuel(crate::replay::varint::var_int_bytes, 2);
    }
    assert(c1.aligned_bytes(1) =~= seq![0x02u8]);
    crate::replay::varint::lemma_var_int_round_trip_aligned(c1, 1);
    let (offset, length) = match table[t as int] {
        TypeInfoView::Array { offset, length, .. } => (offset, length),
        _ => (0i64, 0usize),
    };
    assert(crate::replay::grammar::after_header(Dialect::Versioned, c, table[t as int]) == Ok::<
        Cursor,
        DecodeError,
    >(c1));
    assert(crate::replay::grammar::number_at(Dialect::Versioned, c1, offset, length) == Ok::<
        (i64, Cursor),
        DecodeError,
    >((1i64, c2)));
    assert(crate::replay::grammar::checked_size(
        1,
        limits.max_element_count,
        crate::replay::error::LimitKind::ElementCount,
    ) == Ok::<usize, DecodeError>(1usize));
    if fuel > 0 {
        assert(c2.aligned_bytes((2 * (levels - 1)) as nat) =~= inner) by {
            assert forall|i: int| 0 <= i < inner.len() implies c2.aligned_bytes(
                (2 * (levels - 1)) as nat,
            )[i] == inner[i] by {
                assert(c.aligned_bytes(2 * levels)[i + 2] == bytes[i + 2]);
            }
            lemma_nested_arrays_len((levels - 1) as nat);
        }
        lemma_self_array_hits_depth_limit(
            table,
            limits,
            t,
            c2,
            (fuel - 1) as nat,
            (levels - 1) as nat,
        );
    }
    assert(elements_at(Dialect::Versioned, table, limits, t, c2, fuel, 1) == Err::<
        (Seq<ParsedValueView>, Cursor),
        DecodeError,
    >(DecodeError::DepthLimit));
    assert(array_at(Dialect::Versioned, table, limits, offset, length, t, c1, fuel) == Err::<
        (Option<ParsedValueView>, Cursor),
        DecodeError,
    >(DecodeError::DepthLimit));
    assert(payload_at(Dialect::Versioned, table, limits, t, c1, fuel) == Err::<
        (Option<ParsedValueView>, Cursor),
        DecodeError,
    >(DecodeError::DepthLimit));
}

/// Every level of nested arrays takes two bytes.
pub proof fn lemma_nested_arrays_len(levels: nat)
    ensures
        nested_arrays(levels).len() == 2 * levels,
    decreases levels,
{
    if levels > 0 {
        lemma_nested_arrays_len((levels - 1) as nat);
    }
}

} // verus!
