use crate::protocol::types::{
    fields_view, Field, FieldView, IndexName, Protocol, ProtocolView, TypeInfo, TypeInfoView,
};
use crate::replay::buffer::BitPackedBuff;
use crate::replay::cursor::Cursor;
use crate::replay::decoders::{
    check_size, decode_field, decode_value, find_branch, read_flag, read_number, skip_tag, tag_of,
    walk_to_tag,
};
use crate::replay::error::{DecodeError, LimitKind};
use crate::replay::grammar::{
    after_header, branch_for, checked_size, default_limits, first_not_below, flag_at, number_at,
    value_at, DecodeLimits, Dialect,
};
use crate::replay::stream_field;
use crate::replay::types::{ParsedField, ParsedFieldView};
use vstd::prelude::*;

verus! {

/// One step on the way from a value to a value inside it.
#[derive(Debug, Clone, Copy, PartialEq, Eq)]
pub enum PathStep {
    /// Into the member at position `field` of the struct or choice at `type_index`.
    Field { type_index: usize, field: usize },
    /// Into the element at position `index` of an array.
    Index { index: usize },
}

/// A decode that failed: why, and where.
#[derive(Debug, PartialEq, Eq)]
pub struct Failure {
    /// What stopped the decode.
    pub error: DecodeError,
    /// Where the cursor stood, as the index of its next byte, when it came to the innermost
    /// value whose decode failed.
    pub offset: usize,
    /// The way from the value that the decode started with to that value.
    pub path: Vec<PathStep>,
}

/// Mathematical value of a `Failure`.
pub struct FailureView {
    pub error: DecodeError,
    pub offset: int,
    pub path: Seq<PathStep>,
}

impl View for Failure {
    type V = FailureView;

    open spec fn view(&self) -> FailureView {
        FailureView { error: self.error, offset: self.offset as int, path: self.path@ }
    }
}

/// The place of a value inside the value that a decode started with: the way down to it
/// and the index of the byte at which it starts.
pub struct Site {
    pub path: Seq<PathStep>,
    pub offset: int,
}

impl Site {
    /// The place of the value that starts at `c` itself.
    pub open spec fn here(c: Cursor) -> Site {
        Site { path: Seq::empty(), offset: c.byte_index }
    }

    /// The failure of a decode that the error `error` stopped at this place.
    pub open spec fn failed(self, error: DecodeError) -> FailureView {
        FailureView { error, offset: self.offset, path: self.path }
    }

    /// The place, seen from the value that holds the value behind `step`.
    pub open spec fn under(self, step: PathStep) -> Site {
        Site { path: seq![step] + self.path, offset: self.offset }
    }
}

/// Where the decode of the value of the type at index `t` at cursor `c` stops: the
/// innermost value that cannot be decoded though all that stands in front of it can. An
/// optional shares the place of the value it wraps. Where nothing stops the decode, the
/// place is that of the value itself.
pub open spec fn site_at(
    d: Dialect,
    table: Seq<TypeInfoView>,
    limits: DecodeLimits,
    t: usize,
    c: Cursor,
    fuel: nat,
) -> Site
    decreases fuel, 3nat, 0nat,
{
    if t >= table.len() {
        Site::here(c)
    } else {
        match after_header(d, c, table[t as int]) {
            Err(_) => Site::here(c),
            Ok(c1) => {
                let below = payload_site(d, table, limits, t, c1, fuel);
                if below.path.len() == 0 {
                    Site::here(c)
                } else {
                    below
                }
            },
        }
    }
}

/// Where the decode of the payload of a value stops.
pub open spec fn payload_site(
    d: Dialect,
    table: Seq<TypeInfoView>,
    limits: DecodeLimits,
    t: usize,
    c: Cursor,
    fuel: nat,
) -> Site
    decreases fuel, 2nat, 0nat,
{
    if t >= table.len() {
        Site::here(c)
    } else {
        match table[t as int] {
            TypeInfoView::Array { offset, length, type_index } => match number_at(
                d,
                c,
                offset,
                length,
            ) {
                Err(_) => Site::here(c),
                Ok((n, c1)) => match checked_size(
                    n,
                    limits.max_element_count,
                    LimitKind::ElementCount,
                ) {
                    Err(_) => Site::here(c),
                    Ok(count) => elements_site(
                        d,
                        table,
                        limits,
                        type_index,
                        c1,
                        fuel,
                        count as nat,
                        0,
                    ),
                },
            },
            TypeInfoView::Optional { type_index } => match flag_at(d, c) {
                Err(_) => Site::here(c),
                Ok((present, c1)) => if present && fuel > 0 {
                    site_at(d, table, limits, type_index, c1, (fuel - 1) as nat)
                } else {
                    Site::here(c)
                },
            },
            TypeInfoView::Struct { fields } => match d {
                Dialect::Versioned => match number_at(d, c, 0, 0) {
                    Err(_) => Site::here(c),
                    Ok((n, c1)) => match checked_size(
                        n,
                        limits.max_element_count,
                        LimitKind::FieldCount,
                    ) {
                        Err(_) => Site::here(c),
                        Ok(count) => tagged_fields_site(
                            table,
                            limits,
                            t,
                            fields,
                            c1,
                            fuel,
                            count as nat,
                            0,
                        ),
                    },
                },
                Dialect::BitPacked => all_fields_site(table, limits, t, fields, c, fuel, 0),
            },
            TypeInfoView::Choice { offset, length, fields } => match number_at(
                d,
                c,
                offset,
                length,
            ) {
                Err(_) => Site::here(c),
                Ok((tag, c1)) => match branch_for(d, fields, tag) {
                    None => Site::here(c),
                    Some(j) => member_site(d, table, limits, t, fields, j, c1, fuel),
                },
            },
            _ => Site::here(c),
        }
    }
}

/// Where the decode of the member at position `j` of the struct or choice at index `t`
/// stops, if it does.
pub open spec fn member_site(
    d: Dialect,
    table: Seq<TypeInfoView>,
    limits: DecodeLimits,
    t: usize,
    fields: Seq<FieldView>,
    j: nat,
    c: Cursor,
    fuel: nat,
) -> Site
    decreases fuel, 0nat, 0nat,
{
    if j >= fields.len() || fuel == 0 {
        Site::here(c)
    } else {
        match value_at(d, table, limits, fields[j as int].type_index, c, (fuel - 1) as nat) {
            Err(_) => site_at(
                d,
                table,
                limits,
                fields[j as int].type_index,
                c,
                (fuel - 1) as nat,
            ).under(PathStep::Field { type_index: t, field: j as usize }),
            Ok(_) => Site::here(c),
        }
    }
}

/// Where the decode of `count` elements, the first of which is the element at position
/// `index` of its array, stops.
pub open spec fn elements_site(
    d: Dialect,
    table: Seq<TypeInfoView>,
    limits: DecodeLimits,
    t: usize,
    c: Cursor,
    fuel: nat,
    count: nat,
    index: nat,
) -> Site
    decreases fuel, 0nat, count,
{
    if count == 0 || fuel == 0 {
        Site::here(c)
    } else {
        match value_at(d, table, limits, t, c, (fuel - 1) as nat) {
            Err(_) => site_at(d, table, limits, t, c, (fuel - 1) as nat).under(
                PathStep::Index { index: index as usize },
            ),
            Ok((None, _)) => Site::here(c).under(PathStep::Index { index: index as usize }),
            Ok((Some(_), c1)) => elements_site(
                d,
                table,
                limits,
                t,
                c1,
                fuel,
                (count - 1) as nat,
                index + 1,
            ),
        }
    }
}

/// Where the decode of `count` tagged entries of the versioned struct at index `t` stops.
pub open spec fn tagged_fields_site(
    table: Seq<TypeInfoView>,
    limits: DecodeLimits,
    t: usize,
    fields: Seq<FieldView>,
    c: Cursor,
    fuel: nat,
    count: nat,
    from: nat,
) -> Site
    decreases fuel, 1nat, count,
{
    if count == 0 {
        Site::here(c)
    } else {
        match number_at(Dialect::Versioned, c, 0, 0) {
            Err(_) => Site::here(c),
            Ok((tag, c1)) => {
                let j = first_not_below(fields, tag, from);
                if j >= fields.len() || fuel == 0 {
                    Site::here(c)
                } else {
                    match value_at(
                        Dialect::Versioned,
                        table,
                        limits,
                        fields[j as int].type_index,
                        c1,
                        (fuel - 1) as nat,
                    ) {
                        Err(_) => member_site(
                            Dialect::Versioned,
                            table,
                            limits,
                            t,
                            fields,
                            j,
                            c1,
                            fuel,
                        ),
                        Ok((_, c2)) => tagged_fields_site(
                            table,
                            limits,
                            t,
                            fields,
                            c2,
                            fuel,
                            (count - 1) as nat,
                            j + 1,
                        ),
                    }
                }
            },
        }
    }
}

/// Where the decode of the members of the bit-packed struct at index `t` stops, from the
/// field at position `from` on.
pub open spec fn all_fields_site(
    table: Seq<TypeInfoView>,
    limits: DecodeLimits,
    t: usize,
    fields: Seq<FieldView>,
    c: Cursor,
    fuel: nat,
    from: nat,
) -> Site
    decreases fuel, 1nat, fields.len() - from,
{
    if from >= fields.len() || fuel == 0 {
        Site::here(c)
    } else {
        match value_at(
            Dialect::BitPacked,
            table,
            limits,
            fields[from as int].type_index,
            c,
            (fuel - 1) as nat,
        ) {
            Err(_) => member_site(Dialect::BitPacked, table, limits, t, fields, from, c, fuel),
            Ok((_, c1)) => all_fields_site(table, limits, t, fields, c1, fuel, from + 1),
        }
    }
}

/// The way `path` with the way of `site` added, and the offset of `site`.
pub open spec fn reaches(
    before: Seq<PathStep>,
    after: Seq<PathStep>,
    offset: usize,
    site: Site,
) -> bool {
    after == before + site.path && offset == site.offset
}

/// Finds where the decode of the value of the type at `type_index` at the cursor stops:
/// the steps down to that place are added to `path`, its byte index is handed back.
pub fn locate_value(
    d: Dialect,
    type_index: usize,
    protocol: &Protocol,
    limits: &DecodeLimits,
    buffer: &mut BitPackedBuff,
    fuel: usize,
    path: &mut Vec<PathStep>,
) -> (offset: usize)
    requires
        old(buffer)@.wf(),
    ensures
        final(buffer)@.wf(),
        reaches(
            old(path)@,
            final(path)@,
            offset,
            site_at(d, protocol@.type_infos, *limits, type_index, old(buffer)@, fuel as nat),
        ),
    decreases fuel, 3nat, 0nat,
{
    let start: usize = buffer.position();
    let ghost before = path@;
    proof {
        assert(before + Seq::<PathStep>::empty() =~= before);
    }
    let info = match protocol.type_info(type_index) {
        Some(info) => info,
        None => {
            return start;
        },
    };
    if let TypeInfo::Null = info {
        return start;
    }
    match skip_tag(d, buffer, tag_of(info)) {
        Err(_) => {
            return start;
        },
        Ok(_) => {},
    }
    let depth: usize = path.len();
    let below = locate_payload(d, type_index, info, protocol, limits, buffer, fuel, path);
    if path.len() == depth {
        proof {
            assert(path@ =~= before);
        }
        start
    } else {
        below
    }
}

/// Finds where the decode of the payload of a value of the kind `info` stops.
fn locate_payload(
    d: Dialect,
    type_index: usize,
    info: &TypeInfo,
    protocol: &Protocol,
    limits: &DecodeLimits,
    buffer: &mut BitPackedBuff,
    fuel: usize,
    path: &mut Vec<PathStep>,
) -> (offset: usize)
    requires
        old(buffer)@.wf(),
        type_index < protocol@.type_infos.len(),
        info@ == protocol@.type_infos[type_index as int],
    ensures
        final(buffer)@.wf(),
        reaches(
            old(path)@,
            final(path)@,
            offset,
            payload_site(d, protocol@.type_infos, *limits, type_index, old(buffer)@, fuel as nat),
        ),
    decreases fuel, 2nat, 0nat,
{
    let start: usize = buffer.position();
    let ghost before = path@;
    proof {
        assert(before + Seq::<PathStep>::empty() =~= before);
    }
    match info {
        TypeInfo::Array { offset, length, type_index: element } => {
            let n = match read_number(d, buffer, *offset, *length) {
                Ok(n) => n,
                Err(_) => {
                    return start;
                },
            };
            match check_size(n, limits.max_element_count, LimitKind::ElementCount) {
                Ok(count) => locate_elements(
                    d,
                    *element,
                    protocol,
                    limits,
                    buffer,
                    fuel,
                    count,
                    path,
                ),
                Err(_) => start,
            }
        },
        TypeInfo::Optional { type_index: inner } => {
            match read_flag(d, buffer) {
                Ok(present) => {
                    if present && fuel > 0 {
                        locate_value(d, *inner, protocol, limits, buffer, fuel - 1, path)
                    } else {
                        start
                    }
                },
                Err(_) => start,
            }
        },
        TypeInfo::Struct { fields } => match d {
            Dialect::Versioned => {
                let n = match read_number(d, buffer, 0, 0) {
                    Ok(n) => n,
                    Err(_) => {
                        return start;
                    },
                };
                match check_size(n, limits.max_element_count, LimitKind::FieldCount) {
                    Ok(count) => locate_tagged_fields(
                        type_index,
                        fields,
                        protocol,
                        limits,
                        buffer,
                        fuel,
                        count,
                        path,
                    ),
                    Err(_) => start,
                }
            },
            Dialect::BitPacked => locate_all_fields(
                type_index,
                fields,
                protocol,
                limits,
                buffer,
                fuel,
                path,
            ),
        },
        TypeInfo::Choice { offset, length, fields } => {
            let tag = match read_number(d, buffer, *offset, *length) {
                Ok(tag) => tag,
                Err(_) => {
                    return start;
                },
            };
            match find_branch(d, fields, tag) {
                Some(j) => locate_member(
                    d,
                    type_index,
                    fields,
                    j,
                    protocol,
                    limits,
                    buffer,
                    fuel,
                    path,
                ),
                None => start,
            }
        },
        _ => start,
    }
}

/// Finds where the decode of the member at position `j` of the struct or choice at
/// `type_index` stops, if it does.
fn locate_member(
    d: Dialect,
    type_index: usize,
    fields: &Vec<Field>,
    j: usize,
    protocol: &Protocol,
    limits: &DecodeLimits,
    buffer: &mut BitPackedBuff,
    fuel: usize,
    path: &mut Vec<PathStep>,
) -> (offset: usize)
    requires
        old(buffer)@.wf(),
    ensures
        final(buffer)@.wf(),
        reaches(
            old(path)@,
            final(path)@,
            offset,
            member_site(
                d,
                protocol@.type_infos,
                *limits,
                type_index,
                fields_view(fields@),
                j as nat,
                old(buffer)@,
                fuel as nat,
            ),
        ),
    decreases fuel, 0nat, 0nat,
{
    let start: usize = buffer.position();
    let ghost before = path@;
    proof {
        assert(before + Seq::<PathStep>::empty() =~= before);
    }
    if j >= fields.len() || fuel == 0 {
        return start;
    }
    let child: usize = fields[j].type_index;
    let mut probe = *buffer;
    match decode_value(d, child, protocol, limits, &mut probe, fuel - 1) {
        Ok(_) => start,
        Err(_) => {
            let step = PathStep::Field { type_index, field: j };
            path.push(step);
            let offset = locate_value(d, child, protocol, limits, buffer, fuel - 1, path);
            proof {
                let site = site_at(
                    d,
                    protocol@.type_infos,
                    *limits,
                    child,
                    old(buffer)@,
                    (fuel - 1) as nat,
                );
                assert(before.push(step) + site.path =~= before + (seq![step] + site.path));
            }
            offset
        },
    }
}

/// Finds where the decode of `count` elements of an array stops.
fn locate_elements(
    d: Dialect,
    type_index: usize,
    protocol: &Protocol,
    limits: &DecodeLimits,
    buffer: &mut BitPackedBuff,
    fuel: usize,
    count: usize,
    path: &mut Vec<PathStep>,
) -> (offset: usize)
    requires
        old(buffer)@.wf(),
    ensures
        final(buffer)@.wf(),
        reaches(
            old(path)@,
            final(path)@,
            offset,
            elements_site(
                d,
                protocol@.type_infos,
                *limits,
                type_index,
                old(buffer)@,
                fuel as nat,
                count as nat,
                0,
            ),
        ),
    decreases fuel, 0nat, count,
{
    let ghost start = buffer@;
    let ghost before = path@;
    let ghost table = protocol@.type_infos;
    proof {
        assert(before + Seq::<PathStep>::empty() =~= before);
    }
    let mut i: usize = 0;
    while i < count
        invariant
            start == old(buffer)@,
            before == old(path)@,
            table == protocol@.type_infos,
            path@ == before,
            buffer@.wf(),
            i <= count,
            elements_site(d, table, *limits, type_index, start, fuel as nat, count as nat, 0)
                == elements_site(
                d,
                table,
                *limits,
                type_index,
                buffer@,
                fuel as nat,
                (count - i) as nat,
                i as nat,
            ),
        decreases count - i,
    {
        if fuel == 0 {
            return buffer.position();
        }
        let mut probe = *buffer;
        let ghost here = buffer@;
        match decode_value(d, type_index, protocol, limits, &mut probe, fuel - 1) {
            Ok(Some(_)) => {
                *buffer = probe;
                i = i + 1;
            },
            Ok(None) => {
                let step = PathStep::Index { index: i };
                path.push(step);
                proof {
                    assert(before.push(step) =~= before + (seq![step] + Seq::<PathStep>::empty()));
                }
                return buffer.position();
            },
            Err(_) => {
                let step = PathStep::Index { index: i };
                path.push(step);
                let offset = locate_value(d, type_index, protocol, limits, buffer, fuel - 1, path);
                proof {
                    let site = site_at(d, table, *limits, type_index, here, (fuel - 1) as nat);
                    assert(before.push(step) + site.path =~= before + (seq![step] + site.path));
                }
                return offset;
            },
        }
    }
    buffer.position()
}

/// Finds where the decode of `count` tagged entries of a versioned struct stops.
fn locate_tagged_fields(
    type_index: usize,
    fields: &Vec<Field>,
    protocol: &Protocol,
    limits: &DecodeLimits,
    buffer: &mut BitPackedBuff,
    fuel: usize,
    count: usize,
    path: &mut Vec<PathStep>,
) -> (offset: usize)
    requires
        old(buffer)@.wf(),
    ensures
        final(buffer)@.wf(),
        reaches(
            old(path)@,
            final(path)@,
            offset,
            tagged_fields_site(
                protocol@.type_infos,
                *limits,
                type_index,
                fields_view(fields@),
                old(buffer)@,
                fuel as nat,
                count as nat,
                0,
            ),
        ),
    decreases fuel, 1nat, count,
{
    let ghost start = buffer@;
    let ghost before = path@;
    let ghost table = protocol@.type_infos;
    let ghost schema = fields_view(fields@);
    proof {
        assert(before + Seq::<PathStep>::empty() =~= before);
    }
    let mut i: usize = 0;
    let mut from: usize = 0;
    while i < count
        invariant
            start == old(buffer)@,
            before == old(path)@,
            table == protocol@.type_infos,
            schema == fields_view(fields@),
            path@ == before,
            buffer@.wf(),
            i <= count,
            from <= fields.len(),
            tagged_fields_site(
                table,
                *limits,
                type_index,
                schema,
                start,
                fuel as nat,
                count as nat,
                0,
            ) == tagged_fields_site(
                table,
                *limits,
                type_index,
                schema,
                buffer@,
                fuel as nat,
                (count - i) as nat,
                from as nat,
            ),
        decreases count - i,
    {
        let entry: usize = buffer.position();
        let tag = match read_number(Dialect::Versioned, buffer, 0, 0) {
            Ok(tag) => tag,
            Err(_) => {
                return entry;
            },
        };
        let j = walk_to_tag(fields, tag, from);
        if j >= fields.len() || fuel == 0 {
            return entry;
        }
        let mut probe = *buffer;
        match decode_value(
            Dialect::Versioned,
            fields[j].type_index,
            protocol,
            limits,
            &mut probe,
            fuel - 1,
        ) {
            Ok(_) => {
                *buffer = probe;
                i = i + 1;
                from = j + 1;
            },
            Err(_) => {
                return locate_member(
                    Dialect::Versioned,
                    type_index,
                    fields,
                    j,
                    protocol,
                    limits,
                    buffer,
                    fuel,
                    path,
                );
            },
        }
    }
    buffer.position()
}

/// Finds where the decode of the members of a bit-packed struct stops.
fn locate_all_fields(
    type_index: usize,
    fields: &Vec<Field>,
    protocol: &Protocol,
    limits: &DecodeLimits,
    buffer: &mut BitPackedBuff,
    fuel: usize,
    path: &mut Vec<PathStep>,
) -> (offset: usize)
    requires
        old(buffer)@.wf(),
    ensures
        final(buffer)@.wf(),
        reaches(
            old(path)@,
            final(path)@,
            offset,
            all_fields_site(
                protocol@.type_infos,
                *limits,
                type_index,
                fields_view(fields@),
                old(buffer)@,
                fuel as nat,
                0,
            ),
        ),
    decreases fuel, 1nat, fields.len(),
{
    let ghost start = buffer@;
    let ghost before = path@;
    let ghost table = protocol@.type_infos;
    let ghost schema = fields_view(fields@);
    proof {
        assert(before + Seq::<PathStep>::empty() =~= before);
    }
    let mut from: usize = 0;
    while from < fields.len()
        invariant
            start == old(buffer)@,
            before == old(path)@,
            table == protocol@.type_infos,
            schema == fields_view(fields@),
            path@ == before,
            buffer@.wf(),
            from <= fields.len(),
            all_fields_site(table, *limits, type_index, schema, start, fuel as nat, 0)
                == all_fields_site(
                table,
                *limits,
                type_index,
                schema,
                buffer@,
                fuel as nat,
                from as nat,
            ),
        decreases fields.len() - from,
    {
        if fuel == 0 {
            return buffer.position();
        }
        let mut probe = *buffer;
        match decode_value(
            Dialect::BitPacked,
            fields[from].type_index,
            protocol,
            limits,
            &mut probe,
            fuel - 1,
        ) {
            Ok(_) => {
                *buffer = probe;
                from = from + 1;
            },
            Err(_) => {
                return locate_member(
                    Dialect::BitPacked,
                    type_index,
                    fields,
                    from,
                    protocol,
                    limits,
                    buffer,
                    fuel,
                    path,
                );
            },
        }
    }
    buffer.position()
}

/// The field named `name` that the bytes `data` hold, or why and where its decode stops.
pub open spec fn traced_field(
    d: Dialect,
    p: ProtocolView,
    name: Seq<char>,
    t: usize,
    data: Seq<u8>,
) -> Result<ParsedFieldView, FailureView> {
    match stream_field(d, p, name, t, data) {
        Ok(field) => Ok(field),
        Err(e) => Err(
            site_at(
                d,
                p.type_infos,
                default_limits(),
                t,
                Cursor::start(data, true),
                default_limits().max_depth as nat,
            ).failed(e),
        ),
    }
}

/// The field named `name` that the bytes `data` hold, or why and where its decode stops,
/// where the protocol may lack the index `index`, which `missing` names.
pub open spec fn traced_indexed_field(
    d: Dialect,
    p: ProtocolView,
    name: Seq<char>,
    index: Option<usize>,
    missing: IndexName,
    data: Seq<u8>,
) -> Result<ParsedFieldView, FailureView> {
    match index {
        None => Err(
            FailureView {
                error: DecodeError::MissingIndex { name: missing },
                offset: 0,
                path: Seq::empty(),
            },
        ),
        Some(t) => traced_field(d, p, name, t, data),
    }
}

/// What a traced decode of a field returned, held against what the stream holds.
pub open spec fn traced_field_is(
    res: Result<ParsedField, Failure>,
    expected: Result<ParsedFieldView, FailureView>,
) -> bool {
    match res {
        Ok(field) => expected == Ok::<ParsedFieldView, FailureView>(field@),
        Err(failure) => expected == Err::<ParsedFieldView, FailureView>(failure@),
    }
}

/// Decodes the field named `name` from the start of `bytes`, as `decode` does, and says
/// of a decode that fails where it stopped.
pub fn decode_traced(
    dialect: Dialect,
    name: &str,
    bytes: &[u8],
    protocol: &Protocol,
    entry_type_index: usize,
) -> (res: Result<ParsedField, Failure>)
    ensures
        traced_field_is(res, traced_field(dialect, protocol@, name@, entry_type_index, bytes@)),
{
    let limits = DecodeLimits::default();
    let mut buffer = BitPackedBuff::new_big_endian(bytes);
    match decode_field(dialect, name, entry_type_index, protocol, &limits, &mut buffer) {
        Ok(field) => Ok(field),
        Err(error) => {
            let mut probe = BitPackedBuff::new_big_endian(bytes);
            let mut path: Vec<PathStep> = Vec::new();
            let offset = locate_value(
                dialect,
                entry_type_index,
                protocol,
                &limits,
                &mut probe,
                limits.max_depth,
                &mut path,
            );
            proof {
                assert(Seq::<PathStep>::empty() + path@ =~= path@);
            }
            Err(Failure { error, offset, path })
        },
    }
}

/// Decodes the field of a stream whose type the protocol names under `index`, and says of
/// a decode that fails where it stopped.
pub fn decode_indexed_traced(
    dialect: Dialect,
    name: &str,
    bytes: &[u8],
    protocol: &Protocol,
    index: Option<usize>,
    missing: IndexName,
) -> (res: Result<ParsedField, Failure>)
    ensures
        traced_field_is(
            res,
            traced_indexed_field(dialect, protocol@, name@, index, missing, bytes@),
        ),
{
    match index {
        Some(t) => decode_traced(dialect, name, bytes, protocol, t),
        None => Err(
            Failure {
                error: DecodeError::MissingIndex { name: missing },
                offset: 0,
                path: Vec::new(),
            },
        ),
    }
}

} // verus!
