use crate::protocol::types::{EventTypeVariant, FieldView, ProtocolView, TypeInfoView};
use crate::replay::cursor::{lemma_bits_value_bound, lemma_pow2i_small, Cursor};
use crate::replay::decoders::same_stream;
use crate::replay::error::DecodeError;
use crate::replay::events::{
    dialect_of, event_at, event_id_at, game_loop_at, moved_on, user_id_at, StreamIndices,
};
use crate::replay::grammar::{
    after_header, all_fields_at, array_at, bit_array_at, branch_for, bytes_at, choice_at,
    elements_at, first_not_below, flag_at, number_at, optional_at, payload_at, struct_fields_at,
    tagged_fields_at, value_at, DecodeLimits, Dialect,
};
use vstd::prelude::*;

verus! {

/// The cursor `end` stands in the stream of `c` and not in front of `c`.
pub open spec fn follows(c: Cursor, end: Cursor) -> bool {
    &&& end.wf()
    &&& same_stream(c, end)
    &&& end.bits_left() <= c.bits_left()
}

/// A read that started at `c` has not moved its cursor back.
pub open spec fn ends_behind<T>(c: Cursor, res: Result<(T, Cursor), DecodeError>) -> bool {
    match res {
        Ok((_, end)) => follows(c, end),
        Err(_) => true,
    }
}

/// A read that started at `c` has moved its cursor on.
pub open spec fn ends_further<T>(c: Cursor, res: Result<(T, Cursor), DecodeError>) -> bool {
    match res {
        Ok((_, end)) => follows(c, end) && end.bits_left() < c.bits_left(),
        Err(_) => true,
    }
}

/// A read of `n` bits moves the cursor on by `n` bits.
pub proof fn lemma_bits_follow(c: Cursor, n: nat)
    requires
        c.wf(),
        n <= c.bits_left(),
    ensures
        follows(c, c.after_bits(n)),
        c.after_bits(n).bits_left() == c.bits_left() - n,
{
    lemma_bits_value_bound(c, n);
}

/// An aligned read of `n` bytes moves the cursor on to the byte behind them.
pub proof fn lemma_bytes_follow(c: Cursor, n: nat)
    requires
        c.wf(),
        n <= c.bytes_left(),
    ensures
        follows(c, c.after_bytes(n)),
        c.after_bytes(n).bits_left() == 8 * (c.bytes_left() - n),
{
    lemma_pow2i_small();
}

/// Dropping the rest of the current byte moves no cursor back.
pub proof fn lemma_aligned_follows(c: Cursor)
    requires
        c.wf(),
    ensures
        follows(c, c.aligned()),
{
    lemma_pow2i_small();
}

/// A variable-length integer takes at least one byte.
pub proof fn lemma_var_int_follows(c: Cursor, k: nat)
    requires
        c.wf(),
    ensures
        ends_further(c, c.var_int_raw(k)),
        k == 0 ==> ends_further(c, c.var_int()),
    decreases 10 - k,
{
    if k < 10 && c.bits_left() >= 8 {
        lemma_bits_follow(c, 8);
        lemma_var_int_follows(c.after_bits(8), k + 1);
    }
}

/// A number moves no cursor back, and in the versioned dialect it moves it on.
pub proof fn lemma_number_follows(d: Dialect, c: Cursor, offset: i64, length: usize)
    requires
        c.wf(),
    ensures
        ends_behind(c, number_at(d, c, offset, length)),
        d == Dialect::Versioned ==> ends_further(c, number_at(d, c, offset, length)),
{
    match d {
        Dialect::Versioned => {
            lemma_var_int_follows(c, 0);
        },
        Dialect::BitPacked => {
            if length <= 64 && length <= c.bits_left() {
                lemma_bits_follow(c, length as nat);
            }
        },
    }
}

/// A flag moves the cursor on.
pub proof fn lemma_flag_follows(d: Dialect, c: Cursor)
    requires
        c.wf(),
    ensures
        ends_further(c, flag_at(d, c)),
{
    let width: nat = if d == Dialect::Versioned {
        8
    } else {
        1
    };
    if width <= c.bits_left() {
        lemma_bits_follow(c, width);
    }
}

/// A run of bytes moves no cursor back.
pub proof fn lemma_run_follows(c: Cursor, n: nat, aligned: bool)
    requires
        c.wf(),
    ensures
        ends_behind(c, bytes_at(c, n, aligned)),
{
    if aligned {
        if n <= c.bytes_left() {
            lemma_bytes_follow(c, n);
        }
    } else {
        if 8 * n <= c.bits_left() {
            lemma_bits_follow(c, 8 * n);
        }
    }
}

/// A bit array moves no cursor back.
pub proof fn lemma_bit_array_follows(d: Dialect, c: Cursor, bits: i64, max: usize)
    requires
        c.wf(),
    ensures
        ends_behind(c, bit_array_at(d, c, bits, max)),
{
    if !(bits < 0 || bits > usize::MAX || (bits + 7) / 8 > max) {
        match d {
            Dialect::Versioned => {
                lemma_run_follows(c, ((bits + 7) / 8) as nat, true);
            },
            Dialect::BitPacked => {
                if bits <= c.bits_left() {
                    lemma_bits_follow(c, bits as nat);
                }
            },
        }
    }
}

/// What stands in front of a value moves no cursor back, and the tag byte of a versioned
/// value moves it on.
pub proof fn lemma_header_follows(d: Dialect, c: Cursor, info: TypeInfoView)
    requires
        c.wf(),
    ensures
        match after_header(d, c, info) {
            Ok(end) => follows(c, end) && (d == Dialect::Versioned && !(info is Null)
                ==> end.bits_left() < c.bits_left()),
            Err(_) => true,
        },
{
    if d == Dialect::Versioned && !(info is Null) && c.bytes_left() > 0 {
        lemma_bytes_follow(c, 1);
    }
}

/// No value moves its cursor back: the cursor behind a value has at most as many bits left
/// as the cursor in front of it. A versioned value that is not the empty marker moves it
/// on, by its tag byte at least.
pub proof fn lemma_value_follows(
    d: Dialect,
    table: Seq<TypeInfoView>,
    limits: DecodeLimits,
    t: usize,
    c: Cursor,
    fuel: nat,
)
    requires
        c.wf(),
    ensures
        ends_behind(c, value_at(d, table, limits, t, c, fuel)),
        d == Dialect::Versioned && t < table.len() && !(table[t as int] is Null) ==> ends_further(
            c,
            value_at(d, table, limits, t, c, fuel),
        ),
    decreases fuel, 3nat, 0nat,
{
    if t < table.len() {
        lemma_header_follows(d, c, table[t as int]);
        if let Ok(c1) = after_header(d, c, table[t as int]) {
            lemma_payload_follows(d, table, limits, t, c1, fuel);
        }
    }
}

/// No payload moves its cursor back.
pub proof fn lemma_payload_follows(
    d: Dialect,
    table: Seq<TypeInfoView>,
    limits: DecodeLimits,
    t: usize,
    c: Cursor,
    fuel: nat,
)
    requires
        c.wf(),
    ensures
        ends_behind(c, payload_at(d, table, limits, t, c, fuel)),
    decreases fuel, 2nat, 0nat,
{
    if t < table.len() {
        let max = limits.max_element_count;
        match table[t as int] {
            TypeInfoView::Null => {},
            TypeInfoView::Int { offset, length } => {
                lemma_number_follows(d, c, offset, length);
            },
            TypeInfoView::Bool => {
                lemma_flag_follows(d, c);
            },
            TypeInfoView::FourCC => {
                lemma_run_follows(c, 4, d == Dialect::Versioned);
            },
            TypeInfoView::Blob { offset, length } => {
                lemma_number_follows(d, c, offset, length);
                if let Ok((n, c1)) = number_at(d, c, offset, length) {
                    if 0 <= n <= max {
                        lemma_run_follows(c1, n as nat, true);
                    }
                }
            },
            TypeInfoView::BitArray { offset, length } => {
                lemma_number_follows(d, c, offset, length);
                if let Ok((bits, c1)) = number_at(d, c, offset, length) {
                    lemma_bit_array_follows(d, c1, bits, max);
                }
            },
            TypeInfoView::Array { offset, length, type_index } => {
                lemma_array_follows(d, table, limits, offset, length, type_index, c, fuel);
            },
            TypeInfoView::Optional { type_index } => {
                lemma_optional_follows(d, table, limits, type_index, c, fuel);
            },
            TypeInfoView::Struct { fields } => {
                lemma_struct_fields_follow(d, table, limits, t, fields, c, fuel);
            },
            TypeInfoView::Choice { offset, length, fields } => {
                lemma_choice_follows(d, table, limits, t, offset, length, fields, c, fuel);
            },
        }
    }
}

/// No array moves its cursor back.
pub proof fn lemma_array_follows(
    d: Dialect,
    table: Seq<TypeInfoView>,
    limits: DecodeLimits,
    offset: i64,
    length: usize,
    element: usize,
    c: Cursor,
    fuel: nat,
)
    requires
        c.wf(),
    ensures
        ends_behind(c, array_at(d, table, limits, offset, length, element, c, fuel)),
    decreases fuel, 1nat, 0nat,
{
    lemma_number_follows(d, c, offset, length);
    if let Ok((n, c1)) = number_at(d, c, offset, length) {
        if 0 <= n <= limits.max_element_count {
            lemma_elements_follow(d, table, limits, element, c1, fuel, n as nat);
        }
    }
}

/// No optional moves its cursor back.
pub proof fn lemma_optional_follows(
    d: Dialect,
    table: Seq<TypeInfoView>,
    limits: DecodeLimits,
    inner: usize,
    c: Cursor,
    fuel: nat,
)
    requires
        c.wf(),
    ensures
        ends_behind(c, optional_at(d, table, limits, inner, c, fuel)),
    decreases fuel, 1nat, 0nat,
{
    lemma_flag_follows(d, c);
    if let Ok((present, c1)) = flag_at(d, c) {
        if present && fuel > 0 {
            lemma_value_follows(d, table, limits, inner, c1, (fuel - 1) as nat);
        }
    }
}

/// No choice moves its cursor back.
pub proof fn lemma_choice_follows(
    d: Dialect,
    table: Seq<TypeInfoView>,
    limits: DecodeLimits,
    t: usize,
    offset: i64,
    length: usize,
    fields: Seq<FieldView>,
    c: Cursor,
    fuel: nat,
)
    requires
        c.wf(),
    ensures
        ends_behind(c, choice_at(d, table, limits, t, offset, length, fields, c, fuel)),
    decreases fuel, 1nat, 0nat,
{
    lemma_number_follows(d, c, offset, length);
    if let Ok((tag, c1)) = number_at(d, c, offset, length) {
        if fuel > 0 {
            if let Some(j) = branch_for(d, fields, tag) {
                lemma_value_follows(
                    d,
                    table,
                    limits,
                    fields[j as int].type_index,
                    c1,
                    (fuel - 1) as nat,
                );
            }
        }
    }
}

/// The elements of an array move no cursor back.
pub proof fn lemma_elements_follow(
    d: Dialect,
    table: Seq<TypeInfoView>,
    limits: DecodeLimits,
    t: usize,
    c: Cursor,
    fuel: nat,
    count: nat,
)
    requires
        c.wf(),
    ensures
        ends_behind(c, elements_at(d, table, limits, t, c, fuel, count)),
    decreases fuel, 0nat, count,
{
    if count > 0 && fuel > 0 {
        lemma_value_follows(d, table, limits, t, c, (fuel - 1) as nat);
        if let Ok((Some(v), c1)) = value_at(d, table, limits, t, c, (fuel - 1) as nat) {
            lemma_elements_follow(d, table, limits, t, c1, fuel, (count - 1) as nat);
        }
    }
}

/// The members of a struct move no cursor back.
pub proof fn lemma_struct_fields_follow(
    d: Dialect,
    table: Seq<TypeInfoView>,
    limits: DecodeLimits,
    t: usize,
    fields: Seq<FieldView>,
    c: Cursor,
    fuel: nat,
)
    requires
        c.wf(),
    ensures
        ends_behind(c, struct_fields_at(d, table, limits, t, fields, c, fuel)),
    decreases fuel, 0nat, limits.max_element_count + fields.len() + 1,
{
    match d {
        Dialect::Versioned => {
            lemma_number_follows(d, c, 0, 0);
            if let Ok((n, c1)) = number_at(d, c, 0, 0) {
                if 0 <= n <= limits.max_element_count {
                    lemma_tagged_fields_follow(table, limits, t, fields, c1, fuel, n as nat, 0);
                }
            }
        },
        Dialect::BitPacked => {
            lemma_all_fields_follow(table, limits, fields, c, fuel, 0);
        },
    }
}

/// The tagged entries of a versioned struct move no cursor back.
pub proof fn lemma_tagged_fields_follow(
    table: Seq<TypeInfoView>,
    limits: DecodeLimits,
    t: usize,
    fields: Seq<FieldView>,
    c: Cursor,
    fuel: nat,
    count: nat,
    from: nat,
)
    requires
        c.wf(),
    ensures
        ends_behind(c, tagged_fields_at(table, limits, t, fields, c, fuel, count, from)),
    decreases fuel, 0nat, count,
{
    if count > 0 {
        lemma_number_follows(Dialect::Versioned, c, 0, 0);
        if let Ok((tag, c1)) = number_at(Dialect::Versioned, c, 0, 0) {
            let j = first_not_below(fields, tag, from);
            if j < fields.len() && fuel > 0 {
                let inner = fields[j as int].type_index;
                lemma_value_follows(
                    Dialect::Versioned,
                    table,
                    limits,
                    inner,
                    c1,
                    (fuel - 1) as nat,
                );
                if let Ok((v, c2)) = value_at(
                    Dialect::Versioned,
                    table,
                    limits,
                    inner,
                    c1,
                    (fuel - 1) as nat,
                ) {
                    lemma_tagged_fields_follow(
                        table,
                        limits,
                        t,
                        fields,
                        c2,
                        fuel,
                        (count - 1) as nat,
                        j + 1,
                    );
                }
            }
        }
    }
}

/// The members of a bit-packed struct move no cursor back.
pub proof fn lemma_all_fields_follow(
    table: Seq<TypeInfoView>,
    limits: DecodeLimits,
    fields: Seq<FieldView>,
    c: Cursor,
    fuel: nat,
    from: nat,
)
    requires
        c.wf(),
    ensures
        ends_behind(c, all_fields_at(table, limits, fields, c, fuel, from)),
    decreases fuel, 0nat, fields.len() - from,
{
    if from < fields.len() && fuel > 0 {
        let inner = fields[from as int].type_index;
        lemma_value_follows(Dialect::BitPacked, table, limits, inner, c, (fuel - 1) as nat);
        if let Ok((v, c1)) = value_at(
            Dialect::BitPacked,
            table,
            limits,
            inner,
            c,
            (fuel - 1) as nat,
        ) {
            lemma_all_fields_follow(table, limits, fields, c1, fuel, from + 1);
        }
    }
}

/// No event moves its cursor back. So the one event that a stream refuses as empty is an
/// event behind which as many bits are left as in front of it: an event that read nothing
/// at a byte boundary. A tracker event always moves on, by the tag byte of its game loop
/// at least, so no tracker stream is refused on that account.
pub proof fn lemma_event_follows(
    p: ProtocolView,
    limits: DecodeLimits,
    kind: EventTypeVariant,
    ix: StreamIndices,
    c: Cursor,
    game_loop: i64,
)
    requires
        c.wf(),
    ensures
        match event_at(p, limits, kind, ix, c, game_loop) {
            Ok((_, next)) => {
                &&& follows(c, next)
                &&& moved_on(c, next) || next.bits_left() == c.bits_left()
                &&& kind == EventTypeVariant::TrackerEvent ==> moved_on(c, next)
            },
            Err(_) => true,
        },
{
    reveal(event_at);
    let d = dialect_of(kind);
    let depth = limits.max_depth as nat;
    lemma_value_follows(d, p.type_infos, limits, ix.game_loop, c, depth);
    if let Ok((at, c1)) = game_loop_at(p, limits, d, ix, c, game_loop) {
        if let Some(t) = ix.user_id {
            lemma_value_follows(d, p.type_infos, limits, t, c1, depth);
        }
        if let Ok((user, c2)) = user_id_at(p, limits, d, ix, c1) {
            lemma_value_follows(d, p.type_infos, limits, ix.event_id, c2, depth);
            if let Ok((id, c3)) = event_id_at(p, limits, kind, ix, c2) {
                let t = p.event_types(kind)[id].type_index;
                lemma_value_follows(d, p.type_infos, limits, t, c3, depth);
                if let Ok((value, c4)) = value_at(d, p.type_infos, limits, t, c3, depth) {
                    lemma_aligned_follows(c4);
                }
            }
        }
    }
}

} // verus!
