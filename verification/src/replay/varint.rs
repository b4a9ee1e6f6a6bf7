use crate::replay::cursor::{
    lemma_bits_value_bound, lemma_pow2i, lemma_pow2i_small, lemma_read_bits_additive,
    lemma_unaligned_bytes_when_aligned, pow2i, zigzag, Cursor,
};
use crate::replay::error::DecodeError;
use vstd::arithmetic::div_mod::*;
use vstd::prelude::*;

verus! {

/// The unsigned number that carries the signed number `v` in a variable-length integer:
/// the magnitude, shifted up by one bit, with the sign in the lowest bit.
pub open spec fn zigzag_raw(v: int) -> nat {
    if v < 0 {
        (2 * (-v) + 1) as nat
    } else {
        (2 * v) as nat
    }
}

/// The bytes of the unsigned number `raw`: seven bits to a byte, low digits first, the
/// top bit set on every byte but the last.
pub open spec fn var_int_bytes(raw: nat) -> Seq<u8>
    decreases raw,
{
    if raw < 128 {
        seq![raw as u8]
    } else {
        seq![(128 + raw % 128) as u8] + var_int_bytes(raw / 128)
    }
}

/// The bytes that encode the signed number `v` as a variable-length integer.
pub open spec fn var_int_encoding(v: int) -> Seq<u8> {
    var_int_bytes(zigzag_raw(v))
}

/// Behind the first of the bytes that a cursor gives stand the bytes that follow it.
proof fn lemma_unaligned_bytes_tail(c: Cursor, n: nat)
    requires
        c.wf(),
        n > 0,
        8 * n <= c.bits_left(),
    ensures
        c.unaligned_bytes(n)[0] == c.bits_value(8) as u8,
        c.after_bits(8).wf(),
        8 * (n - 1) <= c.after_bits(8).bits_left(),
        c.after_bits(8).unaligned_bytes((n - 1) as nat) == c.unaligned_bytes(n).skip(1),
        c.after_bits(8).after_bits((8 * (n - 1)) as nat) == c.after_bits(8 * n),
{
    let next = c.after_bits(8);
    lemma_bits_value_bound(c, 8);
    lemma_read_bits_additive(c, 8, (8 * (n - 1)) as nat);
    assert(c.after_bits(0) == c);
    assert forall|i: int| 0 <= i < n - 1 implies next.unaligned_bytes((n - 1) as nat)[i]
        == c.unaligned_bytes(n).skip(1)[i] by {
        lemma_read_bits_additive(c, 8, (8 * i) as nat);
        assert(8 + 8 * i == 8 * (i + 1));
    }
    assert(next.unaligned_bytes((n - 1) as nat) =~= c.unaligned_bytes(n).skip(1));
}

/// Decoding the bytes of an unsigned number that fits the bits left gives it back.
proof fn lemma_var_int_bytes_decode(c: Cursor, raw: nat, k: nat)
    requires
        c.wf(),
        k < 10,
        raw < pow2i(64 - 7 * k),
        8 * var_int_bytes(raw).len() <= c.bits_left(),
        c.unaligned_bytes(var_int_bytes(raw).len()) == var_int_bytes(raw),
    ensures
        c.var_int_raw(k) == Ok::<(int, Cursor), DecodeError>(
            (raw * pow2i(7 * (k as int)), c.after_bits(8 * var_int_bytes(raw).len())),
        ),
    decreases raw,
{
    lemma_pow2i_small();
    let bytes = var_int_bytes(raw);
    let scale = pow2i(7 * (k as int));
    assert(bytes.len() >= 1);
    lemma_unaligned_bytes_tail(c, bytes.len());
    lemma_bits_value_bound(c, 8);
    let byte = c.bits_value(8);
    assert(byte == bytes[0]);
    let next = c.after_bits(8);
    if raw < 128 {
        assert(bytes =~= seq![raw as u8]);
        assert(bytes[0] == raw);
        lemma_small_mod(raw, 128);
    } else {
        let high = raw / 128;
        let low = raw % 128;
        let tail = var_int_bytes(high);
        assert(bytes =~= seq![(128 + low) as u8] + tail);
        assert(bytes[0] == 128 + low);
        assert((128 + low) % 128 == low);
        assert(k < 9) by {
            if k == 9 {
                assert(pow2i(64 - 7 * k) == 2);
            }
        }
        lemma_pow2i((57 - 7 * k) as nat, 7);
        assert(high < pow2i(64 - 7 * (k + 1))) by {
            let bound = pow2i(57 - 7 * k);
            assert(raw < bound * 128);
            lemma_multiply_divide_lt(raw as int, 128, bound);
        }
        assert(bytes.skip(1) =~= tail);
        lemma_var_int_bytes_decode(next, high, k + 1);
        lemma_pow2i((7 * k) as nat, 7);
        lemma_fundamental_div_mod(raw as int, 128);
        assert(low * scale + high * (scale * 128) == raw * scale) by (nonlinear_arith)
            requires
                raw == 128 * high + low,
        ;
    }
}

/// A signed number written as a variable-length integer reads back as itself: for every
/// `v` from `-2^56` up to, but not including, `2^56`, a cursor that gives the bytes of the
/// encoding of `v` next reads `v` and ends behind them, wherever in a byte it starts and
/// whatever its endianness.
pub proof fn lemma_var_int_round_trip(c: Cursor, v: int)
    requires
        c.wf(),
        -0x100_0000_0000_0000 <= v < 0x100_0000_0000_0000,
        8 * var_int_encoding(v).len() <= c.bits_left(),
        c.unaligned_bytes(var_int_encoding(v).len()) == var_int_encoding(v),
    ensures
        c.var_int() == Ok::<(int, Cursor), DecodeError>(
            (v, c.after_bits(8 * var_int_encoding(v).len())),
        ),
{
    lemma_pow2i_small();
    let raw = zigzag_raw(v);
    lemma_var_int_bytes_decode(c, raw, 0);
    assert(raw * pow2i(0) == raw) by (nonlinear_arith)
        requires
            pow2i(0) == 1,
    ;
    assert(zigzag(raw as int) == v);
}

/// On a byte boundary the bytes that a cursor gives next are the bytes of its data: a
/// cursor that stands there in front of the encoding of `v` reads `v` and ends behind the
/// encoding.
pub proof fn lemma_var_int_round_trip_aligned(c: Cursor, v: int)
    requires
        c.wf(),
        c.bits_in_cache == 0,
        -0x100_0000_0000_0000 <= v < 0x100_0000_0000_0000,
        var_int_encoding(v).len() <= c.bytes_left(),
        c.aligned_bytes(var_int_encoding(v).len()) == var_int_encoding(v),
    ensures
        c.var_int() == Ok::<(int, Cursor), DecodeError>(
            (v, c.after_bytes(var_int_encoding(v).len())),
        ),
{
    let n = var_int_encoding(v).len();
    lemma_unaligned_bytes_when_aligned(c, n);
    lemma_var_int_round_trip(c, v);
}

} // verus!
