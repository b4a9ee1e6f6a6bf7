use crate::replay::cursor::{
    lemma_bits_step, lemma_bits_value_bound, lemma_pow2i, lemma_pow2i_small,
    lemma_read_bits_additive, lemma_taken_wf, pow2i, var_int_join, Cursor,
};
use crate::replay::error::{DecodeError, LimitKind};
use vstd::arithmetic::div_mod::*;
use vstd::arithmetic::mul::*;
use vstd::bits::*;
use vstd::prelude::*;
use vstd::slice::*;

verus! {

/// A bit-level reader over a byte slice.
#[derive(Debug, Clone, Copy)]
pub struct BitPackedBuff<'a> {
    pub data: &'a [u8],
    pub byte_index: usize,
    pub cache: u8,
    pub big_endian: bool,
    pub bits_in_cache: usize,
}

impl<'a> View for BitPackedBuff<'a> {
    type V = Cursor;

    open spec fn view(&self) -> Cursor {
        Cursor {
            data: self.data@,
            byte_index: self.byte_index as int,
            cache: self.cache as int,
            bits_in_cache: self.bits_in_cache as int,
            big_endian: self.big_endian,
        }
    }
}

/// Two to the power `k` as a machine integer.
fn pow2_u64(k: usize) -> (p: u64)
    requires
        k < 64,
    ensures
        p == pow2i(k as int),
        p > 0,
{
    proof {
        lemma_u64_pow2_no_overflow(k as nat);
        lemma_u64_shl_is_mul(1, k as u64);
    }
    1u64 << (k as u64)
}

/// What a read of `length` bits that stands for `value` returns, where `bits_left` bits
/// can be read: the value, if the bits are there and it fits a signed 64-bit integer.
pub open spec fn int_in_range(bits_left: int, length: nat, value: int) -> Result<
    i64,
    DecodeError,
> {
    if length > bits_left {
        Err(DecodeError::EndOfInput)
    } else if value < i64::MIN || value > i64::MAX {
        Err(DecodeError::ResourceLimit { kind: LimitKind::IntegerRange })
    } else {
        Ok(value as i64)
    }
}

/// What stepping over a byte that has to be `expected` returns at cursor `c`.
pub open spec fn expected_byte(c: Cursor, expected: u8) -> Result<(), DecodeError> {
    if c.bytes_left() <= 0 {
        Err(DecodeError::EndOfInput)
    } else if c.data[c.byte_index] != expected {
        Err(
            DecodeError::UnexpectedTag {
                expected,
                actual: c.data[c.byte_index],
                offset: c.byte_index as usize,
            },
        )
    } else {
        Ok(())
    }
}

impl<'a> BitPackedBuff<'a> {
    fn new(data: &'a [u8], big_endian: bool) -> (buff: Self)
        ensures
            buff@ == Cursor::start(data@, big_endian),
            buff@.wf(),
    {
        proof {
            lemma_pow2i_small();
        }
        BitPackedBuff { data, big_endian, cache: 0, byte_index: 0, bits_in_cache: 0 }
    }

    /// A little-endian cursor at the start of `data`.
    pub fn new_little_endian(data: &'a [u8]) -> (buff: Self)
        ensures
            buff@ == Cursor::start(data@, false),
            buff@.wf(),
    {
        Self::new(data, false)
    }

    /// A big-endian cursor at the start of `data`.
    pub fn new_big_endian(data: &'a [u8]) -> (buff: Self)
        ensures
            buff@ == Cursor::start(data@, true),
            buff@.wf(),
    {
        Self::new(data, true)
    }

    /// Index of the next byte that has not been touched.
    pub fn position(&self) -> (index: usize)
        ensures
            index == self@.byte_index,
    {
        self.byte_index
    }

    /// Number of bits that can still be read.
    pub fn bits_left(&self) -> (left: u128)
        requires
            self@.wf(),
        ensures
            left == self@.bits_left(),
    {
        let bytes: usize = self.data.len() - self.byte_index;
        let whole: u128 = bytes as u128;
        let cached: u128 = self.bits_in_cache as u128;
        whole * 8 + cached
    }

    /// Whether `n` more bits can be read.
    fn has_bits(&self, n: usize) -> (b: bool)
        requires
            self@.wf(),
            n <= 64,
        ensures
            b == (n <= self@.bits_left()),
    {
        if n <= self.bits_in_cache {
            true
        } else {
            let need: usize = n - self.bits_in_cache;
            let bytes: usize = (need + 7) / 8;
            bytes <= self.data.len() - self.byte_index
        }
    }

    /// Fetches the next byte into the cache if the cache is empty.
    fn init_cache(&mut self)
        requires
            old(self)@.wf(),
            old(self)@.bits_left() > 0,
        ensures
            final(self)@ == old(self)@.loaded(),
            final(self)@.wf(),
            final(self)@.bits_in_cache > 0,
    {
        proof {
            lemma_pow2i_small();
        }
        if self.bits_in_cache == 0 {
            self.cache = self.data[self.byte_index];
            self.byte_index += 1;
            self.bits_in_cache = 8;
        }
    }

    /// Takes the next `k` bits out of the cache.
    fn take_from_cache(&mut self, k: usize) -> (piece: u64)
        requires
            old(self)@.wf(),
            k <= old(self)@.bits_in_cache,
        ensures
            piece == old(self)@.chunk(k as nat),
            final(self)@ == old(self)@.taken(k as nat),
            final(self)@.wf(),
    {
        proof {
            lemma_taken_wf(self@, k as nat);
            lemma_pow2i_small();
        }
        let p: u64 = pow2_u64(k);
        let cache: u64 = self.cache as u64;
        let piece: u64 = cache % p;
        proof {
            lemma_div_nonincreasing(cache as int, p as int);
        }
        self.cache = (cache / p) as u8;
        self.bits_in_cache = self.bits_in_cache - k;
        piece
    }

    fn read_bits_big(&mut self, n: usize) -> (value: u64)
        requires
            old(self)@.wf(),
            old(self)@.big_endian,
            n <= 64,
            n <= old(self)@.bits_left(),
        ensures
            value == old(self)@.bits_value(n as nat),
            final(self)@ == old(self)@.after_bits(n as nat),
            final(self)@.wf(),
    {
        let ghost start = self@;
        let mut value: u64 = 0;
        let mut remaining: usize = n;
        proof {
            lemma_pow2i_small();
        }
        while remaining > 0
            invariant
                self@.wf(),
                self@.big_endian,
                remaining <= n <= 64,
                remaining <= self@.bits_left(),
                0 <= value < pow2i(n - remaining),
                start.bits_value(n as nat) == value * pow2i(remaining as int) + self@.bits_value(
                    remaining as nat,
                ),
                start.after_bits(n as nat) == self@.after_bits(remaining as nat),
            decreases remaining,
        {
            let ghost before = self@;
            self.init_cache();
            let k: usize = if remaining <= self.bits_in_cache {
                remaining
            } else {
                self.bits_in_cache
            };
            let p: u64 = pow2_u64(k);
            let piece: u64 = self.take_from_cache(k);
            proof {
                lemma_bits_step(before, remaining as nat);
                let read = (n - remaining) as nat;
                let left = (remaining - k) as nat;
                lemma_pow2i(read, k as nat);
                lemma_pow2i(k as nat, left);
                lemma_pow2i(read + (k as nat), 64);
                lemma_pow2i_small();
                let a = pow2i(read as int);
                let q = pow2i(left as int);
                let rest = self@.bits_value(left);
                assert(value * p + piece < a * p) by (nonlinear_arith)
                    requires
                        0 <= value < a,
                        0 <= piece < p,
                ;
                assert(0 <= value * p <= value * p + piece) by (nonlinear_arith)
                    requires
                        0 <= value,
                        0 <= piece,
                        0 < p,
                ;
                assert(value * (p * q) + (piece * q + rest) == (value * p + piece) * q + rest)
                    by (nonlinear_arith);
            }
            value = value * p + piece;
            remaining = remaining - k;
        }
        proof {
            lemma_pow2i_small();
            assert(self@.bits_value(0) == 0);
            assert(value * pow2i(0) == value) by (nonlinear_arith)
                requires
                    pow2i(0) == 1,
            ;
        }
        value
    }

    fn read_bits_little(&mut self, n: usize) -> (value: u64)
        requires
            old(self)@.wf(),
            !old(self)@.big_endian,
            n <= 64,
            n <= old(self)@.bits_left(),
        ensures
            value == old(self)@.bits_value(n as nat),
            final(self)@ == old(self)@.after_bits(n as nat),
            final(self)@.wf(),
    {
        let ghost start = self@;
        let mut value: u64 = 0;
        let mut remaining: usize = n;
        proof {
            lemma_pow2i_small();
        }
        while remaining > 0
            invariant
                self@.wf(),
                !self@.big_endian,
                remaining <= n <= 64,
                remaining <= self@.bits_left(),
                0 <= value < pow2i(n - remaining),
                start.bits_value(n as nat) == value + pow2i(n - remaining) * self@.bits_value(
                    remaining as nat,
                ),
                start.after_bits(n as nat) == self@.after_bits(remaining as nat),
            decreases remaining,
        {
            let ghost before = self@;
            self.init_cache();
            let k: usize = if remaining <= self.bits_in_cache {
                remaining
            } else {
                self.bits_in_cache
            };
            let base: u64 = pow2_u64(n - remaining);
            let piece: u64 = self.take_from_cache(k);
            proof {
                lemma_bits_step(before, remaining as nat);
                let read = (n - remaining) as nat;
                let left = (remaining - k) as nat;
                lemma_pow2i(read, k as nat);
                lemma_pow2i(read + (k as nat), 64);
                lemma_pow2i_small();
                let p = pow2i(k as int);
                let rest = self@.bits_value(left);
                assert(value + piece * base < base * p) by (nonlinear_arith)
                    requires
                        0 <= value < base,
                        0 <= piece < p,
                ;
                assert(0 <= piece * base <= value + piece * base) by (nonlinear_arith)
                    requires
                        0 <= value,
                        0 <= piece,
                        0 < base,
                ;
                assert(value + base * (piece + p * rest) == (value + piece * base) + (base * p)
                    * rest) by (nonlinear_arith);
            }
            value = value + piece * base;
            remaining = remaining - k;
        }
        value
    }

    /// Reads the next `n` bits as an unsigned number. Where fewer than `n` bits are left,
    /// nothing is read.
    pub fn read_bits(&mut self, n: usize) -> (res: Result<i128, DecodeError>)
        requires
            old(self)@.wf(),
            n <= 64,
        ensures
            final(self)@.wf(),
            match res {
                Ok(value) => {
                    &&& n <= old(self)@.bits_left()
                    &&& value == old(self)@.bits_value(n as nat)
                    &&& final(self)@ == old(self)@.after_bits(n as nat)
                },
                Err(e) => {
                    &&& n > old(self)@.bits_left()
                    &&& e == DecodeError::EndOfInput
                    &&& final(self)@ == old(self)@
                },
            },
    {
        if !self.has_bits(n) {
            return Err(DecodeError::EndOfInput);
        }
        let value: u64 = if self.big_endian {
            self.read_bits_big(n)
        } else {
            self.read_bits_little(n)
        };
        Ok(value as i128)
    }

    /// Drops the unread bits of the current byte.
    pub fn byte_align(&mut self)
        ensures
            final(self)@ == old(self)@.aligned(),
            old(self)@.wf() ==> final(self)@.wf(),
    {
        proof {
            lemma_pow2i_small();
        }
        self.bits_in_cache = 0;
        self.cache = 0;
    }

    /// Reads `length` bits and adds `offset` to their value.
    pub fn read_int(&mut self, length: usize, offset: i64) -> (res: Result<i64, DecodeError>)
        requires
            old(self)@.wf(),
            length <= 64,
        ensures
            final(self)@.wf(),
            res == int_in_range(
                old(self)@.bits_left(),
                length as nat,
                offset + old(self)@.bits_value(length as nat),
            ),
            final(self)@ == (if length <= old(self)@.bits_left() {
                old(self)@.after_bits(length as nat)
            } else {
                old(self)@
            }),
    {
        proof {
            lemma_pow2i_small();
            if length <= self@.bits_left() {
                lemma_bits_value_bound(self@, length as nat);
                lemma_pow2i(length as nat, 64);
            }
        }
        match self.read_bits(length) {
            Err(e) => Err(e),
            Ok(value) => {
                let sum: i128 = offset as i128 + value;
                if sum < i64::MIN as i128 || sum > i64::MAX as i128 {
                    Err(DecodeError::ResourceLimit { kind: LimitKind::IntegerRange })
                } else {
                    Ok(sum as i64)
                }
            },
        }
    }

    /// Drops the unread bits of the current byte and copies the next `n` bytes. Where
    /// fewer than `n` bytes are left, nothing is read.
    pub fn read_aligned_bytes(&mut self, n: usize) -> (res: Result<Vec<u8>, DecodeError>)
        requires
            old(self)@.wf(),
        ensures
            final(self)@.wf(),
            match res {
                Ok(bytes) => {
                    &&& n <= old(self)@.bytes_left()
                    &&& bytes@ == old(self)@.aligned_bytes(n as nat)
                    &&& final(self)@ == old(self)@.after_bytes(n as nat)
                },
                Err(e) => {
                    &&& n > old(self)@.bytes_left()
                    &&& e == DecodeError::EndOfInput
                    &&& final(self)@ == old(self)@
                },
            },
    {
        if n > self.data.len() - self.byte_index {
            return Err(DecodeError::EndOfInput);
        }
        let end: usize = self.byte_index + n;
        let bytes = slice_to_vec(slice_subrange(self.data, self.byte_index, end));
        self.byte_align();
        self.byte_index = end;
        Ok(bytes)
    }

    /// Reads `n` bytes as `n` reads of eight bits. Where fewer than `n` bytes are left,
    /// nothing is read.
    pub fn read_unaligned_bytes(&mut self, n: usize) -> (res: Result<Vec<u8>, DecodeError>)
        requires
            old(self)@.wf(),
        ensures
            final(self)@.wf(),
            match res {
                Ok(bytes) => {
                    &&& 8 * n <= old(self)@.bits_left()
                    &&& bytes@ == old(self)@.unaligned_bytes(n as nat)
                    &&& final(self)@ == old(self)@.after_bits(8 * (n as nat))
                },
                Err(e) => {
                    &&& 8 * n > old(self)@.bits_left()
                    &&& e == DecodeError::EndOfInput
                    &&& final(self)@ == old(self)@
                },
            },
    {
        let whole: usize = self.data.len() - self.byte_index;
        if !(n <= whole || (self.bits_in_cache == 8 && n - 1 <= whole)) {
            return Err(DecodeError::EndOfInput);
        }
        let ghost start = self@;
        let mut bytes: Vec<u8> = Vec::new();
        let mut i: usize = 0;
        while i < n
            invariant
                start.wf(),
                self@.wf(),
                i <= n,
                8 * n <= start.bits_left(),
                self@ == start.after_bits(8 * (i as nat)),
                bytes@ == start.unaligned_bytes(i as nat),
            decreases n - i,
        {
            proof {
                lemma_read_bits_additive(start, 8 * (i as nat), 8);
                lemma_bits_value_bound(self@, 8);
                lemma_pow2i_small();
            }
            let byte = match self.read_bits(8) {
                Ok(value) => value as u8,
                Err(e) => {
                    return Err(e);
                },
            };
            bytes.push(byte);
            i = i + 1;
            proof {
                assert(bytes@ =~= start.unaligned_bytes(i as nat));
            }
        }
        Ok(bytes)
    }

    /// Reads a bit array of `bits` bits: the whole bytes, then one byte for the bits left
    /// over, if any. Where fewer than `bits` bits are left, nothing is read.
    pub fn read_bit_array(&mut self, bits: usize) -> (res: Result<Vec<u8>, DecodeError>)
        requires
            old(self)@.wf(),
        ensures
            final(self)@.wf(),
            match res {
                Ok(bytes) => {
                    &&& bits <= old(self)@.bits_left()
                    &&& bytes@ == old(self)@.bit_array_bytes(bits as nat)
                    &&& final(self)@ == old(self)@.after_bits(bits as nat)
                },
                Err(e) => {
                    &&& bits > old(self)@.bits_left()
                    &&& e == DecodeError::EndOfInput
                    &&& final(self)@ == old(self)@
                },
            },
    {
        let whole: usize = bits / 8;
        let extra: usize = bits % 8;
        let left: u128 = (self.data.len() - self.byte_index) as u128 * 8
            + self.bits_in_cache as u128;
        if bits as u128 > left {
            return Err(DecodeError::EndOfInput);
        }
        let ghost start = self@;
        proof {
            lemma_read_bits_additive(start, 8 * (whole as nat), extra as nat);
        }
        let mut bytes = match self.read_unaligned_bytes(whole) {
            Ok(bytes) => bytes,
            Err(e) => {
                return Err(e);
            },
        };
        if extra != 0 {
            proof {
                lemma_bits_value_bound(self@, extra as nat);
                lemma_pow2i(extra as nat, 8);
                lemma_pow2i_small();
            }
            let last = match self.read_bits(extra) {
                Ok(value) => value as u8,
                Err(e) => {
                    return Err(e);
                },
            };
            bytes.push(last);
        }
        Ok(bytes)
    }

    /// Steps over the next byte, which has to be `expected`, and drops the unread bits of
    /// the current byte. The byte is passed also where it is another one; at the end of the
    /// data nothing changes.
    pub fn expect_and_skip_byte(&mut self, expected: u8) -> (res: Result<(), DecodeError>)
        requires
            old(self)@.wf(),
        ensures
            final(self)@.wf(),
            res == expected_byte(old(self)@, expected),
            final(self)@ == (if old(self)@.bytes_left() > 0 {
                old(self)@.after_bytes(1)
            } else {
                old(self)@
            }),
    {
        if self.byte_index >= self.data.len() {
            return Err(DecodeError::EndOfInput);
        }
        let offset: usize = self.byte_index;
        let actual: u8 = self.data[offset];
        self.byte_align();
        self.byte_index = offset + 1;
        if actual != expected {
            Err(DecodeError::UnexpectedTag { expected, actual, offset })
        } else {
            Ok(())
        }
    }

    /// Passes over `n` bytes; the unread bits of the current byte stay. Where fewer than
    /// `n` bytes are left, nothing changes.
    pub fn skip_bytes(&mut self, n: usize) -> (res: Result<(), DecodeError>)
        requires
            old(self)@.wf(),
        ensures
            final(self)@.wf(),
            match res {
                Ok(_) => n <= old(self)@.bytes_left() && final(self)@ == old(self)@.skipped(
                    n as nat,
                ),
                Err(e) => {
                    &&& n > old(self)@.bytes_left()
                    &&& e == DecodeError::EndOfInput
                    &&& final(self)@ == old(self)@
                },
            },
    {
        if n > self.data.len() - self.byte_index {
            return Err(DecodeError::EndOfInput);
        }
        self.byte_index = self.byte_index + n;
        Ok(())
    }

    /// Reads a variable-length signed integer.
    pub fn read_var_int(&mut self) -> (res: Result<i64, DecodeError>)
        requires
            old(self)@.wf(),
        ensures
            final(self)@.wf(),
            final(self)@.data == old(self)@.data,
            final(self)@.big_endian == old(self)@.big_endian,
            res is Err ==> res == Err::<i64, DecodeError>(DecodeError::EndOfInput) || res == Err::<
                i64,
                DecodeError,
            >(DecodeError::ResourceLimit { kind: LimitKind::IntegerRange }),
            match res {
                Ok(value) => old(self)@.var_int() == Ok::<(int, Cursor), DecodeError>(
                    (value as int, final(self)@),
                ),
                Err(e) => old(self)@.var_int() == Err::<(int, Cursor), DecodeError>(e),
            },
    {
        let ghost start = self@;
        let mut raw: u64 = 0;
        let mut k: usize = 0;
        proof {
            lemma_pow2i_small();
        }
        loop
            invariant_except_break
                k <= 9,
                0 <= raw < pow2i(7 * k),
                start.var_int_raw(0) == var_int_join(raw as int, self@.var_int_raw(k as nat)),
            invariant
                start == old(self)@,
                self@.wf(),
                self@.data == start.data,
                self@.big_endian == start.big_endian,
            ensures
                start.var_int_raw(0) == Ok::<(int, Cursor), DecodeError>((raw as int, self@)),
            decreases 10 - k,
        {
            let ghost before = self@;
            proof {
                if 8 <= before.bits_left() {
                    lemma_bits_value_bound(before, 8);
                }
                lemma_pow2i_small();
            }
            let byte: i128 = match self.read_bits(8) {
                Ok(byte) => byte,
                Err(e) => {
                    return Err(e);
                },
            };
            let digit: u64 = (byte % 128) as u64;
            if k == 9 && digit > 1 {
                return Err(DecodeError::ResourceLimit { kind: LimitKind::IntegerRange });
            }
            let scale: u64 = pow2_u64(7 * k);
            proof {
                lemma_pow2i((7 * k) as nat, 7);
                lemma_pow2i((7 * k + 7) as nat, 63);
                assert(raw + digit * scale < scale * 128 && 0 <= digit * scale) by (nonlinear_arith)
                    requires
                        0 <= raw < scale,
                        0 <= digit < 128,
                ;
                if k == 9 {
                    assert(raw + digit * scale < scale * 2 && 0 <= digit * scale)
                        by (nonlinear_arith)
                        requires
                            0 <= raw < scale,
                            0 <= digit <= 1,
                    ;
                    lemma_pow2i(63, 1);
                }
            }
            let ghost low = raw as int;
            raw = raw + digit * scale;
            if byte < 128 {
                break ;
            }
            k = k + 1;
            if k >= 10 {
                return Err(DecodeError::ResourceLimit { kind: LimitKind::IntegerRange });
            }
        }
        let magnitude: i64 = (raw / 2) as i64;
        if raw % 2 == 1 {
            Ok(-magnitude)
        } else {
            Ok(magnitude)
        }
    }

    /// Whether nothing is left to read.
    pub fn done(&self) -> (b: bool)
        ensures
            b == self@.done(),
    {
        self.bits_in_cache == 0 && self.byte_index >= self.data.len()
    }
}

} // verus!
