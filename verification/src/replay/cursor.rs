use crate::replay::error::{DecodeError, LimitKind};
use vstd::arithmetic::div_mod::*;
use vstd::arithmetic::mul::*;
use vstd::arithmetic::power2::*;
use vstd::prelude::*;

verus! {

/// Mathematical state of a bit cursor over a byte stream.
///
/// `data[byte_index..]` are the bytes not yet touched. `cache` is the value of the
/// `bits_in_cache` bits of the current byte that are still unread; bits leave a byte from
/// its low end, whatever the endianness, which only fixes how the pieces of one read are
/// put together.
pub struct Cursor {
    pub data: Seq<u8>,
    pub byte_index: int,
    pub cache: int,
    pub bits_in_cache: int,
    pub big_endian: bool,
}

/// Two to the power `k`, as an `int`.
pub open spec fn pow2i(k: int) -> int {
    pow2(k as nat) as int
}

impl Cursor {
    /// A cursor at the start of `data`.
    pub open spec fn start(data: Seq<u8>, big_endian: bool) -> Cursor {
        Cursor { data, byte_index: 0, cache: 0, bits_in_cache: 0, big_endian }
    }

    /// The cursor lies within its data and its cache holds no more than its unread bits.
    pub open spec fn wf(self) -> bool {
        &&& 0 <= self.byte_index <= self.data.len()
        &&& 0 <= self.bits_in_cache <= 8
        &&& 0 <= self.cache < pow2i(self.bits_in_cache)
    }

    /// Number of bits that can still be read.
    pub open spec fn bits_left(self) -> int {
        self.bits_in_cache + 8 * (self.data.len() - self.byte_index)
    }

    /// Number of whole bytes that lie behind the current byte.
    pub open spec fn bytes_left(self) -> int {
        self.data.len() - self.byte_index
    }

    /// Nothing is left to read.
    pub open spec fn done(self) -> bool {
        self.bits_in_cache == 0 && self.byte_index >= self.data.len()
    }

    /// The cursor after the unread bits of the current byte are dropped.
    pub open spec fn aligned(self) -> Cursor {
        Cursor { cache: 0, bits_in_cache: 0, ..self }
    }

    /// The cursor with a byte in its cache: the next byte is fetched if the cache is empty
    /// and a byte is left.
    pub open spec fn loaded(self) -> Cursor {
        if self.bits_in_cache == 0 && 0 <= self.byte_index < self.data.len() {
            Cursor {
                cache: self.data[self.byte_index] as int,
                bits_in_cache: 8,
                byte_index: self.byte_index + 1,
                ..self
            }
        } else {
            self
        }
    }

    /// The cursor after `k` bits have left the cache.
    pub open spec fn taken(self, k: nat) -> Cursor {
        Cursor {
            cache: self.cache / pow2i(k as int),
            bits_in_cache: self.bits_in_cache - k,
            ..self
        }
    }

    /// The value of the `k` bits that leave the cache next.
    pub open spec fn chunk(self, k: nat) -> int {
        self.cache % pow2i(k as int)
    }

    /// How many bits a read of `n` bits takes from the cache in its first step.
    pub open spec fn step(self, n: nat) -> nat {
        if n <= self.bits_in_cache {
            n
        } else if self.bits_in_cache > 0 {
            self.bits_in_cache as nat
        } else {
            0
        }
    }

    /// The unsigned value of the next `n` bits. A read proceeds byte by byte: the piece
    /// taken from one byte stands above the pieces that follow where the cursor is big
    /// endian, and below them where it is little endian.
    pub open spec fn bits_value(self, n: nat) -> int
        decreases n,
    {
        let l = self.loaded();
        let k = l.step(n);
        if n == 0 || k == 0 {
            0
        } else if self.big_endian {
            l.chunk(k) * pow2i(n - k) + l.taken(k).bits_value((n - k) as nat)
        } else {
            l.chunk(k) + pow2i(k as int) * l.taken(k).bits_value((n - k) as nat)
        }
    }

    /// The cursor after the next `n` bits have been read.
    pub open spec fn after_bits(self, n: nat) -> Cursor
        decreases n,
    {
        let l = self.loaded();
        let k = l.step(n);
        if n == 0 || k == 0 {
            self
        } else {
            l.taken(k).after_bits((n - k) as nat)
        }
    }

    /// The next `n` bytes behind the current byte.
    pub open spec fn aligned_bytes(self, n: nat) -> Seq<u8> {
        self.data.subrange(self.byte_index, self.byte_index + n)
    }

    /// The cursor after an aligned read of `n` bytes: the cache is dropped and `n` bytes
    /// are passed over.
    pub open spec fn after_bytes(self, n: nat) -> Cursor {
        Cursor { byte_index: self.byte_index + n, cache: 0, bits_in_cache: 0, ..self }
    }

    /// The next `n` bytes as successive reads of eight bits give them.
    pub open spec fn unaligned_bytes(self, n: nat) -> Seq<u8> {
        Seq::new(n, |i: int| self.after_bits((8 * i) as nat).bits_value(8) as u8)
    }

    /// The bytes of a bit array of `bits` bits: the whole bytes as unaligned reads give
    /// them, then one byte that holds the bits left over, if there are any.
    pub open spec fn bit_array_bytes(self, bits: nat) -> Seq<u8> {
        let whole = bits / 8;
        let extra = bits % 8;
        if extra == 0 {
            self.unaligned_bytes(whole)
        } else {
            self.unaligned_bytes(whole).push(
                self.after_bits(8 * whole).bits_value(extra) as u8,
            )
        }
    }

    /// The cursor after `n` bytes have been passed over; the cache stays as it is.
    pub open spec fn skipped(self, n: nat) -> Cursor {
        Cursor { byte_index: self.byte_index + n, ..self }
    }

    /// The variable-length integer whose bytes start at this cursor, before its sign is
    /// applied, where `k` bytes of it have been read already: each byte, read as eight
    /// bits, gives seven bits of the number, low digits first, and its top bit says
    /// whether another byte follows. The number has to fit 64 bits, so it has at most ten
    /// bytes and the tenth gives one bit.
    pub open spec fn var_int_raw(self, k: nat) -> Result<(int, Cursor), DecodeError>
        decreases 10 - k,
    {
        if k >= 10 {
            Err(DecodeError::ResourceLimit { kind: LimitKind::IntegerRange })
        } else if self.bits_left() < 8 {
            Err(DecodeError::EndOfInput)
        } else {
            let byte = self.bits_value(8);
            let next = self.after_bits(8);
            let digit = byte % 128;
            if k == 9 && digit > 1 {
                Err(DecodeError::ResourceLimit { kind: LimitKind::IntegerRange })
            } else if byte < 128 {
                Ok((digit * pow2i(7 * (k as int)), next))
            } else {
                var_int_join(digit * pow2i(7 * (k as int)), next.var_int_raw(k + 1))
            }
        }
    }

    /// The variable-length signed integer whose bytes start at this cursor, and the cursor
    /// behind it.
    pub open spec fn var_int(self) -> Result<(int, Cursor), DecodeError> {
        match self.var_int_raw(0) {
            Ok((raw, end)) => Ok((zigzag(raw), end)),
            Err(e) => Err(e),
        }
    }
}

/// Adds the low digits `low` to the number that the rest of a variable-length integer
/// gave.
pub open spec fn var_int_join(low: int, rest: Result<(int, Cursor), DecodeError>) -> Result<
    (int, Cursor),
    DecodeError,
> {
    match rest {
        Ok((high, end)) => Ok((low + high, end)),
        Err(e) => Err(e),
    }
}

/// The signed number that a variable-length integer stands for: its lowest bit is the
/// sign, the bits above it are the magnitude.
pub open spec fn zigzag(raw: int) -> int {
    if raw % 2 == 1 {
        -(raw / 2)
    } else {
        raw / 2
    }
}

/// `pow2i` at the exponents that a byte cache meets.
pub proof fn lemma_pow2i_small()
    ensures
        pow2i(0) == 1,
        pow2i(1) == 2,
        pow2i(2) == 4,
        pow2i(3) == 8,
        pow2i(4) == 16,
        pow2i(5) == 32,
        pow2i(6) == 64,
        pow2i(7) == 128,
        pow2i(8) == 256,
        pow2i(56) == 0x100_0000_0000_0000,
        pow2i(63) == 0x8000_0000_0000_0000,
        pow2i(64) == 0x1_0000_0000_0000_0000,
{
    lemma2_to64();
    lemma2_to64_rest();
}

/// `pow2i` is positive, monotonic and turns sums of exponents into products.
pub proof fn lemma_pow2i(a: nat, b: nat)
    ensures
        pow2i(a as int) > 0,
        pow2i((a + b) as int) == pow2i(a as int) * pow2i(b as int),
        a <= b ==> pow2i(a as int) <= pow2i(b as int),
{
    lemma_pow2_pos(a);
    lemma_pow2_adds(a, b);
    if a < b {
        lemma_pow2_strictly_increases(a, b);
    }
}

/// What one step of a read does: the first piece comes from the loaded cache, and the rest
/// of the read starts from the cursor that the piece has left.
pub proof fn lemma_bits_step(c: Cursor, n: nat)
    requires
        c.wf(),
        0 < n <= c.bits_left(),
    ensures
        ({
            let l = c.loaded();
            let k = l.step(n);
            &&& l.wf()
            &&& l.bits_left() == c.bits_left()
            &&& 0 < k <= n
            &&& k <= l.bits_in_cache
            &&& 0 <= l.chunk(k) < pow2i(k as int)
            &&& l.taken(k).wf()
            &&& l.taken(k).bits_left() == c.bits_left() - k
            &&& c.after_bits(n) == l.taken(k).after_bits((n - k) as nat)
            &&& c.big_endian ==> c.bits_value(n) == l.chunk(k) * pow2i(n - k) + l.taken(
                k,
            ).bits_value((n - k) as nat)
            &&& !c.big_endian ==> c.bits_value(n) == l.chunk(k) + pow2i(k as int) * l.taken(
                k,
            ).bits_value((n - k) as nat)
        }),
{
    lemma_pow2i_small();
    let l = c.loaded();
    let k = l.step(n);
    assert(l.wf());
    assert(0 < l.bits_in_cache);
    lemma_taken_wf(l, k);
}

/// Taking `k` bits from a cache that holds at least as many leaves a well-formed cursor.
pub proof fn lemma_taken_wf(c: Cursor, k: nat)
    requires
        c.wf(),
        k <= c.bits_in_cache,
    ensures
        c.taken(k).wf(),
        0 <= c.chunk(k) < pow2i(k as int),
        c.cache == c.chunk(k) + pow2i(k as int) * c.taken(k).cache,
        k == c.bits_in_cache ==> c.taken(k).cache == 0 && c.chunk(k) == c.cache,
{
    let p = pow2i(k as int);
    let rest = (c.bits_in_cache - k) as nat;
    lemma_pow2i(k, rest);
    lemma_pow2i(rest, 0);
    lemma_pow2i_small();
    lemma_mod_pos_bound(c.cache, p);
    lemma_div_pos_is_pos(c.cache, p);
    lemma_fundamental_div_mod(c.cache, p);
    assert(c.cache < pow2i(rest as int) * p) by {
        lemma_mul_is_commutative(pow2i(rest as int), p);
    }
    lemma_multiply_divide_lt(c.cache, p, pow2i(rest as int));
    if k == c.bits_in_cache {
        lemma_small_mod(c.cache as nat, p as nat);
    }
}

/// The value of `n` bits lies below two to the `n`, and reading `n` bits uses up `n` bits.
pub proof fn lemma_bits_value_bound(c: Cursor, n: nat)
    requires
        c.wf(),
        n <= c.bits_left(),
    ensures
        0 <= c.bits_value(n) < pow2i(n as int),
        c.after_bits(n).wf(),
        c.after_bits(n).bits_left() == c.bits_left() - n,
        c.after_bits(n).data == c.data,
        c.after_bits(n).big_endian == c.big_endian,
    decreases n,
{
    lemma_pow2i_small();
    if n > 0 {
        lemma_bits_step(c, n);
        let l = c.loaded();
        let k = l.step(n);
        let r = l.taken(k);
        let m = (n - k) as nat;
        lemma_bits_value_bound(r, m);
        lemma_pow2i(k, m);
        let hi = pow2i(k as int);
        let lo = pow2i(m as int);
        let x = l.chunk(k);
        let y = r.bits_value(m);
        if c.big_endian {
            assert(x * lo + y < hi * lo) by (nonlinear_arith)
                requires
                    0 <= x < hi,
                    0 <= y < lo,
            ;
            assert(0 <= x * lo + y) by (nonlinear_arith)
                requires
                    0 <= x,
                    0 <= y,
                    0 < lo,
            ;
        } else {
            assert(x + hi * y < hi * lo) by (nonlinear_arith)
                requires
                    0 <= x < hi,
                    0 <= y < lo,
            ;
            assert(0 <= x + hi * y) by (nonlinear_arith)
                requires
                    0 <= x,
                    0 <= y,
                    0 < hi,
            ;
        }
    }
}

/// Taking `a` bits and then `b` bits from the cache is taking `a + b` bits at once; the
/// piece of `a + b` bits holds the piece of `a` bits below the piece of `b` bits.
pub proof fn lemma_taken_twice(c: Cursor, a: nat, b: nat)
    requires
        c.wf(),
        a + b <= c.bits_in_cache,
    ensures
        c.taken(a).taken(b) == c.taken(a + b),
        c.chunk(a + b) == c.chunk(a) + pow2i(a as int) * c.taken(a).chunk(b),
{
    let pa = pow2i(a as int);
    let pb = pow2i(b as int);
    lemma_pow2i(a, b);
    lemma_pow2i(b, 0);
    lemma_div_denominator(c.cache, pa, pb);
    lemma_breakdown(c.cache, pa, pb);
}

/// Reading `a + b` bits is reading `a` bits and then `b` bits. The cursor ends in the same
/// state either way. A little-endian cursor holds the first value below the second. A
/// big-endian cursor holds the first value above the second where the first read ends on a
/// byte boundary (or one of the two reads is empty): within a byte the bits leave from the
/// low end, so a read that stops inside a byte splits that byte the other way round.
pub proof fn lemma_read_bits_additive(c: Cursor, a: nat, b: nat)
    requires
        c.wf(),
    ensures
        a + b <= c.bits_left() <==> a <= c.bits_left() && b <= c.after_bits(a).bits_left(),
        a + b <= c.bits_left() ==> c.after_bits(a).after_bits(b) == c.after_bits(a + b),
        a + b <= c.bits_left() && !c.big_endian ==> c.bits_value(a + b) == c.bits_value(a)
            + pow2i(a as int) * c.after_bits(a).bits_value(b),
        a + b <= c.bits_left() && c.big_endian && (a == 0 || b == 0 || c.after_bits(
            a,
        ).bits_in_cache == 0) ==> c.bits_value(a + b) == c.bits_value(a) * pow2i(b as int)
            + c.after_bits(a).bits_value(b),
    decreases a,
{
    lemma_pow2i_small();
    if a <= c.bits_left() {
        lemma_bits_value_bound(c, a);
    }
    if a + b <= c.bits_left() {
        let va = c.bits_value(a);
        let x = c.after_bits(a).bits_value(b);
        if a == 0 {
            assert(va * pow2i(b as int) == 0) by (nonlinear_arith)
                requires
                    va == 0,
            ;
            assert(pow2i(0) * x == x) by (nonlinear_arith)
                requires
                    pow2i(0) == 1,
            ;
        } else if b == 0 {
            assert(va * pow2i(0) == va) by (nonlinear_arith)
                requires
                    pow2i(0) == 1,
            ;
            assert(pow2i(a as int) * x == 0) by (nonlinear_arith)
                requires
                    x == 0,
            ;
        } else {
            lemma_bits_step(c, a);
            lemma_bits_step(c, a + b);
            let l = c.loaded();
            let ka = l.step(a);
            let kn = l.step(a + b);
            if a >= l.bits_in_cache {
                let r = l.taken(ka);
                let m = (a - ka) as nat;
                lemma_read_bits_additive(r, m, b);
                assert(m + b == a + b - kn);
                let piece = l.chunk(ka);
                let vm = r.bits_value(m);
                lemma_pow2i(m, b);
                lemma_pow2i(ka, m);
                let pm = pow2i(m as int);
                let pb = pow2i(b as int);
                let pk = pow2i(ka as int);
                if c.big_endian {
                    if c.after_bits(a).bits_in_cache == 0 {
                        assert(piece * (pm * pb) + (vm * pb + x) == (piece * pm + vm) * pb + x)
                            by (nonlinear_arith);
                    }
                } else {
                    assert(piece + pk * (vm + pm * x) == (piece + pk * vm) + (pk * pm) * x)
                        by (nonlinear_arith);
                }
            } else {
                let r = l.taken(a);
                let kb = r.step(b);
                assert(kb + a == kn);
                lemma_bits_step(r, b);
                lemma_taken_twice(l, a, kb);
                lemma_pow2i(a, kb);
                let rest = l.taken(kn).bits_value((a + b - kn) as nat);
                let pa = pow2i(a as int);
                let pk = pow2i(kb as int);
                let first = l.chunk(a);
                let second = r.chunk(kb);
                assert(c.after_bits(a) == r);
                assert(r.taken(kb).bits_value((b - kb) as nat) == rest);
                if !c.big_endian {
                    assert(va == first) by {
                        assert(r.bits_value(0) == 0);
                        assert(pa * r.bits_value(0) == 0) by (nonlinear_arith)
                            requires
                                r.bits_value(0) == 0,
                        ;
                    }
                    assert((first + pa * second) + (pa * pk) * rest == first + pa * (second + pk
                        * rest)) by (nonlinear_arith);
                }
            }
        }
    }
}

/// A read of eight bits on a byte boundary yields the next byte, whatever the endianness.
pub proof fn lemma_aligned_byte(c: Cursor)
    requires
        c.wf(),
        c.bits_in_cache == 0,
        c.byte_index < c.data.len(),
    ensures
        c.bits_value(8) == c.data[c.byte_index],
        c.after_bits(8) == c.after_bytes(1),
{
    lemma_pow2i_small();
    lemma_bits_step(c, 8);
    let l = c.loaded();
    lemma_taken_wf(l, 8);
    let r = l.taken(8);
    assert(r.bits_value(0) == 0);
    assert(r.after_bits(0) == r);
    assert(l.chunk(8) * pow2i(0) == l.chunk(8)) by (nonlinear_arith)
        requires
            pow2i(0) == 1,
    ;
    assert(pow2i(8) * r.bits_value(0) == 0) by (nonlinear_arith)
        requires
            r.bits_value(0) == 0,
    ;
}

/// The bytes that unaligned reads give on a byte boundary are the bytes of the data.
pub proof fn lemma_unaligned_bytes_when_aligned(c: Cursor, n: nat)
    requires
        c.wf(),
        c.bits_in_cache == 0,
        n <= c.bytes_left(),
    ensures
        c.after_bits(8 * n) == (if n == 0 {
            c
        } else {
            c.after_bytes(n)
        }),
        c.unaligned_bytes(n) == c.aligned_bytes(n),
    decreases n,
{
    if n > 0 {
        let m = (n - 1) as nat;
        lemma_unaligned_bytes_when_aligned(c, m);
        let mid = c.after_bits(8 * m);
        assert(mid.wf() && mid.bits_in_cache == 0 && mid.byte_index == c.byte_index + m
            && mid.data == c.data) by {
            lemma_pow2i_small();
        }
        lemma_aligned_byte(mid);
        lemma_read_bits_additive(c, 8 * m, 8);
        assert(8 * m + 8 == 8 * n);
        assert(c.after_bits(8 * n) == c.after_bytes(n));
        assert forall|i: int| 0 <= i < n implies c.unaligned_bytes(n)[i] == c.aligned_bytes(
            n,
        )[i] by {
            if i < m {
                assert(c.unaligned_bytes(m)[i] == c.aligned_bytes(m)[i]);
            }
        }
        assert(c.unaligned_bytes(n) =~= c.aligned_bytes(n));
    } else {
        assert(c.unaligned_bytes(n) =~= c.aligned_bytes(n));
    }
}

/// Aligning twice is aligning once, and aligning a cursor that stands on a byte boundary
/// changes nothing; that is where every aligned read leaves the cursor.
pub proof fn lemma_byte_align_idempotent(c: Cursor, n: nat)
    requires
        c.wf(),
    ensures
        c.aligned().aligned() == c.aligned(),
        c.bits_in_cache == 0 ==> c.aligned() == c,
        c.after_bytes(n).aligned() == c.after_bytes(n),
{
    lemma_pow2i_small();
}

} // verus!
