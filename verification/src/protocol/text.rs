use vstd::prelude::*;
use vstd::string::*;
use vstd::utf8::*;

verus! {

/// Position `mid` of `bytes` is an end of the sequence or touches a byte below 128.
pub open spec fn ascii_edge(bytes: Seq<u8>, mid: int) -> bool {
    &&& 0 <= mid <= bytes.len()
    &&& (mid == 0 || mid == bytes.len() || bytes[mid] < 0x80 || bytes[mid - 1] < 0x80)
}

/// A text in UTF-8 that is not empty starts with a byte that starts a character.
proof fn lemma_first_byte_leads(bytes: Seq<u8>)
    requires
        valid_utf8(bytes),
        bytes.len() > 0,
    ensures
        !is_continuation_byte(bytes[0]),
{
}

/// In a text in UTF-8 a character starts at every position that touches a byte below 128.
pub proof fn lemma_ascii_edge_is_boundary(bytes: Seq<u8>, mid: int)
    requires
        valid_utf8(bytes),
        ascii_edge(bytes, mid),
    ensures
        is_char_boundary(bytes, mid),
{
    is_char_boundary_start_end_of_seq(bytes);
    if 0 < mid < bytes.len() {
        if bytes[mid] < 0x80 {
            is_char_boundary_iff_not_is_continuation_byte(bytes, mid);
        } else {
            is_char_boundary_iff_not_is_continuation_byte(bytes, mid - 1);
            valid_utf8_split(bytes, mid - 1);
            let tail = bytes.subrange(mid - 1, bytes.len() as int);
            assert(tail[0] == bytes[mid - 1]);
            assert(length_of_first_scalar(tail) == 1);
            let rest = pop_first_scalar(tail);
            assert(valid_utf8(rest));
            assert(rest =~= bytes.subrange(mid, bytes.len() as int));
            lemma_first_byte_leads(rest);
            assert(rest[0] == bytes[mid]);
            is_char_boundary_iff_not_is_continuation_byte(bytes, mid);
        }
    }
}

/// Splits `s` behind its first `mid` bytes.
pub(crate) fn split_at_edge<'a>(s: &'a str, mid: usize) -> (parts: (&'a str, &'a str))
    requires
        ascii_edge(s.spec_bytes(), mid as int),
    ensures
        parts.0.spec_bytes() == s.spec_bytes().subrange(0, mid as int),
        parts.1.spec_bytes() == s.spec_bytes().subrange(mid as int, s.spec_bytes().len() as int),
{
    proof {
        encode_utf8_valid_utf8(s@);
        lemma_ascii_edge_is_boundary(s.spec_bytes(), mid as int);
    }
    s.split_at(mid)
}

/// Every byte of `bytes` is below 128.
pub open spec fn ascii(bytes: Seq<u8>) -> bool {
    forall|i: int| 0 <= i < bytes.len() ==> bytes[i] < 0x80
}

/// `s` starts with `pat`.
pub open spec fn starts_with(s: Seq<u8>, pat: Seq<u8>) -> bool {
    pat.len() <= s.len() && s.subrange(0, pat.len() as int) == pat
}

/// `pat` stands in `s` at position `at`.
pub open spec fn stands_at(s: Seq<u8>, pat: Seq<u8>, at: int) -> bool {
    0 <= at && at + pat.len() <= s.len() && s.subrange(at, at + pat.len()) == pat
}

/// The first position of `s`, from `from` on, at which `pat` stands.
pub open spec fn find_from(s: Seq<u8>, pat: Seq<u8>, from: int) -> Option<int>
    decreases s.len() - from,
{
    if from < 0 || from + pat.len() > s.len() {
        None
    } else if stands_at(s, pat, from) {
        Some(from)
    } else if from >= s.len() {
        None
    } else {
        find_from(s, pat, from + 1)
    }
}

/// What follows `pat` at the start of `s`, if `s` starts with `pat`.
pub open spec fn after_tag(s: Seq<u8>, pat: Seq<u8>) -> Option<Seq<u8>> {
    if starts_with(s, pat) {
        Some(s.skip(pat.len() as int))
    } else {
        None
    }
}

/// The part of `s` in front of the first place at which `pat` stands, and the rest of `s`
/// from that place on; `None` if `pat` stands nowhere in `s`.
pub open spec fn until(s: Seq<u8>, pat: Seq<u8>) -> Option<(Seq<u8>, Seq<u8>)> {
    match find_from(s, pat, 0) {
        Some(i) => Some((s.take(i), s.skip(i))),
        None => None,
    }
}

/// The part of `s` in front of the first place at which `open` stands, and what follows
/// `open` there.
pub open spec fn until_past(s: Seq<u8>, pat: Seq<u8>) -> Option<(Seq<u8>, Seq<u8>)> {
    match until(s, pat) {
        Some((taken, rest)) => Some((taken, rest.skip(pat.len() as int))),
        None => None,
    }
}

/// How many bytes of `s`, from position `from` on, belong to `set` without a break.
pub open spec fn run_from(s: Seq<u8>, set: Seq<u8>, from: int) -> int
    decreases s.len() - from,
{
    if 0 <= from < s.len() && set.contains(s[from]) {
        1 + run_from(s, set, from + 1)
    } else {
        0
    }
}

/// The longest start of `s` made of bytes of `set`, and the rest of `s`.
pub open spec fn run(s: Seq<u8>, set: Seq<u8>) -> (Seq<u8>, Seq<u8>) {
    let n = run_from(s, set, 0);
    (s.take(n), s.skip(n))
}

/// The bytes of a text of plain ASCII characters.
pub open spec fn lit(chars: Seq<char>) -> Seq<u8> {
    Seq::new(chars.len(), |i: int| chars[i] as u8)
}

/// The ten digits.
pub open spec fn digits() -> Seq<u8> {
    lit("0123456789"@)
}

/// Space and tab.
pub open spec fn blanks() -> Seq<u8> {
    lit(" \t"@)
}

/// The line feed.
pub open spec fn line_feed() -> Seq<u8> {
    lit("\n"@)
}

/// The first line of `s`, without its line feed.
pub open spec fn first_line(s: Seq<u8>) -> Seq<u8> {
    match until(s, line_feed()) {
        Some((line, _)) => line,
        None => s,
    }
}

/// Every byte of `s` is a digit.
pub open spec fn all_digits(s: Seq<u8>) -> bool {
    forall|i: int| 0 <= i < s.len() ==> '0' as u8 <= #[trigger] s[i] <= '9' as u8
}

/// The number that the digits `s` write in base ten.
pub open spec fn decimal(s: Seq<u8>) -> nat
    decreases s.len(),
{
    if s.len() == 0 {
        0
    } else {
        decimal(s.drop_last()) * 10 + (s.last() - '0' as u8) as nat
    }
}

/// The number that `s` writes, if it is at most `max`: digits, with or without a plus sign
/// in front.
pub open spec fn unsigned_of(s: Seq<u8>, max: nat) -> Option<nat> {
    let body = if s.len() > 0 && s[0] == '+' as u8 {
        s.skip(1)
    } else {
        s
    };
    if body.len() > 0 && all_digits(body) && decimal(body) <= max {
        Some(decimal(body))
    } else {
        None
    }
}

/// The number that `s` writes, if it fits 64 bits with a sign: digits, with or without a
/// plus or minus sign in front.
pub open spec fn signed_of(s: Seq<u8>) -> Option<int> {
    if s.len() > 0 && s[0] == '-' as u8 {
        let body = s.skip(1);
        if body.len() > 0 && all_digits(body) && decimal(body) <= 0x8000_0000_0000_0000 {
            Some(-(decimal(body) as int))
        } else {
            None
        }
    } else {
        match unsigned_of(s, 0x7fff_ffff_ffff_ffff) {
            Some(v) => Some(v as int),
            None => None,
        }
    }
}

/// Where `pat` stands first in `s` from `from` on, it stands nowhere in front of that place.
pub proof fn lemma_find_from(s: Seq<u8>, pat: Seq<u8>, from: int)
    requires
        0 <= from,
    ensures
        match find_from(s, pat, from) {
            Some(i) => {
                &&& from <= i
                &&& stands_at(s, pat, i)
                &&& forall|j: int| from <= j < i ==> !stands_at(s, pat, j)
            },
            None => forall|j: int| from <= j ==> !stands_at(s, pat, j),
        },
    decreases s.len() - from,
{
    if from + pat.len() <= s.len() && !stands_at(s, pat, from) && from < s.len() {
        lemma_find_from(s, pat, from + 1);
    }
}

/// A run ends within `s`, and holds bytes of the set alone.
pub proof fn lemma_run_from(s: Seq<u8>, set: Seq<u8>, from: int)
    requires
        0 <= from <= s.len(),
    ensures
        0 <= run_from(s, set, from),
        from + run_from(s, set, from) <= s.len(),
        forall|j: int| from <= j < from + run_from(s, set, from) ==> set.contains(s[j]),
        from + run_from(s, set, from) < s.len() ==> !set.contains(
            s[from + run_from(s, set, from)],
        ),
    decreases s.len() - from,
{
    if from < s.len() && set.contains(s[from]) {
        lemma_run_from(s, set, from + 1);
    }
}

/// The bytes of `text`, which holds plain ASCII characters alone.
pub(crate) fn ascii_bytes<'a>(text: &'a str) -> (bytes: &'a [u8])
    requires
        is_ascii(text),
    ensures
        bytes@ == lit(text@),
        ascii(bytes@),
{
    proof {
        is_ascii_spec_bytes(text);
        is_ascii_chars_nat_bound(text@);
    }
    text.as_bytes()
}

/// Whether `input` starts with `pat`.
pub fn begins_with(input: &str, pat: &[u8]) -> (res: bool)
    ensures
        res == starts_with(input.spec_bytes(), pat@),
{
    let bytes = input.as_bytes();
    if pat.len() > bytes.len() {
        return false;
    }
    let mut i: usize = 0;
    while i < pat.len()
        invariant
            i <= pat.len() <= bytes.len(),
            bytes@ == input.spec_bytes(),
            bytes@.subrange(0, i as int) == pat@.subrange(0, i as int),
        decreases pat.len() - i,
    {
        if bytes[i] != pat[i] {
            proof {
                assert(bytes@.subrange(0, pat@.len() as int)[i as int] != pat@[i as int]);
            }
            return false;
        }
        i = i + 1;
        proof {
            assert(bytes@.subrange(0, i as int) =~= bytes@.subrange(0, i - 1).push(bytes@[i - 1]));
            assert(pat@.subrange(0, i as int) =~= pat@.subrange(0, i - 1).push(pat@[i - 1]));
        }
    }
    proof {
        assert(pat@.subrange(0, pat@.len() as int) =~= pat@);
    }
    true
}

/// Whether `pat` stands in `bytes` at position `at`.
fn matches_at(bytes: &[u8], at: usize, pat: &[u8]) -> (res: bool)
    requires
        at + pat@.len() <= bytes@.len(),
    ensures
        res == (bytes@.subrange(at as int, at + pat@.len()) == pat@),
{
    let total: usize = bytes.len();
    let mut i: usize = 0;
    while i < pat.len()
        invariant
            i <= pat.len(),
            at + pat@.len() <= bytes@.len() == total,
            bytes@.subrange(at as int, at + i) == pat@.subrange(0, i as int),
        decreases pat.len() - i,
    {
        if bytes[at + i] != pat[i] {
            proof {
                assert(bytes@.subrange(at as int, at + pat@.len())[i as int] != pat@[i as int]);
            }
            return false;
        }
        i = i + 1;
        proof {
            let shorter = bytes@.subrange(at as int, at + i - 1);
            assert(bytes@.subrange(at as int, at + i) =~= shorter.push(bytes@[at + i - 1]));
            assert(pat@.subrange(0, i as int) =~= pat@.subrange(0, i - 1).push(pat@[i - 1]));
        }
    }
    proof {
        assert(pat@.subrange(0, pat@.len() as int) =~= pat@);
    }
    true
}

/// What follows `pat` at the start of `input`, if `input` starts with `pat`.
pub(crate) fn tag<'a>(input: &'a str, pat: &[u8]) -> (res: Option<&'a str>)
    requires
        ascii(pat@),
    ensures
        match res {
            Some(rest) => after_tag(input.spec_bytes(), pat@) == Some(rest.spec_bytes()),
            None => after_tag(input.spec_bytes(), pat@) is None,
        },
{
    if begins_with(input, pat) {
        proof {
            let bytes = input.spec_bytes();
            let last = pat@.len() - 1;
            if pat@.len() > 0 {
                assert(bytes.subrange(0, pat@.len() as int)[last] == pat@[last]);
            }
        }
        let (_, rest) = split_at_edge(input, pat.len());
        Some(rest)
    } else {
        None
    }
}

/// The part of `input` in front of the first place at which `pat` stands, and the rest of
/// `input` from that place on.
pub(crate) fn take_until<'a>(input: &'a str, pat: &[u8]) -> (res: Option<(&'a str, &'a str)>)
    requires
        ascii(pat@),
        pat@.len() > 0,
    ensures
        match res {
            Some((taken, rest)) => until(input.spec_bytes(), pat@) == Some(
                (taken.spec_bytes(), rest.spec_bytes()),
            ),
            None => until(input.spec_bytes(), pat@) is None,
        },
{
    let bytes = input.as_bytes();
    if pat.len() > bytes.len() {
        return None;
    }
    let last: usize = bytes.len() - pat.len();
    let mut i: usize = 0;
    while i <= last
        invariant
            i <= last + 1,
            last + pat@.len() == bytes@.len() <= usize::MAX,
            bytes@ == input.spec_bytes(),
            pat@.len() > 0,
            ascii(pat@),
            find_from(bytes@, pat@, 0) == find_from(bytes@, pat@, i as int),
        decreases last + 1 - i,
    {
        if matches_at(bytes, i, pat) {
            proof {
                assert(bytes@.subrange(i as int, i + pat@.len())[0] == pat@[0]);
            }
            let (taken, rest) = split_at_edge(input, i);
            return Some((taken, rest));
        }
        i = i + 1;
    }
    None
}

/// The part of `input` in front of the first place at which `pat` stands, and what follows
/// `pat` there.
pub(crate) fn take_until_past<'a>(input: &'a str, pat: &[u8]) -> (res: Option<(&'a str, &'a str)>)
    requires
        ascii(pat@),
        pat@.len() > 0,
    ensures
        match res {
            Some((taken, rest)) => until_past(input.spec_bytes(), pat@) == Some(
                (taken.spec_bytes(), rest.spec_bytes()),
            ),
            None => until_past(input.spec_bytes(), pat@) is None,
        },
{
    match take_until(input, pat) {
        None => None,
        Some((taken, rest)) => {
            proof {
                lemma_find_from(input.spec_bytes(), pat@, 0);
                let i = find_from(input.spec_bytes(), pat@, 0)->0;
                let found = input.spec_bytes().subrange(i, i + pat@.len());
                assert(rest.spec_bytes().subrange(0, pat@.len() as int) =~= found);
            }
            match tag(rest, pat) {
                Some(rest) => Some((taken, rest)),
                None => None,
            }
        },
    }
}

/// Whether `set` holds `byte`.
fn set_holds(set: &[u8], byte: u8) -> (res: bool)
    ensures
        res == set@.contains(byte),
{
    let mut i: usize = 0;
    while i < set.len()
        invariant
            i <= set.len(),
            forall|j: int| 0 <= j < i ==> set@[j] != byte,
        decreases set.len() - i,
    {
        if set[i] == byte {
            return true;
        }
        i = i + 1;
    }
    false
}

/// The longest start of `input` made of bytes of `set`, and the rest of `input`.
pub(crate) fn take_run<'a>(input: &'a str, set: &[u8]) -> (res: (&'a str, &'a str))
    requires
        ascii(set@),
    ensures
        run(input.spec_bytes(), set@) == (res.0.spec_bytes(), res.1.spec_bytes()),
{
    let bytes = input.as_bytes();
    let mut n: usize = 0;
    while n < bytes.len() && set_holds(set, bytes[n])
        invariant
            n <= bytes.len(),
            bytes@ == input.spec_bytes(),
            ascii(set@),
            run_from(bytes@, set@, 0) == n + run_from(bytes@, set@, n as int),
            n > 0 ==> bytes@[n - 1] < 0x80,
        decreases bytes.len() - n,
    {
        n = n + 1;
    }
    split_at_edge(input, n)
}


/// The digits of a start of `s` write no more than the digits of `s`.
pub proof fn lemma_decimal_prefix(s: Seq<u8>, k: int)
    requires
        0 <= k <= s.len(),
    ensures
        decimal(s.take(k)) <= decimal(s),
    decreases s.len() - k,
{
    if k < s.len() {
        assert(s.drop_last().take(k) =~= s.take(k));
        lemma_decimal_prefix(s.drop_last(), k);
    } else {
        assert(s.take(k) =~= s);
    }
}

/// What the digits of `bytes` from `from` on write, if it is at most `max`.
fn parse_digits(bytes: &[u8], from: usize, max: u64) -> (res: Option<u64>)
    requires
        from <= bytes@.len(),
    ensures
        res == (if bytes@.skip(from as int).len() > 0 && all_digits(bytes@.skip(from as int))
            && decimal(bytes@.skip(from as int)) <= max {
            Some(decimal(bytes@.skip(from as int)) as u64)
        } else {
            None
        }),
{
    let ghost body = bytes@.skip(from as int);
    if from >= bytes.len() {
        return None;
    }
    let mut value: u64 = 0;
    let mut i: usize = from;
    proof {
        assert(body.take(0) =~= Seq::empty());
    }
    while i < bytes.len()
        invariant
            from <= i <= bytes@.len(),
            body == bytes@.skip(from as int),
            all_digits(body.take(i - from)),
            value == decimal(body.take(i - from)),
            value <= max,
        decreases bytes.len() - i,
    {
        let b: u8 = bytes[i];
        if b < '0' as u8 || b > '9' as u8 {
            proof {
                assert(body[i - from] == b);
            }
            return None;
        }
        let digit: u64 = (b - '0' as u8) as u64;
        let ghost next = body.take(i - from + 1);
        proof {
            assert(next.drop_last() =~= body.take(i - from));
            assert(next.last() == b);
            assert forall|j: int| 0 <= j < next.len() implies '0' as u8 <= #[trigger] next[j]
                <= '9' as u8 by {
                if j < i - from {
                    assert(body.take(i - from)[j] == next[j]);
                }
            }
            lemma_decimal_prefix(body, i - from + 1);
        }
        if digit > max || value > (max - digit) / 10 {
            return None;
        }
        value = value * 10 + digit;
        i = i + 1;
    }
    proof {
        assert(body.take(i - from) =~= body);
    }
    Some(value)
}

/// The number that `text` writes, if it is at most `max`.
pub fn parse_unsigned(text: &str, max: u64) -> (res: Option<u64>)
    ensures
        match res {
            Some(v) => unsigned_of(text.spec_bytes(), max as nat) == Some(v as nat),
            None => unsigned_of(text.spec_bytes(), max as nat) is None,
        },
{
    let bytes = text.as_bytes();
    let from: usize = if bytes.len() > 0 && bytes[0] == '+' as u8 {
        1
    } else {
        0
    };
    proof {
        assert(bytes@.skip(0) =~= bytes@);
    }
    parse_digits(bytes, from, max)
}

/// The number that `text` writes, if it fits 64 bits with a sign.
pub fn parse_signed(text: &str) -> (res: Option<i64>)
    ensures
        match res {
            Some(v) => signed_of(text.spec_bytes()) == Some(v as int),
            None => signed_of(text.spec_bytes()) is None,
        },
{
    let bytes = text.as_bytes();
    if bytes.len() > 0 && bytes[0] == '-' as u8 {
        match parse_digits(bytes, 1, 0x8000_0000_0000_0000) {
            Some(magnitude) => {
                if magnitude == 0x8000_0000_0000_0000 {
                    Some(i64::MIN)
                } else {
                    Some(-(magnitude as i64))
                }
            },
            None => None,
        }
    } else {
        match parse_unsigned(text, 0x7fff_ffff_ffff_ffff) {
            Some(v) => Some(v as i64),
            None => None,
        }
    }
}

/// The number that `text` writes, if a `usize` holds it.
pub fn parse_index(text: &str) -> (res: Option<usize>)
    ensures
        match res {
            Some(v) => unsigned_of(text.spec_bytes(), usize::MAX as nat) == Some(v as nat),
            None => unsigned_of(text.spec_bytes(), usize::MAX as nat) is None,
        },
{
    match parse_unsigned(text, usize::MAX as u64) {
        Some(v) => Some(v as usize),
        None => None,
    }
}

/// Whether `c` is white space: whether it has the Unicode property White_Space, which
/// these code points have and no others.
pub open spec fn white_space(c: char) -> bool {
    let n = c as u32;
    ||| 0x09 <= n <= 0x0D
    ||| n == 0x20
    ||| n == 0x85
    ||| n == 0xA0
    ||| n == 0x1680
    ||| 0x2000 <= n <= 0x200A
    ||| n == 0x2028
    ||| n == 0x2029
    ||| n == 0x202F
    ||| n == 0x205F
    ||| n == 0x3000
}

/// Whether `c` is white space.
pub fn is_white_space(c: char) -> (res: bool)
    ensures
        res == white_space(c),
{
    let n: u32 = c as u32;
    (0x09 <= n && n <= 0x0D) || n == 0x20 || n == 0x85 || n == 0xA0 || n == 0x1680 || (0x2000
        <= n && n <= 0x200A) || n == 0x2028 || n == 0x2029 || n == 0x202F || n == 0x205F || n
        == 0x3000
}

/// What is left of a text when the white space at its end is taken away.
pub open spec fn trimmed_end(text: Seq<char>) -> Seq<char>
    decreases text.len(),
{
    if text.len() > 0 && white_space(text.last()) {
        trimmed_end(text.drop_last())
    } else {
        text
    }
}

/// `str::trim_end` of the standard library: the text without the white space at its end,
/// where white space is what Unicode calls so. What is handed back is the longest start of
/// the text that does not end in white space.
#[verifier::external_body]
pub(crate) fn trim_end<'a>(text: &'a str) -> (res: &'a str)
    ensures
        res@ == trimmed_end(text@),
{
    text.trim_end()
}

/// What `until` and `until_past` split off adds up to the text.
pub proof fn lemma_until_lengths(s: Seq<u8>, pat: Seq<u8>)
    ensures
        match until(s, pat) {
            Some((taken, rest)) => taken.len() + rest.len() == s.len() && pat.len() <= rest.len(),
            None => true,
        },
        match until_past(s, pat) {
            Some((taken, rest)) => taken.len() + pat.len() + rest.len() == s.len(),
            None => true,
        },
{
    lemma_find_from(s, pat, 0);
}

/// What a run splits off adds up to the text.
pub proof fn lemma_run_lengths(s: Seq<u8>, set: Seq<u8>)
    ensures
        run(s, set).0.len() + run(s, set).1.len() == s.len(),
{
    lemma_run_from(s, set, 0);
}

} // verus!
