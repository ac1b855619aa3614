//! Fixed-width decimal fields: ASCII digits to numbers and back.

use vstd::prelude::*;

use crate::ascii::{NINE, ZERO};

verus! {

/// `10^n`.
pub open spec fn pow10(n: nat) -> nat
    decreases n,
{
    if n == 0 {
        1
    } else {
        10 * pow10((n - 1) as nat)
    }
}

/// Whether `b` is one of `'0'..='9'`.
pub open spec fn is_digit(b: u8) -> bool {
    ZERO <= b <= NINE
}

/// Whether every byte of `s` is an ASCII digit.
pub open spec fn all_digits(s: Seq<u8>) -> bool {
    forall|i: int| 0 <= i < s.len() ==> is_digit(#[trigger] s[i])
}

/// The low four bits of a byte: for an ASCII digit, the digit itself.
pub open spec fn low_nibble(b: u8) -> nat {
    (b & 0x0f) as nat
}

/// The number that `s` spells when each byte counts as its low nibble,
/// most significant first.
pub open spec fn nibble_value(s: Seq<u8>) -> nat
    decreases s.len(),
{
    if s.len() == 0 {
        0
    } else {
        10 * nibble_value(s.drop_last()) + low_nibble(s.last())
    }
}

/// What a field of bytes decodes to. Strict decoding fails on any byte that
/// is not a digit; lenient decoding reads every byte by its low nibble.
pub open spec fn decode(s: Seq<u8>, strict: bool) -> Option<nat> {
    if strict && !all_digits(s) {
        None
    } else {
        Some(nibble_value(s))
    }
}

/// What `parse_digits` reads from a field: its decoded value, unless the
/// field is empty or the value does not fit in 32 bits.
pub open spec fn decode_u32(s: Seq<u8>, strict: bool) -> Option<u32> {
    match decode(s, strict) {
        Some(v) => if s.len() > 0 && v <= u32::MAX {
            Some(v as u32)
        } else {
            None
        },
        None => None,
    }
}

/// The `width` lowest decimal digits of `v` as ASCII, zero-padded on the left.
pub open spec fn decimal(v: nat, width: nat) -> Seq<u8>
    decreases width,
{
    if width == 0 {
        Seq::empty()
    } else {
        decimal(v / 10, (width - 1) as nat).push((ZERO + v % 10) as u8)
    }
}

/// The decimal digit of `v` with weight `10^place`.
pub open spec fn digit_at(v: nat, place: nat) -> nat {
    (v / pow10(place)) % 10
}

/// `s` with the bytes from `pos` on overwritten by `patch`.
pub open spec fn splice(s: Seq<u8>, pos: int, patch: Seq<u8>) -> Seq<u8> {
    Seq::new(
        s.len(),
        |i: int|
            if pos <= i < pos + patch.len() {
                patch[i - pos]
            } else {
                s[i]
            },
    )
}

/// A power of ten is positive, and the next one is ten times as large.
pub proof fn lemma_pow10_step(n: nat)
    ensures
        pow10(n) > 0,
        pow10(n + 1) == 10 * pow10(n),
    decreases n,
{
    if n > 0 {
        lemma_pow10_step((n - 1) as nat);
    }
}

/// The powers of ten that a fraction of a second is cut by.
pub proof fn lemma_pow10_values()
    ensures
        pow10(0) == 1,
        pow10(1) == 10,
        pow10(2) == 100,
        pow10(3) == 1_000,
        pow10(4) == 10_000,
        pow10(5) == 100_000,
        pow10(6) == 1_000_000,
        pow10(7) == 10_000_000,
        pow10(8) == 100_000_000,
        pow10(9) == 1_000_000_000,
{
    reveal_with_fuel(pow10, 11);
}

/// Powers of ten multiply by adding their exponents.
pub proof fn lemma_pow10_product(m: nat, n: nat)
    ensures
        pow10(m) * pow10(n) == pow10(m + n),
    decreases m,
{
    if m > 0 {
        lemma_pow10_product((m - 1) as nat, n);
        let a = pow10((m - 1) as nat) as int;
        let c = pow10(n) as int;
        assert((10 * a) * c == 10 * (a * c)) by (nonlinear_arith);
        assert(pow10(m) == 10 * a);
        assert(((m - 1) as nat + n) as nat == (m + n - 1) as nat);
        assert(pow10(m + n) == 10 * pow10((m + n - 1) as nat));
    } else {
        assert(pow10(0) == 1);
        assert(m + n == n);
    }
}

/// Dividing by a power of ten and then by ten divides by the next power.
pub proof fn lemma_div_pow10_step(v: nat, n: nat)
    ensures
        (v / pow10(n)) / 10 == v / pow10(n + 1),
{
    lemma_pow10_step(n);
    vstd::arithmetic::div_mod::lemma_div_denominator(v as int, pow10(n) as int, 10);
    assert(pow10(n) * 10 == pow10(n + 1));
}

/// A value below `10^(n + 1)` has a single digit left above place `n`.
proof fn lemma_small_quotient(v: nat, n: nat)
    requires
        v < pow10(n + 1),
    ensures
        v / pow10(n) < 10,
        digit_at(v, n) == v / pow10(n),
{
    lemma_pow10_step(n);
    let p = pow10(n) as int;
    assert(v < 10 * p);
    vstd::arithmetic::div_mod::lemma_multiply_divide_lt(v as int, p, 10);
    vstd::arithmetic::div_mod::lemma_div_pos_is_pos(v as int, p);
}

/// A digit's low nibble is the digit.
pub proof fn lemma_digit_nibble(b: u8)
    requires
        is_digit(b),
    ensures
        low_nibble(b) == b - ZERO,
{
    assert(48 <= b <= 57 ==> (b & 0x0f) == b - 48) by (bit_vector);
}

/// A low nibble is below sixteen.
pub proof fn lemma_nibble_bound(b: u8)
    ensures
        low_nibble(b) <= 15,
{
    assert((b & 0x0f) <= 15) by (bit_vector);
}

/// The value of a two-byte field, written out.
pub proof fn lemma_nibble_value_2(s: Seq<u8>)
    requires
        s.len() == 2,
    ensures
        nibble_value(s) == 10 * low_nibble(s[0]) + low_nibble(s[1]),
{
    let a = s.drop_last();
    assert(a.len() == 1);
    assert(a.drop_last().len() == 0);
    assert(nibble_value(a.drop_last()) == 0);
    assert(nibble_value(a) == low_nibble(a.last()));
}

/// The value of a three-byte field, written out.
pub proof fn lemma_nibble_value_3(s: Seq<u8>)
    requires
        s.len() == 3,
    ensures
        nibble_value(s) == 100 * low_nibble(s[0]) + 10 * low_nibble(s[1]) + low_nibble(s[2]),
{
    let a = s.drop_last();
    lemma_nibble_value_2(a);
}

/// The value of a four-byte field, written out.
pub proof fn lemma_nibble_value_4(s: Seq<u8>)
    requires
        s.len() == 4,
    ensures
        nibble_value(s) == 1000 * low_nibble(s[0]) + 100 * low_nibble(s[1]) + 10 * low_nibble(
            s[2],
        ) + low_nibble(s[3]),
{
    lemma_nibble_value_3(s.drop_last());
}

/// Reading one more byte multiplies by ten and adds the byte's nibble.
pub proof fn lemma_nibble_value_take(s: Seq<u8>, i: int)
    requires
        0 <= i < s.len(),
    ensures
        nibble_value(s.take(i + 1)) == 10 * nibble_value(s.take(i)) + low_nibble(s[i]),
{
    assert(s.take(i + 1).drop_last() =~= s.take(i));
}

/// A prefix never spells more than the whole field.
pub proof fn lemma_nibble_value_prefix(s: Seq<u8>, i: int)
    requires
        0 <= i <= s.len(),
    ensures
        nibble_value(s.take(i)) <= nibble_value(s),
    decreases s.len() - i,
{
    if i == s.len() {
        assert(s.take(i) =~= s);
    } else {
        lemma_nibble_value_take(s, i);
        lemma_nibble_value_prefix(s, i + 1);
    }
}

/// A run of digits is bounded by the power of ten of its length.
pub proof fn lemma_digits_bound(s: Seq<u8>)
    requires
        all_digits(s),
    ensures
        nibble_value(s) < pow10(s.len()),
    decreases s.len(),
{
    if s.len() > 0 {
        let rest = s.drop_last();
        assert forall|i: int| 0 <= i < rest.len() implies is_digit(#[trigger] rest[i]) by {
            assert(rest[i] == s[i]);
        }
        lemma_digits_bound(rest);
        lemma_digit_nibble(s.last());
    }
}

/// An encoded field has exactly the requested width and holds only digits.
pub proof fn lemma_decimal_shape(v: nat, width: nat)
    ensures
        decimal(v, width).len() == width,
        all_digits(decimal(v, width)),
    decreases width,
{
    if width > 0 {
        lemma_decimal_shape(v / 10, (width - 1) as nat);
    }
}

/// Each byte of an encoded field is the digit of its place.
pub proof fn lemma_decimal_index(v: nat, width: nat, i: int)
    requires
        0 <= i < width,
    ensures
        decimal(v, width).len() == width,
        decimal(v, width)[i] == ZERO + digit_at(v, (width - 1 - i) as nat),
    decreases width,
{
    lemma_decimal_shape(v, width);
    if i == width - 1 {
        assert(pow10(0) == 1);
    } else {
        let w1 = (width - 1) as nat;
        lemma_decimal_index(v / 10, w1, i);
        lemma_decimal_shape(v / 10, w1);
        let place = (w1 - 1 - i) as nat;
        // (v / 10) / 10^place == v / 10^(place + 1)
        lemma_pow10_step(place);
        vstd::arithmetic::div_mod::lemma_div_denominator(v as int, 10, pow10(place) as int);
        assert(10 * pow10(place) == pow10(place + 1));
        assert((v / 10) / pow10(place) == v / pow10(place + 1));
    }
}

/// A field of zero is written with the digit `0` only.
pub proof fn lemma_decimal_zero(width: nat)
    ensures
        decimal(0, width).len() == width,
        forall|i: int| 0 <= i < width ==> #[trigger] decimal(0, width)[i] == ZERO,
    decreases width,
{
    lemma_decimal_shape(0, width);
    if width > 0 {
        lemma_decimal_zero((width - 1) as nat);
        assert(decimal(0, width) == decimal(0, (width - 1) as nat).push(ZERO));
    }
}

/// Decoding inverts encoding: a value that fits its width is read back
/// unchanged, strictly or leniently.
pub proof fn lemma_decode_decimal(v: nat, width: nat, strict: bool)
    requires
        v < pow10(width),
    ensures
        decode(decimal(v, width), strict) == Some(v),
    decreases width,
{
    lemma_decimal_shape(v, width);
    if width > 0 {
        let rest = decimal(v / 10, (width - 1) as nat);
        let last = (ZERO + v % 10) as u8;
        lemma_decode_decimal(v / 10, (width - 1) as nat, strict);
        lemma_decimal_shape(v / 10, (width - 1) as nat);
        lemma_digit_nibble(last);
        assert(decimal(v, width).drop_last() =~= rest);
        assert(decimal(v, width).last() == last);
    }
}

/// Whether `b` is one of `'0'..='9'`.
pub fn is_ascii_digit(b: u8) -> (r: bool)
    ensures
        r == is_digit(b),
{
    ZERO <= b && b <= NINE
}

/// Reads a two-byte field by its low nibbles, without looking at the rest
/// of either byte.
pub fn parse_2(s: &[u8]) -> (r: u8)
    requires
        s@.len() == 2,
    ensures
        r == nibble_value(s@),
        r <= 165,
{
    let a: u8 = s[0] & 0x0f;
    let b: u8 = s[1] & 0x0f;
    proof {
        lemma_nibble_bound(s[0]);
        lemma_nibble_bound(s[1]);
        lemma_nibble_value_2(s@);
    }
    a * 10 + b
}

/// Reads a three-byte field by its low nibbles: the bytes are loaded as
/// one little-endian word, one mask-and-scale step folds the first two
/// nibbles into tens, and the third is added.
pub fn parse_3(s: &[u8]) -> (r: u16)
    requires
        s@.len() == 3,
    ensures
        r == nibble_value(s@),
        r <= 1665,
{
    let b0: u32 = s[0] as u32;
    let b1: u32 = s[1] as u32;
    let b2: u32 = s[2] as u32;
    let word: u32 = b0 | (b1 << 8) | (b2 << 16);
    proof {
        lemma_swar_3(s[0], s[1], s[2]);
        lemma_nibble_value_3(s@);
    }
    let tens: u32 = ((word & 0x00000f00) >> 8) + ((word & 0x0000000f) * 10);
    let all: u32 = tens * 10 + ((word >> 16) & 0x0000000f);
    all as u16
}

/// The folding step of `parse_3`, on the little-endian word of three bytes.
proof fn lemma_swar_3(c0: u8, c1: u8, c2: u8)
    ensures
        ({
            let word = (c0 as u32) | ((c1 as u32) << 8) | ((c2 as u32) << 16);
            let hi = (word & 0x00000f00) >> 8;
            let lo = word & 0x0000000f;
            let last = (word >> 16) & 0x0000000f;
            &&& lo * 10 <= 150
            &&& hi + lo * 10 <= 165
            &&& (hi + lo * 10) * 10 + last == (c0 & 0x0f) * 100 + (c1 & 0x0f) * 10 + (c2 & 0x0f)
            &&& (hi + lo * 10) * 10 + last <= 1665
        }),
{
    assert({
        let word = (c0 as u32) | ((c1 as u32) << 8) | ((c2 as u32) << 16);
        let hi = (word & 0x00000f00) >> 8;
        let lo = word & 0x0000000f;
        let last = (word >> 16) & 0x0000000f;
        &&& lo * 10 <= 150
        &&& hi + lo * 10 <= 165
        &&& (hi + lo * 10) * 10 + last == (c0 & 0x0f) * 100 + (c1 & 0x0f) * 10 + (c2 & 0x0f)
        &&& (hi + lo * 10) * 10 + last <= 1665
    }) by (bit_vector);
}

/// Reads a four-byte field by its low nibbles: the bytes are loaded as one
/// little-endian word, and two mask-and-scale steps fold the four nibbles
/// into tens, then into the whole number.
pub fn parse_4(s: &[u8]) -> (r: u16)
    requires
        s@.len() == 4,
    ensures
        r == nibble_value(s@),
        r <= 16665,
{
    let b0: u32 = s[0] as u32;
    let b1: u32 = s[1] as u32;
    let b2: u32 = s[2] as u32;
    let b3: u32 = s[3] as u32;
    let word: u32 = b0 | (b1 << 8) | (b2 << 16) | (b3 << 24);
    proof {
        lemma_swar_4(s[0], s[1], s[2], s[3]);
        lemma_nibble_value_4(s@);
    }
    let tens: u32 = ((word & 0x0f000f00) >> 8) + ((word & 0x000f000f) * 10);
    let all: u32 = ((tens & 0x00ff00ff) >> 16) + ((tens & 0x000000ff) * 100);
    all as u16
}

/// The two folding steps of `parse_4`, on the little-endian word of four
/// bytes: no step overflows, and the result is the nibbles' decimal value.
proof fn lemma_swar_4(c0: u8, c1: u8, c2: u8, c3: u8)
    ensures
        ({
            let word = (c0 as u32) | ((c1 as u32) << 8) | ((c2 as u32) << 16) | ((c3 as u32) << 24);
            let hi = (word & 0x0f000f00) >> 8;
            let lo = word & 0x000f000f;
            let tens = (hi + lo * 10) as u32;
            let left = (tens & 0x00ff00ff) >> 16;
            let right = tens & 0x000000ff;
            &&& lo * 10 <= 0x00ff_ffff
            &&& hi + lo * 10 <= 0x0fff_ffff
            &&& right * 100 <= 0xffff
            &&& left + right * 100 == (c0 & 0x0f) * 1000 + (c1 & 0x0f) * 100 + (c2 & 0x0f) * 10 + (
            c3 & 0x0f)
            &&& left + right * 100 <= 16665
        }),
{
    assert({
        let word = (c0 as u32) | ((c1 as u32) << 8) | ((c2 as u32) << 16) | ((c3 as u32) << 24);
        let hi = (word & 0x0f000f00) >> 8;
        let lo = word & 0x000f000f;
        let tens = (hi + lo * 10) as u32;
        let left = (tens & 0x00ff00ff) >> 16;
        let right = tens & 0x000000ff;
        &&& lo * 10 <= 0x00ff_ffff
        &&& hi + lo * 10 <= 0x0fff_ffff
        &&& right * 100 <= 0xffff
        &&& left + right * 100 == (c0 & 0x0f) * 1000 + (c1 & 0x0f) * 100 + (c2 & 0x0f) * 10 + (c3
            & 0x0f)
        &&& left + right * 100 <= 16665
    }) by (bit_vector);
}

/// Reads a field of any width, byte by byte. Strict reading refuses a byte
/// that is not a digit; lenient reading takes each byte by its low nibble.
/// An empty field, or a value beyond 32 bits, reads as nothing.
pub fn parse_digits(s: &[u8], strict: bool) -> (r: Option<u32>)
    ensures
        r == decode_u32(s@, strict),
{
    let n = s.len();
    if n == 0 {
        return None;
    }
    let mut num: u32 = 0;
    let mut i: usize = 0;
    assert(s@.take(0).len() == 0);
    while i < n
        invariant
            i <= n,
            n == s@.len(),
            num == nibble_value(s@.take(i as int)),
            strict ==> all_digits(s@.take(i as int)),
        decreases n - i,
    {
        let byte = s[i];
        if strict && !is_ascii_digit(byte) {
            return None;
        }
        let digit: u32 = (byte & 0x0f) as u32;
        proof {
            lemma_nibble_bound(byte);
            lemma_nibble_value_take(s@, i as int);
        }
        if num > (u32::MAX - digit) / 10 {
            proof {
                lemma_nibble_value_prefix(s@, i + 1);
            }
            return None;
        }
        num = num * 10 + digit;
        i = i + 1;
        assert(strict ==> all_digits(s@.take(i as int))) by {
            if strict {
                assert forall|j: int| 0 <= j < i implies is_digit(#[trigger] s@.take(i as int)[j]) by {
                    if j < i - 1 {
                        assert(s@.take(i - 1)[j] == s@[j]);
                    }
                }
            }
        }
    }
    assert(s@.take(n as int) =~= s@);
    Some(num)
}

/// The two ASCII digits of every number below one hundred, tens first:
/// entry `2 * n` and entry `2 * n + 1` spell `n`.
pub const DIGIT_PAIRS: [u8; 200] = [
    48, 48, 48, 49, 48, 50, 48, 51, 48, 52, 48, 53, 48, 54, 48, 55, 48, 56, 48, 57,
    49, 48, 49, 49, 49, 50, 49, 51, 49, 52, 49, 53, 49, 54, 49, 55, 49, 56, 49, 57,
    50, 48, 50, 49, 50, 50, 50, 51, 50, 52, 50, 53, 50, 54, 50, 55, 50, 56, 50, 57,
    51, 48, 51, 49, 51, 50, 51, 51, 51, 52, 51, 53, 51, 54, 51, 55, 51, 56, 51, 57,
    52, 48, 52, 49, 52, 50, 52, 51, 52, 52, 52, 53, 52, 54, 52, 55, 52, 56, 52, 57,
    53, 48, 53, 49, 53, 50, 53, 51, 53, 52, 53, 53, 53, 54, 53, 55, 53, 56, 53, 57,
    54, 48, 54, 49, 54, 50, 54, 51, 54, 52, 54, 53, 54, 54, 54, 55, 54, 56, 54, 57,
    55, 48, 55, 49, 55, 50, 55, 51, 55, 52, 55, 53, 55, 54, 55, 55, 55, 56, 55, 57,
    56, 48, 56, 49, 56, 50, 56, 51, 56, 52, 56, 53, 56, 54, 56, 55, 56, 56, 56, 57,
    57, 48, 57, 49, 57, 50, 57, 51, 57, 52, 57, 53, 57, 54, 57, 55, 57, 56, 57, 57,
];

/// Every pair of the table spells its index.
pub proof fn lemma_digit_pairs(n: int)
    requires
        0 <= n < 100,
    ensures
        DIGIT_PAIRS@[2 * n] == ZERO + n / 10,
        DIGIT_PAIRS@[2 * n + 1] == ZERO + n % 10,
{
}

/// The two ASCII digits of a number below one hundred, from the table.
pub fn digit_pair(n: u32) -> (r: (u8, u8))
    requires
        n < 100,
    ensures
        r.0 == ZERO + n / 10,
        r.1 == ZERO + n % 10,
{
    proof {
        lemma_digit_pairs(n as int);
    }
    let index: usize = (n * 2) as usize;
    (DIGIT_PAIRS[index], DIGIT_PAIRS[index + 1])
}

/// The two lowest digits of a number are the digits of what is left of it
/// after division by a hundred.
proof fn lemma_low_pair(v: nat, place: nat)
    ensures
        (v / pow10(place)) % 100 < 100,
        ((v / pow10(place)) % 100) % 10 == digit_at(v, place),
        ((v / pow10(place)) % 100) / 10 == digit_at(v, place + 1),
        (v / pow10(place)) / 100 == v / pow10(place + 2),
{
    let q = v / pow10(place);
    lemma_div_pow10_step(v, place);
    lemma_div_pow10_step(v, place + 1);
    assert((q % 100) % 10 == q % 10);
    assert((q % 100) / 10 == (q / 10) % 10);
    assert(q / 100 == (q / 10) / 10);
}

/// Writes `value` as exactly `len` decimal digits at `buf[pos..pos + len]`,
/// zero-padded on the left, two digits at a time from the pair table and,
/// for an odd width, one leading digit. Nothing else in `buf` changes.
pub fn write_num(buf: &mut [u8; 36], pos: usize, value: u32, len: usize)
    requires
        pos + len <= 36,
        value < pow10(len as nat),
    ensures
        final(buf)@ == splice(old(buf)@, pos as int, decimal(value as nat, len as nat)),
{
    let mut rest: u32 = value;
    let mut k: usize = len;
    proof {
        assert(pow10(0) == 1);
        vstd::arithmetic::div_mod::lemma_div_basics(value as int);
    }
    // process 2 digits per iteration
    while k >= 2
        invariant
            k <= len,
            pos + len <= 36,
            rest == value as nat / pow10((len - k) as nat),
            buf@.len() == 36,
            forall|i: int| 0 <= i < pos + k || pos + len <= i < 36 ==> buf@[i] == old(buf)@[i],
            forall|i: int|
                k <= i < len ==> #[trigger] buf@[pos + i] == ZERO + digit_at(
                    value as nat,
                    (len - 1 - i) as nat,
                ),
        decreases k,
    {
        proof {
            lemma_low_pair(value as nat, (len - k) as nat);
        }
        let (tens, ones) = digit_pair(rest % 100);
        rest = rest / 100;
        k = k - 1;
        buf[pos + k] = ones;
        k = k - 1;
        buf[pos + k] = tens;
    }
    // handle remainder
    if k == 1 {
        proof {
            lemma_small_quotient(value as nat, (len - 1) as nat);
        }
        buf[pos] = (rest as u8) + ZERO;
    }
    proof {
        lemma_written(old(buf)@, buf@, pos as int, value as nat, len as nat);
    }
}

/// A buffer that holds the digits of `value` by their places at `pos`, and
/// elsewhere what it held before, is the old buffer with the encoded field
/// spliced in.
proof fn lemma_written(before: Seq<u8>, after: Seq<u8>, pos: int, value: nat, len: nat)
    requires
        0 <= pos,
        pos + len <= before.len(),
        after.len() == before.len(),
        forall|i: int| 0 <= i < pos || pos + len <= i < before.len() ==> after[i] == before[i],
        forall|i: int|
            0 <= i < len ==> #[trigger] after[pos + i] == ZERO + digit_at(
                value,
                (len - 1 - i) as nat,
            ),
    ensures
        after == splice(before, pos, decimal(value, len)),
{
    let want = splice(before, pos, decimal(value, len));
    lemma_decimal_shape(value, len);
    assert forall|i: int| 0 <= i < before.len() implies after[i] == want[i] by {
        if pos <= i < pos + len {
            lemma_decimal_index(value, len, i - pos);
            assert(after[pos + (i - pos)] == ZERO + digit_at(value, (len - 1 - (i - pos)) as nat));
        }
    }
    assert(after =~= want);
}

} // verus!
