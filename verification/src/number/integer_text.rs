use vstd::prelude::*;

use crate::error::Error;
use crate::number::digits::{digit_char, digits};
use crate::number::format::decimal_text;
use crate::number::integer::Integer;
use vstd::string::StringSliceAdditionalSpecFns;

verus! {

/// The value of an ASCII digit in radices up to 36 (`0`-`9`, then `a`-`z`
/// or `A`-`Z` for 10 to 35); 36 for any other byte.
pub open spec fn digit_value(b: u8) -> nat {
    if 0x30 <= b <= 0x39 {
        (b - 0x30) as nat
    } else if 0x61 <= b <= 0x7a {
        (b - 0x61 + 10) as nat
    } else if 0x41 <= b <= 0x5a {
        (b - 0x41 + 10) as nat
    } else {
        36
    }
}

/// Every byte is a digit of the radix.
pub open spec fn all_digits(s: Seq<u8>, radix: nat) -> bool {
    forall|i: int| 0 <= i < s.len() ==> digit_value(#[trigger] s[i]) < radix
}

/// The number that a string of digits denotes in the radix.
pub open spec fn digits_nat(s: Seq<u8>, radix: nat) -> nat
    decreases s.len(),
{
    if s.len() == 0 {
        0
    } else {
        digits_nat(s.drop_last(), radix) * radix + digit_value(s.last())
    }
}

/// The value of an unsigned number in the radix: an optional `+`, then at
/// least one digit.
pub open spec fn unsigned_text_value(s: Seq<u8>, radix: nat) -> Option<int> {
    if s.len() == 0 || ((s[0] == 0x2b || s[0] == 0x2d) && s.len() == 1) {
        None
    } else {
        let d = if s[0] == 0x2b { s.drop_first() } else { s };
        if all_digits(d, radix) { Some(digits_nat(d, radix) as int) } else { None }
    }
}

/// The value of a signed number in the radix: an optional `+` or `-`, then
/// at least one digit.
pub open spec fn signed_text_value(s: Seq<u8>, radix: nat) -> Option<int> {
    if s.len() == 0 || ((s[0] == 0x2b || s[0] == 0x2d) && s.len() == 1) {
        None
    } else if s[0] == 0x2d {
        if all_digits(s.drop_first(), radix) {
            Some(-(digits_nat(s.drop_first(), radix) as int))
        } else {
            None
        }
    } else {
        let d = if s[0] == 0x2b { s.drop_first() } else { s };
        if all_digits(d, radix) { Some(digits_nat(d, radix) as int) } else { None }
    }
}

/// The radix that a text's prefix selects (`0b`, `0o`, `0x`; only when more
/// follows), and the text after the prefix.
pub open spec fn text_radix(b: Seq<u8>) -> (nat, Seq<u8>) {
    if b.len() > 2 && b[0] == 0x30 && b[1] == 0x62 {
        (2, b.skip(2))
    } else if b.len() > 2 && b[0] == 0x30 && b[1] == 0x6f {
        (8, b.skip(2))
    } else if b.len() > 2 && b[0] == 0x30 && b[1] == 0x78 {
        (16, b.skip(2))
    } else {
        (10, b)
    }
}

/// The integer that a text denotes, in the first of `usize`, `isize`, `u64`,
/// `i64`, `u128`, `i128` that can hold it; `None` when the text is no
/// integer or none of them can.
pub open spec fn spec_parse_integer(b: Seq<u8>) -> Option<Integer> {
    let radix = text_radix(b).0;
    let d = text_radix(b).1;
    let u = unsigned_text_value(d, radix);
    let v = signed_text_value(d, radix);
    if u is Some && u.unwrap() <= usize::MAX {
        Some(Integer::USize(u.unwrap() as usize))
    } else if v is Some && isize::MIN <= v.unwrap() <= isize::MAX {
        Some(Integer::ISize(v.unwrap() as isize))
    } else if u is Some && u.unwrap() <= u64::MAX {
        Some(Integer::U64(u.unwrap() as u64))
    } else if v is Some && i64::MIN <= v.unwrap() <= i64::MAX {
        Some(Integer::I64(v.unwrap() as i64))
    } else if u is Some && u.unwrap() <= u128::MAX {
        Some(Integer::U128(u.unwrap() as u128))
    } else if v is Some && i128::MIN <= v.unwrap() <= i128::MAX {
        Some(Integer::I128(v.unwrap() as i128))
    } else {
        None
    }
}

/// Whether slicing off a two-byte prefix is possible: texts longer than two
/// bytes must have a character boundary after their second byte.
pub open spec fn prefix_splittable(s: &str) -> bool {
    s.spec_bytes().len() > 2 ==> vstd::utf8::is_char_boundary(s.spec_bytes(), 2)
}

/// The integer that a text denotes, as [`Integer::from_str`] reads it; `None`
/// also for a text longer than two bytes whose second byte ends inside a
/// character (no prefix can be split off there).
pub open spec fn parse_text(t: Seq<char>) -> Option<Integer> {
    let b = vstd::utf8::encode_utf8(t);
    if b.len() > 2 && !vstd::utf8::is_char_boundary(b, 2) {
        None
    } else {
        spec_parse_integer(b)
    }
}

/// A digit string's value never falls below that of one of its prefixes.
proof fn lemma_digits_prefix_le(s: Seq<u8>, k: int, radix: nat)
    requires
        0 <= k <= s.len(),
        radix >= 1,
    ensures
        digits_nat(s.take(k), radix) <= digits_nat(s, radix),
    decreases s.len() - k,
{
    if k < s.len() {
        lemma_digits_prefix_le(s, k + 1, radix);
        assert(s.take(k + 1).drop_last() =~= s.take(k));
        let p = digits_nat(s.take(k), radix);
        assert(p * radix >= p) by (nonlinear_arith)
            requires
                radix >= 1,
        ;
    } else {
        assert(s.take(k) =~= s);
    }
}

/// The value of a byte as a digit (36 for a non-digit).
fn digit_of(b: u8) -> (r: u8)
    ensures
        r as nat == digit_value(b),
{
    if 0x30 <= b && b <= 0x39 {
        b - 0x30
    } else if 0x61 <= b && b <= 0x7a {
        b - 0x61 + 10
    } else if 0x41 <= b && b <= 0x5a {
        b - 0x41 + 10
    } else {
        36
    }
}

/// Read the digits in `bytes[start..]` as an unsigned number of the radix.
/// `None` when there is a non-digit or the number exceeds `u128::MAX`.
fn parse_digits(bytes: &[u8], start: usize, radix: u8) -> (r: Option<u128>)
    requires
        start <= bytes@.len(),
        2 <= radix <= 36,
    ensures
        ({
            let d = bytes@.skip(start as int);
            match r {
                Some(v) => all_digits(d, radix as nat) && v as nat == digits_nat(d, radix as nat),
                None => !all_digits(d, radix as nat) || digits_nat(d, radix as nat) > u128::MAX,
            }
        }),
{
    let ghost d = bytes@.skip(start as int);
    let mut acc: u128 = 0;
    let mut overflowed = false;
    let mut i = start;
    while i < bytes.len()
        invariant
            start <= i <= bytes@.len(),
            d == bytes@.skip(start as int),
            2 <= radix <= 36,
            all_digits(d.take(i - start), radix as nat),
            !overflowed ==> acc as nat == digits_nat(d.take(i - start), radix as nat),
            overflowed ==> digits_nat(d.take(i - start), radix as nat) > u128::MAX,
        decreases bytes@.len() - i,
    {
        let dv = digit_of(bytes[i]);
        if dv >= radix {
            assert(d[i - start] == bytes@[i as int]);
            return None;
        }
        let ghost prev = d.take(i - start);
        let ghost next = d.take(i - start + 1);
        assert(next.drop_last() =~= prev);
        assert(next.last() == bytes@[i as int]);
        assert forall|j: int| 0 <= j < next.len() implies digit_value(#[trigger] next[j]) < radix as nat by {
            if j < prev.len() {
                assert(next[j] == prev[j]);
            }
        }
        if !overflowed {
            match acc.checked_mul(radix as u128) {
                Some(m) => match m.checked_add(dv as u128) {
                    Some(n) => {
                        acc = n;
                    },
                    None => {
                        overflowed = true;
                    },
                },
                None => {
                    overflowed = true;
                    let ghost p = digits_nat(prev, radix as nat);
                    assert(p * (radix as nat) + dv as nat >= p * (radix as nat)) by (nonlinear_arith);
                },
            }
        } else {
            let ghost p = digits_nat(prev, radix as nat);
            assert(p * (radix as nat) >= p) by (nonlinear_arith)
                requires
                    radix >= 2,
            ;
        }
        i = i + 1;
    }
    assert(d.take(i - start) =~= d);
    if overflowed {
        None
    } else {
        Some(acc)
    }
}

/// The negative `isize` of the given magnitude.
fn negate_isize(m: u128) -> (r: isize)
    requires
        m <= isize::MAX as int + 1,
    ensures
        r as int == -(m as int),
{
    if m == 0 {
        0
    } else {
        -((m - 1) as isize) - 1
    }
}

/// The negative `i64` of the given magnitude.
fn negate_i64(m: u128) -> (r: i64)
    requires
        m <= i64::MAX as int + 1,
    ensures
        r as int == -(m as int),
{
    if m == 0 {
        0
    } else {
        -((m - 1) as i64) - 1
    }
}

/// The negative `i128` of the given magnitude.
fn negate_i128(m: u128) -> (r: i128)
    requires
        m <= i128::MAX as int + 1,
    ensures
        r as int == -(m as int),
{
    if m == 0 {
        0
    } else {
        -((m - 1) as i128) - 1
    }
}

impl Integer {
    /// Read an integer from text.
    ///
    /// The prefixes `0b`, `0o` and `0x` select binary, octal and hexadecimal
    /// (when more follows them); otherwise the text is decimal. A sign may
    /// lead the digits. The result takes the first of `usize`, `isize`,
    /// `u64`, `i64`, `u128` and `i128` that can hold the value.
    pub fn from_str(s: &str) -> (r: Result<Integer, Error>)
        requires
            prefix_splittable(s),
        ensures
            match spec_parse_integer(s.spec_bytes()) {
                Some(i) => r == Ok::<Integer, Error>(i),
                None => r == Err::<Integer, Error>(Error::InvalidInteger),
            },
    {
        let bytes = s.as_bytes();
        let len = bytes.len();
        let (radix, start): (u8, usize) = if len > 2 && bytes[0] == 0x30 && bytes[1] == 0x62 {
            (2, 2)
        } else if len > 2 && bytes[0] == 0x30 && bytes[1] == 0x6f {
            (8, 2)
        } else if len > 2 && bytes[0] == 0x30 && bytes[1] == 0x78 {
            (16, 2)
        } else {
            (10, 0)
        };
        let ghost d = bytes@.skip(start as int);
        assert(text_radix(bytes@).0 == radix as nat);
        assert(text_radix(bytes@).1 =~= d);
        if start == len {
            return Err(Error::InvalidInteger);
        }
        let first = bytes[start];
        assert(first == d[0]);
        if (first == 0x2b || first == 0x2d) && start + 1 == len {
            return Err(Error::InvalidInteger);
        }
        let negative = first == 0x2d;
        let digits_start = if first == 0x2b || first == 0x2d { start + 1 } else { start };
        assert(bytes@.skip(digits_start as int) =~= if first == 0x2b || first == 0x2d {
            d.drop_first()
        } else {
            d
        });
        let magnitude = parse_digits(bytes, digits_start, radix);
        if negative {
            assert(!all_digits(d, radix as nat)) by {
                assert(digit_value(d[0]) >= radix as nat);
            }
        }
        match magnitude {
            None => Err(Error::InvalidInteger),
            Some(m) => {
                if !negative {
                    if m <= usize::MAX as u128 {
                        Ok(Integer::USize(m as usize))
                    } else if m <= u64::MAX as u128 {
                        Ok(Integer::U64(m as u64))
                    } else {
                        Ok(Integer::U128(m))
                    }
                } else if m <= isize::MAX as u128 + 1 {
                    Ok(Integer::ISize(negate_isize(m)))
                } else if m <= i64::MAX as u128 + 1 {
                    Ok(Integer::I64(negate_i64(m)))
                } else if m <= i128::MAX as u128 + 1 {
                    Ok(Integer::I128(negate_i128(m)))
                } else {
                    Err(Error::InvalidInteger)
                }
            },
        }
    }
}

/// The value of a text read as an unsigned decimal number: an optional `+`,
/// then at least one decimal digit (how std's `FromStr` for unsigned
/// integers reads a text, before the bound of the type).
pub open spec fn decimal_value(t: Seq<char>) -> Option<int> {
    unsigned_text_value(vstd::utf8::encode_utf8(t), 10)
}

/// Read an unsigned decimal number no larger than `max`; `None` for a text
/// that is no such number or a number above `max`.
pub fn parse_unsigned(s: &str, max: u128) -> (r: Option<u128>)
    ensures
        match decimal_value(s@) {
            Some(v) => if v <= max {
                r == Some(v as u128)
            } else {
                r is None
            },
            None => r is None,
        },
{
    let bytes = s.as_bytes();
    let len = bytes.len();
    if len == 0 {
        return None;
    }
    let first = bytes[0];
    if (first == 0x2b || first == 0x2d) && len == 1 {
        return None;
    }
    let start: usize = if first == 0x2b { 1 } else { 0 };
    let ghost b = bytes@;
    assert(bytes@.skip(start as int) =~= if b[0] == 0x2b { b.drop_first() } else { b });
    match parse_digits(bytes, start, 10) {
        Some(v) => if v <= max {
            Some(v)
        } else {
            None
        },
        None => None,
    }
}

/// Read an integer from a text, as [`Integer::from_str`] does, failing with
/// [`Error::InvalidInteger`] also where a prefix cannot be split off.
pub fn parse_integer(s: &str) -> (r: Result<Integer, Error>)
    ensures
        match parse_text(s@) {
            Some(i) => r == Ok::<Integer, Error>(i),
            None => r == Err::<Integer, Error>(Error::InvalidInteger),
        },
{
    let len = s.as_bytes().len();
    if len > 2 && !s.is_char_boundary(2) {
        return Err(Error::InvalidInteger);
    }
    Integer::from_str(s)
}


/// The bytes of ASCII characters, one each.
pub open spec fn ascii_bytes(t: Seq<char>) -> Seq<u8> {
    Seq::new(t.len(), |i: int| (t[i] as u32) as u8)
}

/// Characters below 128 are encoded as one byte each, their code point.
proof fn lemma_ascii_encode(t: Seq<char>)
    requires
        forall|i: int| 0 <= i < t.len() ==> (#[trigger] t[i]) as u32 <= 0x7f,
    ensures
        vstd::utf8::encode_utf8(t) == ascii_bytes(t),
    decreases t.len(),
{
    if t.len() > 0 {
        let c0 = t[0] as u32;
        assert(c0 as u8 == vstd::utf8::leading_byte_width_1(c0)) by (bit_vector)
            requires
                c0 <= 0x7f,
        ;
        let rest = t.drop_first();
        assert forall|i: int| 0 <= i < rest.len() implies (#[trigger] rest[i]) as u32 <= 0x7f by {
            assert(rest[i] == t[i + 1]);
        }
        lemma_ascii_encode(rest);
        assert(vstd::utf8::encode_utf8(t) =~= ascii_bytes(t));
    }
}

/// Every character of a decimal number's digits is one of `0` to `9`, and
/// only zero starts with `0`.
proof fn lemma_decimal_digits(n: nat)
    ensures
        digits(n, 10, false).len() >= 1,
        forall|i: int|
            0 <= i < digits(n, 10, false).len() ==> 48 <= (#[trigger] digits(n, 10, false)[i]) as u32 <= 57,
        n > 0 ==> digits(n, 10, false)[0] != '0',
    decreases n,
{
    if n >= 10 {
        lemma_decimal_digits(n / 10);
        let d = digits(n / 10, 10, false);
        let c = digit_char(n % 10, false);
        assert(digits(n, 10, false) == d.push(c));
        assert forall|i: int| 0 <= i < d.push(c).len() implies 48 <= (#[trigger] d.push(c)[i]) as u32 <= 57 by {
            if i < d.len() {
                assert(d.push(c)[i] == d[i]);
            }
        }
    }
}

/// The digits of a number, read back as a decimal number, give the number.
proof fn lemma_decimal_digits_value(n: nat)
    ensures
        all_digits(ascii_bytes(digits(n, 10, false)), 10),
        digits_nat(ascii_bytes(digits(n, 10, false)), 10) == n,
    decreases n,
{
    lemma_decimal_digits(n);
    let t = digits(n, 10, false);
    if n < 10 {
        assert(ascii_bytes(t).drop_last() =~= Seq::<u8>::empty());
        assert(digits_nat(Seq::<u8>::empty(), 10) == 0);
    } else {
        lemma_decimal_digits_value(n / 10);
        let d = digits(n / 10, 10, false);
        assert(t == d.push(digit_char(n % 10, false)));
        assert(ascii_bytes(t).drop_last() =~= ascii_bytes(d));
        assert(ascii_bytes(t).last() == (n % 10 + 48) as u8);
        assert forall|i: int| 0 <= i < ascii_bytes(t).len() implies digit_value(#[trigger] ascii_bytes(t)[i]) < 10 by {
            if i < d.len() {
                assert(ascii_bytes(t)[i] == ascii_bytes(d)[i]);
            }
        }
    }
}


/// The decimal text of a number: ASCII, read back byte for byte, and cut at
/// its second byte only between characters.
proof fn lemma_decimal_text_bytes(x: int)
    ensures
        encode_utf8_of_decimal(x) == ascii_bytes(decimal_text(x)),
        encode_utf8_of_decimal(x).len() > 2 ==> vstd::utf8::is_char_boundary(encode_utf8_of_decimal(x), 2),
{
    let t = decimal_text(x);
    let n: nat = if x < 0 { (-x) as nat } else { x as nat };
    lemma_decimal_digits(n);
    let d = digits(n, 10, false);
    assert forall|i: int| 0 <= i < t.len() implies (#[trigger] t[i]) as u32 <= 0x7f by {
        if x < 0 {
            if i > 0 {
                assert(t[i] == d[i - 1]);
            }
        } else {
            assert(t[i] == d[i]);
        }
    }
    lemma_ascii_encode(t);
    let b = vstd::utf8::encode_utf8(t);
    if b.len() > 2 {
        vstd::utf8::encode_utf8_valid_utf8(t);
        vstd::utf8::is_char_boundary_iff_not_is_continuation_byte(b, 2);
        assert(t[2] as u32 <= 0x7f);
    }
}

/// The UTF-8 bytes of a number's decimal text.
pub open spec fn encode_utf8_of_decimal(x: int) -> Seq<u8> {
    vstd::utf8::encode_utf8(decimal_text(x))
}

/// The decimal text of any integer's value (what the default formatter
/// renders) reads back, through [`parse_integer`], as an integer of the same
/// value.
pub proof fn lemma_decimal_parses(v: Integer)
    ensures
        parse_text(decimal_text(v.value())) matches Some(w) && w.value() == v.value(),
{
    let x = v.value();
    assert(-0x8000_0000_0000_0000_0000_0000_0000_0000int <= x <= u128::MAX);
    lemma_decimal_text_bytes(x);
    let b = encode_utf8_of_decimal(x);
    let t = decimal_text(x);
    if x >= 0 {
        let n = x as nat;
        lemma_decimal_digits(n);
        lemma_decimal_digits_value(n);
        assert(b == ascii_bytes(digits(n, 10, false)));
        assert(b[0] == (t[0] as u32) as u8);
        assert(text_radix(b) == (10nat, b));
        assert(unsigned_text_value(b, 10) == Some(x));
        assert(signed_text_value(b, 10) == Some(x));
    } else {
        let n = (-x) as nat;
        lemma_decimal_digits(n);
        lemma_decimal_digits_value(n);
        let d = digits(n, 10, false);
        assert(t == seq!['-'] + d);
        assert(b.drop_first() =~= ascii_bytes(d));
        assert(b[0] == 0x2d);
        assert(text_radix(b) == (10nat, b));
        assert(digit_value(b[0]) == 36);
        assert(!all_digits(b, 10));
        assert(unsigned_text_value(b, 10) is None);
        assert(signed_text_value(b, 10) == Some(x));
    }
}

} // verus!
