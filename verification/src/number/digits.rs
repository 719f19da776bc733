use vstd::prelude::*;

verus! {

/// The character of a digit below 16; letters are upper or lower case.
pub open spec fn digit_char(d: nat, upper: bool) -> char {
    if d < 10 {
        (d + 48) as char
    } else if upper {
        (d + 55) as char
    } else {
        (d + 87) as char
    }
}

/// The digits of `n` in the given radix, most significant first, without
/// leading zeros ("0" for zero).
pub open spec fn digits(n: nat, radix: nat, upper: bool) -> Seq<char>
    decreases n,
{
    if radix < 2 || n < radix {
        seq![digit_char(n, upper)]
    } else {
        proof {
            vstd::arithmetic::div_mod::lemma_div_decreases(n as int, radix as int);
        }
        digits(n / radix, radix, upper).push(digit_char(n % radix, upper))
    }
}

/// `s`, with zeros in front until it is at least `width` long.
pub open spec fn zero_pad(s: Seq<char>, width: nat) -> Seq<char> {
    if s.len() >= width {
        s
    } else {
        Seq::new((width - s.len()) as nat, |i: int| '0') + s
    }
}

/// The character of one digit.
pub fn digit_to_char(d: u8, upper: bool) -> (c: char)
    requires
        d < 16,
    ensures
        c == digit_char(d as nat, upper),
{
    if d < 10 {
        (d + 48) as char
    } else if upper {
        (d + 55) as char
    } else {
        (d + 87) as char
    }
}

/// Append the digits of `n` in `radix` to `out`.
pub fn push_digits(out: &mut Vec<char>, n: u128, radix: u128, upper: bool)
    requires
        2 <= radix <= 16,
    ensures
        final(out)@ == old(out)@ + digits(n as nat, radix as nat, upper),
    decreases n,
{
    if n < radix {
        out.push(digit_to_char(n as u8, upper));
    } else {
        proof {
            vstd::arithmetic::div_mod::lemma_div_decreases(n as int, radix as int);
        }
        push_digits(out, n / radix, radix, upper);
        out.push(digit_to_char((n % radix) as u8, upper));
        assert(final(out)@ =~= old(out)@ + digits(n as nat, radix as nat, upper));
    }
}

/// The digits of `n` in `radix`, zero padded to at least `width` characters,
/// appended to `out`.
pub fn push_padded_digits(out: &mut Vec<char>, n: u128, radix: u128, upper: bool, width: usize)
    requires
        2 <= radix <= 16,
    ensures
        final(out)@ == old(out)@ + zero_pad(digits(n as nat, radix as nat, upper), width as nat),
{
    let mut body: Vec<char> = Vec::new();
    push_digits(&mut body, n, radix, upper);
    assert(body@ =~= digits(n as nat, radix as nat, upper));
    let len = body.len();
    if len < width {
        let mut i: usize = 0;
        while i < width - len
            invariant
                i <= width - len,
                len < width,
                out@ == old(out)@ + Seq::new(i as nat, |k: int| '0'),
            decreases width - len - i,
        {
            out.push('0');
            i = i + 1;
            assert(out@ =~= old(out)@ + Seq::new(i as nat, |k: int| '0'));
        }
    }
    let ghost before = out@;
    let mut j: usize = 0;
    while j < len
        invariant
            j <= len,
            len == body@.len(),
            out@ == before + body@.take(j as int),
        decreases len - j,
    {
        out.push(body[j]);
        j = j + 1;
        assert(out@ =~= before + body@.take(j as int));
    }
    assert(body@.take(len as int) =~= body@);
    assert(final(out)@ =~= old(out)@ + zero_pad(digits(n as nat, radix as nat, upper), width as nat));
}

/// Append the characters of `s` to `out`.
pub fn push_all(out: &mut Vec<char>, s: &Vec<char>)
    ensures
        final(out)@ == old(out)@ + s@,
{
    let mut j: usize = 0;
    while j < s.len()
        invariant
            j <= s.len(),
            out@ == old(out)@ + s@.take(j as int),
        decreases s.len() - j,
    {
        out.push(s[j]);
        j = j + 1;
        assert(out@ =~= old(out)@ + s@.take(j as int));
    }
    assert(s@.take(s.len() as int) =~= s@);
}

/// The text made of the given characters.
///
/// Wraps std's `String: FromIterator<char>` (through `collect`); the contract
/// claims that the string holds exactly those characters, in order.
#[verifier::external_body]
pub(crate) fn chars_to_string(chars: Vec<char>) -> (s: String)
    ensures
        s@ == chars@,
{
    chars.into_iter().collect()
}

} // verus!
