use vstd::prelude::*;

use crate::number::character::Character;
use crate::number::digits::{
    digits, zero_pad, push_digits, push_padded_digits, push_all, chars_to_string,
};
use crate::number::integer::Integer;

verus! {

/// Something that renders an [`Integer`] as text.
pub trait IntegerRendererImpl {
    /// The text that [`Self::render_integer`] gives for the number.
    spec fn rendered(&self, number: Integer) -> Seq<char>;

    fn render_integer(&self, number: Integer) -> (s: String)
        ensures
            s@ == self.rendered(number),
    ;
}

/// Something that renders a [`Character`] as text.
pub trait CharacterRendererTrait {
    /// The text that [`Self::render_character`] gives for the character.
    spec fn rendered_character(&self, c: Character) -> Seq<char>;

    fn render_character(&self, c: Character) -> (s: String)
        ensures
            s@ == self.rendered_character(c),
    ;
}

/// A number in decimal, with a leading '-' when it is negative.
pub open spec fn decimal_text(v: int) -> Seq<char> {
    if v < 0 {
        seq!['-'] + digits((-v) as nat, 10, false)
    } else {
        digits(v as nat, 10, false)
    }
}

/// `prefix` when `on`, else nothing.
pub open spec fn optional(on: bool, prefix: Seq<char>) -> Seq<char> {
    if on {
        prefix
    } else {
        Seq::empty()
    }
}

/// The number with its trailing decimal zeros taken off, and how many there
/// were (zero keeps its single digit).
pub open spec fn strip_tens(n: nat) -> (nat, nat)
    decreases n,
{
    if n >= 10 && n % 10 == 0 {
        let (m, z) = strip_tens(n / 10);
        (m, z + 1)
    } else {
        (n, 0)
    }
}

/// The digits of a mantissa with a point after the first one (no point when
/// there is only one digit).
pub open spec fn mantissa_text(d: Seq<char>) -> Seq<char> {
    if d.len() > 1 {
        seq![d[0], '.'] + d.skip(1)
    } else {
        d
    }
}

/// A number in scientific notation, exact: `1.5e3` for 1500, `0e0` for 0.
pub open spec fn scientific_text(v: int, uppercase: bool) -> Seq<char> {
    let n: nat = if v < 0 { (-v) as nat } else { v as nat };
    let (m, z) = strip_tens(n);
    let d = digits(m, 10, false);
    optional(v < 0, seq!['-']) + mantissa_text(d) + seq![if uppercase { 'E' } else { 'e' }]
        + digits((z + d.len() - 1) as nat, 10, false)
}

/// Render an [`Integer`] or a [`Character`] in the most usual way: decimal
/// for integers, the character itself for characters.
#[derive(Debug, Clone, Copy)]
pub struct DefaultFormatter {}

impl DefaultFormatter {
    pub fn new() -> (r: Self)
        ensures
            r == (DefaultFormatter {  }),
    {
        DefaultFormatter {  }
    }
}

impl IntegerRendererImpl for DefaultFormatter {
    open spec fn rendered(&self, number: Integer) -> Seq<char> {
        decimal_text(number.value())
    }

    fn render_integer(&self, number: Integer) -> (s: String) {
        let (negative, magnitude) = number.sign_and_magnitude();
        let mut out: Vec<char> = Vec::new();
        if negative {
            out.push('-');
        }
        push_digits(&mut out, magnitude, 10, false);
        assert(out@ =~= decimal_text(number.value()));
        chars_to_string(out)
    }
}

impl CharacterRendererTrait for DefaultFormatter {
    open spec fn rendered_character(&self, c: Character) -> Seq<char> {
        seq![c.character]
    }

    fn render_character(&self, c: Character) -> (s: String) {
        let mut out: Vec<char> = Vec::new();
        out.push(c.character);
        assert(out@ =~= seq![c.character]);
        chars_to_string(out)
    }
}

/// Render an [`Integer`] in hexadecimal.
#[derive(Debug, Clone, Copy)]
pub struct HexFormatter {
    /// Print hex characters uppercase - `1A2B` vs `1a2b`.
    pub uppercase: bool,
    /// Prefix hex strings with `0x`
    pub prefix: bool,
    /// Zero-pad hex strings to the full width of the type - `0001` vs `1`
    pub padded: bool,
}

impl IntegerRendererImpl for HexFormatter {
    /// The bit pattern of the number in its own width, in hex digits; zero
    /// padded to two digits per byte when `padded`; "0x" in front when
    /// `prefix`.
    open spec fn rendered(&self, number: Integer) -> Seq<char> {
        optional(self.prefix, seq!['0', 'x']) + zero_pad(
            digits(number.spec_bits(), 16, self.uppercase),
            if self.padded { 2 * number.spec_size() } else { 0 },
        )
    }

    fn render_integer(&self, number: Integer) -> (s: String) {
        let mut out: Vec<char> = Vec::new();
        if self.prefix {
            out.push('0');
            out.push('x');
        }
        let width: usize = if self.padded { 2 * number.size() } else { 0 };
        push_padded_digits(&mut out, number.bits(), 16, self.uppercase, width);
        assert(out@ =~= self.rendered(number));
        chars_to_string(out)
    }
}

/// Render an [`Integer`] in octal.
#[derive(Debug, Clone, Copy)]
pub struct OctalFormatter {
    /// Prefix octal strings with `0o`
    pub prefix: bool,
    /// Zero-pad octal strings to the full width - `0001` vs `1`
    pub padded: bool,
}

/// The number of octal digits that the largest value of a type of `size`
/// bytes takes.
pub open spec fn octal_width(size: nat) -> nat {
    (8 * size + 2) / 3
}

impl IntegerRendererImpl for OctalFormatter {
    /// The bit pattern of the number in its own width, in octal digits; zero
    /// padded to as many digits as the type's largest value takes when
    /// `padded`; "0o" in front when `prefix`.
    open spec fn rendered(&self, number: Integer) -> Seq<char> {
        optional(self.prefix, seq!['0', 'o']) + zero_pad(
            digits(number.spec_bits(), 8, false),
            if self.padded { octal_width(number.spec_size()) } else { 0 },
        )
    }

    fn render_integer(&self, number: Integer) -> (s: String) {
        let mut out: Vec<char> = Vec::new();
        if self.prefix {
            out.push('0');
            out.push('o');
        }
        let width: usize = if self.padded { (8 * number.size() + 2) / 3 } else { 0 };
        push_padded_digits(&mut out, number.bits(), 8, false, width);
        assert(out@ =~= self.rendered(number));
        chars_to_string(out)
    }
}

/// Render an [`Integer`] in binary.
#[derive(Debug, Clone, Copy)]
pub struct BinaryFormatter {
    /// Prefix binary strings with `0b`
    pub prefix: bool,
    /// Zero-pad binary strings to the full width of the type
    pub padded: bool,
    /// Print at least this many digits (whether or not `padded`)
    pub min_digits: usize,
}

/// The larger of two numbers.
pub open spec fn larger(a: nat, b: nat) -> nat {
    if a >= b {
        a
    } else {
        b
    }
}

impl IntegerRendererImpl for BinaryFormatter {
    /// The bit pattern of the number in its own width, in binary digits;
    /// zero padded to at least `min_digits` digits, and to the bits of the
    /// type when `padded`; "0b" in front when `prefix`.
    open spec fn rendered(&self, number: Integer) -> Seq<char> {
        optional(self.prefix, seq!['0', 'b']) + zero_pad(
            digits(number.spec_bits(), 2, false),
            if self.padded {
                larger(self.min_digits as nat, 8 * number.spec_size())
            } else {
                self.min_digits as nat
            },
        )
    }

    fn render_integer(&self, number: Integer) -> (s: String) {
        let mut out: Vec<char> = Vec::new();
        if self.prefix {
            out.push('0');
            out.push('b');
        }
        let bits = 8 * number.size();
        let width: usize = if self.padded && bits > self.min_digits {
            bits
        } else {
            self.min_digits
        };
        push_padded_digits(&mut out, number.bits(), 2, false, width);
        assert(out@ =~= self.rendered(number));
        chars_to_string(out)
    }
}

/// Render an [`Integer`] as "false" (if 0) or "true" (otherwise).
#[derive(Debug, Clone, Copy)]
pub struct BooleanFormatter {}

impl BooleanFormatter {
    pub fn new() -> (r: Self)
        ensures
            r == (BooleanFormatter {  }),
    {
        BooleanFormatter {  }
    }
}

impl IntegerRendererImpl for BooleanFormatter {
    open spec fn rendered(&self, number: Integer) -> Seq<char> {
        if number.value() == 0 {
            seq!['f', 'a', 'l', 's', 'e']
        } else {
            seq!['t', 'r', 'u', 'e']
        }
    }

    fn render_integer(&self, number: Integer) -> (s: String) {
        let (_, magnitude) = number.sign_and_magnitude();
        let mut out: Vec<char> = Vec::new();
        if magnitude == 0 {
            out.push('f');
            out.push('a');
            out.push('l');
            out.push('s');
            out.push('e');
        } else {
            out.push('t');
            out.push('r');
            out.push('u');
            out.push('e');
        }
        assert(out@ =~= self.rendered(number));
        chars_to_string(out)
    }
}

/// Render an [`Integer`] in scientific (exponential) notation.
#[derive(Debug, Clone, Copy)]
pub struct ScientificFormatter {
    /// Print the `e` uppercase (`1E0` instead of `1e0`).
    pub uppercase: bool,
}

impl ScientificFormatter {
    pub fn new(uppercase: bool) -> (r: Self)
        ensures
            r.uppercase == uppercase,
    {
        ScientificFormatter { uppercase }
    }

    pub fn new_pretty() -> (r: Self)
        ensures
            !r.uppercase,
    {
        Self::new(false)
    }
}

/// Take the trailing decimal zeros off a number, counting them.
fn strip_tens_exec(n: u128) -> (r: (u128, u128))
    ensures
        (r.0 as nat, r.1 as nat) == strip_tens(n as nat),
        r.0 + r.1 <= n,
    decreases n,
{
    if n >= 10 && n % 10 == 0 {
        let (m, z) = strip_tens_exec(n / 10);
        (m, z + 1)
    } else {
        (n, 0)
    }
}

impl IntegerRendererImpl for ScientificFormatter {
    open spec fn rendered(&self, number: Integer) -> Seq<char> {
        scientific_text(number.value(), self.uppercase)
    }

    fn render_integer(&self, number: Integer) -> (s: String) {
        let (negative, magnitude) = number.sign_and_magnitude();
        let (m, z) = strip_tens_exec(magnitude);
        let mut d: Vec<char> = Vec::new();
        push_digits(&mut d, m, 10, false);
        assert(d@ =~= digits(m as nat, 10, false));
        proof {
            lemma_digits_nonempty(m as nat, 10, false);
            lemma_digits_len_bound(m as nat, 10, false);
        }
        let mut out: Vec<char> = Vec::new();
        if negative {
            out.push('-');
        }
        out.push(d[0]);
        if d.len() > 1 {
            out.push('.');
            let mut i: usize = 1;
            while i < d.len()
                invariant
                    1 <= i <= d.len(),
                    out@ == optional(negative, seq!['-']) + seq![d@[0], '.'] + d@.subrange(1, i as int),
                decreases d.len() - i,
            {
                out.push(d[i]);
                i = i + 1;
                assert(out@ =~= optional(negative, seq!['-']) + seq![d@[0], '.'] + d@.subrange(1, i as int));
            }
            assert(d@.subrange(1, d.len() as int) =~= d@.skip(1));
        }
        assert(out@ =~= optional(negative, seq!['-']) + mantissa_text(d@));
        out.push(if self.uppercase { 'E' } else { 'e' });
        let exponent: u128 = z + (d.len() as u128) - 1;
        let mut e: Vec<char> = Vec::new();
        push_digits(&mut e, exponent, 10, false);
        push_all(&mut out, &e);
        assert(out@ =~= self.rendered(number));
        chars_to_string(out)
    }
}

/// There is always at least one digit.
pub proof fn lemma_digits_nonempty(n: nat, radix: nat, upper: bool)
    ensures
        digits(n, radix, upper).len() >= 1,
    decreases n,
{
    if !(radix < 2 || n < radix) {
        vstd::arithmetic::div_mod::lemma_div_decreases(n as int, radix as int);
        lemma_digits_nonempty(n / radix, radix, upper);
    }
}

/// No more digits than the number itself, plus one.
pub proof fn lemma_digits_len_bound(n: nat, radix: nat, upper: bool)
    ensures
        digits(n, radix, upper).len() <= n + 1,
    decreases n,
{
    if !(radix < 2 || n < radix) {
        vstd::arithmetic::div_mod::lemma_div_decreases(n as int, radix as int);
        lemma_digits_len_bound(n / radix, radix, upper);
    }
}

} // verus!
