use vstd::prelude::*;

use std::ops::Range;

use crate::error::Error;

verus! {

/// How a value's range is padded.
///
/// When aligned, a value's length is padded to a multiple of the alignment.
/// [`Alignment::Strict`] also refuses a value that does not *start* on a
/// multiple of the alignment.
#[derive(Debug, Clone, Copy, PartialEq, Eq, Structural)]
pub enum Alignment {
    /// Don't align at all
    NoAlignment,
    /// Pad each length to a multiple - so 0..1 aligned to 4 is 0..4, and 1..2
    /// aligned to 4 is 1..5
    Loose(u64),
    /// Pad after, but refuse a start that isn't a multiple
    Strict(u64),
}

/// `number` rounded up to a multiple of `multiple` (unchanged for a
/// multiple of zero).
pub open spec fn round_up_spec(number: nat, multiple: nat) -> nat {
    if multiple == 0 || number % multiple == 0 {
        number
    } else {
        (number - number % multiple + multiple) as nat
    }
}

impl Alignment {
    /// The multiple that lengths are padded to (none for `None`).
    pub open spec fn multiple(self) -> Option<nat> {
        match self {
            Alignment::NoAlignment => None,
            Alignment::Loose(m) => Some(m as nat),
            Alignment::Strict(m) => Some(m as nat),
        }
    }

    /// What [`Self::align`] gives for a range from `start` to `end`.
    pub open spec fn aligned(self, start: nat, end: nat) -> Result<(nat, nat), Error> {
        if end < start {
            Err(Error::RangeEndsBeforeStart)
        } else {
            match self {
                Alignment::NoAlignment => Ok((start, end)),
                Alignment::Loose(m) => Ok((start, start + round_up_spec((end - start) as nat, m as nat))),
                Alignment::Strict(m) => if m != 0 && start % (m as nat) != 0 {
                    Err(Error::Unaligned)
                } else {
                    Ok((start, start + round_up_spec((end - start) as nat, m as nat)))
                },
            }
        }
    }

    /// Whether aligning the range stays within `u64`.
    pub open spec fn fits(self, start: nat, end: nat) -> bool {
        self.aligned(start, end) matches Ok((_, e)) ==> e <= u64::MAX
    }

    /// Round `number` up to a multiple of `multiple`.
    fn round_up(number: u64, multiple: u64) -> (r: u64)
        requires
            round_up_spec(number as nat, multiple as nat) <= u64::MAX,
        ensures
            r == round_up_spec(number as nat, multiple as nat),
    {
        if multiple == 0 {
            return number;
        }
        let remainder = number % multiple;
        if remainder == 0 {
            return number;
        }
        assert(remainder <= number) by (nonlinear_arith)
            requires
                multiple > 0,
                remainder == number % multiple,
        ;
        number - remainder + multiple
    }

    /// Align a range: pad its length to a multiple of the alignment.
    ///
    /// Fails with [`Error::RangeEndsBeforeStart`] when the range ends before
    /// it starts, and, for [`Alignment::Strict`], with [`Error::Unaligned`]
    /// when it does not start on a multiple.
    pub fn align(self, range: Range<u64>) -> (r: Result<Range<u64>, Error>)
        requires
            self.fits(range.start as nat, range.end as nat),
        ensures
            match self.aligned(range.start as nat, range.end as nat) {
                Ok((s, e)) => r is Ok && r->Ok_0.start == s && r->Ok_0.end == e,
                Err(err) => r == Err::<Range<u64>, Error>(err),
            },
    {
        if range.end < range.start {
            return Err(Error::RangeEndsBeforeStart);
        }
        match self {
            Alignment::NoAlignment => Ok(range),
            Alignment::Loose(m) => {
                let new_size = Self::round_up(range.end - range.start, m);
                Ok(range.start..(range.start + new_size))
            },
            Alignment::Strict(m) => {
                if m != 0 && (range.start % m != 0) {
                    return Err(Error::Unaligned);
                }
                let new_size = Self::round_up(range.end - range.start, m);
                Ok(range.start..(range.start + new_size))
            },
        }
    }
}

/// Rounding up gives a multiple, no smaller than the number, and less than
/// one multiple above it.
pub proof fn lemma_round_up(number: nat, multiple: nat)
    requires
        multiple > 0,
    ensures
        round_up_spec(number, multiple) % multiple == 0,
        number <= round_up_spec(number, multiple) < number + multiple,
{
    let r = number % multiple;
    if r != 0 {
        vstd::arithmetic::div_mod::lemma_fundamental_div_mod(number as int, multiple as int);
        let q = number / multiple;
        assert(number - r + multiple == (q + 1) * multiple) by (nonlinear_arith)
            requires
                number == multiple * q + r,
        ;
        vstd::arithmetic::div_mod::lemma_mod_multiples_basic((q + 1) as int, multiple as int);
    }
}

/// Rounding up twice is rounding up once.
pub proof fn lemma_round_up_idempotent(number: nat, multiple: nat)
    ensures
        round_up_spec(round_up_spec(number, multiple), multiple) == round_up_spec(number, multiple),
{
    if multiple > 0 {
        lemma_round_up(number, multiple);
    }
}

/// Aligning keeps the start, never shortens the range, leaves a length that
/// is a multiple of the alignment (less than one multiple longer), and an
/// aligned range aligns to itself.
pub proof fn lemma_align_laws(a: Alignment, start: nat, end: nat)
    requires
        a.aligned(start, end) is Ok,
    ensures
        a.aligned(start, end)->Ok_0.0 == start,
        a.aligned(start, end)->Ok_0.1 >= end,
        a.multiple() is Some && a.multiple()->0 > 0 ==> (a.aligned(start, end)->Ok_0.1 - start)
            % (a.multiple()->0 as int) == 0,
        a.multiple() is Some && a.multiple()->0 > 0 ==> a.aligned(start, end)->Ok_0.1 - start < (end
            - start) + a.multiple()->0,
        a.aligned(start, a.aligned(start, end)->Ok_0.1) == a.aligned(start, end),
{
    let len = (end - start) as nat;
    match a {
        Alignment::NoAlignment => {},
        Alignment::Loose(m) => {
            lemma_round_up_idempotent(len, m as nat);
            if m > 0 {
                lemma_round_up(len, m as nat);
            }
        },
        Alignment::Strict(m) => {
            lemma_round_up_idempotent(len, m as nat);
            if m > 0 {
                lemma_round_up(len, m as nat);
            }
        },
    }
}

} // verus!
