use vstd::prelude::*;

use crate::error::Error;

verus! {

/// The byte order of a multi-byte value.
#[derive(Debug, Clone, Copy, PartialEq, Eq, Structural)]
pub enum Endian {
    Big,
    Little,
}

/// 256 to the power `n`.
pub open spec fn pow256(n: nat) -> nat
    decreases n,
{
    if n == 0 {
        1
    } else {
        256 * pow256((n - 1) as nat)
    }
}

/// The number that bytes denote, most significant byte first.
pub open spec fn be_nat(s: Seq<u8>) -> nat
    decreases s.len(),
{
    if s.len() == 0 {
        0
    } else {
        be_nat(s.drop_last()) * 256 + s.last() as nat
    }
}

/// The number that bytes denote, least significant byte first.
pub open spec fn le_nat(s: Seq<u8>) -> nat
    decreases s.len(),
{
    if s.len() == 0 {
        0
    } else {
        s[0] as nat + 256 * le_nat(s.drop_first())
    }
}

/// The unsigned number that bytes denote in the given byte order.
pub open spec fn unsigned_value(s: Seq<u8>, endian: Endian) -> nat {
    match endian {
        Endian::Big => be_nat(s),
        Endian::Little => le_nat(s),
    }
}

/// The two's-complement reading of an `n`-byte unsigned number.
pub open spec fn signed_of(u: int, n: nat) -> int {
    if 2 * u >= pow256(n) {
        u - pow256(n)
    } else {
        u
    }
}

pub proof fn lemma_pow256_values()
    ensures
        pow256(1) == 0x100,
        pow256(2) == 0x1_0000,
        pow256(3) == 0x100_0000,
        pow256(4) == 0x1_0000_0000,
        pow256(8) == 0x1_0000_0000_0000_0000,
        pow256(16) == 0x1_0000_0000_0000_0000_0000_0000_0000_0000,
{
    reveal_with_fuel(pow256, 17);
}

pub proof fn lemma_be_nat_bound(s: Seq<u8>)
    ensures
        be_nat(s) < pow256(s.len()),
    decreases s.len(),
{
    if s.len() > 0 {
        lemma_be_nat_bound(s.drop_last());
        let p = be_nat(s.drop_last());
        let q = pow256((s.len() - 1) as nat);
        let b = s.last();
        assert(p * 256 + b < 256 * q) by (nonlinear_arith)
            requires
                p < q,
                b < 256,
        ;
    }
}

pub proof fn lemma_le_nat_bound(s: Seq<u8>)
    ensures
        le_nat(s) < pow256(s.len()),
    decreases s.len(),
{
    if s.len() > 0 {
        lemma_le_nat_bound(s.drop_first());
        let p = le_nat(s.drop_first());
        let q = pow256((s.len() - 1) as nat);
        let b = s[0];
        assert(b + 256 * p < 256 * q) by (nonlinear_arith)
            requires
                p < q,
                b < 256,
        ;
    }
}

/// Two bytes least significant first, and most significant first.
pub proof fn lemma_two_bytes(s: Seq<u8>)
    requires
        s.len() == 2,
    ensures
        le_nat(s) == s[0] + 256 * s[1],
        be_nat(s) == 256 * s[0] + s[1],
{
    let t = s.drop_first();
    assert(t[0] == s[1]);
    assert(t.drop_first().len() == 0);
    assert(le_nat(t) == s[1] + 256 * le_nat(t.drop_first()));
    let u = s.drop_last();
    assert(u.last() == s[0]);
    assert(u.drop_last().len() == 0);
    assert(be_nat(u) == be_nat(u.drop_last()) * 256 + s[0]);
}

/// Four bytes least significant first, and most significant first.
pub proof fn lemma_four_bytes(s: Seq<u8>)
    requires
        s.len() == 4,
    ensures
        le_nat(s) == s[0] + 256 * s[1] + 0x1_0000 * s[2] + 0x100_0000 * s[3],
        be_nat(s) == 0x100_0000 * s[0] + 0x1_0000 * s[1] + 256 * s[2] + s[3],
{
    let t1 = s.drop_first();
    let t2 = t1.drop_first();
    let t3 = t2.drop_first();
    assert(t1[0] == s[1] && t2[0] == s[2] && t3[0] == s[3]);
    assert(t3.drop_first().len() == 0);
    assert(le_nat(t3) == s[3] + 256 * le_nat(t3.drop_first()));
    assert(le_nat(t2) == s[2] + 256 * le_nat(t3));
    assert(le_nat(t1) == s[1] + 256 * le_nat(t2));
    let u1 = s.drop_last();
    let u2 = u1.drop_last();
    let u3 = u2.drop_last();
    assert(u1.last() == s[2] && u2.last() == s[1] && u3.last() == s[0]);
    assert(u3.drop_last().len() == 0);
    assert(be_nat(u3) == be_nat(u3.drop_last()) * 256 + s[0]);
    assert(be_nat(u2) == be_nat(u3) * 256 + s[1]);
    assert(be_nat(u1) == be_nat(u2) * 256 + s[2]);
}

/// The number that bytes denote least significant first is the one that
/// the same bytes in reverse order denote most significant first.
pub proof fn lemma_le_is_reversed_be(s: Seq<u8>)
    ensures
        le_nat(s) == be_nat(s.reverse()),
    decreases s.len(),
{
    if s.len() > 0 {
        lemma_le_is_reversed_be(s.drop_first());
        let r = s.reverse();
        assert(r.drop_last() =~= s.drop_first().reverse());
        assert(r.last() == s[0]);
    }
}

/// A position in a buffer of bytes, from which values are read.
#[derive(Clone, Copy)]
pub struct Context<'a> {
    data: &'a [u8],
    position: usize,
}

impl<'a> Context<'a> {
    /// The whole buffer.
    pub closed spec fn bytes(self) -> Seq<u8> {
        self.data@
    }

    /// The position in the buffer.
    pub closed spec fn pos(self) -> nat {
        self.position as nat
    }

    /// The `n` bytes at the position (meaningful when they all exist).
    pub open spec fn window(self, n: nat) -> Seq<u8> {
        self.bytes().subrange(self.pos() as int, (self.pos() + n) as int)
    }

    /// Whether `n` bytes can be read at the position.
    pub open spec fn has(self, n: nat) -> bool {
        self.pos() + n <= self.bytes().len()
    }

    /// The bytes from the position to the end of the buffer (none when the
    /// position lies past the end).
    pub open spec fn rest(self) -> Seq<u8> {
        if self.pos() <= self.bytes().len() {
            self.bytes().skip(self.pos() as int)
        } else {
            Seq::empty()
        }
    }

    /// A context at the start of the buffer.
    pub fn new(data: &'a [u8]) -> (r: Context<'a>)
        ensures
            r.bytes() == data@,
            r.pos() == 0,
    {
        Context { data, position: 0 }
    }

    /// A context at the given position of the buffer.
    pub fn new_at(data: &'a [u8], position: usize) -> (r: Context<'a>)
        ensures
            r.bytes() == data@,
            r.pos() == position,
    {
        Context { data, position }
    }

    /// The same buffer, at another position.
    pub fn at(self, position: usize) -> (r: Context<'a>)
        ensures
            r.bytes() == self.bytes(),
            r.pos() == position,
    {
        Context { data: self.data, position }
    }

    /// The position in the buffer.
    pub fn position(self) -> (r: usize)
        ensures
            r == self.pos(),
    {
        self.position
    }

    /// The length of the buffer.
    pub fn len(self) -> (r: usize)
        ensures
            r == self.bytes().len(),
    {
        self.data.len()
    }

    /// The byte at an absolute offset of the buffer.
    pub fn byte_at(self, offset: usize) -> (r: u8)
        requires
            offset < self.bytes().len(),
        ensures
            r == self.bytes()[offset as int],
    {
        self.data[offset]
    }

    /// Copy out the `n` bytes at the position.
    pub fn read_bytes(self, n: usize) -> (r: Result<Vec<u8>, Error>)
        ensures
            r is Ok <==> self.has(n as nat),
            r matches Ok(v) ==> v@ == self.window(n as nat),
            r matches Err(e) ==> e == Error::OutOfBounds,
    {
        if self.position > self.data.len() || n > self.data.len() - self.position {
            return Err(Error::OutOfBounds);
        }
        assert(self.position + n <= self.data.len());
        let mut out: Vec<u8> = Vec::new();
        let mut i: usize = 0;
        while i < n
            invariant
                i <= n,
                self.pos() + n <= self.bytes().len(),
                self.position as int + n as int <= self.data@.len(),
                self.position as int + n as int <= usize::MAX,
                out@ == self.window(i as nat),
            decreases n - i,
        {
            out.push(self.data[self.position + i]);
            i = i + 1;
            assert(out@ =~= self.window(i as nat));
        }
        Ok(out)
    }

    /// Read the `n` bytes at the position as an unsigned number in the given
    /// byte order.
    pub fn read_unsigned(self, n: usize, endian: Endian) -> (r: Result<u128, Error>)
        requires
            n <= 16,
        ensures
            r is Ok <==> self.has(n as nat),
            r matches Ok(v) ==> v as nat == unsigned_value(self.window(n as nat), endian),
            r matches Ok(v) ==> (v as nat) < pow256(n as nat),
            r matches Err(e) ==> e == Error::OutOfBounds,
    {
        if self.position > self.data.len() || n > self.data.len() - self.position {
            return Err(Error::OutOfBounds);
        }
        assert(self.position + n <= self.data.len());
        let ghost w = self.window(n as nat);
        proof {
            lemma_pow256_values();
            lemma_pow256_monotone(n as nat, 16);
            lemma_be_nat_bound(w);
            lemma_le_nat_bound(w);
        }
        let mut acc: u128 = 0;
        match endian {
            Endian::Big => {
                let mut i: usize = 0;
                while i < n
                    invariant
                        i <= n <= 16,
                        self.pos() + n <= self.bytes().len(),
                                self.position as int + n as int <= usize::MAX,
                        w == self.window(n as nat),
                        acc as nat == be_nat(w.take(i as int)),
                    decreases n - i,
                {
                    proof {
                        assert(w.take(i + 1).drop_last() =~= w.take(i as int));
                        lemma_be_nat_bound(w.take(i + 1));
                        lemma_pow256_monotone((i + 1) as nat, 16);
                        lemma_pow256_values();
                    }
                    acc = acc * 256 + self.data[self.position + i] as u128;
                    i = i + 1;
                }
                assert(w.take(n as int) =~= w);
            },
            Endian::Little => {
                let mut j: usize = n;
                while j > 0
                    invariant
                        j <= n <= 16,
                        self.pos() + n <= self.bytes().len(),
                                self.position as int + n as int <= usize::MAX,
                        w == self.window(n as nat),
                        acc as nat == le_nat(w.skip(j as int)),
                    decreases j,
                {
                    proof {
                        assert(w.skip(j - 1).drop_first() =~= w.skip(j as int));
                        lemma_le_nat_bound(w.skip(j - 1));
                        lemma_pow256_monotone((n - j + 1) as nat, 16);
                        lemma_pow256_values();
                    }
                    acc = self.data[self.position + j - 1] as u128 + 256 * acc;
                    j = j - 1;
                }
                assert(w.skip(0) =~= w);
            },
        }
        Ok(acc)
    }
}

pub proof fn lemma_pow256_monotone(a: nat, b: nat)
    requires
        a <= b,
    ensures
        pow256(a) <= pow256(b),
    decreases b,
{
    if a < b {
        lemma_pow256_monotone(a, (b - 1) as nat);
    }
}

} // verus!
