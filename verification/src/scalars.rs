//! Scalars: numbers below the order of the secp256k1 group, which blinding factors
//! have to be.

use vstd::arithmetic::div_mod::lemma_fundamental_div_mod_converse;
use vstd::prelude::*;

verus! {

/// The first half of the order of the group.
pub const HALF_HI: u128 = 0xFFFF_FFFF_FFFF_FFFF_FFFF_FFFF_FFFF_FFFE;

/// The second half of the order of the group.
pub const HALF_LO: u128 = 0xBAAE_DCE6_AF48_A03B_BFD2_5E8C_D036_4141;

/// The number that two halves stand for, the first of which counts more.
pub open spec fn joined_halves(hi: int, lo: int) -> int {
    hi * 0x1_0000_0000_0000_0000_0000_0000_0000_0000 + lo
}

/// The order of the group.
pub open spec fn group_order() -> int {
    joined_halves(HALF_HI as int, HALF_LO as int)
}

/// The number that bytes stand for, the first of which counts most.
pub open spec fn number_of(bytes: Seq<u8>) -> nat
    decreases bytes.len(),
{
    if bytes.len() == 0 {
        0
    } else {
        number_of(bytes.drop_last()) * 256 + bytes.last() as nat
    }
}

/// The number that a blinding factor stands for.
pub open spec fn scalar_of(bytes: Seq<u8>) -> int {
    joined_halves(
        number_of(bytes.subrange(0, 16)) as int,
        number_of(bytes.subrange(16, 32)) as int,
    )
}

/// Whether bytes are a scalar.
pub open spec fn is_scalar(bytes: Seq<u8>) -> bool {
    bytes.len() == 32 && scalar_of(bytes) < group_order()
}

/// How many numbers a count of bytes can stand for.
spec fn numbers(count: nat) -> nat
    decreases count,
{
    if count == 0 {
        1
    } else {
        numbers((count - 1) as nat) * 256
    }
}

proof fn lemma_more_numbers(n: nat, m: nat)
    requires
        n <= m,
    ensures
        numbers(n) <= numbers(m),
    decreases m,
{
    if n < m {
        lemma_more_numbers(n, (m - 1) as nat);
    }
}

/// Reads the number that 16 bytes stand for.
fn read_half(bytes: &Vec<u8>, start: usize) -> (r: u128)
    requires
        start + 16 <= bytes@.len(),
    ensures
        r == number_of(bytes@.subrange(start as int, start + 16)),
{
    let ghost half = bytes@.subrange(start as int, start + 16);
    let mut acc: u128 = 0;
    let mut i: usize = 0;
    proof {
        assert(half.take(0) =~= Seq::<u8>::empty());
        reveal_with_fuel(numbers, 17);
        assert(numbers(16) == 0x1_0000_0000_0000_0000_0000_0000_0000_0000);
    }
    while i < 16
        invariant
            i <= 16,
            start + 16 <= bytes.len(),
            half == bytes@.subrange(start as int, start + 16),
            numbers(16) == 0x1_0000_0000_0000_0000_0000_0000_0000_0000,
            acc == number_of(half.take(i as int)),
            acc < numbers(i as nat),
        decreases 16 - i,
    {
        proof {
            lemma_more_numbers((i + 1) as nat, 16);
            assert(half.take(i + 1).drop_last() =~= half.take(i as int));
            assert(half.take(i + 1).last() == bytes@[start + i]);
        }
        acc = acc * 256 + bytes[start + i] as u128;
        i += 1;
    }
    assert(half.take(16) =~= half);
    acc
}

/// A scalar.
#[derive(Debug, Clone, Copy)]
pub(crate) struct Scalar {
    hi: u128,
    lo: u128,
}

impl Scalar {
    /// The number.
    pub(crate) closed spec fn value(&self) -> int {
        joined_halves(self.hi as int, self.lo as int)
    }

    /// Zero.
    pub(crate) fn zero() -> (r: Scalar)
        ensures
            r.value() == 0,
    {
        Scalar { hi: 0, lo: 0 }
    }

    /// Tells whether the scalar is zero.
    pub(crate) fn is_zero(&self) -> (r: bool)
        ensures
            r == (self.value() == 0),
    {
        self.hi == 0 && self.lo == 0
    }

    /// Reads a scalar, if bytes are one.
    pub(crate) fn read(bytes: &Vec<u8>) -> (r: Option<Scalar>)
        ensures
            r is Some <==> is_scalar(bytes@),
            r matches Some(s) ==> s.value() == scalar_of(bytes@),
    {
        if bytes.len() != 32 {
            return None;
        }
        let hi: u128 = read_half(bytes, 0);
        let lo: u128 = read_half(bytes, 16);
        if hi < HALF_HI || (hi == HALF_HI && lo < HALF_LO) {
            Some(Scalar { hi, lo })
        } else {
            None
        }
    }

    /// Adds two scalars, modulo the order of the group.
    pub(crate) fn plus(&self, other: &Scalar) -> (r: Scalar)
        requires
            0 <= self.value() < group_order(),
            0 <= other.value() < group_order(),
        ensures
            r.value() == (self.value() + other.value()) % group_order(),
    {
        let order: Scalar = Scalar { hi: HALF_HI, lo: HALF_LO };
        let rest: Scalar = order.minus(other);
        let r: Scalar = if self.hi > rest.hi || (self.hi == rest.hi && self.lo >= rest.lo) {
            self.minus(&rest)
        } else if self.lo > u128::MAX - other.lo {
            Scalar {
                hi: self.hi + other.hi + 1,
                lo: self.lo - (u128::MAX - other.lo) - 1,
            }
        } else {
            Scalar { hi: self.hi + other.hi, lo: self.lo + other.lo }
        };
        proof {
            let n = group_order();
            let total = self.value() + other.value();
            let q: int = if total >= n {
                1
            } else {
                0
            };
            lemma_fundamental_div_mod_converse(total, n, q, r.value());
        }
        r
    }

    fn minus(&self, other: &Scalar) -> (r: Scalar)
        requires
            self.value() >= other.value(),
        ensures
            r.value() == self.value() - other.value(),
    {
        if self.lo >= other.lo {
            Scalar { hi: self.hi - other.hi, lo: self.lo - other.lo }
        } else {
            Scalar {
                hi: self.hi - other.hi - 1,
                lo: (u128::MAX - other.lo) + self.lo + 1,
            }
        }
    }
}

} // verus!
