//! Real quantities of the protocol.
//!
//! A real number is held as the 64 bits of its binary encoding: one sign
//! bit, eleven exponent bits and fifty-two fraction bits. This module never
//! does arithmetic on such a value. It orders them, and it keeps each bounded
//! quantity inside its interval. Ordering needs no arithmetic, because the
//! encoding is monotone: among patterns with a clear sign bit the larger
//! pattern encodes the larger number, and among patterns with the sign bit
//! set the larger pattern encodes the smaller number.

use vstd::prelude::*;

verus! {

/// The sign bit of an encoded real.
pub const SIGN_BIT: u64 = 0x8000_0000_0000_0000;

/// The encoding of one.
pub const ONE_BITS: u64 = 0x3FF0_0000_0000_0000;

/// The encoding of one half.
pub const HALF_BITS: u64 = 0x3FE0_0000_0000_0000;

/// The encoding of the smallest connection weight.
pub const W_MIN_BITS: u64 = 0x3F84_7AE1_47AE_147B;

/// The encoding of the weight of a fresh connection.
pub const W_INIT_BITS: u64 = 0x3FD3_3333_3333_3333;

/// The place of an encoded real in the order of the reals: an integer that is
/// smaller exactly when the encoded number is smaller. Both encodings of zero
/// have rank 0. A pattern that encodes no number ranks beyond the infinity of
/// its sign.
pub open spec fn rank_of(bits: u64) -> int {
    if bits < SIGN_BIT {
        bits as int
    } else {
        SIGN_BIT as int - bits as int
    }
}

/// What `rank_of` gives after clamping into `[lo, hi]`.
pub open spec fn clamp_rank(rank: int, lo: int, hi: int) -> int {
    if rank < lo {
        lo
    } else if rank > hi {
        hi
    } else {
        rank
    }
}

/// A count with one more counted. A count that has reached the largest
/// number that it can hold stays there.
pub open spec fn bumped(count: u32) -> u32 {
    if count < u32::MAX {
        (count + 1) as u32
    } else {
        count
    }
}

/// A count with one more counted.
pub fn bump(count: u32) -> (more: u32)
    ensures
        more == bumped(count),
{
    if count < u32::MAX {
        count + 1
    } else {
        count
    }
}

/// An unbounded real: reciprocity, volume, exchanged value.
#[derive(Clone, Copy, Debug, PartialEq, Eq, Structural)]
pub struct Real(pub u64);

impl Real {
    /// The place of the real in the order of the reals.
    pub open spec fn rank(self) -> int {
        rank_of(self.0)
    }

    /// The real with the given encoding.
    pub fn from_bits(bits: u64) -> (r: Self)
        ensures
            r.0 == bits,
    {
        Real(bits)
    }

    /// The encoding of this real.
    pub fn to_bits(&self) -> (bits: u64)
        ensures
            bits == self.0,
    {
        self.0
    }

    /// The real zero.
    pub fn zero() -> (r: Self)
        ensures
            r.0 == 0,
            r.rank() == 0,
    {
        Real(0)
    }

    /// The real one.
    pub fn one() -> (r: Self)
        ensures
            r.0 == ONE_BITS,
            r.rank() == ONE_BITS,
    {
        Real(ONE_BITS)
    }

    /// Whether this real is smaller than `other`.
    pub fn lt(&self, other: &Real) -> (r: bool)
        ensures
            r == (self.rank() < other.rank()),
    {
        let a_neg = self.0 >= SIGN_BIT;
        let b_neg = other.0 >= SIGN_BIT;
        if a_neg && b_neg {
            self.0 > other.0
        } else if a_neg {
            self.0 > SIGN_BIT || other.0 > 0
        } else if b_neg {
            false
        } else {
            self.0 < other.0
        }
    }

    /// Whether this real is at most `other`.
    pub fn le(&self, other: &Real) -> (r: bool)
        ensures
            r == (self.rank() <= other.rank()),
    {
        !other.lt(self)
    }

    /// Whether this real is greater than `other`.
    pub fn gt(&self, other: &Real) -> (r: bool)
        ensures
            r == (self.rank() > other.rank()),
    {
        other.lt(self)
    }

    /// Whether this real is at least `other`.
    pub fn ge(&self, other: &Real) -> (r: bool)
        ensures
            r == (self.rank() >= other.rank()),
    {
        !self.lt(other)
    }
}

/// A score in the closed interval from zero to one.
#[derive(Clone, Copy, Debug, PartialEq, Eq, Structural)]
pub struct Score {
    bits: u64,
}

impl Score {
    /// Every score lies between zero and one.
    #[verifier::type_invariant]
    pub closed spec fn in_range(self) -> bool {
        self.bits <= ONE_BITS
    }

    /// The place of the score in the order of the reals; two scores are equal
    /// exactly when their ranks are.
    pub closed spec fn rank(self) -> int {
        self.bits as int
    }

    /// The rank of the score of a real: its rank, clamped into the interval.
    pub open spec fn clamped(value: Real) -> int {
        clamp_rank(value.rank(), 0, ONE_BITS as int)
    }

    /// A score of the given real, clamped into the interval: a negative real
    /// gives zero, a real above one gives one.
    pub fn new(value: Real) -> (s: Self)
        ensures
            s.rank() == Self::clamped(value),
            s.rank() == clamp_rank(value.rank(), 0, ONE_BITS as int),
            0 <= s.rank() <= ONE_BITS,
    {
        if value.0 >= SIGN_BIT {
            Score { bits: 0 }
        } else if value.0 > ONE_BITS {
            Score { bits: ONE_BITS }
        } else {
            Score { bits: value.0 }
        }
    }

    /// A score of the given real, clamped into the interval as every score
    /// is; a real that lies in the interval is taken as it is.
    pub fn from_raw(value: Real) -> (s: Self)
        ensures
            s.rank() == Self::clamped(value),
            0 <= s.rank() <= ONE_BITS,
            0 <= value.rank() <= ONE_BITS ==> s.rank() == value.rank(),
    {
        Self::new(value)
    }

    /// The real that this score holds. It lies between zero and one.
    pub fn value(&self) -> (r: Real)
        ensures
            r.rank() == self.rank(),
            r.0 == self.rank(),
            0 <= r.rank() <= ONE_BITS,
    {
        proof {
            use_type_invariant(self);
        }
        Real(self.bits)
    }

    /// The score zero.
    pub fn zero() -> (s: Self)
        ensures
            s.rank() == 0,
    {
        Score { bits: 0 }
    }

    /// The score one half.
    pub fn half() -> (s: Self)
        ensures
            s.rank() == HALF_BITS,
    {
        Score { bits: HALF_BITS }
    }

    /// The score one.
    pub fn one() -> (s: Self)
        ensures
            s.rank() == ONE_BITS,
    {
        Score { bits: ONE_BITS }
    }

    /// Whether this score is below `other`.
    pub fn lt(&self, other: &Score) -> (r: bool)
        ensures
            r == (self.rank() < other.rank()),
    {
        self.bits < other.bits
    }

    /// Whether this score is at most `other`.
    pub fn le(&self, other: &Score) -> (r: bool)
        ensures
            r == (self.rank() <= other.rank()),
    {
        self.bits <= other.bits
    }

    /// Whether this score is above `other`.
    pub fn gt(&self, other: &Score) -> (r: bool)
        ensures
            r == (self.rank() > other.rank()),
    {
        self.bits > other.bits
    }

    /// Whether this score is at least `other`.
    pub fn ge(&self, other: &Score) -> (r: bool)
        ensures
            r == (self.rank() >= other.rank()),
    {
        self.bits >= other.bits
    }

    /// Whether this score is below the real with the given encoding.
    pub fn below(&self, bound: u64) -> (r: bool)
        ensures
            r == (self.rank() < rank_of(bound)),
    {
        proof {
            use_type_invariant(self);
        }
        bound < SIGN_BIT && self.bits < bound
    }

    /// Whether this score is above the real with the given encoding.
    pub fn above(&self, bound: u64) -> (r: bool)
        ensures
            r == (self.rank() > rank_of(bound)),
    {
        proof {
            use_type_invariant(self);
        }
        if bound >= SIGN_BIT {
            self.bits > 0 || bound > SIGN_BIT
        } else {
            self.bits > bound
        }
    }

    /// The smaller of two scores.
    pub fn min(self, other: Score) -> (s: Score)
        ensures
            s.rank() == if self.rank() <= other.rank() { self.rank() } else { other.rank() },
            s == self || s == other,
    {
        if self.bits <= other.bits {
            self
        } else {
            other
        }
    }

    /// The larger of two scores.
    pub fn max(self, other: Score) -> (s: Score)
        ensures
            s.rank() == if self.rank() >= other.rank() { self.rank() } else { other.rank() },
            s == self || s == other,
    {
        if self.bits >= other.bits {
            self
        } else {
            other
        }
    }
}

impl Default for Score {
    /// One half.
    fn default() -> (s: Self)
        ensures
            s.rank() == HALF_BITS,
    {
        Score::half()
    }
}

/// Two scores of one rank are the same score.
pub proof fn lemma_score_rank_decides(a: Score, b: Score)
    ensures
        (a.rank() == b.rank()) == (a == b),
{
}

/// A signed score in the closed interval from minus one to one.
#[derive(Clone, Copy, Debug, PartialEq, Eq, Structural)]
pub struct SignedScore {
    bits: u64,
}

impl SignedScore {
    /// Every signed score lies between minus one and one.
    #[verifier::type_invariant]
    pub closed spec fn in_range(self) -> bool {
        self.bits <= ONE_BITS || (SIGN_BIT < self.bits && self.bits <= SIGN_BIT + ONE_BITS)
    }

    /// The place of the signed score in the order of the reals; two signed
    /// scores are equal exactly when their ranks are.
    pub closed spec fn rank(self) -> int {
        rank_of(self.bits)
    }

    /// A signed score of the given real, clamped into the interval: a real
    /// below minus one gives minus one, a real above one gives one.
    pub fn new(value: Real) -> (s: Self)
        ensures
            s.rank() == clamp_rank(value.rank(), -(ONE_BITS as int), ONE_BITS as int),
            -(ONE_BITS as int) <= s.rank() <= ONE_BITS,
    {
        if value.0 >= SIGN_BIT {
            if value.0 == SIGN_BIT {
                SignedScore { bits: 0 }
            } else if value.0 > SIGN_BIT + ONE_BITS {
                SignedScore { bits: SIGN_BIT + ONE_BITS }
            } else {
                SignedScore { bits: value.0 }
            }
        } else if value.0 > ONE_BITS {
            SignedScore { bits: ONE_BITS }
        } else {
            SignedScore { bits: value.0 }
        }
    }

    /// A signed score of the given real, clamped into the interval as every
    /// signed score is; a real that lies in the interval is taken as it is.
    pub fn from_raw(value: Real) -> (s: Self)
        ensures
            s.rank() == clamp_rank(value.rank(), -(ONE_BITS as int), ONE_BITS as int),
            -(ONE_BITS as int) <= s.rank() <= ONE_BITS,
            -(ONE_BITS as int) <= value.rank() <= ONE_BITS ==> s.rank() == value.rank(),
    {
        Self::new(value)
    }

    /// The real that this signed score holds. It lies between minus one and
    /// one.
    pub fn value(&self) -> (r: Real)
        ensures
            r.rank() == self.rank(),
            -(ONE_BITS as int) <= r.rank() <= ONE_BITS,
    {
        proof {
            use_type_invariant(self);
        }
        Real(self.bits)
    }

    /// The signed score zero.
    pub fn zero() -> (s: Self)
        ensures
            s.rank() == 0,
    {
        SignedScore { bits: 0 }
    }

    /// The signed score one.
    pub fn one() -> (s: Self)
        ensures
            s.rank() == ONE_BITS,
    {
        SignedScore { bits: ONE_BITS }
    }

    /// The signed score minus one.
    pub fn neg_one() -> (s: Self)
        ensures
            s.rank() == -(ONE_BITS as int),
    {
        SignedScore { bits: SIGN_BIT + ONE_BITS }
    }
}

impl Default for SignedScore {
    /// Zero.
    fn default() -> (s: Self)
        ensures
            s.rank() == 0,
    {
        SignedScore::zero()
    }
}

/// A connection weight in the closed interval from the smallest weight to the
/// largest, which is one.
#[derive(Clone, Copy, Debug, PartialEq, Eq, Structural)]
pub struct Weight {
    bits: u64,
}

impl Weight {
    /// Every weight lies between the smallest weight and one.
    #[verifier::type_invariant]
    pub closed spec fn in_range(self) -> bool {
        W_MIN_BITS <= self.bits <= ONE_BITS
    }

    /// The place of the weight in the order of the reals; two weights are
    /// equal exactly when their ranks are.
    pub closed spec fn rank(self) -> int {
        self.bits as int
    }

    /// A weight of the given real, clamped into the interval.
    pub fn new(value: Real) -> (w: Self)
        ensures
            w.rank() == clamp_rank(value.rank(), W_MIN_BITS as int, ONE_BITS as int),
            W_MIN_BITS <= w.rank() <= ONE_BITS,
    {
        if value.0 >= SIGN_BIT || value.0 < W_MIN_BITS {
            Weight { bits: W_MIN_BITS }
        } else if value.0 > ONE_BITS {
            Weight { bits: ONE_BITS }
        } else {
            Weight { bits: value.0 }
        }
    }

    /// A weight of the given real, clamped into the interval as every weight
    /// is; a real that lies in the interval is taken as it is.
    pub fn from_raw(value: Real) -> (w: Self)
        ensures
            w.rank() == clamp_rank(value.rank(), W_MIN_BITS as int, ONE_BITS as int),
            W_MIN_BITS <= w.rank() <= ONE_BITS,
            W_MIN_BITS <= value.rank() <= ONE_BITS ==> w.rank() == value.rank(),
    {
        Self::new(value)
    }

    /// The real that this weight holds. It lies between the smallest weight
    /// and one.
    pub fn value(&self) -> (r: Real)
        ensures
            r.rank() == self.rank(),
            r.0 == self.rank(),
            W_MIN_BITS <= r.rank() <= ONE_BITS,
    {
        proof {
            use_type_invariant(self);
        }
        Real(self.bits)
    }

    /// The smallest weight.
    pub fn min() -> (w: Self)
        ensures
            w.rank() == W_MIN_BITS,
    {
        Weight { bits: W_MIN_BITS }
    }

    /// The largest weight.
    pub fn max() -> (w: Self)
        ensures
            w.rank() == ONE_BITS,
    {
        Weight { bits: ONE_BITS }
    }

    /// The weight of a fresh connection.
    pub fn init() -> (w: Self)
        ensures
            w.rank() == W_INIT_BITS,
    {
        Weight { bits: W_INIT_BITS }
    }

    /// Whether the weight has fallen to the smallest weight.
    pub fn is_min(&self) -> (r: bool)
        ensures
            r == (self.rank() <= W_MIN_BITS),
            r == (self.rank() == W_MIN_BITS),
    {
        proof {
            use_type_invariant(self);
        }
        self.bits <= W_MIN_BITS
    }
}

impl Default for Weight {
    /// The weight of a fresh connection.
    fn default() -> (w: Self)
        ensures
            w.rank() == W_INIT_BITS,
    {
        Weight::init()
    }
}

} // verus!
