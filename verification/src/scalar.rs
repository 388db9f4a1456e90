use vstd::prelude::*;

verus! {

/// A single-precision number, carried by its IEEE-754 bit pattern.
///
/// The core stores, copies and forwards such numbers; it never adds or
/// multiplies them. The one thing it asks of two of them is which comes first,
/// and it answers that by [`Scalar::rank`].
#[derive(Clone, Copy, PartialEq, Eq, Debug, Structural)]
pub struct Scalar {
    pub bits: u32,
}

impl Scalar {
    /// The place of this number in the IEEE-754 total order.
    ///
    /// For two numbers that are not NaN, the smaller number has the smaller
    /// rank, except that negative zero ranks just below positive zero.
    pub open spec fn rank(self) -> int {
        if self.bits < 0x8000_0000 {
            self.bits as int
        } else {
            0x7fff_ffff - self.bits
        }
    }

    /// Positive zero.
    #[verifier::when_used_as_spec(spec_zero)]
    pub fn zero() -> (r: Scalar)
        ensures
            r == Scalar::spec_zero(),
    {
        Scalar { bits: 0 }
    }

    /// Positive zero.
    pub open spec fn spec_zero() -> Scalar {
        Scalar { bits: 0 }
    }

    /// The number with this bit pattern.
    pub fn from_bits(bits: u32) -> (r: Scalar)
        ensures
            r.bits == bits,
    {
        Scalar { bits }
    }

    /// The bit pattern of the number.
    pub fn to_bits(self) -> (r: u32)
        ensures
            r == self.bits,
    {
        self.bits
    }

    fn exec_rank(self) -> (r: i64)
        ensures
            r == self.rank(),
    {
        if self.bits < 0x8000_0000 {
            self.bits as i64
        } else {
            0x7fff_ffff - (self.bits as i64)
        }
    }

    /// Whether `self` comes strictly before `other` in the total order.
    pub fn before(self, other: Scalar) -> (r: bool)
        ensures
            r == (self.rank() < other.rank()),
    {
        self.exec_rank() < other.exec_rank()
    }

    /// Whether `self` comes before `other` in the total order, or is `other`.
    pub fn not_after(self, other: Scalar) -> (r: bool)
        ensures
            r == (self.rank() <= other.rank()),
    {
        self.exec_rank() <= other.exec_rank()
    }
}

} // verus!
