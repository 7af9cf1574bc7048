//! Sizes and offsets, counted in bytes.

use vstd::prelude::*;

verus! {

/// A number of bytes.
///
/// The same type measures the size of a value and the offset of a value
/// inside a larger one.
#[derive(Clone, Copy, Debug, PartialEq, Eq, Hash, Structural)]
pub struct ByteSize(pub u64);

impl View for ByteSize {
    type V = nat;

    open spec fn view(&self) -> nat {
        self.0 as nat
    }
}

impl ByteSize {
    /// The size of `value` bytes.
    pub fn new(value: u64) -> (size: ByteSize)
        ensures
            size@ == value,
    {
        ByteSize(value)
    }

    /// The number of bytes as a machine integer.
    pub fn as_u64(self) -> (value: u64)
        ensures
            value == self@,
    {
        self.0
    }

    /// The sum of two sizes, or `None` where the sum does not fit the type.
    pub fn checked_add(self, rhs: ByteSize) -> (sum: Option<ByteSize>)
        ensures
            self@ + rhs@ <= u64::MAX ==> sum == Some(ByteSize((self@ + rhs@) as u64)),
            self@ + rhs@ > u64::MAX ==> sum is None,
    {
        match self.0.checked_add(rhs.0) {
            Some(value) => Some(ByteSize(value)),
            None => None,
        }
    }

    /// The difference of two sizes, or `None` where `rhs` is the larger one.
    pub fn checked_sub(self, rhs: ByteSize) -> (difference: Option<ByteSize>)
        ensures
            rhs@ <= self@ ==> difference == Some(ByteSize((self@ - rhs@) as u64)),
            rhs@ > self@ ==> difference is None,
    {
        match self.0.checked_sub(rhs.0) {
            Some(value) => Some(ByteSize(value)),
            None => None,
        }
    }
}

} // verus!
