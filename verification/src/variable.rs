//! Variables: registers and temporary values.

use crate::bytesize::ByteSize;
use vstd::prelude::*;

verus! {

/// A register or a temporary value of known size.
///
/// Temporary values are introduced when machine code is lifted. They are
/// never listed among the registers of an architecture.
#[derive(Debug, PartialEq, Eq, Hash)]
pub struct Variable {
    pub name: String,
    pub size: ByteSize,
    pub is_temp: bool,
}

/// What a [`Variable`] stands for in specifications.
pub struct VariableView {
    pub name: Seq<char>,
    pub size: nat,
    pub is_temp: bool,
}

impl View for Variable {
    type V = VariableView;

    open spec fn view(&self) -> VariableView {
        VariableView { name: self.name@, size: self.size@, is_temp: self.is_temp }
    }
}

impl Clone for Variable {
    fn clone(&self) -> (copy: Self)
        ensures
            copy@ == self@,
    {
        Variable { name: self.name.clone(), size: self.size, is_temp: self.is_temp }
    }
}

impl Variable {
    /// Whether two variables agree in name, size and kind.
    pub fn same_variable(&self, other: &Variable) -> (same: bool)
        ensures
            same == (self@ == other@),
    {
        self.name == other.name && self.size.0 == other.size.0 && self.is_temp == other.is_temp
    }
}

} // verus!
