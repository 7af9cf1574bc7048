//! The terms of a basic block that define values.

use crate::expression::{Expression, ExpressionView};
use crate::variable::{Variable, VariableView};
use vstd::prelude::*;

verus! {

/// A term that loads, stores or assigns a value.
#[allow(inconsistent_fields)]
#[derive(Debug, PartialEq, Eq, Hash)]
pub enum Def {
    /// Load the value at `address` in memory into `var`.
    Load { var: Variable, address: Expression },
    /// Store `value` at `address` in memory.
    Store { address: Expression, value: Expression },
    /// Assign `value` to `var`.
    Assign { var: Variable, value: Expression },
}

/// What a [`Def`] stands for in specifications.
#[allow(inconsistent_fields)]
pub enum DefView {
    Load { var: VariableView, address: ExpressionView },
    Store { address: ExpressionView, value: ExpressionView },
    Assign { var: VariableView, value: ExpressionView },
}

impl View for Def {
    type V = DefView;

    open spec fn view(&self) -> DefView {
        match self {
            Def::Load { var, address } => DefView::Load { var: var@, address: address@ },
            Def::Store { address, value } => DefView::Store { address: address@, value: value@ },
            Def::Assign { var, value } => DefView::Assign { var: var@, value: value@ },
        }
    }
}

impl Clone for Def {
    fn clone(&self) -> (copy: Self)
        ensures
            copy@ == self@,
    {
        match self {
            Def::Load { var, address } => Def::Load { var: var.clone(), address: address.clone() },
            Def::Store { address, value } => Def::Store {
                address: address.clone(),
                value: value.clone(),
            },
            Def::Assign { var, value } => Def::Assign { var: var.clone(), value: value.clone() },
        }
    }
}

} // verus!
