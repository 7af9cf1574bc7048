//! Expressions and their sizes.

use crate::bitvector::Bitvector;
use crate::bytesize::ByteSize;
use crate::variable::{Variable, VariableView};
use vstd::prelude::*;

verus! {

/// The operation of a binary expression.
#[derive(Debug, PartialEq, Eq, Hash, Clone, Copy, Structural)]
pub enum BinOpType {
    Piece,
    IntEqual,
    IntNotEqual,
    IntLess,
    IntSLess,
    IntLessEqual,
    IntSLessEqual,
    IntAdd,
    IntSub,
    IntCarry,
    IntSCarry,
    IntSBorrow,
    IntXOr,
    IntAnd,
    IntOr,
    IntLeft,
    IntRight,
    IntSRight,
    IntMult,
    IntDiv,
    IntRem,
    IntSDiv,
    IntSRem,
    BoolXOr,
    BoolAnd,
    BoolOr,
    FloatEqual,
    FloatNotEqual,
    FloatLess,
    FloatLessEqual,
    FloatAdd,
    FloatSub,
    FloatMult,
    FloatDiv,
}

/// The operation of a cast.
#[derive(Debug, PartialEq, Eq, Hash, Clone, Copy, Structural)]
pub enum CastOpType {
    IntZExt,
    IntSExt,
    Int2Float,
    Float2Float,
    Trunc,
}

/// The operation of a unary expression.
#[derive(Debug, PartialEq, Eq, Hash, Clone, Copy, Structural)]
pub enum UnOpType {
    IntNegate,
    Int2Comp,
    BoolNegate,
    FloatNegate,
    FloatAbs,
    FloatSqrt,
    FloatCeil,
    FloatFloor,
    FloatRound,
    FloatNaN,
}

impl BinOpType {
    /// Whether the operation yields a truth value: the comparisons, the
    /// carry and borrow tests and the operations on truth values.
    pub open spec fn yields_flag(self) -> bool {
        match self {
            BinOpType::IntEqual
            | BinOpType::IntNotEqual
            | BinOpType::IntLess
            | BinOpType::IntSLess
            | BinOpType::IntLessEqual
            | BinOpType::IntSLessEqual
            | BinOpType::IntCarry
            | BinOpType::IntSCarry
            | BinOpType::IntSBorrow
            | BinOpType::BoolXOr
            | BinOpType::BoolOr
            | BinOpType::BoolAnd
            | BinOpType::FloatEqual
            | BinOpType::FloatNotEqual
            | BinOpType::FloatLess
            | BinOpType::FloatLessEqual => true,
            _ => false,
        }
    }

    /// Whether the operands of the operation are truth values themselves.
    pub open spec fn takes_flags(self) -> bool {
        self == BinOpType::BoolXOr || self == BinOpType::BoolAnd || self == BinOpType::BoolOr
    }

    /// Whether the operation shifts its left operand by its right operand.
    pub open spec fn is_shift(self) -> bool {
        self == BinOpType::IntLeft || self == BinOpType::IntRight || self == BinOpType::IntSRight
    }
}

/// A rule for computing a value from the values of variables.
///
/// Computing the value has no side effects. The size of the value is known
/// from the structure of the expression alone, see [`Expression::bytesize`].
#[allow(inconsistent_fields)]
#[derive(Debug, PartialEq, Eq, Hash)]
pub enum Expression {
    /// The value of a register or of a temporary value.
    Var(Variable),
    /// A constant.
    Const(Bitvector),
    /// A binary operation. Most operations need operands of equal size.
    BinOp { op: BinOpType, lhs: Box<Expression>, rhs: Box<Expression> },
    /// A unary operation.
    UnOp { op: UnOpType, arg: Box<Expression> },
    /// A conversion of the argument to a value of `size` bytes.
    Cast { op: CastOpType, size: ByteSize, arg: Box<Expression> },
    /// A value of which only the size is known.
    Unknown { description: String, size: ByteSize },
    /// The `size` bytes of the argument that start at byte `low_byte`.
    Subpiece { low_byte: ByteSize, size: ByteSize, arg: Box<Expression> },
}

/// What an [`Expression`] stands for in specifications: the same tree over
/// unbounded sizes, sequences of characters and sequences of bytes.
#[allow(inconsistent_fields)]
pub enum ExpressionView {
    Var(VariableView),
    Const(Seq<u8>),
    BinOp { op: BinOpType, lhs: Box<ExpressionView>, rhs: Box<ExpressionView> },
    UnOp { op: UnOpType, arg: Box<ExpressionView> },
    Cast { op: CastOpType, size: nat, arg: Box<ExpressionView> },
    Unknown { description: Seq<char>, size: nat },
    Subpiece { low_byte: nat, size: nat, arg: Box<ExpressionView> },
}

impl View for Expression {
    type V = ExpressionView;

    open spec fn view(&self) -> ExpressionView
        decreases self,
    {
        match self {
            Expression::Var(variable) => ExpressionView::Var(variable@),
            Expression::Const(bitvector) => ExpressionView::Const(bitvector@),
            Expression::BinOp { op, lhs, rhs } => ExpressionView::BinOp {
                op: *op,
                lhs: Box::new((**lhs).view()),
                rhs: Box::new((**rhs).view()),
            },
            Expression::UnOp { op, arg } => ExpressionView::UnOp {
                op: *op,
                arg: Box::new((**arg).view()),
            },
            Expression::Cast { op, size, arg } => ExpressionView::Cast {
                op: *op,
                size: size@,
                arg: Box::new((**arg).view()),
            },
            Expression::Unknown { description, size } => ExpressionView::Unknown {
                description: description@,
                size: size@,
            },
            Expression::Subpiece { low_byte, size, arg } => ExpressionView::Subpiece {
                low_byte: low_byte@,
                size: size@,
                arg: Box::new((**arg).view()),
            },
        }
    }
}

impl ExpressionView {
    /// The binary operation `op` on `lhs` and `rhs`.
    pub open spec fn binary(op: BinOpType, lhs: ExpressionView, rhs: ExpressionView) -> ExpressionView {
        ExpressionView::BinOp { op, lhs: Box::new(lhs), rhs: Box::new(rhs) }
    }

    /// The unary operation `op` on `arg`.
    pub open spec fn unary(op: UnOpType, arg: ExpressionView) -> ExpressionView {
        ExpressionView::UnOp { op, arg: Box::new(arg) }
    }

    /// The cast `op` of `arg` to `size` bytes.
    pub open spec fn cast(op: CastOpType, size: nat, arg: ExpressionView) -> ExpressionView {
        ExpressionView::Cast { op, size, arg: Box::new(arg) }
    }

    /// The `size` bytes of `arg` that start at byte `low_byte`.
    pub open spec fn subpiece(low_byte: nat, size: nat, arg: ExpressionView) -> ExpressionView {
        ExpressionView::Subpiece { low_byte, size, arg: Box::new(arg) }
    }

    /// The concatenation of `high` and `low`.
    pub open spec fn piece(high: ExpressionView, low: ExpressionView) -> ExpressionView {
        ExpressionView::binary(BinOpType::Piece, high, low)
    }

    /// The size in bytes of the value of the expression.
    ///
    /// A concatenation has the size of both operands together. An operation
    /// that yields a truth value has size 1. Every other binary operation has
    /// the size of its left operand, and every other unary operation the size
    /// of its argument. Casts, unknown values and extractions state their
    /// size.
    pub open spec fn bytesize(self) -> nat
        decreases self,
    {
        match self {
            ExpressionView::Var(variable) => variable.size,
            ExpressionView::Const(bits) => bits.len(),
            ExpressionView::BinOp { op, lhs, rhs } => {
                if op == BinOpType::Piece {
                    lhs.bytesize() + rhs.bytesize()
                } else if op.yields_flag() {
                    1
                } else {
                    lhs.bytesize()
                }
            },
            ExpressionView::UnOp { op, arg } => {
                if op == UnOpType::FloatNaN {
                    1
                } else {
                    arg.bytesize()
                }
            },
            ExpressionView::Cast { size, .. } => size,
            ExpressionView::Unknown { size, .. } => size,
            ExpressionView::Subpiece { size, .. } => size,
        }
    }

    /// Whether the operands of each operation have the sizes that the
    /// operation asks for.
    ///
    /// An operation on truth values takes operands of size 1. A
    /// concatenation and a shift take operands of any two sizes. Every other
    /// binary operation takes two operands of the same size.
    pub open spec fn well_typed(self) -> bool
        decreases self,
    {
        match self {
            ExpressionView::Var(_) => true,
            ExpressionView::Const(_) => true,
            ExpressionView::Unknown { .. } => true,
            ExpressionView::BinOp { op, lhs, rhs } => {
                &&& lhs.well_typed()
                &&& rhs.well_typed()
                &&& if op.takes_flags() {
                    lhs.bytesize() == 1 && rhs.bytesize() == 1
                } else if op == BinOpType::Piece || op.is_shift() {
                    true
                } else {
                    lhs.bytesize() == rhs.bytesize()
                }
            },
            ExpressionView::UnOp { arg, .. } => arg.well_typed(),
            ExpressionView::Cast { arg, .. } => arg.well_typed(),
            ExpressionView::Subpiece { arg, .. } => arg.well_typed(),
        }
    }

    /// Whether the size of the expression and of each expression inside it
    /// fits a machine integer.
    pub open spec fn representable(self) -> bool
        decreases self,
    {
        &&& self.bytesize() <= u64::MAX
        &&& match self {
            ExpressionView::Var(_) => true,
            ExpressionView::Const(_) => true,
            ExpressionView::Unknown { .. } => true,
            ExpressionView::BinOp { lhs, rhs, .. } => lhs.representable() && rhs.representable(),
            ExpressionView::UnOp { arg, .. } => arg.representable(),
            ExpressionView::Cast { arg, .. } => arg.representable(),
            ExpressionView::Subpiece { arg, .. } => arg.representable(),
        }
    }
}

impl Expression {
    /// Return the size (in bytes) of the result value of the expression.
    ///
    /// The size must fit the machine's integers. Every size that an
    /// expression states does, and so does the width of a constant
    /// ([`Bitvector::lemma_width_fits`]); only the size of a concatenation
    /// may not. [`Expression::checked_bytesize`] asks for nothing.
    pub fn bytesize(&self) -> (size: ByteSize)
        requires
            self@.bytesize() <= u64::MAX,
        ensures
            size@ == self@.bytesize(),
        decreases self,
    {
        match self {
            Expression::Var(variable) => variable.size,
            Expression::Const(bitvector) => bitvector.width(),
            Expression::BinOp { op, lhs, rhs } => match op {
                BinOpType::Piece => {
                    let high = lhs.bytesize();
                    let low = rhs.bytesize();
                    ByteSize(high.0 + low.0)
                },
                BinOpType::IntEqual
                | BinOpType::IntNotEqual
                | BinOpType::IntLess
                | BinOpType::IntSLess
                | BinOpType::IntLessEqual
                | BinOpType::IntSLessEqual
                | BinOpType::IntCarry
                | BinOpType::IntSCarry
                | BinOpType::IntSBorrow
                | BinOpType::BoolXOr
                | BinOpType::BoolOr
                | BinOpType::BoolAnd
                | BinOpType::FloatEqual
                | BinOpType::FloatNotEqual
                | BinOpType::FloatLess
                | BinOpType::FloatLessEqual => ByteSize(1),
                BinOpType::IntAdd
                | BinOpType::IntSub
                | BinOpType::IntAnd
                | BinOpType::IntOr
                | BinOpType::IntXOr
                | BinOpType::IntLeft
                | BinOpType::IntRight
                | BinOpType::IntSRight
                | BinOpType::IntMult
                | BinOpType::IntDiv
                | BinOpType::IntRem
                | BinOpType::IntSDiv
                | BinOpType::IntSRem
                | BinOpType::FloatAdd
                | BinOpType::FloatSub
                | BinOpType::FloatMult
                | BinOpType::FloatDiv => lhs.bytesize(),
            },
            Expression::UnOp { op, arg } => match op {
                UnOpType::FloatNaN => ByteSize(1),
                _ => arg.bytesize(),
            },
            Expression::Cast { size, .. } => *size,
            Expression::Unknown { size, .. } => *size,
            Expression::Subpiece { size, .. } => *size,
        }
    }

    /// The size of the expression, or `None` where the size does not fit a
    /// machine integer.
    pub fn checked_bytesize(&self) -> (size: Option<ByteSize>)
        ensures
            self@.bytesize() <= u64::MAX ==> size == Some(ByteSize(self@.bytesize() as u64)),
            self@.bytesize() > u64::MAX ==> size is None,
        decreases self,
    {
        match self {
            Expression::Var(variable) => Some(variable.size),
            Expression::Const(bitvector) => Some(bitvector.width()),
            Expression::BinOp { op, lhs, rhs } => match op {
                BinOpType::Piece => match (lhs.checked_bytesize(), rhs.checked_bytesize()) {
                    (Some(high), Some(low)) => high.checked_add(low),
                    _ => None,
                },
                BinOpType::IntEqual
                | BinOpType::IntNotEqual
                | BinOpType::IntLess
                | BinOpType::IntSLess
                | BinOpType::IntLessEqual
                | BinOpType::IntSLessEqual
                | BinOpType::IntCarry
                | BinOpType::IntSCarry
                | BinOpType::IntSBorrow
                | BinOpType::BoolXOr
                | BinOpType::BoolOr
                | BinOpType::BoolAnd
                | BinOpType::FloatEqual
                | BinOpType::FloatNotEqual
                | BinOpType::FloatLess
                | BinOpType::FloatLessEqual => Some(ByteSize(1)),
                BinOpType::IntAdd
                | BinOpType::IntSub
                | BinOpType::IntAnd
                | BinOpType::IntOr
                | BinOpType::IntXOr
                | BinOpType::IntLeft
                | BinOpType::IntRight
                | BinOpType::IntSRight
                | BinOpType::IntMult
                | BinOpType::IntDiv
                | BinOpType::IntRem
                | BinOpType::IntSDiv
                | BinOpType::IntSRem
                | BinOpType::FloatAdd
                | BinOpType::FloatSub
                | BinOpType::FloatMult
                | BinOpType::FloatDiv => lhs.checked_bytesize(),
            },
            Expression::UnOp { op, arg } => match op {
                UnOpType::FloatNaN => Some(ByteSize(1)),
                _ => arg.checked_bytesize(),
            },
            Expression::Cast { size, .. } => Some(*size),
            Expression::Unknown { size, .. } => Some(*size),
            Expression::Subpiece { size, .. } => Some(*size),
        }
    }

    /// The size of the expression, if the expression is well typed and its
    /// size and the sizes of all expressions inside it fit a machine
    /// integer. `None` otherwise.
    pub fn typed_bytesize(&self) -> (size: Option<ByteSize>)
        ensures
            size is Some <==> self@.well_typed() && self@.representable(),
            size matches Some(bytes) ==> bytes@ == self@.bytesize(),
        decreases self,
    {
        match self {
            Expression::Var(variable) => Some(variable.size),
            Expression::Const(bitvector) => Some(bitvector.width()),
            Expression::Unknown { size, .. } => Some(*size),
            Expression::BinOp { op, lhs, rhs } => {
                let left = match lhs.typed_bytesize() {
                    Some(left) => left,
                    None => {
                        return None;
                    },
                };
                let right = match rhs.typed_bytesize() {
                    Some(right) => right,
                    None => {
                        return None;
                    },
                };
                match op {
                    BinOpType::Piece => left.checked_add(right),
                    BinOpType::BoolXOr | BinOpType::BoolAnd | BinOpType::BoolOr => {
                        if left.0 == 1 && right.0 == 1 {
                            Some(ByteSize(1))
                        } else {
                            None
                        }
                    },
                    BinOpType::IntLeft | BinOpType::IntRight | BinOpType::IntSRight => Some(left),
                    BinOpType::IntEqual
                    | BinOpType::IntNotEqual
                    | BinOpType::IntLess
                    | BinOpType::IntSLess
                    | BinOpType::IntLessEqual
                    | BinOpType::IntSLessEqual
                    | BinOpType::IntCarry
                    | BinOpType::IntSCarry
                    | BinOpType::IntSBorrow
                    | BinOpType::FloatEqual
                    | BinOpType::FloatNotEqual
                    | BinOpType::FloatLess
                    | BinOpType::FloatLessEqual => {
                        if left.0 == right.0 {
                            Some(ByteSize(1))
                        } else {
                            None
                        }
                    },
                    BinOpType::IntAdd
                    | BinOpType::IntSub
                    | BinOpType::IntAnd
                    | BinOpType::IntOr
                    | BinOpType::IntXOr
                    | BinOpType::IntMult
                    | BinOpType::IntDiv
                    | BinOpType::IntRem
                    | BinOpType::IntSDiv
                    | BinOpType::IntSRem
                    | BinOpType::FloatAdd
                    | BinOpType::FloatSub
                    | BinOpType::FloatMult
                    | BinOpType::FloatDiv => {
                        if left.0 == right.0 {
                            Some(left)
                        } else {
                            None
                        }
                    },
                }
            },
            Expression::UnOp { op, arg } => match arg.typed_bytesize() {
                Some(inner) => match op {
                    UnOpType::FloatNaN => Some(ByteSize(1)),
                    _ => Some(inner),
                },
                None => None,
            },
            Expression::Cast { size, arg, .. } => match arg.typed_bytesize() {
                Some(_) => Some(*size),
                None => None,
            },
            Expression::Subpiece { size, arg, .. } => match arg.typed_bytesize() {
                Some(_) => Some(*size),
                None => None,
            },
        }
    }

    /// Whether two expressions are the same tree.
    pub fn same_expression(&self, other: &Expression) -> (same: bool)
        ensures
            same == (self@ == other@),
        decreases self,
    {
        match (self, other) {
            (Expression::Var(a), Expression::Var(b)) => a.same_variable(b),
            (Expression::Const(a), Expression::Const(b)) => a.same_bits(b),
            (
                Expression::BinOp { op, lhs, rhs },
                Expression::BinOp { op: other_op, lhs: other_lhs, rhs: other_rhs },
            ) => *op == *other_op && lhs.same_expression(other_lhs) && rhs.same_expression(
                other_rhs,
            ),
            (Expression::UnOp { op, arg }, Expression::UnOp { op: other_op, arg: other_arg }) => {
                *op == *other_op && arg.same_expression(other_arg)
            },
            (
                Expression::Cast { op, size, arg },
                Expression::Cast { op: other_op, size: other_size, arg: other_arg },
            ) => *op == *other_op && size.0 == other_size.0 && arg.same_expression(other_arg),
            (
                Expression::Unknown { description, size },
                Expression::Unknown { description: other_description, size: other_size },
            ) => *description == *other_description && size.0 == other_size.0,
            (
                Expression::Subpiece { low_byte, size, arg },
                Expression::Subpiece { low_byte: other_low_byte, size: other_size, arg: other_arg },
            ) => low_byte.0 == other_low_byte.0 && size.0 == other_size.0 && arg.same_expression(
                other_arg,
            ),
            _ => false,
        }
    }
}

impl Clone for Expression {
    fn clone(&self) -> (copy: Self)
        ensures
            copy@ == self@,
        decreases self,
    {
        match self {
            Expression::Var(variable) => Expression::Var(variable.clone()),
            Expression::Const(bitvector) => Expression::Const(bitvector.clone()),
            Expression::BinOp { op, lhs, rhs } => Expression::BinOp {
                op: *op,
                lhs: Box::new((**lhs).clone()),
                rhs: Box::new((**rhs).clone()),
            },
            Expression::UnOp { op, arg } => Expression::UnOp {
                op: *op,
                arg: Box::new((**arg).clone()),
            },
            Expression::Cast { op, size, arg } => Expression::Cast {
                op: *op,
                size: *size,
                arg: Box::new((**arg).clone()),
            },
            Expression::Unknown { description, size } => Expression::Unknown {
                description: description.clone(),
                size: *size,
            },
            Expression::Subpiece { low_byte, size, arg } => Expression::Subpiece {
                low_byte: *low_byte,
                size: *size,
                arg: Box::new((**arg).clone()),
            },
        }
    }
}

} // verus!
