//! Substitution of trivial operations by their results.

use crate::bitvector::{
    lemma_one_pattern_value, lemma_zero_pattern_value, one_pattern, unsigned_value, zero_pattern,
    Bitvector,
};
use crate::bytesize::ByteSize;
use crate::expression::{BinOpType, CastOpType, Expression, ExpressionView, UnOpType};
use crate::semantics::{lemma_simplified_keeps_value, Interpretation};
use vstd::prelude::*;

verus! {

/// What a binary operation on two copies of `operand` is replaced by, if it
/// is replaced at all.
///
/// - `a and a` and `a or a` are `a`.
/// - `a xor a` is the zero of the size of `a`.
/// - `a == a`, `a <= a` are the truth value one.
/// - `a != a`, `a < a` are the truth value zero.
pub open spec fn on_identical_operands(op: BinOpType, operand: ExpressionView) -> Option<
    ExpressionView,
> {
    match op {
        BinOpType::BoolAnd | BinOpType::BoolOr | BinOpType::IntAnd | BinOpType::IntOr => Some(
            operand,
        ),
        BinOpType::BoolXOr | BinOpType::IntXOr => Some(
            ExpressionView::Const(zero_pattern(operand.bytesize())),
        ),
        BinOpType::IntEqual | BinOpType::IntLessEqual | BinOpType::IntSLessEqual => Some(
            ExpressionView::Const(one_pattern(1)),
        ),
        BinOpType::IntNotEqual | BinOpType::IntLess | BinOpType::IntSLess => Some(
            ExpressionView::Const(zero_pattern(1)),
        ),
        _ => None,
    }
}

impl CastOpType {
    /// Whether the cast extends an integer, by zeros or by its sign.
    pub open spec fn is_extension(self) -> bool {
        self == CastOpType::IntZExt || self == CastOpType::IntSExt
    }
}

impl ExpressionView {
    /// The expression after one pass that substitutes trivial operations.
    ///
    /// The pass treats the operands of each node and looks at the node
    /// once:
    /// - an extraction of all bytes of its argument is the argument;
    /// - an extension of an integer to the size it already has is the
    ///   argument;
    /// - a binary operation on two identical operands is replaced as
    ///   [`on_identical_operands`] says.
    ///
    /// The operands of a binary operation are compared as they are given.
    /// Two operands that differ stay two operands, also where the pass
    /// turns them into the same expression: it takes another pass to
    /// replace such an operation.
    pub open spec fn simplified(self) -> ExpressionView
        decreases self,
    {
        match self {
            ExpressionView::Var(_) => self,
            ExpressionView::Const(_) => self,
            ExpressionView::Unknown { .. } => self,
            ExpressionView::Subpiece { low_byte, size, arg } => {
                let inner = arg.simplified();
                if low_byte == 0 && size == inner.bytesize() {
                    inner
                } else {
                    ExpressionView::subpiece(low_byte, size, inner)
                }
            },
            ExpressionView::Cast { op, size, arg } => {
                let inner = arg.simplified();
                if op.is_extension() && size == inner.bytesize() {
                    inner
                } else {
                    ExpressionView::cast(op, size, inner)
                }
            },
            ExpressionView::UnOp { op, arg } => ExpressionView::unary(op, arg.simplified()),
            ExpressionView::BinOp { op, lhs, rhs } => {
                let left = lhs.simplified();
                let right = rhs.simplified();
                if *lhs == *rhs && on_identical_operands(op, left) is Some {
                    on_identical_operands(op, left)->Some_0
                } else {
                    ExpressionView::binary(op, left, right)
                }
            },
        }
    }
}

/// Substituting trivial operations does not change the size of a well-typed
/// expression.
pub proof fn lemma_simplified_keeps_bytesize(expression: ExpressionView)
    requires
        expression.well_typed(),
    ensures
        expression.simplified().bytesize() == expression.bytesize(),
    decreases expression,
{
    match expression {
        ExpressionView::Var(_) => {},
        ExpressionView::Const(_) => {},
        ExpressionView::Unknown { .. } => {},
        ExpressionView::Subpiece { arg, .. } => {
            lemma_simplified_keeps_bytesize(*arg);
        },
        ExpressionView::Cast { arg, .. } => {
            lemma_simplified_keeps_bytesize(*arg);
        },
        ExpressionView::UnOp { arg, .. } => {
            lemma_simplified_keeps_bytesize(*arg);
        },
        ExpressionView::BinOp { lhs, rhs, .. } => {
            lemma_simplified_keeps_bytesize(*lhs);
            lemma_simplified_keeps_bytesize(*rhs);
        },
    }
}

/// Substituting trivial operations keeps a well-typed expression
/// well-typed.
pub proof fn lemma_simplified_keeps_well_typed(expression: ExpressionView)
    requires
        expression.well_typed(),
    ensures
        expression.simplified().well_typed(),
    decreases expression,
{
    match expression {
        ExpressionView::Var(_) => {},
        ExpressionView::Const(_) => {},
        ExpressionView::Unknown { .. } => {},
        ExpressionView::Subpiece { arg, .. } => {
            lemma_simplified_keeps_well_typed(*arg);
        },
        ExpressionView::Cast { arg, .. } => {
            lemma_simplified_keeps_well_typed(*arg);
        },
        ExpressionView::UnOp { arg, .. } => {
            lemma_simplified_keeps_well_typed(*arg);
        },
        ExpressionView::BinOp { lhs, rhs, .. } => {
            lemma_simplified_keeps_well_typed(*lhs);
            lemma_simplified_keeps_well_typed(*rhs);
            lemma_simplified_keeps_bytesize(*lhs);
            lemma_simplified_keeps_bytesize(*rhs);
        },
    }
}

/// Substituting trivial operations in a well-typed expression whose sizes
/// fit machine integers gives an expression whose sizes fit them too.
pub proof fn lemma_simplified_keeps_representable(expression: ExpressionView)
    requires
        expression.well_typed(),
        expression.representable(),
    ensures
        expression.simplified().representable(),
    decreases expression,
{
    lemma_simplified_keeps_bytesize(expression);
    match expression {
        ExpressionView::Var(_) => {},
        ExpressionView::Const(_) => {},
        ExpressionView::Unknown { .. } => {},
        ExpressionView::Subpiece { arg, .. } => {
            lemma_simplified_keeps_representable(*arg);
        },
        ExpressionView::Cast { arg, .. } => {
            lemma_simplified_keeps_representable(*arg);
        },
        ExpressionView::UnOp { arg, .. } => {
            lemma_simplified_keeps_representable(*arg);
        },
        ExpressionView::BinOp { lhs, rhs, .. } => {
            lemma_simplified_keeps_representable(*lhs);
            lemma_simplified_keeps_representable(*rhs);
            lemma_simplified_keeps_bytesize(*lhs);
        },
    }
}

/// Variables, constants and unknown values are left as they are.
pub proof fn lemma_leaf_stays(expression: ExpressionView)
    requires
        (expression is Var || expression is Const || expression is Unknown),
    ensures
        expression.simplified() == expression,
{
}

/// The extraction of all bytes of an argument is replaced by the argument.
pub proof fn lemma_full_subpiece_rule(size: nat, arg: ExpressionView)
    requires
        size == arg.simplified().bytesize(),
    ensures
        ExpressionView::subpiece(0, size, arg).simplified() == arg.simplified(),
{
}

/// An extraction of a part of its argument stays, around the argument after
/// the pass.
pub proof fn lemma_subpiece_stays(low_byte: nat, size: nat, arg: ExpressionView)
    requires
        low_byte != 0 || size != arg.simplified().bytesize(),
    ensures
        ExpressionView::subpiece(low_byte, size, arg).simplified() == ExpressionView::subpiece(
            low_byte,
            size,
            arg.simplified(),
        ),
{
}

/// The extension of an integer to the size that it already has is replaced
/// by the integer.
pub proof fn lemma_extension_rule(op: CastOpType, size: nat, arg: ExpressionView)
    requires
        op.is_extension(),
        size == arg.simplified().bytesize(),
    ensures
        ExpressionView::cast(op, size, arg).simplified() == arg.simplified(),
{
}

/// Every other cast stays, around its argument after the pass.
pub proof fn lemma_cast_stays(op: CastOpType, size: nat, arg: ExpressionView)
    requires
        !op.is_extension() || size != arg.simplified().bytesize(),
    ensures
        ExpressionView::cast(op, size, arg).simplified() == ExpressionView::cast(
            op,
            size,
            arg.simplified(),
        ),
{
}

/// A unary operation stays, around its argument after the pass.
pub proof fn lemma_unary_operation_stays(op: UnOpType, arg: ExpressionView)
    ensures
        ExpressionView::unary(op, arg).simplified() == ExpressionView::unary(op, arg.simplified()),
{
}

/// `a and a` and `a or a` are replaced by `a`, on integers and on truth
/// values.
pub proof fn lemma_idempotent_operation_rule(
    op: BinOpType,
    lhs: ExpressionView,
    rhs: ExpressionView,
)
    requires
        lhs == rhs,
        op == BinOpType::BoolAnd || op == BinOpType::BoolOr || op == BinOpType::IntAnd || op
            == BinOpType::IntOr,
    ensures
        ExpressionView::binary(op, lhs, rhs).simplified() == lhs.simplified(),
{
}

/// `a xor a` is replaced by the constant zero of the size of `a`, on
/// integers and on truth values.
pub proof fn lemma_xor_rule(op: BinOpType, lhs: ExpressionView, rhs: ExpressionView)
    requires
        lhs == rhs,
        op == BinOpType::BoolXOr || op == BinOpType::IntXOr,
    ensures
        ExpressionView::binary(op, lhs, rhs).simplified() == ExpressionView::Const(
            zero_pattern(lhs.simplified().bytesize()),
        ),
        unsigned_value(zero_pattern(lhs.simplified().bytesize())) == 0,
{
    lemma_zero_pattern_value(lhs.simplified().bytesize());
}

/// `a == a` and `a <= a` are replaced by the constant one of size 1.
pub proof fn lemma_reflexive_comparison_rule(
    op: BinOpType,
    lhs: ExpressionView,
    rhs: ExpressionView,
)
    requires
        lhs == rhs,
        op == BinOpType::IntEqual || op == BinOpType::IntLessEqual || op
            == BinOpType::IntSLessEqual,
    ensures
        ExpressionView::binary(op, lhs, rhs).simplified() == ExpressionView::Const(one_pattern(1)),
        unsigned_value(one_pattern(1)) == 1,
{
    lemma_one_pattern_value(1);
}

/// `a != a` and `a < a` are replaced by the constant zero of size 1.
pub proof fn lemma_irreflexive_comparison_rule(
    op: BinOpType,
    lhs: ExpressionView,
    rhs: ExpressionView,
)
    requires
        lhs == rhs,
        op == BinOpType::IntNotEqual || op == BinOpType::IntLess || op == BinOpType::IntSLess,
    ensures
        ExpressionView::binary(op, lhs, rhs).simplified() == ExpressionView::Const(
            zero_pattern(1),
        ),
        unsigned_value(zero_pattern(1)) == 0,
{
    lemma_zero_pattern_value(1);
}

/// Every other binary operation stays, around its operands after the pass:
/// one whose operands differ as they are given, whatever the pass makes of
/// them, and one for which [`on_identical_operands`] names no result.
pub proof fn lemma_binary_operation_stays(op: BinOpType, lhs: ExpressionView, rhs: ExpressionView)
    requires
        (lhs != rhs || on_identical_operands(op, lhs.simplified()) is None),
    ensures
        ExpressionView::binary(op, lhs, rhs).simplified() == ExpressionView::binary(
            op,
            lhs.simplified(),
            rhs.simplified(),
        ),
{
}

impl Expression {
    /// The expression after one pass that substitutes trivial operations,
    /// built from the parts of `self`.
    fn into_simplified(self) -> (result: Expression)
        requires
            self@.well_typed(),
            self@.representable(),
        ensures
            result@ == self@.simplified(),
        decreases self,
    {
        match self {
            Expression::Var(variable) => Expression::Var(variable),
            Expression::Const(bitvector) => Expression::Const(bitvector),
            Expression::Unknown { description, size } => Expression::Unknown { description, size },
            Expression::Subpiece { low_byte, size, arg } => {
                proof {
                    reveal_with_fuel(ExpressionView::representable, 2);
                    lemma_simplified_keeps_bytesize(arg@);
                }
                let inner = (*arg).into_simplified();
                if low_byte.0 == 0 && size.0 == inner.bytesize().0 {
                    inner
                } else {
                    Expression::Subpiece { low_byte, size, arg: Box::new(inner) }
                }
            },
            Expression::Cast { op, size, arg } => {
                proof {
                    reveal_with_fuel(ExpressionView::representable, 2);
                    lemma_simplified_keeps_bytesize(arg@);
                }
                let inner = (*arg).into_simplified();
                if (op == CastOpType::IntSExt || op == CastOpType::IntZExt) && size.0
                    == inner.bytesize().0 {
                    inner
                } else {
                    Expression::Cast { op, size, arg: Box::new(inner) }
                }
            },
            Expression::UnOp { op, arg } => Expression::UnOp {
                op,
                arg: Box::new((*arg).into_simplified()),
            },
            Expression::BinOp { op, lhs, rhs } => {
                proof {
                    reveal_with_fuel(ExpressionView::representable, 2);
                    lemma_simplified_keeps_bytesize(lhs@);
                }
                let identical = lhs.same_expression(&rhs);
                let left = (*lhs).into_simplified();
                let right = (*rhs).into_simplified();
                if identical {
                    match op {
                        BinOpType::BoolAnd
                        | BinOpType::BoolOr
                        | BinOpType::IntAnd
                        | BinOpType::IntOr => left,
                        BinOpType::BoolXOr | BinOpType::IntXOr => Expression::Const(
                            Bitvector::zero(left.bytesize()),
                        ),
                        BinOpType::IntEqual
                        | BinOpType::IntLessEqual
                        | BinOpType::IntSLessEqual => Expression::Const(
                            Bitvector::one(ByteSize(1)),
                        ),
                        BinOpType::IntNotEqual
                        | BinOpType::IntLess
                        | BinOpType::IntSLess => Expression::Const(Bitvector::zero(ByteSize(1))),
                        _ => Expression::BinOp { op, lhs: Box::new(left), rhs: Box::new(right) },
                    }
                } else {
                    Expression::BinOp { op, lhs: Box::new(left), rhs: Box::new(right) }
                }
            },
        }
    }

    /// Substitute some trivial expressions with their result.
    /// E.g. substitute `a XOR a` with zero or substitute `a OR a` with `a`.
    ///
    /// This is one pass from the leaves to the root, see
    /// [`ExpressionView::simplified`]. It changes neither the size nor the
    /// value of the expression. The operands of each operation must have
    /// the sizes that the operation asks for, and the sizes must fit the
    /// machine's integers; [`Expression::try_substitute_trivial_operations`]
    /// tests that first.
    pub fn substitute_trivial_operations(&mut self)
        requires
            old(self)@.well_typed(),
            old(self)@.representable(),
        ensures
            final(self)@ == old(self)@.simplified(),
            final(self)@.bytesize() == old(self)@.bytesize(),
            final(self)@.well_typed(),
            final(self)@.representable(),
            forall|interpretation: Interpretation|
                interpretation.respects_sizes() ==> #[trigger] final(self)@.value(interpretation)
                    == old(self)@.value(interpretation),
    {
        proof {
            lemma_simplified_keeps_bytesize(self@);
            lemma_simplified_keeps_well_typed(self@);
            lemma_simplified_keeps_representable(self@);
            assert forall|interpretation: Interpretation|
                interpretation.respects_sizes() implies #[trigger] self@.simplified().value(
                interpretation,
            ) == self@.value(interpretation) by {
                lemma_simplified_keeps_value(self@, interpretation);
            }
        }
        let mut taken = Expression::Unknown { description: String::new(), size: ByteSize(0) };
        core::mem::swap(self, &mut taken);
        *self = taken.into_simplified();
    }

    /// Substitute trivial operations as
    /// [`Expression::substitute_trivial_operations`] does, if the expression
    /// is well typed and its sizes fit the machine's integers. Otherwise
    /// leave the expression as it is. The result tells which of the two
    /// happened.
    pub fn try_substitute_trivial_operations(&mut self) -> (substituted: bool)
        ensures
            substituted == (old(self)@.well_typed() && old(self)@.representable()),
            substituted ==> final(self)@ == old(self)@.simplified(),
            !substituted ==> final(self)@ == old(self)@,
    {
        if self.typed_bytesize().is_some() {
            self.substitute_trivial_operations();
            true
        } else {
            false
        }
    }
}

} // verus!
