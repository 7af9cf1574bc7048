use cwe_checker_lib::{
    BinOpType, Bitvector, ByteSize, CastOpType, Expression, UnOpType, Variable,
};

fn var(name: &str, size: u64) -> Expression {
    Expression::Var(Variable { name: name.to_string(), size: ByteSize::new(size), is_temp: false })
}

fn binop(op: BinOpType, lhs: Expression, rhs: Expression) -> Expression {
    Expression::BinOp { op, lhs: Box::new(lhs), rhs: Box::new(rhs) }
}

fn unop(op: UnOpType, arg: Expression) -> Expression {
    Expression::UnOp { op, arg: Box::new(arg) }
}

fn cast(op: CastOpType, size: u64, arg: Expression) -> Expression {
    Expression::Cast { op, size: ByteSize::new(size), arg: Box::new(arg) }
}

fn subpiece(low_byte: u64, size: u64, arg: Expression) -> Expression {
    Expression::Subpiece {
        low_byte: ByteSize::new(low_byte),
        size: ByteSize::new(size),
        arg: Box::new(arg),
    }
}

fn simplified(mut expression: Expression) -> Expression {
    expression.substitute_trivial_operations();
    expression
}

const FLAG_OPERATIONS: [BinOpType; 16] = [
    BinOpType::IntEqual,
    BinOpType::IntNotEqual,
    BinOpType::IntLess,
    BinOpType::IntSLess,
    BinOpType::IntLessEqual,
    BinOpType::IntSLessEqual,
    BinOpType::IntCarry,
    BinOpType::IntSCarry,
    BinOpType::IntSBorrow,
    BinOpType::BoolXOr,
    BinOpType::BoolOr,
    BinOpType::BoolAnd,
    BinOpType::FloatEqual,
    BinOpType::FloatNotEqual,
    BinOpType::FloatLess,
    BinOpType::FloatLessEqual,
];

const VALUE_OPERATIONS: [BinOpType; 17] = [
    BinOpType::IntAdd,
    BinOpType::IntSub,
    BinOpType::IntAnd,
    BinOpType::IntOr,
    BinOpType::IntXOr,
    BinOpType::IntLeft,
    BinOpType::IntRight,
    BinOpType::IntSRight,
    BinOpType::IntMult,
    BinOpType::IntDiv,
    BinOpType::IntRem,
    BinOpType::IntSDiv,
    BinOpType::IntSRem,
    BinOpType::FloatAdd,
    BinOpType::FloatSub,
    BinOpType::FloatMult,
    BinOpType::FloatDiv,
];

#[test]
fn bytesize_of_leaves() {
    assert_eq!(var("RAX", 8).bytesize(), ByteSize::new(8));
    assert_eq!(Expression::Const(Bitvector::from_u8(3)).bytesize(), ByteSize::new(1));
    assert_eq!(Expression::Const(Bitvector::zero(ByteSize::new(16))).bytesize(), ByteSize::new(16));
    let unknown = Expression::Unknown { description: "cpuid".to_string(), size: ByteSize::new(4) };
    assert_eq!(unknown.bytesize(), ByteSize::new(4));
}

#[test]
fn bytesize_of_concatenation_is_the_sum() {
    let expression = binop(BinOpType::Piece, var("EDX", 4), var("AX", 2));
    assert_eq!(expression.bytesize(), ByteSize::new(6));
}

#[test]
fn bytesize_of_flag_operations_is_one() {
    for op in FLAG_OPERATIONS {
        assert_eq!(binop(op, var("RAX", 8), var("RBX", 8)).bytesize(), ByteSize::new(1));
    }
    assert_eq!(unop(UnOpType::FloatNaN, var("XMM0", 8)).bytesize(), ByteSize::new(1));
}

#[test]
fn bytesize_of_value_operations_is_that_of_the_left_operand() {
    for op in VALUE_OPERATIONS {
        assert_eq!(binop(op, var("RAX", 8), var("CL", 1)).bytesize(), ByteSize::new(8));
    }
}

#[test]
fn bytesize_of_unary_operations_is_that_of_the_argument() {
    for op in [
        UnOpType::IntNegate,
        UnOpType::Int2Comp,
        UnOpType::BoolNegate,
        UnOpType::FloatNegate,
        UnOpType::FloatAbs,
        UnOpType::FloatSqrt,
        UnOpType::FloatCeil,
        UnOpType::FloatFloor,
        UnOpType::FloatRound,
    ] {
        assert_eq!(unop(op, var("EAX", 4)).bytesize(), ByteSize::new(4));
    }
}

#[test]
fn bytesize_of_casts_and_extractions_is_stated() {
    assert_eq!(cast(CastOpType::IntSExt, 8, var("EAX", 4)).bytesize(), ByteSize::new(8));
    assert_eq!(cast(CastOpType::Trunc, 2, var("EAX", 4)).bytesize(), ByteSize::new(2));
    assert_eq!(subpiece(1, 2, var("EAX", 4)).bytesize(), ByteSize::new(2));
}

#[test]
fn xor_of_identical_operands_is_zero() {
    let expression = binop(BinOpType::IntXOr, var("x", 4), var("x", 4));
    assert_eq!(simplified(expression), Expression::Const(Bitvector::zero(ByteSize::new(4))));
    let flags = binop(BinOpType::BoolXOr, var("ZF", 1), var("ZF", 1));
    assert_eq!(simplified(flags), Expression::Const(Bitvector::zero(ByteSize::new(1))));
}

#[test]
fn full_extraction_is_its_argument() {
    let arg = binop(BinOpType::IntAdd, var("EAX", 4), var("EBX", 4));
    assert_eq!(arg.bytesize(), ByteSize::new(4));
    assert_eq!(simplified(subpiece(0, 4, arg.clone())), arg);
}

#[test]
fn partial_or_shifted_extraction_stays() {
    let low_half = subpiece(0, 2, var("EAX", 4));
    assert_eq!(simplified(low_half.clone()), low_half);
    let shifted = subpiece(1, 4, var("EAX", 4));
    assert_eq!(simplified(shifted.clone()), shifted);
}

#[test]
fn extension_to_the_same_size_is_its_argument() {
    assert_eq!(simplified(cast(CastOpType::IntZExt, 4, var("EAX", 4))), var("EAX", 4));
    assert_eq!(simplified(cast(CastOpType::IntSExt, 4, var("EAX", 4))), var("EAX", 4));
}

#[test]
fn other_casts_stay() {
    let wider = cast(CastOpType::IntZExt, 8, var("EAX", 4));
    assert_eq!(simplified(wider.clone()), wider);
    for op in [CastOpType::Int2Float, CastOpType::Float2Float, CastOpType::Trunc] {
        let same_size = cast(op, 4, var("EAX", 4));
        assert_eq!(simplified(same_size.clone()), same_size);
    }
}

#[test]
fn and_or_of_identical_operands_is_the_operand() {
    for op in [BinOpType::IntAnd, BinOpType::IntOr] {
        assert_eq!(simplified(binop(op, var("EAX", 4), var("EAX", 4))), var("EAX", 4));
    }
    for op in [BinOpType::BoolAnd, BinOpType::BoolOr] {
        assert_eq!(simplified(binop(op, var("CF", 1), var("CF", 1))), var("CF", 1));
    }
}

#[test]
fn reflexive_comparisons_are_true() {
    let one = Expression::Const(Bitvector::one(ByteSize::new(1)));
    assert_eq!(one, Expression::Const(Bitvector::from_u8(1)));
    for op in [BinOpType::IntEqual, BinOpType::IntLessEqual, BinOpType::IntSLessEqual] {
        assert_eq!(simplified(binop(op, var("EAX", 4), var("EAX", 4))), one);
    }
}

#[test]
fn irreflexive_comparisons_are_false() {
    let zero = Expression::Const(Bitvector::zero(ByteSize::new(1)));
    assert_eq!(zero, Expression::Const(Bitvector::from_u8(0)));
    for op in [BinOpType::IntNotEqual, BinOpType::IntLess, BinOpType::IntSLess] {
        assert_eq!(simplified(binop(op, var("EAX", 4), var("EAX", 4))), zero);
    }
}

#[test]
fn other_operations_on_identical_operands_stay() {
    for op in [
        BinOpType::Piece,
        BinOpType::IntAdd,
        BinOpType::IntSub,
        BinOpType::IntMult,
        BinOpType::IntCarry,
        BinOpType::FloatEqual,
        BinOpType::FloatSub,
    ] {
        let expression = binop(op, var("EAX", 4), var("EAX", 4));
        assert_eq!(simplified(expression.clone()), expression);
    }
}

#[test]
fn different_operands_stay() {
    for (lhs, rhs) in [
        (var("EAX", 4), var("EBX", 4)),
        (var("EAX", 4), Expression::Var(Variable {
            name: "EAX".to_string(),
            size: ByteSize::new(4),
            is_temp: true,
        })),
        (
            Expression::Const(Bitvector::from_le_bytes(vec![1, 0, 0, 0])),
            Expression::Const(Bitvector::from_le_bytes(vec![1, 0, 0, 1])),
        ),
    ] {
        let expression = binop(BinOpType::IntXOr, lhs, rhs);
        assert_eq!(simplified(expression.clone()), expression);
    }
}

#[test]
fn operands_are_compared_as_they_are_given() {
    let expression = binop(
        BinOpType::IntXOr,
        binop(BinOpType::IntAnd, var("EAX", 4), var("EAX", 4)),
        subpiece(0, 4, var("EAX", 4)),
    );
    let once = simplified(expression);
    assert_eq!(once, binop(BinOpType::IntXOr, var("EAX", 4), var("EAX", 4)));
    assert_eq!(simplified(once), Expression::Const(Bitvector::zero(ByteSize::new(4))));
}

#[test]
fn operands_of_unary_operations_are_simplified() {
    let expression = unop(UnOpType::IntNegate, cast(CastOpType::IntZExt, 4, var("EAX", 4)));
    assert_eq!(simplified(expression), unop(UnOpType::IntNegate, var("EAX", 4)));
}

#[test]
fn nested_xors_take_a_second_pass() {
    let zero = Expression::Const(Bitvector::zero(ByteSize::new(4)));
    let expression = binop(
        BinOpType::IntXOr,
        binop(BinOpType::IntXOr, var("a", 4), var("a", 4)),
        binop(BinOpType::IntXOr, var("b", 4), var("b", 4)),
    );
    let once = simplified(expression);
    assert_eq!(once, binop(BinOpType::IntXOr, zero.clone(), zero.clone()));
    assert_eq!(simplified(once), zero);
}

#[test]
fn identical_operands_are_replaced_by_the_simplified_operand() {
    let operand = subpiece(0, 4, binop(BinOpType::IntOr, var("EAX", 4), var("EAX", 4)));
    let expression = binop(BinOpType::IntAnd, operand.clone(), operand);
    assert_eq!(simplified(expression), var("EAX", 4));
}

#[test]
fn a_rewrite_below_does_not_reach_the_parent_in_the_same_pass() {
    let expression = binop(
        BinOpType::IntAdd,
        subpiece(0, 4, binop(BinOpType::IntOr, var("EAX", 4), var("EAX", 4))),
        binop(
            BinOpType::IntEqual,
            cast(CastOpType::IntZExt, 4, var("EBX", 4)),
            var("EBX", 4),
        ),
    );
    let once = simplified(expression);
    assert_eq!(
        once,
        binop(
            BinOpType::IntAdd,
            var("EAX", 4),
            binop(BinOpType::IntEqual, var("EBX", 4), var("EBX", 4)),
        )
    );
    assert_eq!(
        simplified(once),
        binop(
            BinOpType::IntAdd,
            var("EAX", 4),
            Expression::Const(Bitvector::one(ByteSize::new(1)))
        )
    );
}

#[test]
fn simplification_keeps_the_size() {
    for expression in [
        binop(BinOpType::IntXOr, var("RAX", 8), var("RAX", 8)),
        binop(BinOpType::BoolAnd, var("CF", 1), var("CF", 1)),
        binop(BinOpType::IntEqual, var("RAX", 8), var("RAX", 8)),
        subpiece(0, 8, var("RAX", 8)),
        cast(CastOpType::IntSExt, 8, var("RAX", 8)),
        binop(BinOpType::Piece, var("EAX", 4), subpiece(0, 4, var("EBX", 4))),
    ] {
        let size = expression.bytesize();
        assert_eq!(simplified(expression).bytesize(), size);
    }
}

#[test]
fn bitvector_constructors() {
    assert_eq!(Bitvector::zero(ByteSize::new(3)).to_le_bytes(), vec![0, 0, 0]);
    assert_eq!(Bitvector::one(ByteSize::new(3)).to_le_bytes(), vec![1, 0, 0]);
    assert_eq!(Bitvector::zero(ByteSize::new(0)).to_le_bytes(), Vec::<u8>::new());
    assert_eq!(Bitvector::one(ByteSize::new(0)).to_le_bytes(), Vec::<u8>::new());
    assert_eq!(Bitvector::from_u8(0xab).to_le_bytes(), vec![0xab]);
    assert_eq!(Bitvector::from_le_bytes(vec![1, 2]).width(), ByteSize::new(2));
    assert_eq!(Bitvector::one(ByteSize::new(4)).width(), ByteSize::new(4));
    assert!(Bitvector::from_u8(7).same_bits(&Bitvector::from_le_bytes(vec![7])));
    assert!(!Bitvector::from_u8(7).same_bits(&Bitvector::from_le_bytes(vec![7, 0])));
}

#[test]
fn bytesize_arithmetic() {
    assert_eq!(ByteSize::new(3).checked_add(ByteSize::new(4)), Some(ByteSize::new(7)));
    assert_eq!(ByteSize::new(u64::MAX).checked_add(ByteSize::new(1)), None);
    assert_eq!(ByteSize::new(4).checked_sub(ByteSize::new(3)), Some(ByteSize::new(1)));
    assert_eq!(ByteSize::new(3).checked_sub(ByteSize::new(4)), None);
    assert_eq!(ByteSize::new(9).as_u64(), 9);
}

#[test]
fn same_expression_agrees_with_equality() {
    let a = binop(BinOpType::IntAdd, var("EAX", 4), subpiece(0, 2, var("EBX", 4)));
    let b = binop(BinOpType::IntAdd, var("EAX", 4), subpiece(0, 2, var("EBX", 4)));
    let c = binop(BinOpType::IntAdd, var("EAX", 4), subpiece(1, 2, var("EBX", 4)));
    assert!(a.same_expression(&b));
    assert!(!a.same_expression(&c));
    assert!(!a.same_expression(&var("EAX", 4)));
}

#[test]
fn typed_bytesize_of_well_typed_expressions() {
    assert_eq!(var("EAX", 4).typed_bytesize(), Some(ByteSize::new(4)));
    assert_eq!(
        binop(BinOpType::IntAdd, var("EAX", 4), var("EBX", 4)).typed_bytesize(),
        Some(ByteSize::new(4))
    );
    assert_eq!(
        binop(BinOpType::IntLess, var("EAX", 4), var("EBX", 4)).typed_bytesize(),
        Some(ByteSize::new(1))
    );
    assert_eq!(
        binop(BinOpType::IntLeft, var("RAX", 8), var("CL", 1)).typed_bytesize(),
        Some(ByteSize::new(8))
    );
    assert_eq!(
        binop(BinOpType::Piece, var("EDX", 4), var("AX", 2)).typed_bytesize(),
        Some(ByteSize::new(6))
    );
    assert_eq!(
        binop(BinOpType::BoolOr, var("CF", 1), var("ZF", 1)).typed_bytesize(),
        Some(ByteSize::new(1))
    );
    assert_eq!(unop(UnOpType::FloatNaN, var("XMM0", 8)).typed_bytesize(), Some(ByteSize::new(1)));
    assert_eq!(
        subpiece(0, 2, cast(CastOpType::IntZExt, 8, var("EAX", 4))).typed_bytesize(),
        Some(ByteSize::new(2))
    );
}

#[test]
fn typed_bytesize_refuses_operands_of_wrong_sizes() {
    assert_eq!(binop(BinOpType::IntAdd, var("EAX", 4), var("AX", 2)).typed_bytesize(), None);
    assert_eq!(binop(BinOpType::IntEqual, var("EAX", 4), var("AX", 2)).typed_bytesize(), None);
    assert_eq!(binop(BinOpType::FloatLess, var("EAX", 4), var("AX", 2)).typed_bytesize(), None);
    assert_eq!(binop(BinOpType::BoolAnd, var("EAX", 4), var("EBX", 4)).typed_bytesize(), None);
    assert_eq!(binop(BinOpType::BoolXOr, var("CF", 1), var("AX", 2)).typed_bytesize(), None);
    let inside = unop(
        UnOpType::IntNegate,
        cast(CastOpType::Trunc, 2, binop(BinOpType::IntSub, var("EAX", 4), var("AL", 1))),
    );
    assert_eq!(inside.typed_bytesize(), None);
}

#[test]
fn typed_bytesize_refuses_sizes_beyond_the_machine() {
    let huge = Expression::Unknown { description: String::new(), size: ByteSize::new(u64::MAX) };
    assert_eq!(binop(BinOpType::Piece, huge.clone(), var("AL", 1)).typed_bytesize(), None);
    let largest = Expression::Unknown {
        description: String::new(),
        size: ByteSize::new(u64::MAX - 1),
    };
    assert_eq!(
        binop(BinOpType::Piece, largest, var("AL", 1)).typed_bytesize(),
        Some(ByteSize::new(u64::MAX))
    );
}

#[test]
fn ill_typed_expressions_are_left_alone_on_request() {
    let mut ill_typed = binop(
        BinOpType::IntAdd,
        binop(BinOpType::IntXOr, var("EAX", 4), var("EAX", 4)),
        var("AX", 2),
    );
    let before = ill_typed.clone();
    assert!(!ill_typed.try_substitute_trivial_operations());
    assert_eq!(ill_typed, before);

    let mut well_typed = binop(
        BinOpType::IntAdd,
        binop(BinOpType::IntXOr, var("EAX", 4), var("EAX", 4)),
        var("EBX", 4),
    );
    assert!(well_typed.try_substitute_trivial_operations());
    assert_eq!(
        well_typed,
        binop(
            BinOpType::IntAdd,
            Expression::Const(Bitvector::zero(ByteSize::new(4))),
            var("EBX", 4)
        )
    );
}

#[test]
fn checked_bytesize_only_fails_beyond_the_machine() {
    let huge = Expression::Unknown { description: String::new(), size: ByteSize::new(u64::MAX) };
    assert_eq!(huge.checked_bytesize(), Some(ByteSize::new(u64::MAX)));
    let too_large = binop(BinOpType::Piece, huge.clone(), var("AL", 1));
    assert_eq!(too_large.checked_bytesize(), None);
    assert_eq!(binop(BinOpType::IntAdd, too_large.clone(), var("AL", 1)).checked_bytesize(), None);
    assert_eq!(unop(UnOpType::IntNegate, too_large.clone()).checked_bytesize(), None);
    assert_eq!(
        binop(BinOpType::IntEqual, too_large.clone(), var("AL", 1)).checked_bytesize(),
        Some(ByteSize::new(1))
    );
    assert_eq!(subpiece(0, 4, too_large).checked_bytesize(), Some(ByteSize::new(4)));
    assert_eq!(
        binop(BinOpType::IntAdd, var("EAX", 4), var("AX", 2)).checked_bytesize(),
        Some(ByteSize::new(4))
    );
    assert_eq!(
        binop(BinOpType::BoolAnd, var("EAX", 4), var("EBX", 4)).checked_bytesize(),
        Some(ByteSize::new(1))
    );
}
